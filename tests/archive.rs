use genie_drs::{Error, DRS};

/// The content an entry points at, as a reader of the stream would fetch it.
fn content(stream: &[u8], drs: &DRS, tag: [u8; 4], id: u32) -> Result<Vec<u8>, Error> {
    let e = drs.get_resource(tag, id)?;
    let start = e.offset() as usize;
    let end = start + e.size() as usize;
    if end > stream.len() {
        return Err(Error::IOFault);
    }
    Ok(stream[start..end].to_vec())
}

fn put_u32(buf: &mut Vec<u8>, v: u32) {
    buf.extend_from_slice(&v.to_le_bytes());
}

fn header(num_tables: u32, directory_size: u32) -> Vec<u8> {
    let mut b = Vec::new();
    let mut banner = b"Copyright (c) 1997 Ensemble Studios.".to_vec();
    banner.resize(40, 0x1a);
    b.extend_from_slice(&banner);
    b.extend_from_slice(b"1.00");
    b.extend_from_slice(b"tribe\0\0\0\0\0\0\0");
    put_u32(&mut b, num_tables);
    put_u32(&mut b, directory_size);
    b
}

/// One table "BIN\0" with resource 100 ("hello" at 200) and 101 ("hi!" at 205).
fn sample() -> Vec<u8> {
    let mut b = header(1, 100);
    b.extend_from_slice(b"BIN\0");
    put_u32(&mut b, 76);
    put_u32(&mut b, 2);
    for (id, off, size) in [(100u32, 200u32, 5u32), (101, 205, 3)] {
        put_u32(&mut b, id);
        put_u32(&mut b, off);
        put_u32(&mut b, size);
    }
    b.resize(200, 0);
    b.extend_from_slice(b"hello");
    b.extend_from_slice(b"hi!");
    b
}

/// Two tables that both hold id 7; only the second holds id 8.
fn two_tables() -> Vec<u8> {
    let mut b = header(2, 0);
    b.extend_from_slice(b"AAA\0");
    put_u32(&mut b, 88);
    put_u32(&mut b, 1);
    b.extend_from_slice(b"BBB\0");
    put_u32(&mut b, 100);
    put_u32(&mut b, 2);
    for (id, off, size) in [(7u32, 124u32, 1u32), (7, 125, 1), (8, 126, 1)] {
        put_u32(&mut b, id);
        put_u32(&mut b, off);
        put_u32(&mut b, size);
    }
    b.extend_from_slice(b"xyz");
    b
}

#[test]
fn scenario_reads_resources() {
    let stream = sample();
    let drs = DRS::new(&stream).unwrap();
    assert_eq!(content(&stream, &drs, *b"BIN\0", 100).unwrap(), b"hello".to_vec());
    assert_eq!(content(&stream, &drs, *b"BIN\0", 101).unwrap(), b"hi!".to_vec());
    assert_eq!(content(&stream, &drs, *b"BIN\0", 102), Err(Error::NotFound));
    assert!(matches!(drs.get_table(*b"XYZ\0"), Err(Error::NotFound)));
}

#[test]
fn header_fields_are_decoded() {
    let drs = DRS::new(&sample()).unwrap();
    let h = drs.header();
    assert_eq!(&h.version(), b"1.00");
    assert_eq!(&h.password(), b"tribe\0\0\0\0\0\0\0");
    assert_eq!(&h.banner_msg()[..9], b"Copyright");
    assert_eq!(h.num_resource_types(), 1);
    assert_eq!(h.directory_size(), 100);
}

#[test]
fn little_endian_fields() {
    let mut b = header(0, 0x0403_0201);
    b[60..64].copy_from_slice(&[1, 2, 3, 4]);
    let drs = DRS::new(&b).unwrap();
    assert_eq!(drs.header().directory_size(), 0x0403_0201);
}

#[test]
fn table_and_resource_counts() {
    let drs = DRS::new(&two_tables()).unwrap();
    assert_eq!(drs.tables().len(), 2);
    for t in drs.tables() {
        assert_eq!(t.resources().len() as u32, t.num_resources());
    }
    let t = drs.get_table(*b"BBB\0").unwrap();
    assert_eq!(t.resource_type(), *b"BBB\0");
    assert_eq!(t.offset(), 100);
    let ids: Vec<u32> = t.resources().iter().map(|r| r.id()).collect();
    assert_eq!(ids, vec![7, 8]);
}

#[test]
fn resource_metadata_lookup() {
    let drs = DRS::new(&sample()).unwrap();
    let r = drs.get_resource(*b"BIN\0", 101).unwrap();
    assert_eq!((r.id(), r.offset(), r.size()), (101, 205, 3));
    assert!(matches!(drs.get_resource(*b"BIN\0", 5), Err(Error::NotFound)));
    assert!(matches!(drs.get_resource(*b"NIB\0", 100), Err(Error::NotFound)));
    let t = drs.get_table(*b"BIN\0").unwrap();
    assert_eq!(t.get_resource(100).unwrap().size(), 5);
    assert!(matches!(t.get_resource(99), Err(Error::NotFound)));
}

#[test]
fn first_table_wins_for_shared_id() {
    let stream = two_tables();
    let drs = DRS::new(&stream).unwrap();
    assert_eq!(drs.get_resource_type(7), Some(*b"AAA\0"));
    assert_eq!(drs.get_resource_type(8), Some(*b"BBB\0"));
    assert_eq!(drs.get_resource_type(9), None);
    assert_eq!(content(&stream, &drs, *b"AAA\0", 7).unwrap(), b"x".to_vec());
    assert_eq!(content(&stream, &drs, *b"BBB\0", 7).unwrap(), b"y".to_vec());
    assert_eq!(content(&stream, &drs, *b"BBB\0", 8).unwrap(), b"z".to_vec());
}

#[test]
fn empty_archive() {
    let stream = header(0, 64);
    let drs = DRS::new(&stream).unwrap();
    assert_eq!(drs.tables().len(), 0);
    assert!(matches!(drs.get_table(*b"BIN\0"), Err(Error::NotFound)));
    assert!(matches!(drs.get_resource(*b"BIN\0", 1), Err(Error::NotFound)));
    assert_eq!(content(&stream, &drs, *b"BIN\0", 1), Err(Error::NotFound));
    assert_eq!(drs.get_resource_type(1), None);
}

#[test]
fn truncated_header_fails() {
    assert_eq!(DRS::new(&[]).err(), Some(Error::IOFault));
    let mut b = sample();
    b.truncate(63);
    assert_eq!(DRS::new(&b).err(), Some(Error::IOFault));
}

#[test]
fn truncated_directory_fails() {
    let mut b = sample();
    b.truncate(64 + 12 + 11);
    assert_eq!(DRS::new(&b).err(), Some(Error::IOFault));
    let mut b = sample();
    b.truncate(64 + 12 + 24 - 1);
    assert_eq!(DRS::new(&b).err(), Some(Error::IOFault));
    let mut b = sample();
    b.truncate(64 + 12 + 24);
    assert!(DRS::new(&b).is_ok());
}

#[test]
fn content_past_end_is_io_fault() {
    let mut stream = sample();
    stream.truncate(207);
    let drs = DRS::new(&stream).unwrap();
    assert_eq!(content(&stream, &drs, *b"BIN\0", 100).unwrap(), b"hello".to_vec());
    assert_eq!(content(&stream, &drs, *b"BIN\0", 101), Err(Error::IOFault));
}

#[test]
fn repeated_lookups_are_identical() {
    let stream = sample();
    let drs = DRS::new(&stream).unwrap();
    let a = drs.get_resource(*b"BIN\0", 100).unwrap();
    let b = drs.get_resource(*b"BIN\0", 100).unwrap();
    assert_eq!((a.offset(), a.size()), (b.offset(), b.size()));
    let first = content(&stream, &drs, *b"BIN\0", 100).unwrap();
    let second = content(&stream, &drs, *b"BIN\0", 100).unwrap();
    assert_eq!(first, second);
}

#[test]
fn mutable_views_list_the_same_entries() {
    let mut drs = DRS::new(&two_tables()).unwrap();
    let mut seen = Vec::new();
    for t in drs.tables_mut() {
        for r in t.resources_mut() {
            seen.push(r.id());
        }
    }
    assert_eq!(seen, vec![7, 7, 8]);
    let t = drs.get_table_mut(*b"AAA\0").unwrap();
    assert_eq!(t.num_resources(), 1);
    assert!(matches!(drs.get_table_mut(*b"ZZZ\0"), Err(Error::NotFound)));
}

#[test]
fn absent_id_is_not_found_even_when_content_is_short() {
    let mut stream = sample();
    stream.truncate(100);
    let drs = DRS::new(&stream).unwrap();
    assert_eq!(content(&stream, &drs, *b"BIN\0", 100), Err(Error::IOFault));
    assert_eq!(content(&stream, &drs, *b"BIN\0", 102), Err(Error::NotFound));
    assert_eq!(content(&stream, &drs, *b"XYZ\0", 100), Err(Error::NotFound));
}

#[test]
fn directory_len_grows_with_what_is_known() {
    let stream = two_tables();
    assert_eq!(DRS::directory_len(&[]), 64);
    assert_eq!(DRS::directory_len(&stream[..10]), 64);
    assert_eq!(DRS::directory_len(&stream[..64]), 64 + 24);
    assert_eq!(DRS::directory_len(&stream[..70]), 64 + 24);
    assert_eq!(DRS::directory_len(&stream[..88]), 64 + 24 + 36);
    assert_eq!(DRS::directory_len(&stream[..124]), 124);
    assert!(DRS::new(&stream[..124]).is_ok());
    assert_eq!(DRS::new(&stream[..123]).err(), Some(Error::IOFault));
}

#[test]
fn directory_len_of_largest_counts() {
    let b = header(u32::MAX, 0);
    assert_eq!(DRS::directory_len(&b), 64 + 12 * u32::MAX as u128);
    let mut b = header(1, 0);
    b.extend_from_slice(b"BIG\0");
    put_u32(&mut b, 76);
    put_u32(&mut b, u32::MAX);
    assert_eq!(DRS::directory_len(&b), 64 + 12 + 12 * u32::MAX as u128);
    assert_eq!(DRS::new(&b).err(), Some(Error::IOFault));
}
