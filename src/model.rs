//! The mathematical model of an archive: what each byte range of the stream means.
use vstd::prelude::*;
use crate::bytes::le_u32;

verus! {

/// Size of the fixed archive header.
pub const HEADER_SIZE: usize = 64;

/// Size of one table descriptor, and of one resource dictionary entry.
pub const RECORD_SIZE: usize = 12;

/// Errors of the archive reader.
#[derive(Clone, Copy, Debug, PartialEq, Eq, Structural)]
pub enum Error {
    /// The stream ended before a read was complete.
    IOFault,
    /// No table has the requested type tag, or no resource the requested id.
    NotFound,
}

/// One resource dictionary entry.
pub struct ResourceModel {
    pub id: u32,
    pub offset: u32,
    pub size: u32,
}

/// One table: its descriptor and its resource entries, in stream order.
pub struct TableModel {
    pub resource_type: Seq<u8>,
    pub offset: u32,
    pub num_resources: u32,
    pub resources: Seq<ResourceModel>,
}

/// The archive header.
pub struct HeaderModel {
    pub banner_msg: Seq<u8>,
    pub version: Seq<u8>,
    pub password: Seq<u8>,
    pub num_resource_types: u32,
    pub directory_size: u32,
}

/// A parsed archive index: its header and its tables in stream order.
pub struct ArchiveModel {
    pub header: HeaderModel,
    pub tables: Seq<TableModel>,
}

/// The little-endian `u32` stored at `pos` in `d`.
pub open spec fn u32_at(d: Seq<u8>, pos: int) -> u32 {
    le_u32(d.subrange(pos, pos + 4)) as u32
}

pub open spec fn header_model(d: Seq<u8>) -> HeaderModel {
    HeaderModel {
        banner_msg: d.subrange(0, 40),
        version: d.subrange(40, 44),
        password: d.subrange(44, 56),
        num_resource_types: u32_at(d, 56),
        directory_size: u32_at(d, 60),
    }
}

pub open spec fn num_tables(d: Seq<u8>) -> nat {
    u32_at(d, 56) as nat
}

/// Where the descriptor of table `i` starts.
pub open spec fn descriptor_pos(i: int) -> int {
    HEADER_SIZE + RECORD_SIZE * i
}

/// The resource count declared by the descriptor of table `i`.
pub open spec fn declared_count(d: Seq<u8>, i: int) -> u32 {
    u32_at(d, descriptor_pos(i) + 8)
}

/// Where the resource dictionaries start: right after the table directory.
pub open spec fn dictionary_start(d: Seq<u8>) -> int {
    descriptor_pos(num_tables(d) as int)
}

/// The number of dictionary entries of the tables before table `i`.
pub open spec fn entries_before(d: Seq<u8>, i: int) -> int
    decreases i,
{
    if i <= 0 {
        0
    } else {
        entries_before(d, i - 1) + declared_count(d, i - 1)
    }
}

/// Where entry `j` of table `i` lies: the dictionaries follow one another in table order.
pub open spec fn entry_pos(d: Seq<u8>, i: int, j: int) -> int {
    dictionary_start(d) + RECORD_SIZE * (entries_before(d, i) + j)
}

/// Where the directory (header, descriptors and dictionaries) ends.
pub open spec fn directory_end(d: Seq<u8>) -> int {
    entry_pos(d, num_tables(d) as int, 0)
}

/// The stream holds the whole directory.
pub open spec fn complete_directory(d: Seq<u8>) -> bool {
    d.len() >= HEADER_SIZE && d.len() >= directory_end(d)
}

/// How many bytes from the start of the stream the directory spans, as far as
/// `d`, the bytes read so far, tells: the header alone while it is incomplete,
/// then up to the end of the table directory, then up to the end of the last
/// resource dictionary.
pub open spec fn known_end(d: Seq<u8>) -> int {
    if d.len() < HEADER_SIZE {
        HEADER_SIZE as int
    } else if d.len() < dictionary_start(d) {
        dictionary_start(d)
    } else {
        directory_end(d)
    }
}

pub open spec fn resource_model(d: Seq<u8>, pos: int) -> ResourceModel {
    ResourceModel { id: u32_at(d, pos), offset: u32_at(d, pos + 4), size: u32_at(d, pos + 8) }
}

/// The descriptor of table `i`, with no entries yet.
pub open spec fn descriptor_model(d: Seq<u8>, i: int) -> TableModel {
    let pos = descriptor_pos(i);
    TableModel {
        resource_type: d.subrange(pos, pos + 4),
        offset: u32_at(d, pos + 4),
        num_resources: u32_at(d, pos + 8),
        resources: Seq::empty(),
    }
}

/// Table `i` with the entries of its dictionary.
pub open spec fn table_model(d: Seq<u8>, i: int) -> TableModel {
    TableModel {
        resources: Seq::new(
            declared_count(d, i) as nat,
            |j: int| resource_model(d, entry_pos(d, i, j)),
        ),
        ..descriptor_model(d, i)
    }
}

/// The archive that a stream holding a complete directory parses to.
pub open spec fn archive_model(d: Seq<u8>) -> ArchiveModel {
    ArchiveModel {
        header: header_model(d),
        tables: Seq::new(num_tables(d), |i: int| table_model(d, i)),
    }
}

/// The index of the first element of `s` that satisfies `p`, if any.
pub open spec fn first_index<A>(s: Seq<A>, p: spec_fn(A) -> bool) -> Option<int>
    decreases s.len(),
{
    if s.len() == 0 {
        None
    } else {
        match first_index(s.drop_last(), p) {
            Some(i) => Some(i),
            None => if p(s.last()) {
                Some(s.len() - 1)
            } else {
                None
            },
        }
    }
}

/// The tables whose type tag is `tag`.
pub open spec fn tagged(tag: Seq<u8>) -> spec_fn(TableModel) -> bool {
    |t: TableModel| t.resource_type == tag
}

/// The entries whose id is `id`.
pub open spec fn with_id(id: u32) -> spec_fn(ResourceModel) -> bool {
    |r: ResourceModel| r.id == id
}

/// The tables that hold an entry with id `id`.
pub open spec fn holding(id: u32) -> spec_fn(TableModel) -> bool {
    |t: TableModel| has_resource(t, id)
}

/// The first table whose type tag is `tag`.
pub open spec fn find_table(tables: Seq<TableModel>, tag: Seq<u8>) -> Option<int> {
    first_index(tables, tagged(tag))
}

/// The first entry of `t` whose id is `id`.
pub open spec fn find_resource(t: TableModel, id: u32) -> Option<int> {
    first_index(t.resources, with_id(id))
}

pub open spec fn has_resource(t: TableModel, id: u32) -> bool {
    find_resource(t, id) is Some
}

/// The entry that `(tag, id)` resolves to.
pub open spec fn lookup(tables: Seq<TableModel>, tag: Seq<u8>, id: u32) -> Option<ResourceModel> {
    match find_table(tables, tag) {
        Some(i) => match find_resource(tables[i], id) {
            Some(j) => Some(tables[i].resources[j]),
            None => None,
        },
        None => None,
    }
}

/// The type tag of the first table, in stream order, that has a resource `id`.
pub open spec fn resource_type_of(tables: Seq<TableModel>, id: u32) -> Option<Seq<u8>> {
    match first_index(tables, holding(id)) {
        Some(i) => Some(tables[i].resource_type),
        None => None,
    }
}

/// `first_index` finds `i` exactly when `i` is the smallest index whose element satisfies `p`.
pub proof fn lemma_first_index<A>(s: Seq<A>, p: spec_fn(A) -> bool)
    ensures
        first_index(s, p) is None <==> forall|k: int| 0 <= k < s.len() ==> !p(#[trigger] s[k]),
        first_index(s, p) is Some ==> {
            let i = first_index(s, p)->Some_0;
            &&& 0 <= i < s.len()
            &&& p(s[i])
            &&& forall|k: int| 0 <= k < i ==> !p(#[trigger] s[k])
        },
    decreases s.len(),
{
    if s.len() > 0 {
        lemma_first_index(s.drop_last(), p);
        assert(forall|k: int| 0 <= k < s.len() - 1 ==> s.drop_last()[k] == s[k]);
    }
}

/// Entries before a later table are never fewer.
pub proof fn lemma_entries_before_mono(d: Seq<u8>, i: int, k: int)
    requires
        0 <= i <= k,
    ensures
        0 <= entries_before(d, i) <= entries_before(d, k),
    decreases k,
{
    if i < k {
        lemma_entries_before_mono(d, i, k - 1);
    } else if i > 0 {
        lemma_entries_before_mono(d, i - 1, i - 1);
    }
}

} // verus!
