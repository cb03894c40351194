//! The archive index: parsing the directory of a stream, lookups, and content reads.
use vstd::prelude::*;
use crate::bytes::{read_u32_at, copy_bytes};
use crate::model::{
    Error, ResourceModel, TableModel, HeaderModel, ArchiveModel, HEADER_SIZE, RECORD_SIZE,
    u32_at, header_model, num_tables, descriptor_pos, dictionary_start, entry_pos,
    directory_end, complete_directory, resource_model, descriptor_model, table_model,
    archive_model, first_index, find_table, find_resource, lookup, resource_type_of,
    known_end, entries_before, declared_count, tagged, with_id, holding, lemma_first_index, lemma_entries_before_mono,
};

verus! {

/// The archive header.
#[derive(Debug)]
pub struct DRSHeader {
    /// A copyright message.
    banner_msg: [u8; 40],
    /// File version (expected to be "1.00"; not checked).
    version: [u8; 4],
    /// File password / identifier.
    password: [u8; 12],
    /// The number of resource types (tables).
    num_resource_types: u32,
    /// Size in bytes of the header and the directory.
    directory_size: u32,
}

impl View for DRSHeader {
    type V = HeaderModel;

    closed spec fn view(&self) -> HeaderModel {
        HeaderModel {
            banner_msg: self.banner_msg@,
            version: self.version@,
            password: self.password@,
            num_resource_types: self.num_resource_types,
            directory_size: self.directory_size,
        }
    }
}

impl DRSHeader {
    /// Reads the header from the first 64 bytes of `data`.
    fn from(data: &[u8]) -> (r: Result<DRSHeader, Error>)
        ensures
            r is Ok <==> data@.len() >= HEADER_SIZE,
            r is Ok ==> r->Ok_0@ == header_model(data@),
            r is Err ==> r->Err_0 == Error::IOFault,
    {
        if data.len() < HEADER_SIZE {
            return Err(Error::IOFault);
        }
        let banner_msg: [u8; 40] = copy_bytes(data, 0);
        let version: [u8; 4] = copy_bytes(data, 40);
        let password: [u8; 12] = copy_bytes(data, 44);
        let num_resource_types = read_u32_at(data, 56);
        let directory_size = read_u32_at(data, 60);
        Ok(DRSHeader { banner_msg, version, password, num_resource_types, directory_size })
    }
}

/// A table: a type tag and the resource entries of that type.
#[derive(Debug)]
pub struct DRSTable {
    /// Type of the resources, as stored (a little-endian char array).
    resource_type: [u8; 4],
    /// Declared position of this table's resource entries.
    offset: u32,
    /// Number of resource entries in this table.
    num_resources: u32,
    /// The resource entries, in stream order.
    resources: Vec<DRSResource>,
}

impl View for DRSTable {
    type V = TableModel;

    closed spec fn view(&self) -> TableModel {
        TableModel {
            resource_type: self.resource_type@,
            offset: self.offset,
            num_resources: self.num_resources,
            resources: self.resources@.map_values(|e: DRSResource| e@),
        }
    }
}

/// One resource entry: where a resource's content lies.
#[derive(Clone, Copy, Debug)]
pub struct DRSResource {
    /// The resource id.
    id: u32,
    /// Position of the resource's content in the archive.
    offset: u32,
    /// Size in bytes of the resource's content.
    size: u32,
}

impl View for DRSResource {
    type V = ResourceModel;

    closed spec fn view(&self) -> ResourceModel {
        ResourceModel { id: self.id, offset: self.offset, size: self.size }
    }
}

impl DRSResource {
    /// Reads the 12-byte entry at `pos`.
    fn from(data: &[u8], pos: usize) -> (r: Result<DRSResource, Error>)
        ensures
            r is Ok <==> pos + RECORD_SIZE <= data@.len(),
            r is Ok ==> r->Ok_0@ == resource_model(data@, pos as int),
            r is Err ==> r->Err_0 == Error::IOFault,
    {
        let len = data.len();
        if pos > len || len - pos < RECORD_SIZE {
            return Err(Error::IOFault);
        }
        let id = read_u32_at(data, pos);
        let offset = read_u32_at(data, pos + 4);
        let size = read_u32_at(data, pos + 8);
        Ok(DRSResource { id, offset, size })
    }
}

impl DRSTable {
    /// Reads the 12-byte descriptor at `pos`; the table has no entries yet.
    fn from(data: &[u8], pos: usize) -> (r: Result<DRSTable, Error>)
        ensures
            r is Ok <==> pos + RECORD_SIZE <= data@.len(),
            r is Ok ==> r->Ok_0@ == (TableModel {
                resource_type: data@.subrange(pos as int, pos + 4),
                offset: u32_at(data@, pos + 4),
                num_resources: u32_at(data@, pos + 8),
                resources: Seq::empty(),
            }),
            r is Err ==> r->Err_0 == Error::IOFault,
    {
        let len = data.len();
        if pos > len || len - pos < RECORD_SIZE {
            return Err(Error::IOFault);
        }
        let resource_type: [u8; 4] = copy_bytes(data, pos);
        let offset = read_u32_at(data, pos + 4);
        let num_resources = read_u32_at(data, pos + 8);
        let r = DRSTable { resource_type, offset, num_resources, resources: Vec::new() };
        assert(r@.resources =~= Seq::empty());
        Ok(r)
    }

    /// Reads this table's `num_resources` entries, which lie one after another from
    /// `pos`, appends them to its entries, and returns the position after the last one.
    fn read_resources(&mut self, data: &[u8], pos: usize) -> (r: Result<usize, Error>)
        requires
            pos <= data@.len(),
        ensures
            r is Ok <==> pos + RECORD_SIZE * old(self).num_resources <= data@.len(),
            r is Ok ==> {
                &&& r->Ok_0 == pos + RECORD_SIZE * old(self).num_resources
                &&& final(self)@ == (TableModel {
                    resources: old(self)@.resources + Seq::new(
                        old(self).num_resources as nat,
                        |j: int| resource_model(data@, pos + RECORD_SIZE * j),
                    ),
                    ..old(self)@
                })
            },
            r is Err ==> r->Err_0 == Error::IOFault,
    {
        let ghost d = data@;
        let ghost before = self.resources@;
        let len = data.len();
        let mut p: usize = pos;
        let mut i: u32 = 0;
        while i < self.num_resources
            invariant
                len == d.len(),
                d == data@,
                i <= self.num_resources,
                p == pos + RECORD_SIZE * i,
                p <= len,
                self.num_resources == old(self).num_resources,
                self.resource_type == old(self).resource_type,
                self.offset == old(self).offset,
                before == old(self).resources@,
                self.resources@.len() == before.len() + i,
                forall|j: int| 0 <= j < before.len() ==> #[trigger] self.resources@[j] == before[j],
                forall|j: int|
                    0 <= j < i ==> #[trigger] self.resources@[before.len() + j]@ == resource_model(
                        d,
                        pos + RECORD_SIZE * j,
                    ),
            decreases self.num_resources - i,
        {
            let e = match DRSResource::from(data, p) {
                Ok(e) => e,
                Err(err) => {
                    return Err(err);
                },
            };
            self.resources.push(e);
            p = p + RECORD_SIZE;
            i = i + 1;
        }
        let ghost fresh = Seq::new(
            old(self).num_resources as nat,
            |j: int| resource_model(data@, pos + RECORD_SIZE * j),
        );
        assert forall|k: int| 0 <= k < self@.resources.len() implies #[trigger] self@.resources[k]
            == (old(self)@.resources + fresh)[k] by {
            if k >= before.len() {
                assert(self.resources@[before.len() + (k - before.len())]@ == fresh[k
                    - before.len()]);
            }
        }
        assert(self@.resources =~= old(self)@.resources + fresh);
        Ok(p)
    }
}

/// Compares two type tags byte for byte.
fn same_tag(a: &[u8; 4], b: &[u8; 4]) -> (r: bool)
    ensures
        r == (a@ == b@),
{
    let r = a[0] == b[0] && a[1] == b[1] && a[2] == b[2] && a[3] == b[3];
    if r {
        assert(a@ =~= b@);
    }
    r
}

impl DRSTable {
    /// The resource entries, in stream order.
    pub fn resources(&self) -> (r: &[DRSResource])
        ensures
            r@.map_values(|e: DRSResource| e@) == self@.resources,
    {
        self.resources.as_slice()
    }

    /// The first entry whose id is `id`, or `NotFound`.
    pub fn get_resource(&self, id: u32) -> (r: Result<&DRSResource, Error>)
        ensures
            match find_resource(self@, id) {
                Some(j) => r is Ok && r->Ok_0@ == self@.resources[j],
                None => r is Err && r->Err_0 == Error::NotFound,
            },
    {
        let mut i: usize = 0;
        while i < self.resources.len()
            invariant
                i <= self.resources@.len(),
                forall|k: int| 0 <= k < i ==> !with_id(id)(#[trigger] self@.resources[k]),
            decreases self.resources@.len() - i,
        {
            assert(self@.resources[i as int] == self.resources@[i as int]@);
            if self.resources[i].id == id {
                assert(with_id(id)(self@.resources[i as int]));
                assert(find_resource(self@, id) == Some(i as int)) by {
                    lemma_first_index(self@.resources, with_id(id));
                    let j = find_resource(self@, id)->Some_0;
                    if j < i {
                        assert(!with_id(id)(self@.resources[j]));
                    }
                }
                return Ok(&self.resources[i]);
            }
            i = i + 1;
        }
        proof {
            lemma_first_index(self@.resources, with_id(id));
        }
        Err(Error::NotFound)
    }
}

/// The index of an archive: its header and its tables, parsed from the directory
/// at the start of the stream. The content of the resources stays in the stream;
/// an entry gives where each one lies.
#[derive(Debug)]
pub struct DRS {
    header: DRSHeader,
    tables: Vec<DRSTable>,
}

impl View for DRS {
    type V = ArchiveModel;

    closed spec fn view(&self) -> ArchiveModel {
        ArchiveModel {
            header: self.header@,
            tables: self.tables@.map_values(|t: DRSTable| t@),
        }
    }
}

/// Reads the table directory that follows the header: one descriptor per table.
fn read_tables(data: &[u8], header: &DRSHeader) -> (r: Result<Vec<DRSTable>, Error>)
    requires
        data@.len() >= HEADER_SIZE,
        header@ == header_model(data@),
    ensures
        r is Ok <==> dictionary_start(data@) <= data@.len(),
        r is Ok ==> {
            &&& r->Ok_0@.len() == num_tables(data@)
            &&& forall|i: int|
                0 <= i < num_tables(data@) ==> #[trigger] r->Ok_0@[i]@ == descriptor_model(
                    data@,
                    i,
                )
        },
        r is Err ==> r->Err_0 == Error::IOFault,
{
    let ghost d = data@;
    let len = data.len();
    let n = header.num_resource_types;
    let mut tables: Vec<DRSTable> = Vec::new();
    let mut pos: usize = HEADER_SIZE;
    let mut i: u32 = 0;
    while i < n
        invariant
            d == data@,
            n as nat == num_tables(d),
            len == d.len(),
            i <= n,
            pos == descriptor_pos(i as int),
            pos <= d.len(),
            tables@.len() == i,
            forall|k: int| 0 <= k < i ==> #[trigger] tables@[k]@ == descriptor_model(d, k),
        decreases n - i,
    {
        let table = match DRSTable::from(data, pos) {
            Ok(t) => t,
            Err(err) => {
                return Err(err);
            },
        };
        tables.push(table);
        pos = pos + RECORD_SIZE;
        i = i + 1;
    }
    Ok(tables)
}

/// Reads the resource dictionaries, which follow the table directory one after
/// another, in table order. The descriptors' declared offsets are not consulted:
/// the dictionaries are taken to be laid out contiguously.
fn read_dictionary(data: &[u8], descriptors: &Vec<DRSTable>) -> (r: Result<Vec<DRSTable>, Error>)
    requires
        data@.len() >= HEADER_SIZE,
        dictionary_start(data@) <= data@.len(),
        descriptors@.len() == num_tables(data@),
        forall|i: int|
            0 <= i < num_tables(data@) ==> #[trigger] descriptors@[i]@ == descriptor_model(
                data@,
                i,
            ),
    ensures
        r is Ok <==> directory_end(data@) <= data@.len(),
        r is Ok ==> {
            &&& r->Ok_0@.len() == num_tables(data@)
            &&& forall|i: int|
                0 <= i < num_tables(data@) ==> #[trigger] r->Ok_0@[i]@ == table_model(data@, i)
        },
        r is Err ==> r->Err_0 == Error::IOFault,
{
    let ghost d = data@;
    let len = data.len();
    assert(HEADER_SIZE + RECORD_SIZE * descriptors@.len() <= len);
    let mut tables: Vec<DRSTable> = Vec::new();
    let mut pos: usize = HEADER_SIZE + RECORD_SIZE * descriptors.len();
    let mut k: usize = 0;
    while k < descriptors.len()
        invariant
            d == data@,
            descriptors@.len() == num_tables(d),
            forall|i: int|
                0 <= i < num_tables(d) ==> #[trigger] descriptors@[i]@ == descriptor_model(d, i),
            k <= descriptors@.len(),
            pos == entry_pos(d, k as int, 0),
            pos <= d.len(),
            tables@.len() == k,
            forall|i: int| 0 <= i < k ==> #[trigger] tables@[i]@ == table_model(d, i),
        decreases descriptors@.len() - k,
    {
        let descriptor = &descriptors[k];
        assert(descriptor@ == descriptor_model(d, k as int));
        let mut table = DRSTable {
            resource_type: descriptor.resource_type,
            offset: descriptor.offset,
            num_resources: descriptor.num_resources,
            resources: Vec::new(),
        };
        assert(table@.resources =~= Seq::<ResourceModel>::empty());
        proof {
            lemma_entries_before_mono(d, k as int + 1, num_tables(d) as int);
        }
        let next = match table.read_resources(data, pos) {
            Ok(p) => p,
            Err(err) => {
                return Err(err);
            },
        };
        assert(table@.resources =~= table_model(d, k as int).resources);
        tables.push(table);
        pos = next;
        k = k + 1;
    }
    Ok(tables)
}

impl DRS {
    /// How many bytes from the start of the stream the directory spans, as far as
    /// `prefix`, the bytes read from the start so far, tells. Reading on until the
    /// prefix holds that many bytes, and asking again, ends once the prefix holds
    /// the whole directory; `new` then parses it.
    pub fn directory_len(prefix: &[u8]) -> (r: u128)
        ensures
            r as int == known_end(prefix@),
    {
        let ghost d = prefix@;
        let len = prefix.len();
        if len < HEADER_SIZE {
            return HEADER_SIZE as u128;
        }
        let n = read_u32_at(prefix, 56);
        let start: u128 = HEADER_SIZE as u128 + RECORD_SIZE as u128 * n as u128;
        if (len as u128) < start {
            return start;
        }
        let mut total: u128 = 0;
        let mut pos: usize = HEADER_SIZE;
        let mut k: u32 = 0;
        while k < n
            invariant
                d == prefix@,
                len == d.len(),
                n as nat == num_tables(d),
                start == dictionary_start(d),
                start <= len,
                k <= n,
                pos == descriptor_pos(k as int),
                total == entries_before(d, k as int),
                total <= k * 0xFFFF_FFFFu128,
            decreases n - k,
        {
            let c = read_u32_at(prefix, pos + 8);
            assert(c == declared_count(d, k as int));
            total = total + c as u128;
            pos = pos + RECORD_SIZE;
            k = k + 1;
        }
        start + RECORD_SIZE as u128 * total
    }

    /// Parses the directory at the start of `directory`, which holds the first
    /// bytes of the stream: the header, then the table descriptors, then each
    /// table's resource entries. Fails with `IOFault`, and yields no index at all,
    /// when the bytes end before the directory does; bytes after it are ignored.
    pub fn new(directory: &[u8]) -> (r: Result<DRS, Error>)
        ensures
            r is Ok <==> complete_directory(directory@),
            r is Ok ==> r->Ok_0@ == archive_model(directory@),
            r is Err ==> r->Err_0 == Error::IOFault,
    {
        let ghost d = directory@;
        let header = match DRSHeader::from(directory) {
            Ok(h) => h,
            Err(err) => {
                return Err(err);
            },
        };
        let descriptors = match read_tables(directory, &header) {
            Ok(t) => t,
            Err(err) => {
                proof {
                    lemma_entries_before_mono(d, 0, num_tables(d) as int);
                }
                return Err(err);
            },
        };
        let tables = match read_dictionary(directory, &descriptors) {
            Ok(t) => t,
            Err(err) => {
                return Err(err);
            },
        };
        let drs = DRS { header, tables };
        assert(drs@.tables =~= archive_model(d).tables);
        Ok(drs)
    }
}

impl DRS {
    /// The index of the first table whose type tag is `resource_type`.
    fn table_index(&self, resource_type: [u8; 4]) -> (r: Option<usize>)
        ensures
            match find_table(self@.tables, resource_type@) {
                Some(i) => r is Some && r->Some_0 == i && i < self@.tables.len(),
                None => r is None,
            },
    {
        let mut i: usize = 0;
        while i < self.tables.len()
            invariant
                i <= self.tables@.len(),
                forall|k: int|
                    0 <= k < i ==> !tagged(resource_type@)(#[trigger] self@.tables[k]),
            decreases self.tables@.len() - i,
        {
            assert(self@.tables[i as int] == self.tables@[i as int]@);
            if same_tag(&self.tables[i].resource_type, &resource_type) {
                assert(find_table(self@.tables, resource_type@) == Some(i as int)) by {
                    lemma_first_index(self@.tables, tagged(resource_type@));
                    let j = find_table(self@.tables, resource_type@)->Some_0;
                    if j < i {
                        assert(!tagged(resource_type@)(self@.tables[j]));
                    }
                }
                return Some(i);
            }
            i = i + 1;
        }
        proof {
            lemma_first_index(self@.tables, tagged(resource_type@));
        }
        None
    }

    /// The first table whose type tag is `resource_type`, or `NotFound`.
    pub fn get_table(&self, resource_type: [u8; 4]) -> (r: Result<&DRSTable, Error>)
        ensures
            match find_table(self@.tables, resource_type@) {
                Some(i) => r is Ok && r->Ok_0@ == self@.tables[i],
                None => r is Err && r->Err_0 == Error::NotFound,
            },
    {
        match self.table_index(resource_type) {
            Some(i) => {
                assert(self@.tables[i as int] == self.tables@[i as int]@);
                Ok(&self.tables[i])
            },
            None => Err(Error::NotFound),
        }
    }

    /// The first table whose type tag is `resource_type`, or `NotFound`, borrowed mutably.
    pub fn get_table_mut(&mut self, resource_type: [u8; 4]) -> (r: Result<&mut DRSTable, Error>)
        ensures
            match find_table(old(self)@.tables, resource_type@) {
                Some(i) => {
                    &&& r is Ok
                    &&& r->Ok_0@ == old(self)@.tables[i]
                    &&& final(self)@.header == old(self)@.header
                    &&& final(self)@.tables.len() == old(self)@.tables.len()
                    &&& final(self)@.tables[i] == final(r->Ok_0)@
                    &&& forall|k: int|
                        0 <= k < old(self)@.tables.len() && k != i
                            ==> #[trigger] final(self)@.tables[k] == old(self)@.tables[k]
                },
                None => r is Err && r->Err_0 == Error::NotFound && final(self)@ == old(self)@,
            },
    {
        match self.table_index(resource_type) {
            Some(i) => {
                assert(self@.tables[i as int] == self.tables@[i as int]@);
                Ok(&mut self.tables[i])
            },
            None => Err(Error::NotFound),
        }
    }

    /// The first entry with id `id` in the first table whose type tag is
    /// `resource_type`, or `NotFound` when either is missing.
    pub fn get_resource(&self, resource_type: [u8; 4], id: u32) -> (r: Result<&DRSResource, Error>)
        ensures
            match lookup(self@.tables, resource_type@, id) {
                Some(e) => r is Ok && r->Ok_0@ == e,
                None => r is Err && r->Err_0 == Error::NotFound,
            },
    {
        match self.get_table(resource_type) {
            Ok(table) => table.get_resource(id),
            Err(err) => Err(err),
        }
    }

    /// The type tag of the first table, in stream order, that has a resource `id`.
    pub fn get_resource_type(&self, id: u32) -> (r: Option<[u8; 4]>)
        ensures
            match resource_type_of(self@.tables, id) {
                Some(tag) => r is Some && r->Some_0@ == tag,
                None => r is None,
            },
    {
        let mut i: usize = 0;
        while i < self.tables.len()
            invariant
                i <= self.tables@.len(),
                forall|k: int| 0 <= k < i ==> !holding(id)(#[trigger] self@.tables[k]),
            decreases self.tables@.len() - i,
        {
            assert(self@.tables[i as int] == self.tables@[i as int]@);
            if self.tables[i].get_resource(id).is_ok() {
                assert(holding(id)(self@.tables[i as int]));
                assert(first_index(self@.tables, holding(id)) == Some(i as int)) by {
                    lemma_first_index(self@.tables, holding(id));
                    let j = first_index(self@.tables, holding(id))->Some_0;
                    if j < i {
                        assert(!holding(id)(self@.tables[j]));
                    }
                }
                return Some(self.tables[i].resource_type);
            }
            i = i + 1;
        }
        proof {
            lemma_first_index(self@.tables, holding(id));
        }
        None
    }

    /// The tables, in stream order.
    pub fn tables(&self) -> (r: &[DRSTable])
        ensures
            r@.map_values(|t: DRSTable| t@) == self@.tables,
    {
        self.tables.as_slice()
    }
}

impl DRS {
    /// The tables, in stream order, borrowed mutably.
    pub fn tables_mut(&mut self) -> (r: &mut [DRSTable])
        ensures
            r@.map_values(|t: DRSTable| t@) == old(self)@.tables,
            final(self)@.header == old(self)@.header,
            final(self)@.tables == final(r)@.map_values(|t: DRSTable| t@),
    {
        self.tables.as_mut_slice()
    }

    /// The archive header.
    pub fn header(&self) -> (r: &DRSHeader)
        ensures
            r@ == self@.header,
    {
        &self.header
    }
}

impl DRSTable {
    /// The resource entries, in stream order, borrowed mutably.
    pub fn resources_mut(&mut self) -> (r: &mut [DRSResource])
        ensures
            r@.map_values(|e: DRSResource| e@) == old(self)@.resources,
            final(self)@.resource_type == old(self)@.resource_type,
            final(self)@.offset == old(self)@.offset,
            final(self)@.num_resources == old(self)@.num_resources,
            final(self)@.resources == final(r)@.map_values(|e: DRSResource| e@),
    {
        self.resources.as_mut_slice()
    }

    /// The type tag, as stored.
    pub fn resource_type(&self) -> (r: [u8; 4])
        ensures
            r@ == self@.resource_type,
    {
        self.resource_type
    }

    /// The declared position of the table's resource entries.
    pub fn offset(&self) -> (r: u32)
        ensures
            r == self@.offset,
    {
        self.offset
    }

    /// The declared number of resource entries.
    pub fn num_resources(&self) -> (r: u32)
        ensures
            r == self@.num_resources,
    {
        self.num_resources
    }
}

impl DRSResource {
    /// The resource id.
    pub fn id(&self) -> (r: u32)
        ensures
            r == self@.id,
    {
        self.id
    }

    /// Position of the content in the archive.
    pub fn offset(&self) -> (r: u32)
        ensures
            r == self@.offset,
    {
        self.offset
    }

    /// Size of the content in bytes.
    pub fn size(&self) -> (r: u32)
        ensures
            r == self@.size,
    {
        self.size
    }
}

impl DRSHeader {
    /// The copyright message.
    pub fn banner_msg(&self) -> (r: [u8; 40])
        ensures
            r@ == self@.banner_msg,
    {
        self.banner_msg
    }

    /// The file version.
    pub fn version(&self) -> (r: [u8; 4])
        ensures
            r@ == self@.version,
    {
        self.version
    }

    /// The password / identifier.
    pub fn password(&self) -> (r: [u8; 12])
        ensures
            r@ == self@.password,
    {
        self.password
    }

    /// The number of tables.
    pub fn num_resource_types(&self) -> (r: u32)
        ensures
            r == self@.num_resource_types,
    {
        self.num_resource_types
    }

    /// Size in bytes of the header and the directory.
    pub fn directory_size(&self) -> (r: u32)
        ensures
            r == self@.directory_size,
    {
        self.directory_size
    }
}

} // verus!
