//! Properties of the archive model that hold for every stream.
use vstd::prelude::*;
use crate::model::{
    ArchiveModel, TableModel, HEADER_SIZE, num_tables, complete_directory, archive_model,
    directory_end, entries_before, find_table, has_resource, lookup,
    resource_type_of, first_index, with_id, holding, known_end, lemma_first_index,
    lemma_entries_before_mono,
};

verus! {

/// A parsed archive has exactly as many tables as its header declares.
pub proof fn lemma_table_count(d: Seq<u8>)
    requires
        complete_directory(d),
    ensures
        archive_model(d).tables.len() == archive_model(d).header.num_resource_types,
{
}

/// Every parsed table has exactly as many entries as its descriptor declares.
pub proof fn lemma_resource_counts(d: Seq<u8>)
    requires
        complete_directory(d),
    ensures
        forall|i: int|
            0 <= i < archive_model(d).tables.len()
                ==> #[trigger] archive_model(d).tables[i].resources.len()
                == archive_model(d).tables[i].num_resources,
{
}

/// An id that the table of the requested type does not hold resolves to no
/// entry, so looking it up gives `NotFound` and no content is read; so does an
/// id of a type that has no table.
pub proof fn lemma_absent_id_not_found(a: ArchiveModel, tag: Seq<u8>, id: u32)
    requires
        find_table(a.tables, tag) is Some ==> {
            let t = a.tables[find_table(a.tables, tag)->Some_0];
            forall|j: int| 0 <= j < t.resources.len() ==> #[trigger] t.resources[j].id != id
        },
    ensures
        lookup(a.tables, tag, id) is None,
{
    if let Some(i) = find_table(a.tables, tag) {
        let t = a.tables[i];
        lemma_first_index(t.resources, with_id(id));
        assert(forall|j: int| 0 <= j < t.resources.len() ==> !with_id(id)(#[trigger] t.resources[j]));
    }
}

/// The prefix holds the whole directory exactly when it is at least as long as
/// the directory length it announces.
pub proof fn lemma_directory_len(d: Seq<u8>)
    ensures
        complete_directory(d) <==> d.len() >= known_end(d),
{
    lemma_entries_before_mono(d, 0, num_tables(d) as int);
}

/// An archive that declares no tables parses to an empty table list, and every
/// lookup in it fails.
pub proof fn lemma_empty_archive(d: Seq<u8>)
    requires
        d.len() >= HEADER_SIZE,
        num_tables(d) == 0,
    ensures
        complete_directory(d),
        archive_model(d).tables.len() == 0,
        forall|tag: Seq<u8>| #[trigger] find_table(archive_model(d).tables, tag) is None,
        forall|tag: Seq<u8>, id: u32| #[trigger] lookup(archive_model(d).tables, tag, id) is None,
        forall|id: u32| #[trigger] resource_type_of(archive_model(d).tables, id) is None,
{
    assert(directory_end(d) == HEADER_SIZE + 12 * entries_before(d, 0));
}

/// A stream shorter than the header holds no archive.
pub proof fn lemma_truncated_header(d: Seq<u8>)
    requires
        d.len() < HEADER_SIZE,
    ensures
        !complete_directory(d),
{
}

/// When several tables hold the same id, its type is that of the first of them in
/// stream order.
pub proof fn lemma_first_table_wins(tables: Seq<TableModel>, id: u32, i: int, j: int)
    requires
        0 <= i < j < tables.len(),
        has_resource(tables[i], id),
        has_resource(tables[j], id),
        forall|k: int| 0 <= k < i ==> !has_resource(#[trigger] tables[k], id),
    ensures
        resource_type_of(tables, id) == Some(tables[i].resource_type),
{
    lemma_first_index(tables, holding(id));
    assert(holding(id)(tables[i]));
    let f = first_index(tables, holding(id))->Some_0;
    if f < i {
        assert(!holding(id)(tables[f]));
    }
}

} // verus!
