//! What holds of writing, whatever the document and the records.
//!
//! The laws speak of a document in order: no page stands twice in the page
//! order, every page stands under its own identifier, no page has an object
//! number above the highest handed out, and there is an object number left
//! for every record.

use vstd::prelude::*;
use crate::appearance::{lemma_size_reads_back, size_or_default};
use crate::object::{ObjectId, ValueModel};
use crate::geometry::DEFAULT_PAGE_HEIGHT;
use crate::page::{
    annotation_list,
    height_at,
    lemma_page_without_box,
    page_place,
    ANNOTS,
    MEDIA_BOX,
};
use crate::reader::{
    is_free_text,
    list_records,
    page_records,
    note_record,
    note_size,
    note_text,
    RecordModel,
    CONTENTS,
    DA,
    RECT,
    SUBTYPE,
};
use crate::text::lemma_utf8_reads_back;
use crate::writer::{
    note_value,
    fresh_id,
    lemma_records_from,
    fresh_references,
    page_written,
    records_for,
    records_from,
    stripped_upto,
    with_list,
    with_notes,
    written,
    written_upto,
    Written,
};

verus! {

/// Whether a document is in order for `count` records to be written.
pub open spec fn in_order(before: Written, pages: Seq<ObjectId>, count: nat) -> bool {
    &&& 0 <= before.max_id
    &&& before.max_id + count <= u32::MAX
    &&& forall|i: int| 0 <= i < pages.len() ==> (#[trigger] pages[i]).0 <= before.max_id
    &&& forall|i: int, j: int| 0 <= i < j < pages.len() ==> pages[i] != pages[j]
    &&& forall|i: int|
        0 <= i < pages.len() ==> page_place(before.objects, #[trigger] pages[i]) == pages[i]
}

/// What a page's list is to be: the entries of the page with the list
/// `list` in place of the one they had, or without a list where `list` is
/// empty.
pub open spec fn relisted(entries: Map<Seq<u8>, ValueModel>, list: Seq<ValueModel>) -> Map<
    Seq<u8>,
    ValueModel,
> {
    if list.len() == 0 {
        entries.remove(ANNOTS@)
    } else {
        entries.insert(ANNOTS@, ValueModel::Array(list))
    }
}

/// How many annotations the page under `id` lists: 0 where it has no list.
pub open spec fn listed(objects: Map<ObjectId, ValueModel>, id: ObjectId) -> nat {
    match objects[id].entry(ANNOTS@) {
        Some(ValueModel::Array(list)) => list.len(),
        _ => 0,
    }
}

/// Adding notes leaves every object with a number that was handed out
/// before.
pub proof fn lemma_notes_keep(
    objects: Map<ObjectId, ValueModel>,
    max_id: int,
    height: int,
    notes: Seq<RecordModel>,
    id: ObjectId,
)
    requires
        0 <= max_id,
        max_id + notes.len() <= u32::MAX,
        id.0 <= max_id,
    ensures
        with_notes(objects, max_id, height, notes).dom().contains(id) == objects.dom().contains(id),
        with_notes(objects, max_id, height, notes)[id] == objects[id],
    decreases notes.len(),
{
    if notes.len() > 0 {
        lemma_notes_keep(objects, max_id, height, notes.drop_last(), id);
        assert(fresh_id(max_id, notes.len() - 1).0 == max_id + notes.len());
    }
}

/// Writing the first pages takes an object number for each record for them.
pub proof fn lemma_numbers_taken(before: Written, pages: Seq<ObjectId>, records: Seq<RecordModel>, n: nat)
    requires
        n <= pages.len(),
    ensures
        written_upto(before, pages, records, n).max_id + records_from(records, n).len()
            == before.max_id + records_from(records, 0).len(),
        written_upto(before, pages, records, n).max_id >= before.max_id,
        records_from(records, 0).len() <= records.len(),
    decreases n,
{
    lemma_records_from(records, 0);
    if n > 0 {
        lemma_numbers_taken(before, pages, records, (n - 1) as nat);
        lemma_records_from(records, (n - 1) as nat);
    }
}

/// Writing a page leaves every other object with a number that was handed
/// out before.
pub proof fn lemma_page_keeps(state: Written, page: nat, id: ObjectId, records: Seq<RecordModel>, other: ObjectId)
    requires
        0 <= state.max_id,
        state.max_id + records_for(records, page).len() <= u32::MAX,
        other.0 <= state.max_id,
        other != id,
    ensures
        page_written(state, page, id, records).objects.dom().contains(other)
            == state.objects.dom().contains(other),
        page_written(state, page, id, records).objects[other] == state.objects[other],
{
    let notes = records_for(records, page);
    lemma_notes_keep(state.objects, state.max_id, height_at(state.objects, id), notes, other);
}

/// Writing a page leaves the place of every page whose number was handed
/// out before.
pub proof fn lemma_page_keeps_place(
    state: Written,
    page: nat,
    id: ObjectId,
    records: Seq<RecordModel>,
    other: ObjectId,
)
    requires
        0 <= state.max_id,
        state.max_id + records_for(records, page).len() <= u32::MAX,
        other.0 <= state.max_id,
    ensures
        page_place(page_written(state, page, id, records).objects, other) == page_place(
            state.objects,
            other,
        ),
{
    let notes = records_for(records, page);
    lemma_notes_keep(state.objects, state.max_id, height_at(state.objects, id), notes, other);
}

/// Writing leaves every page under its own identifier.
pub proof fn lemma_places_kept(before: Written, pages: Seq<ObjectId>, records: Seq<RecordModel>, n: nat)
    requires
        n <= pages.len(),
        in_order(before, pages, records.len()),
    ensures
        forall|i: int|
            0 <= i < pages.len() ==> page_place(
                written_upto(before, pages, records, n).objects,
                #[trigger] pages[i],
            ) == pages[i],
    decreases n,
{
    if n > 0 {
        let m = (n - 1) as nat;
        let state = written_upto(before, pages, records, m);
        lemma_places_kept(before, pages, records, m);
        lemma_numbers_taken(before, pages, records, m);
        lemma_records_from(records, m);
        assert forall|i: int| 0 <= i < pages.len() implies page_place(
            written_upto(before, pages, records, n).objects,
            #[trigger] pages[i],
        ) == pages[i] by {
            lemma_page_keeps_place(
                state,
                m,
                page_place(state.objects, pages[m as int]),
                records,
                pages[i],
            );
        }
    }
}

/// Writing the first `n` pages leaves an object that is none of them, and
/// whose number was handed out before.
pub proof fn lemma_pages_keep(
    before: Written,
    pages: Seq<ObjectId>,
    records: Seq<RecordModel>,
    n: nat,
    other: ObjectId,
)
    requires
        n <= pages.len(),
        in_order(before, pages, records.len()),
        other.0 <= before.max_id,
        forall|i: int| 0 <= i < n ==> pages[i] != other,
    ensures
        written_upto(before, pages, records, n).objects.dom().contains(other)
            == before.objects.dom().contains(other),
        written_upto(before, pages, records, n).objects[other] == before.objects[other],
    decreases n,
{
    if n > 0 {
        let m = (n - 1) as nat;
        lemma_pages_keep(before, pages, records, m, other);
        lemma_places_kept(before, pages, records, m);
        lemma_numbers_taken(before, pages, records, m);
        lemma_records_from(records, m);
        lemma_page_keeps(written_upto(before, pages, records, m), m, pages[m as int], records, other);
    }
}

/// The pages written after page `k` leave it as it was written.
pub proof fn lemma_later_pages_keep(
    before: Written,
    pages: Seq<ObjectId>,
    records: Seq<RecordModel>,
    k: nat,
    n: nat,
)
    requires
        k < n <= pages.len(),
        in_order(before, pages, records.len()),
    ensures
        written_upto(before, pages, records, n).objects.dom().contains(pages[k as int])
            == written_upto(before, pages, records, k + 1).objects.dom().contains(pages[k as int]),
        written_upto(before, pages, records, n).objects[pages[k as int]] == written_upto(
            before,
            pages,
            records,
            k + 1,
        ).objects[pages[k as int]],
    decreases n,
{
    if n > k + 1 {
        let m = (n - 1) as nat;
        lemma_later_pages_keep(before, pages, records, k, m);
        lemma_places_kept(before, pages, records, m);
        lemma_numbers_taken(before, pages, records, m);
        lemma_records_from(records, m);
        lemma_page_keeps(
            written_upto(before, pages, records, m),
            m,
            pages[m as int],
            records,
            pages[k as int],
        );
    }
}

/// After writing, a page that is a dictionary holds what it held, but for
/// its list: that is a list of references to the notes for the page, new
/// objects all, and is gone where there is no note for the page.
pub proof fn lemma_written_page(
    before: Written,
    pages: Seq<ObjectId>,
    records: Seq<RecordModel>,
    k: nat,
)
    requires
        k < pages.len(),
        in_order(before, pages, records.len()),
        before.objects.dom().contains(pages[k as int]),
        before.objects[pages[k as int]] is Dict,
    ensures
        written(before, pages, records).objects.dom().contains(pages[k as int]),
        written(before, pages, records).objects[pages[k as int]] == ValueModel::Dict(
            relisted(
                before.objects[pages[k as int]]->Dict_0,
                fresh_references(
                    written_upto(before, pages, records, k).max_id,
                    records_for(records, k).len(),
                ),
            ),
        ),
{
    let id = pages[k as int];
    let state = written_upto(before, pages, records, k);
    let notes = records_for(records, k);
    lemma_pages_keep(before, pages, records, k, id);
    lemma_places_kept(before, pages, records, k);
    lemma_numbers_taken(before, pages, records, k);
    lemma_records_from(records, k);
    lemma_notes_keep(state.objects, state.max_id, height_at(state.objects, id), notes, id);
    lemma_later_pages_keep(before, pages, records, k, pages.len());
}

/// Writing the same records twice lists on every page as many notes as
/// writing them once: the records for that page, and no more.
pub proof fn lemma_overwrite_is_idempotent(
    before: Written,
    pages: Seq<ObjectId>,
    records: Seq<RecordModel>,
    k: nat,
)
    requires
        k < pages.len(),
        in_order(before, pages, 2 * records.len()),
        before.objects.dom().contains(pages[k as int]),
        before.objects[pages[k as int]] is Dict,
    ensures
        listed(written(before, pages, records).objects, pages[k as int]) == records_for(
            records,
            k,
        ).len(),
        listed(
            written(written(before, pages, records), pages, records).objects,
            pages[k as int],
        ) == records_for(records, k).len(),
{
    let once = written(before, pages, records);
    lemma_written_page(before, pages, records, k);
    lemma_numbers_taken(before, pages, records, pages.len());
    lemma_places_kept(before, pages, records, pages.len());
    assert(in_order(once, pages, records.len())) by {
        assert forall|i: int| 0 <= i < pages.len() implies (#[trigger] pages[i]).0
            <= once.max_id by {}
    }
    lemma_written_page(once, pages, records, k);
}

/// After writing, a page for which there is no record has no list of
/// annotations, whatever it listed before.
pub proof fn lemma_page_without_records(
    before: Written,
    pages: Seq<ObjectId>,
    records: Seq<RecordModel>,
    k: nat,
)
    requires
        k < pages.len(),
        in_order(before, pages, records.len()),
        before.objects.dom().contains(pages[k as int]),
        before.objects[pages[k as int]] is Dict,
        records_for(records, k).len() == 0,
    ensures
        written(before, pages, records).objects[pages[k as int]].entry(ANNOTS@) is None,
        written(before, pages, records).objects[pages[k as int]] == ValueModel::Dict(
            before.objects[pages[k as int]]->Dict_0.remove(ANNOTS@),
        ),
{
    lemma_written_page(before, pages, records, k);
}

/// Writing no records takes the list from every page, and adds nothing.
pub proof fn lemma_writing_nothing_strips(before: Written, pages: Seq<ObjectId>, n: nat)
    requires
        n <= pages.len(),
    ensures
        written_upto(before, pages, Seq::empty(), n) == (Written {
            objects: stripped_upto(before.objects, pages, n),
            max_id: before.max_id,
        }),
    decreases n,
{
    reveal(Seq::filter);
    if n > 0 {
        let m = (n - 1) as nat;
        lemma_writing_nothing_strips(before, pages, m);
        let none = Seq::<RecordModel>::empty();
        assert(records_for(none, m) =~= none);
        assert(fresh_references(before.max_id, 0) =~= Seq::<ValueModel>::empty());
    }
}

/// A note as it is written is a free-text note, and is read with the text
/// and the font size that it was written with. (Its place is read from the
/// real numbers of its box, of which nothing is proved.)
pub proof fn lemma_note_reads_back(
    objects: Map<ObjectId, ValueModel>,
    written_height: int,
    read_height: int,
    page: nat,
    record: RecordModel,
)
    requires
        i64::MIN <= size_or_default(record.font_size) <= i64::MAX,
    ensures
        is_free_text(note_value(written_height, record)),
        note_text(note_value(written_height, record)) == Some(record.content),
        note_size(objects, note_value(written_height, record)) == Some(
            size_or_default(record.font_size),
        ),
        note_record(objects, read_height, page, note_value(written_height, record)) matches Some(
            read,
        ) ==> read.page == page && read.content == record.content && read.font_size == Some(
            size_or_default(record.font_size),
        ),
{
    let note = note_value(written_height, record);
    assert(SUBTYPE@.len() == 7 && DA@.len() == 2 && CONTENTS@.len() == 8 && RECT@.len() == 4);
    assert(CONTENTS@[0] == 67 && SUBTYPE@[0] == 83);
    assert(RECT@[0] == 82 && DA@[0] == 68);
    lemma_utf8_reads_back(record.content);
    lemma_size_reads_back(size_or_default(record.font_size));
}

/// A page that states no box is read and written with the default height:
/// its notes are read as on a page of that height, and the notes written for
/// it are placed as on one.
pub proof fn lemma_default_height_in_use(
    before: Written,
    page: nat,
    id: ObjectId,
    records: Seq<RecordModel>,
)
    requires
        before.objects.dom().contains(id),
        before.objects[id] is Dict,
        before.objects[id].entry(MEDIA_BOX@) is None,
    ensures
        page_records(before.objects, page, id) == match annotation_list(
            before.objects,
            before.objects[id],
        ) {
            Some(items) => list_records(before.objects, DEFAULT_PAGE_HEIGHT as int, page, items),
            None => Seq::empty(),
        },
        page_written(before, page, id, records).objects == with_list(
            with_notes(
                before.objects,
                before.max_id,
                DEFAULT_PAGE_HEIGHT as int,
                records_for(records, page),
            ),
            id,
            fresh_references(before.max_id, records_for(records, page).len()),
        ),
{
    lemma_page_without_box(before.objects, id);
}

} // verus!
