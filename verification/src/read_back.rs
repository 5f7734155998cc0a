//! What is written is read back.
//!
//! A real number goes into the document as `lopdf` keeps it, and nothing is
//! proved of how exactly that is. The laws here therefore speak of the
//! records whose numbers are kept exactly; of those they say that reading a
//! page after writing gives the records that were written for it, and that
//! writing back what was read gives it again. Where a note stands after
//! writing, and that its top edge is the one it was read with, holds of every
//! record.

use vstd::prelude::*;
use crate::accessor::resolved;
use crate::appearance::size_or_default;
use crate::geometry::{caller_space, native_space};
use crate::laws::{
    in_order,
    lemma_note_reads_back,
    lemma_numbers_taken,
    lemma_page_keeps,
    lemma_pages_keep,
    lemma_places_kept,
    lemma_written_page,
};
use crate::object::{ObjectId, ValueModel};
use crate::page::{annotation_list, height_at, page_height_of, page_place, ANNOTS, MEDIA_BOX};
use crate::reader::{
    annotations_of,
    list_records,
    note_corner,
    note_record,
    page_records,
    records_upto,
    RecordModel,
    RECT,
};
use crate::writer::{
    fresh_id,
    fresh_references,
    kept_number,
    lemma_records_from,
    note_value,
    page_written,
    records_for,
    with_list,
    with_notes,
    written,
    written_upto,
    Written,
};

verus! {

/// Whether the document keeps the number `v` exactly: read from what was
/// stored for it, it is `v` again.
pub open spec fn kept_exactly(v: int) -> bool {
    kept_number(v).number() == Some(v)
}

/// Whether a record, written on a page of height `height`, is read from it
/// as it was: its place is kept exactly, and its `y` and its font size are
/// within the range of `i64`.
pub open spec fn reads_back(height: int, record: RecordModel) -> bool {
    &&& kept_exactly(record.x)
    &&& kept_exactly(native_space(height, record.y))
    &&& i64::MIN <= record.y <= i64::MAX
    &&& i64::MIN <= height - record.y <= i64::MAX
    &&& i64::MIN <= size_or_default(record.font_size) <= i64::MAX
}

/// A record as it is read after it was written: with the font size that it
/// was written with.
pub open spec fn as_read(record: RecordModel) -> RecordModel {
    RecordModel {
        page: record.page,
        x: record.x,
        y: record.y,
        content: record.content,
        font_size: Some(size_or_default(record.font_size)),
    }
}

/// Whether every object of a document has a number that the document has
/// handed out.
pub open spec fn all_numbered(state: Written) -> bool {
    forall|id: ObjectId| state.objects.dom().contains(id) ==> id.0 <= state.max_id
}

/// Whether table `b` holds what table `a` holds, but for dictionaries: where
/// `a` has a dictionary `b` has one too, and `b` may have dictionaries where
/// `a` has nothing.
pub open spec fn same_but_dictionaries(a: Map<ObjectId, ValueModel>, b: Map<ObjectId, ValueModel>) -> bool {
    forall|id: ObjectId|
        #![trigger a.dom().contains(id)]
        #![trigger b.dom().contains(id)]
        if a.dom().contains(id) {
            b.dom().contains(id) && if a[id] is Dict {
                b[id] is Dict
            } else {
                b[id] == a[id]
            }
        } else {
            b.dom().contains(id) ==> b[id] is Dict
        }
}

/// The note of place `j` stands under its object number once the notes are
/// added.
proof fn lemma_note_added(
    objects: Map<ObjectId, ValueModel>,
    max_id: int,
    height: int,
    notes: Seq<RecordModel>,
    j: int,
)
    requires
        0 <= max_id,
        max_id + notes.len() <= u32::MAX,
        0 <= j < notes.len(),
    ensures
        with_notes(objects, max_id, height, notes).dom().contains(fresh_id(max_id, j)),
        with_notes(objects, max_id, height, notes)[fresh_id(max_id, j)] == note_value(
            height,
            notes[j],
        ),
    decreases notes.len(),
{
    if j < notes.len() - 1 {
        lemma_note_added(objects, max_id, height, notes.drop_last(), j);
        assert(fresh_id(max_id, notes.len() - 1).0 != fresh_id(max_id, j).0);
    }
}

/// Adding notes puts dictionaries under numbers not handed out before, and
/// leaves all else.
proof fn lemma_notes_shape(
    objects: Map<ObjectId, ValueModel>,
    max_id: int,
    height: int,
    notes: Seq<RecordModel>,
)
    requires
        0 <= max_id,
        max_id + notes.len() <= u32::MAX,
    ensures
        forall|id: ObjectId|
            #![trigger with_notes(objects, max_id, height, notes).dom().contains(id)]
            #![trigger with_notes(objects, max_id, height, notes)[id]]
            if id.0 <= max_id {
                with_notes(objects, max_id, height, notes).dom().contains(id)
                    == objects.dom().contains(id) && with_notes(objects, max_id, height, notes)[id]
                    == objects[id]
            } else {
                id.0 <= max_id + notes.len() && with_notes(
                    objects,
                    max_id,
                    height,
                    notes,
                ).dom().contains(id) && !objects.dom().contains(id) ==> with_notes(
                    objects,
                    max_id,
                    height,
                    notes,
                )[id] is Dict
            },
        forall|id: ObjectId|
            #![trigger with_notes(objects, max_id, height, notes).dom().contains(id)]
            with_notes(objects, max_id, height, notes).dom().contains(id) ==> objects.dom().contains(
                id,
            ) || (max_id < id.0 <= max_id + notes.len()),
    decreases notes.len(),
{
    if notes.len() > 0 {
        lemma_notes_shape(objects, max_id, height, notes.drop_last());
        assert(fresh_id(max_id, notes.len() - 1).0 == max_id + notes.len());
    }
}

/// Writing a page keeps every object numbered, and keeps what the table
/// held but for dictionaries.
proof fn lemma_page_shape(
    origin: Map<ObjectId, ValueModel>,
    state: Written,
    page: nat,
    id: ObjectId,
    records: Seq<RecordModel>,
)
    requires
        0 <= state.max_id,
        state.max_id + records_for(records, page).len() <= u32::MAX,
        all_numbered(state),
        same_but_dictionaries(origin, state.objects),
        forall|o: ObjectId| origin.dom().contains(o) ==> o.0 <= state.max_id,
    ensures
        all_numbered(page_written(state, page, id, records)),
        same_but_dictionaries(origin, page_written(state, page, id, records).objects),
{
    let notes = records_for(records, page);
    let height = height_at(state.objects, id);
    let added = with_notes(state.objects, state.max_id, height, notes);
    let after = page_written(state, page, id, records);
    lemma_notes_shape(state.objects, state.max_id, height, notes);
    assert(after.objects == with_list(added, id, fresh_references(state.max_id, notes.len())));
    assert forall|o: ObjectId| after.objects.dom().contains(o) implies o.0 <= after.max_id by {
        assert(added.dom().contains(o));
    }
    assert forall|o: ObjectId|
        #![trigger origin.dom().contains(o)]
        #![trigger after.objects.dom().contains(o)]
        if origin.dom().contains(o) {
            after.objects.dom().contains(o) && if origin[o] is Dict {
                after.objects[o] is Dict
            } else {
                after.objects[o] == origin[o]
            }
        } else {
            after.objects.dom().contains(o) ==> after.objects[o] is Dict
        } by {
        if origin.dom().contains(o) {
            assert(o.0 <= state.max_id);
            assert(added.dom().contains(o) == state.objects.dom().contains(o));
            assert(added[o] == state.objects[o]);
            assert(state.objects[o] == origin[o] || origin[o] is Dict);
        } else if after.objects.dom().contains(o) {
            assert(added.dom().contains(o));
            if state.objects.dom().contains(o) {
                assert(o.0 <= state.max_id);
                assert(added[o] == state.objects[o]);
                assert(state.objects[o] is Dict);
            } else {
                assert(added[o] is Dict);
            }
        }
    }
}

/// Writing pages keeps every object numbered, and keeps what the table held
/// but for dictionaries.
proof fn lemma_pages_shape(before: Written, pages: Seq<ObjectId>, records: Seq<RecordModel>, n: nat)
    requires
        n <= pages.len(),
        0 <= before.max_id,
        before.max_id + records.len() <= u32::MAX,
        all_numbered(before),
    ensures
        all_numbered(written_upto(before, pages, records, n)),
        same_but_dictionaries(before.objects, written_upto(before, pages, records, n).objects),
    decreases n,
{
    if n > 0 {
        let m = (n - 1) as nat;
        lemma_pages_shape(before, pages, records, m);
        lemma_numbers_taken(before, pages, records, m);
        lemma_records_from(records, m);
        lemma_page_shape(
            before.objects,
            written_upto(before, pages, records, m),
            m,
            page_place(written_upto(before, pages, records, m).objects, pages[m as int]),
            records,
        );
    }
}

/// Two pages with the same box have the same height in two tables that hold
/// the same but for dictionaries.
proof fn lemma_height_kept(
    a: Map<ObjectId, ValueModel>,
    b: Map<ObjectId, ValueModel>,
    page_a: ValueModel,
    page_b: ValueModel,
)
    requires
        same_but_dictionaries(a, b),
        page_a.entry(MEDIA_BOX@) == page_b.entry(MEDIA_BOX@),
    ensures
        page_height_of(a, page_a) == page_height_of(b, page_b),
{
    match page_a.entry(MEDIA_BOX@) {
        Some(ValueModel::Reference(o)) => {
            if a.dom().contains(o) {
                assert(b.dom().contains(o));
                if !(a[o] is Dict) {
                    assert(b[o] == a[o]);
                }
            }
        },
        _ => {},
    }
}

/// Where every entry of a list gives a record, the records of the list are
/// those, entry by entry.
proof fn lemma_all_read(
    objects: Map<ObjectId, ValueModel>,
    height: int,
    page: nat,
    items: Seq<ValueModel>,
    records: Seq<RecordModel>,
)
    requires
        items.len() == records.len(),
        forall|j: int|
            0 <= j < items.len() ==> note_record(objects, height, page, #[trigger] items[j])
                == Some(records[j]),
    ensures
        list_records(objects, height, page, items) == records,
    decreases items.len(),
{
    if items.len() > 0 {
        lemma_all_read(objects, height, page, items.drop_last(), records.drop_last());
        assert(list_records(objects, height, page, items) =~= records);
    } else {
        assert(list_records(objects, height, page, items) =~= records);
    }
}

/// A note as it is written is read as the record it was written from, where
/// the record reads back.
proof fn lemma_record_reads_back(
    objects: Map<ObjectId, ValueModel>,
    height: int,
    page: nat,
    record: RecordModel,
)
    requires
        reads_back(height, record),
        record.page == page,
    ensures
        note_record(objects, height, page, note_value(height, record)) == Some(as_read(record)),
{
    let note = note_value(height, record);
    lemma_note_reads_back(objects, height, height, page, record);
    assert(RECT@.len() == 4);
    assert(note.entry(RECT@) is Some);
    assert(note_corner(note) == Some((record.x, native_space(height, record.y))));
}

/// The records for a page are for that page.
proof fn lemma_records_for_page(records: Seq<RecordModel>, page: nat, j: int)
    requires
        0 <= j < records_for(records, page).len(),
    ensures
        records_for(records, page)[j].page == page,
{
    records.lemma_filter_pred(|r: RecordModel| r.page == page, j);
}

/// After writing, a page is read as the records that were written for it, in
/// the order given, wherever those records read back.
pub proof fn lemma_written_page_reads_back(
    before: Written,
    pages: Seq<ObjectId>,
    records: Seq<RecordModel>,
    k: nat,
)
    requires
        k < pages.len(),
        in_order(before, pages, records.len()),
        all_numbered(before),
        before.objects.dom().contains(pages[k as int]),
        before.objects[pages[k as int]] is Dict,
        forall|j: int|
            0 <= j < records_for(records, k).len() ==> reads_back(
                height_at(before.objects, pages[k as int]),
                #[trigger] records_for(records, k)[j],
            ),
    ensures
        page_records(written(before, pages, records).objects, k, pages[k as int]) == records_for(
            records,
            k,
        ).map_values(|r: RecordModel| as_read(r)),
{
    let id = pages[k as int];
    let notes = records_for(records, k);
    let state = written_upto(before, pages, records, k);
    let after = written(before, pages, records);
    let height = height_at(before.objects, id);
    let list = fresh_references(state.max_id, notes.len());
    let expected = notes.map_values(|r: RecordModel| as_read(r));
    lemma_written_page(before, pages, records, k);
    lemma_pages_keep(before, pages, records, k, id);
    lemma_pages_shape(before, pages, records, k);
    lemma_pages_shape(before, pages, records, pages.len());
    lemma_numbers_taken(before, pages, records, k);
    lemma_records_from(records, k);
    assert(MEDIA_BOX@.len() == 8 && ANNOTS@.len() == 6);
    lemma_height_kept(before.objects, state.objects, before.objects[id], state.objects[id]);
    lemma_height_kept(before.objects, after.objects, before.objects[id], after.objects[id]);
    assert(height_at(state.objects, id) == height);
    assert(page_height_of(after.objects, after.objects[id]) == height);
    if notes.len() == 0 {
        assert(annotation_list(after.objects, after.objects[id]) is None);
        assert(expected =~= Seq::<RecordModel>::empty());
    } else {
        assert(annotation_list(after.objects, after.objects[id]) == Some(list));
        assert forall|j: int| 0 <= j < list.len() implies note_record(
            after.objects,
            height,
            k,
            #[trigger] list[j],
        ) == Some(expected[j]) by {
            let o = fresh_id(state.max_id, j);
            lemma_note_added(state.objects, state.max_id, height, notes, j);
            lemma_note_kept(before, pages, records, k, j);
            lemma_records_for_page(records, k, j);
            assert(resolved(after.objects, list[j]) == Some(note_value(height, notes[j])));
            lemma_record_reads_back(after.objects, height, k, notes[j]);
        }
        lemma_all_read(after.objects, height, k, list, expected);
    }
}

/// The note of place `j` of page `k` stands, after all pages are written,
/// as it was added.
proof fn lemma_note_kept(
    before: Written,
    pages: Seq<ObjectId>,
    records: Seq<RecordModel>,
    k: nat,
    j: int,
)
    requires
        k < pages.len(),
        in_order(before, pages, records.len()),
        0 <= j < records_for(records, k).len(),
    ensures
        ({
            let state = written_upto(before, pages, records, k);
            let o = fresh_id(state.max_id, j);
            let added = with_notes(
                state.objects,
                state.max_id,
                height_at(state.objects, pages[k as int]),
                records_for(records, k),
            );
            written(before, pages, records).objects.dom().contains(o) == added.dom().contains(o)
                && written(before, pages, records).objects[o] == added[o]
        }),
{
    let state = written_upto(before, pages, records, k);
    let o = fresh_id(state.max_id, j);
    lemma_numbers_taken(before, pages, records, k);
    lemma_records_from(records, k);
    lemma_places_kept(before, pages, records, k);
    assert(page_place(state.objects, pages[k as int]) == pages[k as int]);
    assert(o.0 == state.max_id + 1 + j);
    assert(o != pages[k as int]);
    assert forall|i: int| k + 1 <= i < pages.len() implies pages[i] != o by {
        assert(pages[i].0 <= before.max_id);
    }
    let next = written_upto(before, pages, records, k + 1);
    assert(next == page_written(state, k, pages[k as int], records));
    assert(o.0 <= next.max_id);
    lemma_others_kept(before, pages, records, k + 1, pages.len(), o);
}

/// The pages from place `from` to place `n` leave an object that is none of
/// them and whose number was handed out before them.
proof fn lemma_others_kept(
    before: Written,
    pages: Seq<ObjectId>,
    records: Seq<RecordModel>,
    from: nat,
    n: nat,
    other: ObjectId,
)
    requires
        from <= n <= pages.len(),
        in_order(before, pages, records.len()),
        other.0 <= written_upto(before, pages, records, from).max_id,
        forall|i: int| from <= i < n ==> pages[i] != other,
    ensures
        written_upto(before, pages, records, n).objects.dom().contains(other) == written_upto(
            before,
            pages,
            records,
            from,
        ).objects.dom().contains(other),
        written_upto(before, pages, records, n).objects[other] == written_upto(
            before,
            pages,
            records,
            from,
        ).objects[other],
        written_upto(before, pages, records, n).max_id >= written_upto(
            before,
            pages,
            records,
            from,
        ).max_id,
    decreases n,
{
    if n > from {
        let m = (n - 1) as nat;
        lemma_others_kept(before, pages, records, from, m, other);
        lemma_places_kept(before, pages, records, m);
        lemma_numbers_taken(before, pages, records, m);
        lemma_records_from(records, m);
        lemma_page_keeps(written_upto(before, pages, records, m), m, pages[m as int], records, other);
    }
}

/// The records for the first `n` pages as they are read after they were
/// written: page after page, and within a page in the order given.
pub open spec fn read_upto(records: Seq<RecordModel>, n: nat) -> Seq<RecordModel>
    decreases n,
{
    if n == 0 {
        Seq::empty()
    } else {
        read_upto(records, (n - 1) as nat) + records_for(records, (n - 1) as nat).map_values(
            |r: RecordModel| as_read(r),
        )
    }
}

/// Whether every page of a document is a dictionary, and every record for
/// it reads back.
pub open spec fn all_read_back(before: Written, pages: Seq<ObjectId>, records: Seq<RecordModel>) -> bool {
    forall|k: int|
        0 <= k < pages.len() ==> {
            &&& before.objects.dom().contains(#[trigger] pages[k])
            &&& before.objects[pages[k]] is Dict
            &&& forall|j: int|
                0 <= j < records_for(records, k as nat).len() ==> reads_back(
                    height_at(before.objects, pages[k]),
                    #[trigger] records_for(records, k as nat)[j],
                )
        }
}

proof fn lemma_written_pages_read_back(
    before: Written,
    pages: Seq<ObjectId>,
    records: Seq<RecordModel>,
    n: nat,
)
    requires
        n <= pages.len(),
        in_order(before, pages, records.len()),
        all_numbered(before),
        all_read_back(before, pages, records),
    ensures
        records_upto(written(before, pages, records).objects, pages, n) == read_upto(records, n),
    decreases n,
{
    if n > 0 {
        let k = (n - 1) as nat;
        lemma_written_pages_read_back(before, pages, records, k);
        assert(before.objects.dom().contains(pages[k as int]));
        lemma_places_kept(before, pages, records, pages.len());
        lemma_written_page_reads_back(before, pages, records, k);
    }
}

/// After writing, a document whose pages are dictionaries is read as the
/// records that were written, page after page, wherever those records read
/// back.
pub proof fn lemma_written_document_reads_back(
    before: Written,
    pages: Seq<ObjectId>,
    records: Seq<RecordModel>,
)
    requires
        in_order(before, pages, records.len()),
        all_numbered(before),
        all_read_back(before, pages, records),
    ensures
        annotations_of(written(before, pages, records).objects, pages) == read_upto(
            records,
            pages.len(),
        ),
{
    lemma_written_pages_read_back(before, pages, records, pages.len());
}

/// After writing, the note of place `j` for page `k` stands in the table as
/// it was made: with the height that the page had before, and under the
/// object number that the page's list names at place `j`.
pub proof fn lemma_written_note(
    before: Written,
    pages: Seq<ObjectId>,
    records: Seq<RecordModel>,
    k: nat,
    j: int,
)
    requires
        k < pages.len(),
        in_order(before, pages, records.len()),
        all_numbered(before),
        before.objects.dom().contains(pages[k as int]),
        before.objects[pages[k as int]] is Dict,
        0 <= j < records_for(records, k).len(),
    ensures
        ({
            let after = written(before, pages, records).objects;
            let first = written_upto(before, pages, records, k).max_id;
            let note = fresh_id(first, j);
            &&& annotation_list(after, after[pages[k as int]]) == Some(
                fresh_references(first, records_for(records, k).len()),
            )
            &&& fresh_references(first, records_for(records, k).len())[j] == ValueModel::Reference(
                note,
            )
            &&& after.dom().contains(note)
            &&& after[note] == note_value(
                height_at(before.objects, pages[k as int]),
                records_for(records, k)[j],
            )
        }),
{
    let id = pages[k as int];
    let notes = records_for(records, k);
    let state = written_upto(before, pages, records, k);
    let after = written(before, pages, records);
    let height = height_at(before.objects, id);
    lemma_written_page(before, pages, records, k);
    lemma_pages_keep(before, pages, records, k, id);
    lemma_pages_shape(before, pages, records, k);
    lemma_numbers_taken(before, pages, records, k);
    lemma_records_from(records, k);
    assert(MEDIA_BOX@.len() == 8 && ANNOTS@.len() == 6);
    lemma_height_kept(before.objects, state.objects, before.objects[id], state.objects[id]);
    assert(height_at(state.objects, id) == height);
    lemma_note_added(state.objects, state.max_id, height, notes, j);
    lemma_note_kept(before, pages, records, k, j);
}

/// A note written from what was read is placed where it was read: where a
/// record's `y` is that of a height `top` above the bottom edge, the top edge
/// of the note written for it is `top` again, held as the document keeps a
/// real number.
pub proof fn lemma_top_is_written_back(height: int, record: RecordModel, top: int)
    requires
        i64::MIN <= top <= i64::MAX,
        i64::MIN <= height - top <= i64::MAX,
        record.y == caller_space(height, top),
    ensures
        note_value(height, record).entry(RECT@) is Some,
        note_value(height, record).entry(RECT@)->Some_0.item(3) == Some(kept_number(top)),
        note_value(height, record).entry(RECT@)->Some_0.item(0) == Some(kept_number(record.x)),
{
    assert(RECT@.len() == 4);
}

/// Every record of a list is for the page that the list was read for.
proof fn lemma_list_pages(
    objects: Map<ObjectId, ValueModel>,
    height: int,
    page: nat,
    items: Seq<ValueModel>,
)
    ensures
        forall|j: int|
            0 <= j < list_records(objects, height, page, items).len() ==> (#[trigger] list_records(
                objects,
                height,
                page,
                items,
            )[j]).page == page,
    decreases items.len(),
{
    if items.len() > 0 {
        lemma_list_pages(objects, height, page, items.drop_last());
        let read = |item: ValueModel| note_record(objects, height, page, item);
        let all = list_records(objects, height, page, items);
        let before = items.drop_last().filter_map(read);
        assert forall|j: int| 0 <= j < all.len() implies (#[trigger] all[j]).page == page by {
            if j < before.len() {
                assert(all[j] == before[j]);
            }
        }
    }
}

/// Records that are all for one page are those for it, and none of them is
/// for another page.
proof fn lemma_block(block: Seq<RecordModel>, page: nat, k: nat)
    requires
        forall|j: int| 0 <= j < block.len() ==> (#[trigger] block[j]).page == page,
    ensures
        records_for(block, k) == if k == page {
            block
        } else {
            Seq::empty()
        },
    decreases block.len(),
{
    reveal(Seq::filter);
    if block.len() > 0 {
        let rest = block.drop_last();
        assert forall|j: int| 0 <= j < rest.len() implies (#[trigger] rest[j]).page == page by {
            assert(rest[j] == block[j]);
        }
        lemma_block(rest, page, k);
        assert(block.last() == block[block.len() - 1]);
        if k == page {
            assert(rest.push(block.last()) =~= block);
        }
    } else {
        assert(records_for(block, k) =~= Seq::<RecordModel>::empty());
    }
}

/// Of the records read from the first `n` pages, those for page `k` are the
/// ones read from page `k`.
proof fn lemma_read_for_page(objects: Map<ObjectId, ValueModel>, pages: Seq<ObjectId>, n: nat, k: nat)
    requires
        n <= pages.len(),
    ensures
        records_for(records_upto(objects, pages, n), k) == if k < n {
            page_records(objects, k, page_place(objects, pages[k as int]))
        } else {
            Seq::empty()
        },
    decreases n,
{
    reveal(Seq::filter);
    if n > 0 {
        let m = (n - 1) as nat;
        let earlier = records_upto(objects, pages, m);
        let block = page_records(objects, m, page_place(objects, pages[m as int]));
        lemma_read_for_page(objects, pages, m, k);
        if block.len() > 0 {
            let id = page_place(objects, pages[m as int]);
            lemma_list_pages(
                objects,
                page_height_of(objects, objects[id]),
                m,
                annotation_list(objects, objects[id])->Some_0,
            );
        }
        lemma_block(block, m, k);
        Seq::filter_distributes_over_add(earlier, block, |r: RecordModel| r.page == k);
        assert(earlier + Seq::<RecordModel>::empty() =~= earlier);
        assert(Seq::<RecordModel>::empty() + block =~= block);
    } else {
        assert(records_for(records_upto(objects, pages, n), k) =~= Seq::<RecordModel>::empty());
    }
}

/// Of records read from a document, those read back page after page are
/// they all, in the order read.
proof fn lemma_read_in_page_order(
    objects: Map<ObjectId, ValueModel>,
    pages: Seq<ObjectId>,
    n: nat,
)
    requires
        n <= pages.len(),
    ensures
        read_upto(annotations_of(objects, pages), n) == records_upto(objects, pages, n).map_values(
            |r: RecordModel| as_read(r),
        ),
    decreases n,
{
    let records = annotations_of(objects, pages);
    let read = |r: RecordModel| as_read(r);
    if n > 0 {
        let m = (n - 1) as nat;
        lemma_read_in_page_order(objects, pages, m);
        lemma_read_for_page(objects, pages, pages.len(), m);
        let earlier = records_upto(objects, pages, m);
        let block = page_records(objects, m, page_place(objects, pages[m as int]));
        assert((earlier + block).map_values(read) =~= earlier.map_values(read) + block.map_values(
            read,
        ));
    } else {
        assert(records_upto(objects, pages, n).map_values(read) =~= Seq::<RecordModel>::empty());
    }
}

/// Writing back what was read gives it again: after the records read from a
/// document are written to it, the document is read as those records, each
/// with the font size it was written with, wherever they read back.
pub proof fn lemma_read_written_read(before: Written, pages: Seq<ObjectId>)
    requires
        in_order(before, pages, annotations_of(before.objects, pages).len()),
        all_numbered(before),
        all_read_back(before, pages, annotations_of(before.objects, pages)),
    ensures
        annotations_of(
            written(before, pages, annotations_of(before.objects, pages)).objects,
            pages,
        ) == annotations_of(before.objects, pages).map_values(|r: RecordModel| as_read(r)),
{
    let records = annotations_of(before.objects, pages);
    lemma_written_document_reads_back(before, pages, records);
    lemma_read_in_page_order(before.objects, pages, pages.len());
}

} // verus!
