//! Writing the free-text notes of a document.
//!
//! The records given are the whole set: every page of the document gets a
//! list of exactly the notes that the records hold for it, and a page for
//! which they hold none loses its list. Each note is a new object; what a
//! page listed before is left in the table, unlisted.

use vstd::prelude::*;
use lopdf::Document;
use vstd::slice::slice_to_vec;
use vstd::utf8::encode_utf8;
use crate::appearance::{appearance, appearance_text, size_or_default, DEFAULT_FONT_SIZE};
use crate::decimal::{decimal_text, format_decimal};
use crate::document::{
    add_object,
    doc_max_id,
    doc_objects,
    doc_pages,
    kept_real,
    kept_text,
    lookup,
    max_id,
    page_ids,
    remove_entry,
    set_entry,
    storable,
};
use crate::geometry::{note_box, note_edges};
use crate::grouping::{
    group_by_page,
    lemma_places,
    places_for,
    places_of,
    places_upto,
    records_at,
};
use crate::object::{
    entries_model,
    lemma_models_of,
    model_of,
    models_of,
    Entry,
    ObjectId,
    Value,
    ValueModel,
};
use crate::page::{height_at, locate_page, page_height_at, page_place, ANNOTS};
use crate::reader::{record_models, AnnotationRecord, RecordModel, CONTENTS, DA, FREE_TEXT, RECT, SUBTYPE};

verus! {

/// `Type`
pub const TYPE: [u8; 4] = [84, 121, 112, 101];

/// `Annot`
pub const ANNOT: [u8; 5] = [65, 110, 110, 111, 116];

/// The records for the page with index `page`, in the order given.
pub open spec fn records_for(records: Seq<RecordModel>, page: nat) -> Seq<RecordModel> {
    records.filter(|r: RecordModel| r.page == page)
}

/// A real number as the document keeps it.
pub open spec fn kept_number(v: int) -> ValueModel {
    ValueModel::Real(kept_real(decimal_text(v)))
}

/// The dictionary of the note for a record on a page of height `height`.
pub open spec fn note_value(height: int, record: RecordModel) -> ValueModel {
    let size = size_or_default(record.font_size);
    let edges = note_box(height, record.x, record.y, size);
    ValueModel::Dict(
        Map::<Seq<u8>, ValueModel>::empty().insert(TYPE@, ValueModel::Name(ANNOT@)).insert(
            SUBTYPE@,
            ValueModel::Name(FREE_TEXT@),
        ).insert(DA@, ValueModel::Str(appearance_text(size))).insert(
            CONTENTS@,
            ValueModel::Str(encode_utf8(record.content)),
        ).insert(
            RECT@,
            ValueModel::Array(
                seq![
                    kept_number(edges.0),
                    kept_number(edges.1),
                    kept_number(edges.2),
                    kept_number(edges.3),
                ],
            ),
        ),
    )
}

/// The identifier of the object added as number `k`, counted from 0, to a
/// document whose highest object number was `max_id`.
pub open spec fn fresh_id(max_id: int, k: int) -> ObjectId {
    ((max_id + 1 + k) as u32, 0u16)
}

/// References to the first `n` objects added.
pub open spec fn fresh_references(max_id: int, n: nat) -> Seq<ValueModel> {
    Seq::new(n, |k: int| ValueModel::Reference(fresh_id(max_id, k)))
}

/// The table after a note for each of `notes` was added to it.
pub open spec fn with_notes(
    objects: Map<ObjectId, ValueModel>,
    max_id: int,
    height: int,
    notes: Seq<RecordModel>,
) -> Map<ObjectId, ValueModel>
    decreases notes.len(),
{
    if notes.len() == 0 {
        objects
    } else {
        with_notes(objects, max_id, height, notes.drop_last()).insert(
            fresh_id(max_id, notes.len() - 1),
            note_value(height, notes.last()),
        )
    }
}

/// The table after the page under `id` was given the list `list` in place of
/// the one it had; an empty list takes the page's list away. A table that
/// holds no dictionary under `id` stays as it is.
pub open spec fn with_list(objects: Map<ObjectId, ValueModel>, id: ObjectId, list: Seq<ValueModel>) -> Map<
    ObjectId,
    ValueModel,
> {
    if objects.dom().contains(id) && objects[id] is Dict {
        let entries = objects[id]->Dict_0;
        objects.insert(
            id,
            ValueModel::Dict(
                if list.len() == 0 {
                    entries.remove(ANNOTS@)
                } else {
                    entries.insert(ANNOTS@, ValueModel::Array(list))
                },
            ),
        )
    } else {
        objects
    }
}

/// A table of objects with the highest object number handed out.
pub struct Written {
    pub objects: Map<ObjectId, ValueModel>,
    pub max_id: int,
}

/// What a document holds, as far as writing goes.
pub open spec fn state_of(doc: Document) -> Written {
    Written { objects: doc_objects(doc), max_id: doc_max_id(doc) as int }
}

/// The document after the page with index `page`, whose dictionary stands
/// under `id`, was written: the notes for it are added, with the height that the page had
/// before, and the page lists them.
pub open spec fn page_written(before: Written, page: nat, id: ObjectId, records: Seq<RecordModel>) -> Written {
    let notes = records_for(records, page);
    let added = with_notes(before.objects, before.max_id, height_at(before.objects, id), notes);
    Written {
        objects: with_list(added, id, fresh_references(before.max_id, notes.len())),
        max_id: before.max_id + notes.len(),
    }
}

/// The document after its first `n` pages were written. The dictionary of a
/// page is looked for under the page's identifier, and one step on where a
/// reference stands there.
pub open spec fn written_upto(before: Written, pages: Seq<ObjectId>, records: Seq<RecordModel>, n: nat) -> Written
    decreases n,
{
    if n == 0 {
        before
    } else {
        page_written(
            written_upto(before, pages, records, (n - 1) as nat),
            (n - 1) as nat,
            page_place(written_upto(before, pages, records, (n - 1) as nat).objects, pages[n - 1]),
            records,
        )
    }
}

/// The document after all its pages were written.
pub open spec fn written(before: Written, pages: Seq<ObjectId>, records: Seq<RecordModel>) -> Written {
    written_upto(before, pages, records, pages.len())
}

/// The records for the pages with index `page` and above.
pub open spec fn records_from(records: Seq<RecordModel>, page: nat) -> Seq<RecordModel> {
    records.filter(|r: RecordModel| r.page >= page)
}

/// The records from a page on are those for it and those from the next on.
pub proof fn lemma_records_from(records: Seq<RecordModel>, page: nat)
    ensures
        records_from(records, page).len() == records_for(records, page).len() + records_from(
            records,
            page + 1,
        ).len(),
        records_from(records, page).len() <= records.len(),
    decreases records.len(),
{
    reveal(Seq::filter);
    if records.len() > 0 {
        lemma_records_from(records.drop_last(), page);
    }
}

fn copy_bytes(bytes: &[u8]) -> (copy: Vec<u8>)
    ensures
        copy@ == bytes@,
{
    slice_to_vec(bytes)
}

/// A real number of the document for `v` thousandths.
fn real_value(v: i64) -> (value: Value)
    ensures
        value@ == kept_number(v as int),
        storable(value@),
{
    let text = format_decimal(v);
    Value::Real(kept_text(text.as_slice()))
}

proof fn lemma_models_push(items: Seq<Value>, item: Value)
    ensures
        models_of(items.push(item)) == models_of(items).push(model_of(item)),
{
    assert(items.push(item).drop_last() =~= items);
}

proof fn lemma_entries_push(entries: Seq<Entry>, entry: Entry)
    ensures
        entries_model(entries.push(entry)) == entries_model(entries).insert(
            entry.key@,
            model_of(entry.value),
        ),
{
    assert(entries.push(entry).drop_last() =~= entries);
}

/// The note for a record on a page of height `height`.
pub fn note_for(height: i64, record: &AnnotationRecord) -> (note: Value)
    ensures
        note@ == note_value(height as int, record@),
        storable(note@),
{
    let size = match record.font_size {
        Some(size) => size,
        None => DEFAULT_FONT_SIZE,
    };
    let edges = note_edges(height, record.x, record.y, size);
    let mut rect: Vec<Value> = Vec::new();
    assert(models_of(rect@) =~= Seq::<ValueModel>::empty());
    let left = real_value(edges.0);
    proof {
        lemma_models_push(rect@, left);
    }
    rect.push(left);
    let bottom = real_value(edges.1);
    proof {
        lemma_models_push(rect@, bottom);
    }
    rect.push(bottom);
    let right = real_value(edges.2);
    proof {
        lemma_models_push(rect@, right);
    }
    rect.push(right);
    let top = real_value(edges.3);
    proof {
        lemma_models_push(rect@, top);
    }
    rect.push(top);
    let ghost rect_model = models_of(rect@);
    assert(rect_model =~= seq![
        kept_number(edges.0 as int),
        kept_number(edges.1 as int),
        kept_number(edges.2 as int),
        kept_number(edges.3 as int),
    ]);
    let mut entries: Vec<Entry> = Vec::new();
    assert(entries_model(entries@) =~= Map::<Seq<u8>, ValueModel>::empty());
    let e = Entry { key: copy_bytes(&TYPE), value: Value::Name(copy_bytes(&ANNOT)) };
    proof {
        lemma_entries_push(entries@, e);
    }
    entries.push(e);
    let e = Entry { key: copy_bytes(&SUBTYPE), value: Value::Name(copy_bytes(&FREE_TEXT)) };
    proof {
        lemma_entries_push(entries@, e);
    }
    entries.push(e);
    let e = Entry { key: copy_bytes(&DA), value: Value::Str(appearance(record.font_size)) };
    proof {
        lemma_entries_push(entries@, e);
    }
    entries.push(e);
    let e = Entry {
        key: copy_bytes(&CONTENTS),
        value: Value::Str(copy_bytes(record.content.as_str().as_bytes())),
    };
    proof {
        lemma_entries_push(entries@, e);
    }
    entries.push(e);
    let e = Entry { key: copy_bytes(&RECT), value: Value::Array(rect) };
    proof {
        lemma_entries_push(entries@, e);
    }
    entries.push(e);
    let note = Value::Dict(entries);
    proof {
        let m = note@->Dict_0;
        assert(note@ == note_value(height as int, record@));
        assert forall|k: Seq<u8>| m.dom().contains(k) implies storable(#[trigger] m[k]) by {
            if k == RECT@ {
                assert forall|i: int| 0 <= i < rect_model.len() implies storable(
                    #[trigger] rect_model[i],
                ) by {}
            }
        }
    }
    note
}

/// Gives the page under `id` the list `list` in place of the one it had, or
/// takes its list away where `list` is empty.
fn put_list(doc: &mut Document, id: ObjectId, list: Vec<Value>)
    requires
        forall|i: int| 0 <= i < list@.len() ==> (#[trigger] list@[i])@ is Reference,
    ensures
        doc_objects(*final(doc)) == with_list(doc_objects(*old(doc)), id, models_of(list@)),
        doc_max_id(*final(doc)) == doc_max_id(*old(doc)),
{
    proof {
        lemma_models_of(list@);
    }
    match lookup(doc, id) {
        Some(Value::Dict(_)) => {
            if list.len() == 0 {
                remove_entry(doc, id, &ANNOTS);
            } else {
                let value = Value::Array(list);
                proof {
                    let items = value@->Array_0;
                    assert forall|i: int| 0 <= i < items.len() implies storable(#[trigger] items[i]) by {
                        assert(items[i] == list@[i]@);
                    }
                }
                set_entry(doc, id, &ANNOTS, &value);
            }
        },
        _ => {},
    }
}

/// Writes the page with index `page`, whose dictionary stands under `id`,
/// from the records at `places`: those for the page.
fn write_page(
    doc: &mut Document,
    page: usize,
    id: ObjectId,
    records: &Vec<AnnotationRecord>,
    places: &Vec<usize>,
)
    requires
        places@ == places_upto(record_models(records@), page as nat, records@.len()),
        doc_max_id(*old(doc)) + records_for(record_models(records@), page as nat).len() <= u32::MAX,
    ensures
        state_of(*final(doc)) == page_written(
            state_of(*old(doc)),
            page as nat,
            id,
            record_models(records@),
        ),
{
    let ghost objects = doc_objects(*doc);
    let ghost first = doc_max_id(*doc) as int;
    let ghost all = record_models(records@);
    let ghost notes = records_at(all, places@);
    let height = page_height_at(doc, id);
    let mut list: Vec<Value> = Vec::new();
    let mut i: usize = 0;
    let total = records.len();
    proof {
        assert(all.len() == total);
        lemma_places(all, page as nat, records@.len());
        assert(all.take(all.len() as int) =~= all);
        assert(notes == records_for(all, page as nat));
        assert(notes.take(0) =~= Seq::<RecordModel>::empty());
        assert(models_of(list@) =~= fresh_references(first, 0));
    }
    while i < places.len()
        invariant
            i <= places.len(),
            all == record_models(records@),
            notes == records_at(all, places@),
            notes.len() == places.len(),
            forall|k: int| 0 <= k < places@.len() ==> (#[trigger] places@[k]) < records@.len(),
            first + notes.len() <= u32::MAX,
            doc_max_id(*doc) == first + i,
            doc_objects(*doc) == with_notes(objects, first, height as int, notes.take(i as int)),
            models_of(list@) == fresh_references(first, i as nat),
            forall|k: int| 0 <= k < list@.len() ==> (#[trigger] list@[k])@ is Reference,
        decreases places.len() - i,
    {
        let place = places[i];
        let note = note_for(height, &records[place]);
        let added = add_object(doc, &note);
        let reference = Value::Reference(added);
        proof {
            assert(notes.take(i + 1).drop_last() =~= notes.take(i as int));
            assert(notes.take(i + 1).last() == records@[place as int]@);
            lemma_models_push(list@, reference);
            assert(models_of(list@.push(reference)) =~= fresh_references(first, (i + 1) as nat));
        }
        list.push(reference);
        i += 1;
    }
    assert(notes.take(i as int) =~= notes);
    put_list(doc, id, list);
}

/// Writes the notes of a document anew from `records`: the whole set, each
/// with the index of its page, counted from 0. A record for a page that the
/// document does not have is passed over.
///
/// Every note takes a new object number, so the document must have as many
/// left as there are records.
pub fn write_annotations(doc: &mut Document, records: &Vec<AnnotationRecord>)
    requires
        doc_max_id(*old(doc)) + records@.len() <= u32::MAX,
    ensures
        state_of(*final(doc)) == written(
            state_of(*old(doc)),
            doc_pages(*old(doc)),
            record_models(records@),
        ),
{
    let ghost before = state_of(*doc);
    let ghost all = record_models(records@);
    let groups = group_by_page(records);
    let none: Vec<usize> = Vec::new();
    let pages = page_ids(doc);
    let mut i: usize = 0;
    proof {
        lemma_records_from(all, 0);
    }
    while i < pages.len()
        invariant
            i <= pages.len(),
            all == record_models(records@),
            none@.len() == 0,
            forall|page: usize| #[trigger]
                places_of(groups@, page) == places_upto(all, page as nat, records@.len()),
            doc_max_id(*doc) + records_from(all, i as nat).len() <= u32::MAX,
            state_of(*doc) == written_upto(before, pages@, all, i as nat),
        decreases pages.len() - i,
    {
        proof {
            lemma_records_from(all, i as nat);
            assert(places_of(groups@, i) == places_upto(all, i as nat, records@.len()));
        }
        let places = places_for(&groups, i, &none);
        let place = locate_page(doc, pages[i]);
        write_page(doc, i, place, records, places);
        i += 1;
    }
}

/// A document has too few object numbers left for the notes to be written.
#[derive(Debug, Clone, Copy, PartialEq, Eq, Structural)]
pub struct OutOfObjectNumbers;

/// Writes the notes of a document anew from `records`, where the document
/// has an object number left for each record; else it leaves the document as
/// it is and says so.
pub fn try_write_annotations(doc: &mut Document, records: &Vec<AnnotationRecord>) -> (r: Result<
    (),
    OutOfObjectNumbers,
>)
    ensures
        match r {
            Ok(_) => doc_max_id(*old(doc)) + records@.len() <= u32::MAX && state_of(*final(doc))
                == written(state_of(*old(doc)), doc_pages(*old(doc)), record_models(records@)),
            Err(_) => doc_max_id(*old(doc)) + records@.len() > u32::MAX && *final(doc) == *old(doc),
        },
{
    let used = max_id(doc);
    if records.len() > (u32::MAX - used) as usize {
        return Err(OutOfObjectNumbers);
    }
    write_annotations(doc, records);
    Ok(())
}

/// The table after the first `n` pages lost their lists of annotations.
pub open spec fn stripped_upto(objects: Map<ObjectId, ValueModel>, pages: Seq<ObjectId>, n: nat) -> Map<
    ObjectId,
    ValueModel,
>
    decreases n,
{
    if n == 0 {
        objects
    } else {
        with_list(
            stripped_upto(objects, pages, (n - 1) as nat),
            page_place(stripped_upto(objects, pages, (n - 1) as nat), pages[n - 1]),
            Seq::empty(),
        )
    }
}

/// Takes the list of annotations from every page of a document.
pub fn strip_annotations(doc: &mut Document)
    ensures
        doc_objects(*final(doc)) == stripped_upto(
            doc_objects(*old(doc)),
            doc_pages(*old(doc)),
            doc_pages(*old(doc)).len(),
        ),
        doc_max_id(*final(doc)) == doc_max_id(*old(doc)),
{
    let ghost objects = doc_objects(*doc);
    let pages = page_ids(doc);
    let mut i: usize = 0;
    while i < pages.len()
        invariant
            i <= pages.len(),
            doc_max_id(*doc) == doc_max_id(*old(doc)),
            doc_objects(*doc) == stripped_upto(objects, pages@, i as nat),
        decreases pages.len() - i,
    {
        let list: Vec<Value> = Vec::new();
        assert(models_of(list@) =~= Seq::<ValueModel>::empty());
        let place = locate_page(doc, pages[i]);
        put_list(doc, place, list);
        i += 1;
    }
}

} // verus!
