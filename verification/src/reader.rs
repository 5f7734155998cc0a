//! Reading the free-text notes of a document.
//!
//! Every page is walked in page order; its dictionary is looked for under
//! the page's identifier, and one step on where a reference stands there.
//! What cannot be read as expected is passed over: a page that is no dictionary or has no list of annotations,
//! an entry that leads nowhere, an annotation of another kind, one without
//! text or without a box of numbers. The rest are returned, each with the
//! index of its page, counted from 0.

use vstd::prelude::*;
use lopdf::Document;
use crate::accessor::{resolve, resolved, resolved_entry};
use crate::appearance::{font_size, font_size_of};
use crate::document::{doc_objects, doc_pages, lookup, page_ids};
use crate::geometry::{caller_space, to_caller_space};
use crate::object::{
    bytes_eq,
    entries_model,
    find_entry,
    lemma_models_of,
    models_of,
    Entry,
    ObjectId,
    Value,
    ValueModel,
};
use crate::page::{
    annotation_list,
    locate_page,
    page_height,
    page_height_of,
    page_place,
    ANNOTS,
};
use crate::text::{read_text, text_of};

verus! {

/// `Subtype`
pub const SUBTYPE: [u8; 7] = [83, 117, 98, 116, 121, 112, 101];

/// `Contents`
pub const CONTENTS: [u8; 8] = [67, 111, 110, 116, 101, 110, 116, 115];

/// `DA`
pub const DA: [u8; 2] = [68, 65];

/// `Rect`
pub const RECT: [u8; 4] = [82, 101, 99, 116];

/// `FreeText`
pub const FREE_TEXT: [u8; 8] = [70, 114, 101, 101, 84, 101, 120, 116];

/// A free-text note as a caller sees it. `x` and `y` are in thousandths of a
/// unit, measured from the top left corner of the page; `y` is the top edge
/// of the text. `font_size` is in thousandths too.
#[derive(Debug, Clone, PartialEq, Eq)]
pub struct AnnotationRecord {
    pub page: usize,
    pub x: i64,
    pub y: i64,
    pub content: String,
    pub font_size: Option<i64>,
}

/// What an `AnnotationRecord` stands for.
pub struct RecordModel {
    pub page: nat,
    pub x: int,
    pub y: int,
    pub content: Seq<char>,
    pub font_size: Option<int>,
}

impl View for AnnotationRecord {
    type V = RecordModel;

    open spec fn view(&self) -> RecordModel {
        RecordModel {
            page: self.page as nat,
            x: self.x as int,
            y: self.y as int,
            content: self.content@,
            font_size: match self.font_size {
                Some(size) => Some(size as int),
                None => None,
            },
        }
    }
}

/// The models of a sequence of records, in order.
pub open spec fn record_models(records: Seq<AnnotationRecord>) -> Seq<RecordModel> {
    records.map_values(|r: AnnotationRecord| r@)
}

/// Whether an annotation is a free-text note: its subtype is the name
/// `FreeText`.
pub open spec fn is_free_text(note: ValueModel) -> bool {
    note.entry(SUBTYPE@) == Some(ValueModel::Name(FREE_TEXT@))
}

/// The text of a note: its contents, where they are a string.
pub open spec fn note_text(note: ValueModel) -> Option<Seq<char>> {
    match note.entry(CONTENTS@) {
        Some(ValueModel::Str(bytes)) => Some(text_of(bytes)),
        _ => None,
    }
}

/// The left and the top edge of a note's box `[left, bottom, right, top]`.
pub open spec fn note_corner(note: ValueModel) -> Option<(int, int)> {
    match note.entry(RECT@) {
        Some(rect) => match (rect.item(0), rect.item(3)) {
            (Some(left), Some(top)) => match (left.number(), top.number()) {
                (Some(x), Some(y)) => Some((x, y)),
                _ => None,
            },
            _ => None,
        },
        None => None,
    }
}

/// The font size of a note: what its appearance string gives, where it has
/// one that is a string.
pub open spec fn note_size(objects: Map<ObjectId, ValueModel>, note: ValueModel) -> Option<int> {
    match resolved_entry(objects, note, DA@) {
        Some(ValueModel::Str(da)) => font_size_of(da),
        _ => None,
    }
}

/// The record of one entry of a page's list of annotations, if it is a
/// free-text note that can be read.
pub open spec fn note_record(
    objects: Map<ObjectId, ValueModel>,
    height: int,
    page: nat,
    item: ValueModel,
) -> Option<RecordModel> {
    match resolved(objects, item) {
        Some(note) => if note is Dict && is_free_text(note) {
            match (note_text(note), note_corner(note)) {
                (Some(text), Some(corner)) => Some(
                    RecordModel {
                        page,
                        x: corner.0,
                        y: caller_space(height, corner.1),
                        content: text,
                        font_size: note_size(objects, note),
                    },
                ),
                _ => None,
            }
        } else {
            None
        },
        None => None,
    }
}

/// The records of a list of annotations, in the order of the list.
pub open spec fn list_records(
    objects: Map<ObjectId, ValueModel>,
    height: int,
    page: nat,
    items: Seq<ValueModel>,
) -> Seq<RecordModel> {
    items.filter_map(|item: ValueModel| note_record(objects, height, page, item))
}

/// The records of the page with index `page` whose dictionary stands under
/// `id`.
pub open spec fn page_records(objects: Map<ObjectId, ValueModel>, page: nat, id: ObjectId) -> Seq<
    RecordModel,
> {
    if objects.dom().contains(id) && objects[id] is Dict {
        match annotation_list(objects, objects[id]) {
            Some(items) => list_records(objects, page_height_of(objects, objects[id]), page, items),
            None => Seq::empty(),
        }
    } else {
        Seq::empty()
    }
}

/// The records of the first `n` pages. The dictionary of a page is looked
/// for under the page's identifier, and one step on where a reference stands
/// there.
pub open spec fn records_upto(objects: Map<ObjectId, ValueModel>, pages: Seq<ObjectId>, n: nat) -> Seq<
    RecordModel,
>
    decreases n,
{
    if n == 0 {
        Seq::empty()
    } else {
        records_upto(objects, pages, (n - 1) as nat) + page_records(
            objects,
            (n - 1) as nat,
            page_place(objects, pages[n - 1]),
        )
    }
}

/// The records of a document: those of its pages, page after page.
pub open spec fn annotations_of(objects: Map<ObjectId, ValueModel>, pages: Seq<ObjectId>) -> Seq<
    RecordModel,
> {
    records_upto(objects, pages, pages.len())
}

/// The left and the top edge of the box of a note.
fn read_corner(note: &Vec<Entry>) -> (corner: Option<(i64, i64)>)
    ensures
        match corner {
            Some(c) => note_corner(ValueModel::Dict(entries_model(note@))) == Some(
                (c.0 as int, c.1 as int),
            ),
            None => note_corner(ValueModel::Dict(entries_model(note@))) is None,
        },
{
    match find_entry(note, &RECT) {
        Some(rect) => match rect.as_array() {
            Ok(items) => {
                proof {
                    lemma_models_of(items@);
                }
                if items.len() < 4 {
                    return None;
                }
                match (items[0].as_number(), items[3].as_number()) {
                    (Ok(x), Ok(y)) => Some((x, y)),
                    _ => None,
                }
            },
            Err(_) => None,
        },
        None => None,
    }
}

/// The font size of a note.
fn read_size(doc: &Document, note: &Vec<Entry>) -> (size: Option<i64>)
    ensures
        match size {
            Some(v) => note_size(doc_objects(*doc), ValueModel::Dict(entries_model(note@)))
                == Some(v as int),
            None => note_size(doc_objects(*doc), ValueModel::Dict(entries_model(note@))) is None,
        },
{
    match find_entry(note, &DA) {
        Some(value) => match resolve(doc, value) {
            Ok(found) => match found.value().as_string() {
                Ok(da) => font_size(da.as_slice()),
                Err(_) => None,
            },
            Err(_) => None,
        },
        None => None,
    }
}

/// Whether the entries are those of a free-text note.
fn has_free_text_subtype(note: &Vec<Entry>) -> (b: bool)
    ensures
        b == is_free_text(ValueModel::Dict(entries_model(note@))),
{
    match find_entry(note, &SUBTYPE) {
        Some(subtype) => match subtype.as_name() {
            Ok(name) => bytes_eq(name.as_slice(), &FREE_TEXT),
            Err(_) => false,
        },
        None => false,
    }
}

/// The text of a note.
fn read_contents(note: &Vec<Entry>) -> (text: Option<String>)
    ensures
        match text {
            Some(t) => note_text(ValueModel::Dict(entries_model(note@))) == Some(t@),
            None => note_text(ValueModel::Dict(entries_model(note@))) is None,
        },
{
    match find_entry(note, &CONTENTS) {
        Some(contents) => match contents.as_string() {
            Ok(bytes) => Some(read_text(bytes.as_slice())),
            Err(_) => None,
        },
        None => None,
    }
}

/// Reads one entry of a page's list of annotations.
pub fn read_note(doc: &Document, height: i64, page: usize, item: &Value) -> (record: Option<
    AnnotationRecord,
>)
    ensures
        match record {
            Some(r) => note_record(doc_objects(*doc), height as int, page as nat, item@) == Some(
                r@,
            ),
            None => note_record(doc_objects(*doc), height as int, page as nat, item@) is None,
        },
{
    let found = match resolve(doc, item) {
        Ok(found) => found,
        Err(_) => {
            return None;
        },
    };
    let note = match found.value().as_dict() {
        Ok(note) => note,
        Err(_) => {
            return None;
        },
    };
    if !has_free_text_subtype(note) {
        return None;
    }
    match (read_contents(note), read_corner(note)) {
        (Some(content), Some(corner)) => Some(
            AnnotationRecord {
                page,
                x: corner.0,
                y: to_caller_space(height, corner.1),
                content,
                font_size: read_size(doc, note),
            },
        ),
        _ => None,
    }
}

/// Reads the notes of one page and adds them to `out`.
pub fn read_page(doc: &Document, page: usize, id: ObjectId, out: &mut Vec<AnnotationRecord>)
    ensures
        record_models(final(out)@) == record_models(old(out)@) + page_records(
            doc_objects(*doc),
            page as nat,
            id,
        ),
{
    let ghost objects = doc_objects(*doc);
    let ghost before = record_models(out@);
    assert(before + Seq::<RecordModel>::empty() =~= before);
    let entries = match lookup(doc, id) {
        Some(Value::Dict(entries)) => entries,
        _ => {
            return ;
        },
    };
    let list = match find_entry(&entries, &ANNOTS) {
        Some(list) => list,
        None => {
            return ;
        },
    };
    let found = match resolve(doc, list) {
        Ok(found) => found,
        Err(_) => {
            return ;
        },
    };
    let items = match found.value().as_array() {
        Ok(items) => items,
        Err(_) => {
            return ;
        },
    };
    let height = page_height(doc, &entries);
    let ghost models = models_of(items@);
    let ghost read = |item: ValueModel| note_record(objects, height as int, page as nat, item);
    proof {
        lemma_models_of(items@);
        assert(annotation_list(objects, objects[id]) == Some(models));
        assert(models.take(0) =~= Seq::<ValueModel>::empty());
    }
    let mut i: usize = 0;
    while i < items.len()
        invariant
            i <= items.len(),
            objects == doc_objects(*doc),
            models == models_of(items@),
            models.len() == items.len(),
            forall|j: int| 0 <= j < items.len() ==> #[trigger] models[j] == items@[j]@,
            read == |item: ValueModel| note_record(objects, height as int, page as nat, item),
            record_models(out@) == before + models.take(i as int).filter_map(read),
        decreases items.len() - i,
    {
        let ghost so_far = record_models(out@);
        proof {
            assert(models.take(i + 1).drop_last() =~= models.take(i as int));
            assert(models.take(i + 1).last() == items@[i as int]@);
        }
        match read_note(doc, height, page, &items[i]) {
            Some(record) => {
                out.push(record);
                assert(record_models(out@) =~= so_far.push(record@));
                assert(record_models(out@) =~= before + models.take(i + 1).filter_map(read));
            },
            None => {},
        }
        i += 1;
    }
    assert(models.take(i as int) =~= models);
}

/// Reads the free-text notes of a document.
pub fn read_annotations(doc: &Document) -> (records: Vec<AnnotationRecord>)
    ensures
        record_models(records@) == annotations_of(doc_objects(*doc), doc_pages(*doc)),
{
    let pages = page_ids(doc);
    let mut out: Vec<AnnotationRecord> = Vec::new();
    let mut i: usize = 0;
    assert(record_models(out@) =~= Seq::<RecordModel>::empty());
    while i < pages.len()
        invariant
            i <= pages.len(),
            pages@ == doc_pages(*doc),
            record_models(out@) == records_upto(doc_objects(*doc), pages@, i as nat),
        decreases pages.len() - i,
    {
        let place = locate_page(doc, pages[i]);
        read_page(doc, i, place, &mut out);
        i += 1;
    }
    out
}

/// An annotation whose subtype is not `FreeText`, or that has none, gives no
/// record.
pub proof fn lemma_other_kinds_are_skipped(
    objects: Map<ObjectId, ValueModel>,
    height: int,
    page: nat,
    item: ValueModel,
)
    requires
        resolved(objects, item) matches Some(note) ==> !is_free_text(note),
    ensures
        note_record(objects, height, page, item) is None,
{
}

/// A list with one more entry gives the records of the list and then the
/// record of that entry, if the entry gives one.
pub proof fn lemma_list_records_push(
    objects: Map<ObjectId, ValueModel>,
    height: int,
    page: nat,
    items: Seq<ValueModel>,
    item: ValueModel,
)
    ensures
        list_records(objects, height, page, items.push(item)) == match note_record(
            objects,
            height,
            page,
            item,
        ) {
            Some(record) => list_records(objects, height, page, items).push(record),
            None => list_records(objects, height, page, items),
        },
{
    assert(items.push(item).drop_last() =~= items);
    let read = |item: ValueModel| note_record(objects, height, page, item);
    match note_record(objects, height, page, item) {
        Some(record) => {
            assert(items.filter_map(read) + seq![record] =~= items.filter_map(read).push(record));
        },
        None => {},
    }
}

} // verus!
