//! What a page states of itself: the height of its box, and its list of
//! annotations.

use vstd::prelude::*;
use lopdf::Document;
use crate::accessor::{resolve, resolved_entry};
use crate::document::{doc_objects, lookup};
use crate::fixed::{clamp, sat_sub};
use crate::geometry::DEFAULT_PAGE_HEIGHT;
use crate::object::{entries_model, find_entry, lemma_models_of, Entry, ObjectId, Value, ValueModel};

verus! {

/// `MediaBox`
pub const MEDIA_BOX: [u8; 8] = [77, 101, 100, 105, 97, 66, 111, 120];

/// `Annots`
pub const ANNOTS: [u8; 6] = [65, 110, 110, 111, 116, 115];

/// The height of a box `[x0, y0, x1, y1]`: `y1 - y0`. `None` where the value
/// is no array of four or more with numbers in those two places.
pub open spec fn box_height(bx: ValueModel) -> Option<int> {
    match (bx.item(1), bx.item(3)) {
        (Some(low), Some(high)) => match (low.number(), high.number()) {
            (Some(y0), Some(y1)) => Some(clamp(y1 - y0)),
            _ => None,
        },
        _ => None,
    }
}

/// The height of a page: that of its own box, and the default where the page
/// has no box or one that cannot be read.
pub open spec fn page_height_of(objects: Map<ObjectId, ValueModel>, page: ValueModel) -> int {
    match resolved_entry(objects, page, MEDIA_BOX@) {
        Some(bx) => match box_height(bx) {
            Some(height) => height,
            None => DEFAULT_PAGE_HEIGHT as int,
        },
        None => DEFAULT_PAGE_HEIGHT as int,
    }
}

/// The identifier under which the dictionary of a page stands: the page's
/// own, or, where the object under that is a reference, the one that it
/// refers to. One step only.
pub open spec fn page_place(objects: Map<ObjectId, ValueModel>, id: ObjectId) -> ObjectId {
    if objects.dom().contains(id) && objects[id] is Reference {
        objects[id]->Reference_0
    } else {
        id
    }
}

/// The height of the page under `id`; the default where the table holds no
/// dictionary there.
pub open spec fn height_at(objects: Map<ObjectId, ValueModel>, id: ObjectId) -> int {
    if objects.dom().contains(id) && objects[id] is Dict {
        page_height_of(objects, objects[id])
    } else {
        DEFAULT_PAGE_HEIGHT as int
    }
}

/// The list of annotations of a page, reached through the table. `None`
/// where the page has none or what it has is no array.
pub open spec fn annotation_list(objects: Map<ObjectId, ValueModel>, page: ValueModel) -> Option<
    Seq<ValueModel>,
> {
    match resolved_entry(objects, page, ANNOTS@) {
        Some(ValueModel::Array(items)) => Some(items),
        _ => None,
    }
}

/// The height of a box.
pub fn measure_box(bx: &Value) -> (height: Option<i64>)
    ensures
        match height {
            Some(h) => box_height(bx@) == Some(h as int),
            None => box_height(bx@) is None,
        },
{
    match bx.as_array() {
        Ok(items) => {
            proof {
                lemma_models_of(items@);
            }
            if items.len() < 4 {
                return None;
            }
            match (items[1].as_number(), items[3].as_number()) {
                (Ok(y0), Ok(y1)) => Some(sat_sub(y1, y0)),
                _ => None,
            }
        },
        Err(_) => None,
    }
}

/// The height of the page with these entries.
pub fn page_height(doc: &Document, page: &Vec<Entry>) -> (height: i64)
    ensures
        height == page_height_of(doc_objects(*doc), ValueModel::Dict(entries_model(page@))),
{
    match find_entry(page, &MEDIA_BOX) {
        Some(value) => match resolve(doc, value) {
            Ok(found) => match measure_box(found.value()) {
                Some(height) => height,
                None => DEFAULT_PAGE_HEIGHT,
            },
            Err(_) => DEFAULT_PAGE_HEIGHT,
        },
        None => DEFAULT_PAGE_HEIGHT,
    }
}

/// The identifier under which the dictionary of the page `id` stands.
pub fn locate_page(doc: &Document, id: ObjectId) -> (place: ObjectId)
    ensures
        place == page_place(doc_objects(*doc), id),
{
    match lookup(doc, id) {
        Some(Value::Reference(target)) => target,
        _ => id,
    }
}

/// The height of the page under `id`.
pub fn page_height_at(doc: &Document, id: ObjectId) -> (height: i64)
    ensures
        height == height_at(doc_objects(*doc), id),
{
    match lookup(doc, id) {
        Some(Value::Dict(page)) => page_height(doc, &page),
        _ => DEFAULT_PAGE_HEIGHT,
    }
}

/// A page that states no box has the default height, read or written.
pub proof fn lemma_page_without_box(objects: Map<ObjectId, ValueModel>, id: ObjectId)
    requires
        objects.dom().contains(id),
        objects[id] is Dict,
        objects[id].entry(MEDIA_BOX@) is None,
    ensures
        page_height_of(objects, objects[id]) == DEFAULT_PAGE_HEIGHT,
        height_at(objects, id) == DEFAULT_PAGE_HEIGHT,
{
}

} // verus!
