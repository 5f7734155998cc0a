use base64::Engine;
use lopdf::{Dictionary, Document, Object, ObjectId, StringFormat};
use pdf_notes::file::{
    encode_file, encode_persisted, load_annotations, open, open_pdf_file, opened, persist,
    persist_written, persisted, read_opened, save_pdf_with_annotations, strip_opened, write_opened,
    FileError,
};
use pdf_notes::reader::{read_annotations, read_note, AnnotationRecord};
use pdf_notes::accessor::resolve;
use pdf_notes::grouping::{group_by_page, places_for};
use pdf_notes::object::Value;
use pdf_notes::writer::{
    note_for, strip_annotations, try_write_annotations, write_annotations, OutOfObjectNumbers,
};

fn name(text: &str) -> Object {
    Object::Name(text.as_bytes().to_vec())
}

fn literal(text: &str) -> Object {
    Object::String(text.as_bytes().to_vec(), StringFormat::Literal)
}

fn whole(numbers: [i64; 4]) -> Object {
    Object::Array(numbers.iter().map(|n| Object::Integer(*n)).collect())
}

/// A document of `boxes.len()` pages; a page gets the box given for it, or none.
fn document(boxes: &[Option<Object>]) -> (Document, Vec<ObjectId>) {
    let mut doc = Document::with_version("1.5");
    let tree = doc.new_object_id();
    let mut ids = Vec::new();
    for media_box in boxes {
        let mut page = Dictionary::new();
        page.set("Type", name("Page"));
        page.set("Parent", Object::Reference(tree));
        if let Some(media_box) = media_box {
            page.set("MediaBox", media_box.clone());
        }
        ids.push(doc.add_object(page));
    }
    let mut pages = Dictionary::new();
    pages.set("Type", name("Pages"));
    pages.set("Kids", Object::Array(ids.iter().map(|id| Object::Reference(*id)).collect()));
    pages.set("Count", Object::Integer(ids.len() as i64));
    doc.objects.insert(tree, Object::Dictionary(pages));
    let mut catalog = Dictionary::new();
    catalog.set("Type", name("Catalog"));
    catalog.set("Pages", Object::Reference(tree));
    let root = doc.add_object(catalog);
    doc.trailer.set("Root", Object::Reference(root));
    (doc, ids)
}

fn a4(pages: usize) -> (Document, Vec<ObjectId>) {
    let boxes: Vec<Option<Object>> = (0..pages).map(|_| Some(whole([0, 0, 595, 842]))).collect();
    document(&boxes)
}

fn record(page: usize, x: i64, y: i64, content: &str, font_size: Option<i64>) -> AnnotationRecord {
    AnnotationRecord { page, x, y, content: content.to_string(), font_size }
}

fn page_dict(doc: &Document, page: ObjectId) -> &Dictionary {
    doc.objects.get(&page).unwrap().as_dict().unwrap()
}

fn annots(doc: &Document, page: ObjectId) -> Option<Vec<Object>> {
    page_dict(doc, page).get(b"Annots").ok().map(|list| list.as_array().unwrap().clone())
}

fn set_annots(doc: &mut Document, page: ObjectId, list: Object) {
    doc.objects.get_mut(&page).unwrap().as_dict_mut().unwrap().set("Annots", list);
}

fn note<'a>(doc: &'a Document, reference: &Object) -> &'a Dictionary {
    let id = reference.as_reference().unwrap();
    doc.objects.get(&id).unwrap().as_dict().unwrap()
}

fn reals(object: &Object) -> Vec<f32> {
    object.as_array().unwrap().iter().map(|n| n.as_f32().unwrap()).collect()
}

/// A free-text note as another writer could have made it.
fn free_text(contents: &str, da: Option<&str>, rect: Object) -> Dictionary {
    let mut dict = Dictionary::new();
    dict.set("Type", name("Annot"));
    dict.set("Subtype", name("FreeText"));
    dict.set("Contents", literal(contents));
    if let Some(da) = da {
        dict.set("DA", literal(da));
    }
    dict.set("Rect", rect);
    dict
}

fn link() -> Dictionary {
    let mut dict = Dictionary::new();
    dict.set("Type", name("Annot"));
    dict.set("Subtype", name("Link"));
    dict.set("Contents", literal("a link"));
    dict.set("Rect", whole([10, 10, 50, 50]));
    dict
}

fn saved_and_loaded(doc: &mut Document) -> Document {
    let mut bytes = Vec::new();
    doc.save_to(&mut bytes).unwrap();
    Document::load_mem(&bytes).unwrap()
}

#[test]
fn written_note_reads_back() {
    let (mut doc, ids) = a4(1);
    let records = vec![record(0, 50_000, 100_000, "hello", Some(12_000))];
    write_annotations(&mut doc, &records);
    assert_eq!(read_annotations(&doc), records);
    let list = annots(&doc, ids[0]).unwrap();
    assert_eq!(list.len(), 1);
    let written = note(&doc, &list[0]);
    assert_eq!(written.len(), 5);
    assert_eq!(written.get(b"Type").unwrap(), &name("Annot"));
    assert_eq!(written.get(b"Subtype").unwrap(), &name("FreeText"));
    assert_eq!(written.get(b"Contents").unwrap(), &literal("hello"));
    assert_eq!(written.get(b"DA").unwrap(), &literal("0 0 0 rg /Helv 12 Tf"));
    assert_eq!(reals(written.get(b"Rect").unwrap()), vec![50.0, 724.0, 250.0, 742.0]);
    assert_eq!(read_annotations(&saved_and_loaded(&mut doc)), records);
}

#[test]
fn written_note_keeps_parts_of_a_unit() {
    let (mut doc, ids) = a4(1);
    let records = vec![record(0, 50_500, 100_250, "h\u{e9} (x) \\ y", Some(12_500))];
    write_annotations(&mut doc, &records);
    let list = annots(&doc, ids[0]).unwrap();
    let written = note(&doc, &list[0]);
    assert_eq!(written.get(b"DA").unwrap(), &literal("0 0 0 rg /Helv 12.5 Tf"));
    assert_eq!(reals(written.get(b"Rect").unwrap()), vec![50.5, 723.0, 250.5, 741.75]);
    assert_eq!(read_annotations(&doc), records);
    assert_eq!(read_annotations(&saved_and_loaded(&mut doc)), records);
}

#[test]
fn writing_twice_does_not_accumulate() {
    let (mut doc, ids) = a4(2);
    let records = vec![record(0, 10_000, 20_000, "once", Some(10_000))];
    write_annotations(&mut doc, &records);
    let first = annots(&doc, ids[0]).unwrap();
    write_annotations(&mut doc, &records);
    let second = annots(&doc, ids[0]).unwrap();
    assert_eq!(first.len(), 1);
    assert_eq!(second.len(), 1);
    assert_ne!(first, second);
    assert_eq!(annots(&doc, ids[1]), None);
    assert_eq!(read_annotations(&doc), records);
    assert_eq!(read_annotations(&saved_and_loaded(&mut doc)), records);
}

#[test]
fn empty_write_removes_the_list() {
    let (mut doc, ids) = a4(1);
    let records = vec![record(0, 1_000, 2_000, "a", None), record(0, 3_000, 4_000, "b", None)];
    write_annotations(&mut doc, &records);
    assert_eq!(annots(&doc, ids[0]).unwrap().len(), 2);
    write_annotations(&mut doc, &Vec::new());
    assert!(!page_dict(&doc, ids[0]).has(b"Annots"));
    assert_eq!(read_annotations(&doc), Vec::new());
    let loaded = saved_and_loaded(&mut doc);
    let page = loaded.get_pages()[&1];
    assert!(!page_dict(&loaded, page).has(b"Annots"));
}

#[test]
fn page_without_box_has_the_default_height() {
    let (mut doc, ids) = document(&[None]);
    let records = vec![record(0, 0, 100_000, "top", Some(10_000))];
    write_annotations(&mut doc, &records);
    let list = annots(&doc, ids[0]).unwrap();
    assert_eq!(reals(note(&doc, &list[0]).get(b"Rect").unwrap()), vec![0.0, 727.0, 200.0, 742.0]);
    assert_eq!(read_annotations(&doc), records);
    let (mut doc, ids) = document(&[None]);
    let other = doc.add_object(free_text("t", None, whole([5, 700, 205, 742])));
    set_annots(&mut doc, ids[0], Object::Array(vec![Object::Reference(other)]));
    assert_eq!(read_annotations(&doc), vec![record(0, 5_000, 100_000, "t", None)]);
}

#[test]
fn page_with_a_box_that_cannot_be_read_has_the_default_height() {
    for media_box in [
        Object::Null,
        Object::Integer(842),
        Object::Array(vec![Object::Integer(0), Object::Integer(0), Object::Integer(595)]),
        Object::Array(vec![Object::Integer(0), name("x"), Object::Integer(595), Object::Integer(500)]),
        Object::Reference((99, 0)),
    ] {
        let (mut doc, ids) = document(&[Some(media_box)]);
        write_annotations(&mut doc, &vec![record(0, 0, 100_000, "top", Some(10_000))]);
        let list = annots(&doc, ids[0]).unwrap();
        assert_eq!(reals(note(&doc, &list[0]).get(b"Rect").unwrap())[3], 742.0);
        assert_eq!(read_annotations(&doc)[0].y, 100_000);
    }
}

#[test]
fn height_is_that_of_the_page_written_or_read() {
    let tall = Object::Array(vec![
        Object::Integer(0),
        Object::Real(100.5),
        Object::Integer(300),
        Object::Real(1100.5),
    ]);
    let (mut doc, ids) = document(&[Some(whole([0, 0, 200, 400])), Some(tall)]);
    let records = vec![record(1, 0, 250_000, "low", Some(8_000)), record(0, 0, 250_000, "high", Some(8_000))];
    write_annotations(&mut doc, &records);
    let first = annots(&doc, ids[0]).unwrap();
    let second = annots(&doc, ids[1]).unwrap();
    assert_eq!(reals(note(&doc, &first[0]).get(b"Rect").unwrap()), vec![0.0, 138.0, 200.0, 150.0]);
    assert_eq!(reals(note(&doc, &second[0]).get(b"Rect").unwrap()), vec![0.0, 738.0, 200.0, 750.0]);
    assert_eq!(
        read_annotations(&doc),
        vec![record(0, 0, 250_000, "high", Some(8_000)), record(1, 0, 250_000, "low", Some(8_000))]
    );
}

#[test]
fn font_size_defaults_to_fourteen_when_written() {
    let (mut doc, ids) = a4(1);
    write_annotations(&mut doc, &vec![record(0, 0, 0, "plain", None)]);
    let list = annots(&doc, ids[0]).unwrap();
    let written = note(&doc, &list[0]);
    assert_eq!(written.get(b"DA").unwrap(), &literal("0 0 0 rg /Helv 14 Tf"));
    assert_eq!(reals(written.get(b"Rect").unwrap()), vec![0.0, 821.0, 200.0, 842.0]);
    assert_eq!(read_annotations(&doc), vec![record(0, 0, 0, "plain", Some(14_000))]);
}

#[test]
fn font_size_is_absent_when_the_appearance_names_none() {
    for da in [None, Some(""), Some("0 0 0 rg"), Some("/Helv Tf"), Some("/Helv big Tf"), Some("12")] {
        let (mut doc, ids) = a4(1);
        let other = doc.add_object(free_text("t", da, whole([0, 0, 10, 842])));
        set_annots(&mut doc, ids[0], Object::Array(vec![Object::Reference(other)]));
        assert_eq!(read_annotations(&doc), vec![record(0, 0, 0, "t", None)]);
    }
}

#[test]
fn font_size_is_absent_when_the_appearance_is_no_string() {
    for da in [Object::Integer(12), name("Tf"), Object::Reference((77, 0)), Object::Null] {
        let (mut doc, ids) = a4(1);
        let mut dict = free_text("t", None, whole([0, 0, 10, 842]));
        dict.set("DA", da);
        let other = doc.add_object(dict);
        set_annots(&mut doc, ids[0], Object::Array(vec![Object::Reference(other)]));
        assert_eq!(read_annotations(&doc), vec![record(0, 0, 0, "t", None)]);
    }
}

#[test]
fn appearance_is_reached_through_a_reference() {
    let (mut doc, ids) = a4(1);
    let shared = doc.add_object(literal("1 0 0 rg /F1 9.5 Tf"));
    let mut dict = free_text("t", None, whole([0, 0, 10, 842]));
    dict.set("DA", Object::Reference(shared));
    let other = doc.add_object(dict);
    set_annots(&mut doc, ids[0], Object::Array(vec![Object::Reference(other)]));
    assert_eq!(read_annotations(&doc), vec![record(0, 0, 0, "t", Some(9_500))]);
}

#[test]
fn other_kinds_of_annotation_are_skipped() {
    let (mut doc, ids) = a4(1);
    let a_link = doc.add_object(link());
    let a_note = doc.add_object(free_text("kept", Some("/Helv 11 Tf"), whole([20, 30, 220, 800])));
    set_annots(
        &mut doc,
        ids[0],
        Object::Array(vec![Object::Reference(a_link), Object::Reference(a_note)]),
    );
    assert_eq!(read_annotations(&doc), vec![record(0, 20_000, 42_000, "kept", Some(11_000))]);
}

#[test]
fn entries_that_cannot_be_read_are_skipped() {
    let (mut doc, ids) = a4(1);
    let mut no_subtype = free_text("a", None, whole([0, 0, 1, 1]));
    no_subtype.remove(b"Subtype");
    let mut string_subtype = free_text("b", None, whole([0, 0, 1, 1]));
    string_subtype.set("Subtype", literal("FreeText"));
    let mut no_contents = free_text("c", None, whole([0, 0, 1, 1]));
    no_contents.remove(b"Contents");
    let mut name_contents = free_text("d", None, whole([0, 0, 1, 1]));
    name_contents.set("Contents", name("d"));
    let mut no_rect = free_text("e", None, whole([0, 0, 1, 1]));
    no_rect.remove(b"Rect");
    let short_rect = free_text("f", None, Object::Array(vec![Object::Integer(0); 3]));
    let odd_rect = free_text(
        "g",
        None,
        Object::Array(vec![Object::Integer(0), Object::Integer(0), Object::Integer(0), Object::Null]),
    );
    let name_rect = free_text("h", None, name("Rect"));
    let good = free_text("good", None, whole([1, 2, 3, 4]));
    let mut list = vec![Object::Reference((500, 0)), Object::Integer(3), literal("note"), Object::Null];
    for dict in [no_subtype, string_subtype, no_contents, name_contents, no_rect, short_rect, odd_rect, name_rect] {
        list.push(Object::Reference(doc.add_object(dict)));
    }
    list.push(Object::Reference(doc.add_object(Object::Integer(1))));
    list.push(Object::Reference(doc.add_object(good)));
    set_annots(&mut doc, ids[0], Object::Array(list));
    assert_eq!(read_annotations(&doc), vec![record(0, 1_000, 838_000, "good", None)]);
}

#[test]
fn list_and_entries_may_be_inline_or_referenced() {
    let (mut doc, ids) = a4(2);
    let inline = Object::Dictionary(free_text("inline", None, whole([0, 0, 10, 842])));
    let referenced = doc.add_object(free_text("referenced", None, whole([0, 0, 10, 841])));
    set_annots(&mut doc, ids[0], Object::Array(vec![inline, Object::Reference(referenced)]));
    let elsewhere = doc.add_object(Object::Array(vec![Object::Reference(referenced)]));
    set_annots(&mut doc, ids[1], Object::Reference(elsewhere));
    assert_eq!(
        read_annotations(&doc),
        vec![
            record(0, 0, 0, "inline", None),
            record(0, 0, 1_000, "referenced", None),
            record(1, 0, 1_000, "referenced", None),
        ]
    );
}

#[test]
fn pages_that_cannot_be_read_are_skipped() {
    let (mut doc, ids) = a4(4);
    let good = doc.add_object(free_text("good", None, whole([0, 0, 10, 842])));
    set_annots(&mut doc, ids[0], name("Annots"));
    set_annots(&mut doc, ids[1], Object::Reference((600, 0)));
    doc.objects.insert(ids[2], Object::Integer(0));
    set_annots(&mut doc, ids[3], Object::Array(vec![Object::Reference(good)]));
    assert_eq!(read_annotations(&doc), vec![record(3, 0, 0, "good", None)]);
    let (doc, _) = a4(3);
    assert_eq!(read_annotations(&doc), Vec::new());
    assert_eq!(read_annotations(&Document::with_version("1.5")), Vec::new());
}

#[test]
fn text_that_is_no_utf8_is_read_with_replacements() {
    let (mut doc, ids) = a4(1);
    let mut dict = free_text("", None, whole([0, 0, 10, 842]));
    dict.set("Contents", Object::String(vec![b'a', 0xff, b'b'], StringFormat::Literal));
    let other = doc.add_object(dict);
    set_annots(&mut doc, ids[0], Object::Array(vec![Object::Reference(other)]));
    assert_eq!(read_annotations(&doc), vec![record(0, 0, 0, "a\u{fffd}b", None)]);
}

#[test]
fn one_entry_is_read_with_the_height_given() {
    let doc = Document::with_version("1.5");
    let item = Value::Dict(vec![
        pdf_notes::object::Entry { key: b"Subtype".to_vec(), value: Value::Name(b"FreeText".to_vec()) },
        pdf_notes::object::Entry { key: b"Contents".to_vec(), value: Value::Str(b"x".to_vec()) },
        pdf_notes::object::Entry {
            key: b"Rect".to_vec(),
            value: Value::Array(vec![
                Value::Real(b"1.5".to_vec()),
                Value::Null,
                Value::Null,
                Value::Integer(30),
            ]),
        },
    ]);
    assert_eq!(read_note(&doc, 100_000, 4, &item), Some(record(4, 1_500, 70_000, "x", None)));
    assert_eq!(read_note(&doc, 0, 0, &item), Some(record(0, 1_500, -30_000, "x", None)));
    assert_eq!(read_note(&doc, 0, 0, &Value::Null), None);
}

#[test]
fn notes_go_to_their_pages_in_the_order_given() {
    let (mut doc, ids) = a4(3);
    let records = vec![
        record(2, 1_000, 1_000, "c1", Some(9_000)),
        record(0, 2_000, 2_000, "a1", Some(9_000)),
        record(2, 3_000, 3_000, "c2", Some(9_000)),
        record(0, 4_000, 4_000, "a2", Some(9_000)),
        record(7, 5_000, 5_000, "nowhere", Some(9_000)),
    ];
    let objects_before = doc.objects.len();
    write_annotations(&mut doc, &records);
    assert_eq!(doc.objects.len(), objects_before + 4);
    assert_eq!(annots(&doc, ids[0]).unwrap().len(), 2);
    assert_eq!(annots(&doc, ids[1]), None);
    assert_eq!(annots(&doc, ids[2]).unwrap().len(), 2);
    assert_eq!(
        read_annotations(&doc),
        vec![
            record(0, 2_000, 2_000, "a1", Some(9_000)),
            record(0, 4_000, 4_000, "a2", Some(9_000)),
            record(2, 1_000, 1_000, "c1", Some(9_000)),
            record(2, 3_000, 3_000, "c2", Some(9_000)),
        ]
    );
}

#[test]
fn writing_replaces_what_a_page_listed_and_keeps_the_rest() {
    let (mut doc, ids) = a4(2);
    let a_link = doc.add_object(link());
    set_annots(&mut doc, ids[0], Object::Array(vec![Object::Reference(a_link)]));
    set_annots(&mut doc, ids[1], Object::Array(vec![Object::Reference(a_link)]));
    let before = page_dict(&doc, ids[0]).clone();
    write_annotations(&mut doc, &vec![record(0, 0, 0, "new", None)]);
    let after = page_dict(&doc, ids[0]);
    assert_eq!(after.len(), before.len());
    assert_eq!(after.get(b"Type").unwrap(), before.get(b"Type").unwrap());
    assert_eq!(after.get(b"Parent").unwrap(), before.get(b"Parent").unwrap());
    assert_eq!(after.get(b"MediaBox").unwrap(), before.get(b"MediaBox").unwrap());
    let list = annots(&doc, ids[0]).unwrap();
    assert_eq!(list.len(), 1);
    assert_ne!(list[0], Object::Reference(a_link));
    assert_eq!(annots(&doc, ids[1]), None);
    assert!(doc.objects.contains_key(&a_link));
}

#[test]
fn page_that_is_no_dictionary_is_left_as_it_is() {
    let (mut doc, ids) = a4(2);
    doc.objects.insert(ids[0], Object::Integer(5));
    let count = doc.objects.len();
    write_annotations(&mut doc, &vec![record(0, 0, 0, "lost", None), record(1, 0, 0, "kept", None)]);
    assert_eq!(doc.objects.get(&ids[0]), Some(&Object::Integer(5)));
    assert_eq!(doc.objects.len(), count + 2);
    assert_eq!(read_annotations(&doc), vec![record(1, 0, 0, "kept", Some(14_000))]);
}

#[test]
fn note_for_a_record() {
    let note = note_for(842_000, &record(0, 50_000, 100_000, "hello", Some(12_000)));
    let entries = note.as_dict().unwrap();
    let keys: Vec<&[u8]> = entries.iter().map(|e| e.key.as_slice()).collect();
    assert_eq!(keys, vec![&b"Type"[..], &b"Subtype"[..], &b"DA"[..], &b"Contents"[..], &b"Rect"[..]]);
    assert_eq!(entries[0].value, Value::Name(b"Annot".to_vec()));
    assert_eq!(entries[1].value, Value::Name(b"FreeText".to_vec()));
    assert_eq!(entries[2].value, Value::Str(b"0 0 0 rg /Helv 12 Tf".to_vec()));
    assert_eq!(entries[3].value, Value::Str(b"hello".to_vec()));
    assert_eq!(
        entries[4].value,
        Value::Array(vec![
            Value::Real(b"50".to_vec()),
            Value::Real(b"724".to_vec()),
            Value::Real(b"250".to_vec()),
            Value::Real(b"742".to_vec()),
        ])
    );
}

#[test]
fn numbers_are_kept_as_the_document_holds_them() {
    let note = note_for(0, &record(0, 123_456_789_123, 0, "", None));
    let rect = pdf_notes::object::find_entry(note.as_dict().unwrap(), b"Rect").unwrap();
    assert_eq!(rect.as_array().unwrap()[0], Value::Real(b"123456790".to_vec()));
    let (mut doc, _) = a4(1);
    write_annotations(&mut doc, &vec![record(0, 123_456_789_123, 0, "", None)]);
    assert_eq!(read_annotations(&doc)[0].x, 123_456_790_000);
}

#[test]
fn writing_stops_where_object_numbers_run_out() {
    let (mut doc, ids) = a4(1);
    doc.max_id = u32::MAX - 1;
    let records = vec![record(0, 0, 0, "a", None), record(0, 0, 0, "b", None)];
    let count = doc.objects.len();
    assert_eq!(try_write_annotations(&mut doc, &records), Err(OutOfObjectNumbers));
    assert_eq!(doc.objects.len(), count);
    assert_eq!(doc.max_id, u32::MAX - 1);
    assert_eq!(annots(&doc, ids[0]), None);
    assert_eq!(try_write_annotations(&mut doc, &records[..1].to_vec()), Ok(()));
    assert_eq!(doc.max_id, u32::MAX);
    assert_eq!(annots(&doc, ids[0]), Some(vec![Object::Reference((u32::MAX, 0))]));
    assert_eq!(try_write_annotations(&mut doc, &Vec::new()), Ok(()));
    assert_eq!(annots(&doc, ids[0]), None);
}

#[test]
fn strip_takes_every_list() {
    let (mut doc, ids) = a4(3);
    let records = vec![record(0, 0, 0, "a", None), record(2, 0, 0, "b", None)];
    assert_eq!(try_write_annotations(&mut doc, &records), Ok(()));
    doc.objects.insert(ids[1], Object::Integer(1));
    let count = doc.objects.len();
    strip_annotations(&mut doc);
    assert_eq!(annots(&doc, ids[0]), None);
    assert_eq!(doc.objects.get(&ids[1]), Some(&Object::Integer(1)));
    assert_eq!(annots(&doc, ids[2]), None);
    assert_eq!(doc.objects.len(), count);
    assert_eq!(page_dict(&doc, ids[0]).len(), 3);
    assert_eq!(read_annotations(&doc), Vec::new());
}

fn bytes_of(doc: &mut Document) -> Vec<u8> {
    let mut bytes = Vec::new();
    doc.save_to(&mut bytes).unwrap();
    bytes
}

fn is_load_error<T>(result: &Result<T, FileError>) -> bool {
    matches!(result, Err(FileError::Load(why)) if !why.is_empty())
}

#[test]
fn file_is_opened_for_display_without_annotations_in_base64() {
    let (mut doc, _) = a4(2);
    write_annotations(&mut doc, &vec![record(1, 0, 0, "a", None)]);
    let text = open_pdf_file(&bytes_of(&mut doc)).unwrap();
    let bytes = base64::engine::general_purpose::STANDARD.decode(text).unwrap();
    assert!(bytes.starts_with(b"%PDF-1.5"));
    let loaded = Document::load_mem(&bytes).unwrap();
    let pages = loaded.get_pages();
    assert_eq!(pages.len(), 2);
    assert!(!page_dict(&loaded, pages[&1]).has(b"Annots"));
    assert!(!page_dict(&loaded, pages[&2]).has(b"Annots"));
    assert_eq!(read_annotations(&loaded), Vec::new());
}

#[test]
fn file_is_encoded_in_the_standard_alphabet_with_padding() {
    assert_eq!(encode_file(b""), Ok(String::new()));
    assert_eq!(encode_file(b"f"), Ok("Zg==".to_string()));
    assert_eq!(encode_file(b"fo"), Ok("Zm8=".to_string()));
    assert_eq!(encode_file(b"foo"), Ok("Zm9v".to_string()));
    assert_eq!(encode_file(&[0xfb, 0xff, 0xbf]), Ok("+/+/".to_string()));
    assert_eq!(encode_persisted(Ok(b"hello".to_vec())), Ok("aGVsbG8=".to_string()));
}

#[test]
fn bytes_that_are_no_document_are_refused() {
    assert!(is_load_error(&open(b"")));
    assert!(is_load_error(&open(b"not a document")));
    assert!(is_load_error(&load_annotations(b"%PDF-1.5 and then nothing")));
    assert!(is_load_error(&save_pdf_with_annotations(b"", &Vec::new())));
    assert!(is_load_error(&open_pdf_file(b"")));
}

#[test]
fn failures_are_passed_on() {
    let failed = || FileError::Load("no file".to_string());
    assert_eq!(read_opened(Err(failed())), Err(failed()));
    assert!(matches!(write_opened(Err(failed()), &Vec::new()), Err(e) if e == failed()));
    assert!(matches!(strip_opened(Err(failed())), Err(e) if e == failed()));
    assert_eq!(persist_written(Err(failed())), Err(failed()));
    assert_eq!(persist_written(Err(FileError::OutOfObjectNumbers)), Err(FileError::OutOfObjectNumbers));
    assert_eq!(
        encode_persisted(Err(FileError::Persist("disk full".to_string()))),
        Err(FileError::Persist("disk full".to_string()))
    );
}

#[test]
fn notes_are_saved_to_a_file_and_loaded_from_it() {
    let (mut doc, _) = a4(2);
    let file = bytes_of(&mut doc);
    assert_eq!(load_annotations(&file), Ok(Vec::new()));
    let records = vec![
        record(1, 72_000, 144_000, "second page", Some(10_000)),
        record(0, 36_125, 18_500, "first page", Some(12_500)),
    ];
    let saved = save_pdf_with_annotations(&file, &records).unwrap();
    assert_eq!(
        load_annotations(&saved),
        Ok(vec![
            record(0, 36_125, 18_500, "first page", Some(12_500)),
            record(1, 72_000, 144_000, "second page", Some(10_000)),
        ])
    );
    let again = save_pdf_with_annotations(&saved, &records[..1].to_vec()).unwrap();
    assert_eq!(load_annotations(&again), Ok(records[..1].to_vec()));
    let cleared = save_pdf_with_annotations(&again, &Vec::new()).unwrap();
    assert_eq!(load_annotations(&cleared), Ok(Vec::new()));
}

#[test]
fn opened_document_is_worked_on() {
    let (mut doc, ids) = a4(1);
    let file = bytes_of(&mut doc);
    let records = vec![record(0, 0, 0, "a", None)];
    let written = write_opened(open(&file), &records).unwrap();
    let page = written.get_pages()[&1];
    assert_eq!(annots(&written, page).unwrap().len(), 1);
    let stripped = strip_opened(Ok(written)).unwrap();
    assert_eq!(annots(&stripped, page), None);
    assert!(persist(stripped).unwrap().starts_with(b"%PDF-"));
    doc.max_id = u32::MAX;
    assert!(matches!(write_opened(Ok(doc), &records), Err(FileError::OutOfObjectNumbers)));
    assert_eq!(ids.len(), 1);
}

#[test]
fn stored_note_is_held_as_it_was_made() {
    for (x, y, size) in [
        (50_000, 100_000, Some(12_000)),
        (123_456_789_123, 1, Some(12_345)),
        (-7, 841_999, None),
        (i64::MAX, i64::MIN, Some(i64::MAX)),
        (333, 666_667, Some(1)),
    ] {
        let (mut doc, ids) = a4(1);
        let written = record(0, x, y, "kept \u{2713}", size);
        write_annotations(&mut doc, &vec![written.clone()]);
        let list = annots(&doc, ids[0]).unwrap();
        let reference = Value::Reference(list[0].as_reference().unwrap());
        let held = resolve(&doc, &reference).unwrap();
        assert_eq!(held.value(), &note_for(842_000, &written));
    }
}

#[test]
fn list_is_set_where_one_was_and_taken_where_none_was() {
    let (mut doc, ids) = a4(2);
    set_annots(&mut doc, ids[0], Object::Array(vec![Object::Integer(1), Object::Integer(2)]));
    write_annotations(&mut doc, &vec![record(0, 0, 0, "a", None)]);
    assert_eq!(annots(&doc, ids[0]).unwrap().len(), 1);
    assert_eq!(page_dict(&doc, ids[0]).len(), 4);
    assert_eq!(page_dict(&doc, ids[1]).len(), 3);
    strip_annotations(&mut doc);
    strip_annotations(&mut doc);
    assert_eq!(page_dict(&doc, ids[0]).len(), 3);
    assert_eq!(page_dict(&doc, ids[1]).len(), 3);
}

#[test]
fn height_is_read_before_the_notes_are_added() {
    let (mut doc, ids) = a4(1);
    let next = (doc.max_id + 1, 0);
    doc.objects
        .get_mut(&ids[0])
        .unwrap()
        .as_dict_mut()
        .unwrap()
        .set("MediaBox", Object::Reference(next));
    write_annotations(&mut doc, &vec![record(0, 0, 0, "a", Some(10_000))]);
    let list = annots(&doc, ids[0]).unwrap();
    assert_eq!(list, vec![Object::Reference(next)]);
    assert_eq!(reals(note(&doc, &list[0]).get(b"Rect").unwrap())[3], 842.0);
    assert_eq!(read_annotations(&doc), vec![record(0, 0, 0, "a", Some(10_000))]);
}

#[test]
fn document_is_written_out_as_its_bytes() {
    let (mut doc, _) = a4(2);
    write_annotations(&mut doc, &vec![record(0, 1_500, 2_500, "same", Some(11_000))]);
    let first = persist(doc.clone()).unwrap();
    let second = persist(doc.clone()).unwrap();
    assert_eq!(first, second);
    assert_eq!(persist_written(Ok(doc.clone())).unwrap(), first);
    assert_eq!(first, bytes_of(&mut doc));
    assert!(first.starts_with(b"%PDF-1.5"));
    assert!(first.ends_with(b"%%EOF"));
    assert_eq!(
        read_annotations(&Document::load_mem(&first).unwrap()),
        vec![record(0, 1_500, 2_500, "same", Some(11_000))]
    );
}

#[test]
fn document_that_cannot_be_written_out_is_a_failure() {
    let (mut doc, _) = a4(1);
    doc.max_id = u32::MAX;
    assert!(matches!(persist(doc), Err(FileError::Persist(why)) if !why.is_empty()));
}

#[test]
fn result_of_opening_is_the_document_or_the_text_of_the_error() {
    let (mut doc, ids) = a4(1);
    let file = bytes_of(&mut doc);
    let found = opened(Document::load_mem(&file)).unwrap();
    assert_eq!(found.get_pages().len(), ids.len());
    let text = Document::load_mem(b"nothing").unwrap_err().to_string();
    assert_eq!(opened(Document::load_mem(b"nothing")).err(), Some(FileError::Load(text.clone())));
    assert_eq!(open(b"nothing").err(), Some(FileError::Load(text)));
}

#[test]
fn saved_file_is_the_opened_document_written_anew() {
    let (mut doc, _) = a4(2);
    let file = bytes_of(&mut doc);
    let records = vec![record(1, 10_000, 20_000, "b", Some(9_000)), record(0, 0, 0, "a", None)];
    let saved = save_pdf_with_annotations(&file, &records).unwrap();
    let mut by_hand = Document::load_mem(&file).unwrap();
    write_annotations(&mut by_hand, &records);
    assert_eq!(saved, persist(by_hand).unwrap());
}

#[test]
fn result_of_writing_out_is_the_bytes_or_the_text_of_the_error() {
    assert_eq!(persisted(Ok(vec![1, 2, 3])), Ok(vec![1, 2, 3]));
    let error = || std::io::Error::other("no room");
    assert_eq!(persisted(Err(error())), Err(FileError::Persist(error().to_string())));
    assert_eq!(persisted(Err(error())), Err(FileError::Persist("no room".to_string())));
}

#[test]
fn base64_text_has_four_characters_for_three_bytes() {
    for (len, expected) in [(0, 0), (1, 4), (2, 4), (3, 4), (4, 8), (5, 8), (6, 8), (7, 12), (300, 400)] {
        let bytes = vec![0xa5u8; len];
        assert_eq!(encode_file(&bytes).unwrap().chars().count(), expected);
    }
}

#[test]
fn file_opened_for_display_is_the_opened_document_stripped() {
    let (mut doc, _) = a4(2);
    write_annotations(&mut doc, &vec![record(0, 0, 0, "a", None), record(1, 0, 0, "b", None)]);
    let file = bytes_of(&mut doc);
    let mut by_hand = Document::load_mem(&file).unwrap();
    strip_annotations(&mut by_hand);
    let expected = encode_file(&persist(by_hand).unwrap()).unwrap();
    assert_eq!(open_pdf_file(&file), Ok(expected));
}

/// A one-page document whose page tree names an object that refers to the
/// page's dictionary.
fn referred_page() -> (Document, ObjectId, ObjectId) {
    let (mut doc, ids) = a4(1);
    let hop = doc.add_object(Object::Reference(ids[0]));
    let tree = page_dict(&doc, ids[0]).get(b"Parent").unwrap().as_reference().unwrap();
    doc.objects
        .get_mut(&tree)
        .unwrap()
        .as_dict_mut()
        .unwrap()
        .set("Kids", Object::Array(vec![Object::Reference(hop)]));
    assert_eq!(doc.get_pages().into_values().collect::<Vec<_>>(), vec![hop]);
    (doc, hop, ids[0])
}

#[test]
fn page_reached_through_a_reference_is_read_and_written() {
    let (mut doc, hop, page) = referred_page();
    let other = doc.add_object(free_text("there", Some("/Helv 8 Tf"), whole([1, 2, 3, 800])));
    set_annots(&mut doc, page, Object::Array(vec![Object::Reference(other)]));
    assert_eq!(read_annotations(&doc), vec![record(0, 1_000, 42_000, "there", Some(8_000))]);
    let records = vec![record(0, 5_000, 6_000, "new", Some(9_000))];
    write_annotations(&mut doc, &records);
    assert_eq!(doc.objects.get(&hop), Some(&Object::Reference(page)));
    assert_eq!(annots(&doc, page).unwrap().len(), 1);
    assert_eq!(read_annotations(&doc), records);
    strip_annotations(&mut doc);
    assert_eq!(annots(&doc, page), None);
    assert_eq!(doc.objects.get(&hop), Some(&Object::Reference(page)));
    assert_eq!(read_annotations(&doc), Vec::new());
}

#[test]
fn page_is_looked_for_one_step_on_and_no_further() {
    let (mut doc, hop, page) = referred_page();
    let second = doc.add_object(Object::Reference(hop));
    let tree = page_dict(&doc, page).get(b"Parent").unwrap().as_reference().unwrap();
    doc.objects
        .get_mut(&tree)
        .unwrap()
        .as_dict_mut()
        .unwrap()
        .set("Kids", Object::Array(vec![Object::Reference(second)]));
    assert_eq!(doc.get_pages().into_values().collect::<Vec<_>>(), vec![second]);
    let count = doc.objects.len();
    write_annotations(&mut doc, &vec![record(0, 0, 0, "far", None)]);
    assert_eq!(doc.objects.len(), count + 1);
    assert_eq!(annots(&doc, page), None);
    assert_eq!(read_annotations(&doc), Vec::new());
}

#[test]
fn records_are_grouped_by_page_in_the_order_given() {
    let records = vec![
        record(2, 0, 0, "c1", None),
        record(0, 0, 0, "a1", None),
        record(2, 0, 0, "c2", None),
        record(0, 0, 0, "a2", None),
        record(7, 0, 0, "far", None),
        record(2, 0, 0, "c3", None),
    ];
    let groups = group_by_page(&records);
    let none = Vec::new();
    assert_eq!(groups.len(), 3);
    assert_eq!(places_for(&groups, 0, &none), &vec![1, 3]);
    assert_eq!(places_for(&groups, 1, &none), &Vec::<usize>::new());
    assert_eq!(places_for(&groups, 2, &none), &vec![0, 2, 5]);
    assert_eq!(places_for(&groups, 7, &none), &vec![4]);
    assert!(group_by_page(&Vec::new()).is_empty());
}
