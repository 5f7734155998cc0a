use lopdf::{Document, Object};
use pdf_notes::accessor::{resolve, Unresolved};
use pdf_notes::object::{bytes_eq, find_entry, Entry, TypeMismatch, Value};
use pdf_notes::page::{locate_page, measure_box, page_height, page_height_at};

fn decimal(text: &str) -> Value {
    Value::Real(text.as_bytes().to_vec())
}

fn entry(key: &str, value: Value) -> Entry {
    Entry { key: key.as_bytes().to_vec(), value }
}

fn is_null(value: &Value) -> bool {
    matches!(value, Value::Null)
}

#[test]
fn number_of_an_integer_and_of_a_real() {
    assert_eq!(Value::Integer(842).as_number(), Ok(842_000));
    assert_eq!(decimal("842").as_number(), Ok(842_000));
    assert_eq!(decimal("841.89").as_number(), Ok(841_890));
    assert_eq!(Value::Integer(-3).as_number(), Ok(-3_000));
    assert_eq!(Value::Integer(i64::MAX).as_number(), Ok(i64::MAX));
}

#[test]
fn number_of_what_is_no_number() {
    assert_eq!(Value::Null.as_number(), Err(TypeMismatch));
    assert_eq!(Value::Boolean(true).as_number(), Err(TypeMismatch));
    assert_eq!(Value::Name(b"12".to_vec()).as_number(), Err(TypeMismatch));
    assert_eq!(Value::Str(b"12".to_vec()).as_number(), Err(TypeMismatch));
    assert_eq!(Value::Reference((1, 0)).as_number(), Err(TypeMismatch));
    assert_eq!(decimal("NaN").as_number(), Err(TypeMismatch));
    assert_eq!(decimal("inf").as_number(), Err(TypeMismatch));
}

#[test]
fn projections_give_what_is_there() {
    assert_eq!(Value::Name(b"FreeText".to_vec()).as_name().unwrap(), &b"FreeText".to_vec());
    assert_eq!(Value::Str(b"hello".to_vec()).as_string().unwrap(), &b"hello".to_vec());
    assert_eq!(Value::Array(vec![Value::Null, Value::Stream]).as_array().unwrap().len(), 2);
    let dict = Value::Dict(vec![entry("A", Value::Integer(1))]);
    assert_eq!(dict.as_dict().unwrap().len(), 1);
}

#[test]
fn projections_refuse_another_shape() {
    assert!(matches!(Value::Str(b"x".to_vec()).as_name(), Err(TypeMismatch)));
    assert!(matches!(Value::Name(b"x".to_vec()).as_string(), Err(TypeMismatch)));
    assert!(matches!(Value::Dict(Vec::new()).as_array(), Err(TypeMismatch)));
    assert!(matches!(Value::Array(Vec::new()).as_dict(), Err(TypeMismatch)));
    assert!(matches!(Value::Stream.as_dict(), Err(TypeMismatch)));
    assert!(matches!(Value::Null.as_array(), Err(TypeMismatch)));
}

#[test]
fn bytes_are_compared_whole() {
    assert!(bytes_eq(b"", b""));
    assert!(bytes_eq(b"Rect", b"Rect"));
    assert!(!bytes_eq(b"Rect", b"Rec"));
    assert!(!bytes_eq(b"Rect", b"RecT"));
    assert!(!bytes_eq(b"", b"a"));
}

#[test]
fn entry_is_found_by_its_key() {
    let entries = vec![
        entry("Type", Value::Name(b"Annot".to_vec())),
        entry("Rect", Value::Integer(1)),
        entry("DA", Value::Integer(2)),
    ];
    assert!(matches!(find_entry(&entries, b"Rect"), Some(Value::Integer(1))));
    assert!(matches!(find_entry(&entries, b"DA"), Some(Value::Integer(2))));
    assert!(matches!(find_entry(&entries, b"Type"), Some(Value::Name(_))));
    assert!(find_entry(&entries, b"Contents").is_none());
    assert!(find_entry(&entries, b"").is_none());
    assert!(find_entry(&Vec::new(), b"Rect").is_none());
}

#[test]
fn last_entry_of_a_key_counts() {
    let entries = vec![entry("K", Value::Integer(1)), entry("K", Value::Integer(2))];
    assert!(matches!(find_entry(&entries, b"K"), Some(Value::Integer(2))));
}

#[test]
fn resolve_hands_a_direct_value_back() {
    let doc = Document::with_version("1.5");
    let value = Value::Integer(7);
    let found = resolve(&doc, &value).unwrap();
    assert_eq!(found.value(), &Value::Integer(7));
}

#[test]
fn resolve_follows_a_reference_one_step() {
    let mut doc = Document::with_version("1.5");
    let target = doc.add_object(Object::Integer(5));
    let hop = doc.add_object(Object::Reference(target));
    let direct = Value::Reference(target);
    let found = resolve(&doc, &direct).unwrap();
    assert_eq!(found.value(), &Value::Integer(5));
    let chained = Value::Reference(hop);
    let found = resolve(&doc, &chained).unwrap();
    assert_eq!(found.value(), &Value::Reference(target));
}

#[test]
fn resolve_fails_on_a_missing_object() {
    let doc = Document::with_version("1.5");
    let missing = Value::Reference((9, 3));
    assert_eq!(resolve(&doc, &missing).err(), Some(Unresolved { number: 9, generation: 3 }));
}

#[test]
fn lookup_turns_every_kind_of_object_into_its_value() {
    let mut doc = Document::with_version("1.5");
    let mut dict = lopdf::Dictionary::new();
    dict.set("N", Object::Null);
    dict.set("B", Object::Boolean(true));
    dict.set("I", Object::Integer(-4));
    dict.set("R", Object::Real(0.5));
    dict.set("Nm", Object::Name(b"Nm".to_vec()));
    dict.set("S", Object::String(vec![0xff, 0x00], lopdf::StringFormat::Hexadecimal));
    dict.set("A", Object::Array(vec![Object::Integer(1), Object::Real(2.25)]));
    dict.set("St", Object::Stream(lopdf::Stream::new(lopdf::Dictionary::new(), vec![1, 2, 3])));
    dict.set("Rf", Object::Reference((3, 1)));
    let id = doc.add_object(dict);
    let reference = Value::Reference(id);
    let found = resolve(&doc, &reference).unwrap();
    let entries = found.value().as_dict().unwrap();
    assert_eq!(entries.len(), 9);
    assert!(is_null(find_entry(entries, b"N").unwrap()));
    assert!(matches!(find_entry(entries, b"B"), Some(Value::Boolean(true))));
    assert!(matches!(find_entry(entries, b"I"), Some(Value::Integer(-4))));
    assert_eq!(find_entry(entries, b"R").unwrap().as_number(), Ok(500));
    assert_eq!(find_entry(entries, b"Nm").unwrap().as_name().unwrap(), &b"Nm".to_vec());
    assert_eq!(find_entry(entries, b"S").unwrap().as_string().unwrap(), &vec![0xff, 0x00]);
    let items = find_entry(entries, b"A").unwrap().as_array().unwrap();
    assert_eq!(items[0].as_number(), Ok(1_000));
    assert_eq!(items[1].as_number(), Ok(2_250));
    assert!(matches!(find_entry(entries, b"St"), Some(Value::Stream)));
    assert!(matches!(find_entry(entries, b"Rf"), Some(Value::Reference((3, 1)))));
}

fn box_of(numbers: Vec<Value>) -> Value {
    Value::Array(numbers)
}

#[test]
fn height_of_a_box_is_top_minus_bottom() {
    let a4 = box_of(vec![Value::Integer(0), Value::Integer(0), Value::Integer(595), Value::Integer(842)]);
    assert_eq!(measure_box(&a4), Some(842_000));
    let letter = box_of(vec![decimal("0"), decimal("0"), decimal("612"), decimal("792")]);
    assert_eq!(measure_box(&letter), Some(792_000));
    let raised = box_of(vec![Value::Integer(10), decimal("20.5"), Value::Integer(300), Value::Integer(420)]);
    assert_eq!(measure_box(&raised), Some(399_500));
    let longer = box_of(vec![Value::Integer(0), Value::Integer(1), Value::Integer(2), Value::Integer(3), Value::Null]);
    assert_eq!(measure_box(&longer), Some(2_000));
    let upside_down = box_of(vec![Value::Integer(0), Value::Integer(842), Value::Integer(595), Value::Integer(0)]);
    assert_eq!(measure_box(&upside_down), Some(-842_000));
}

#[test]
fn box_that_cannot_be_read_has_no_height() {
    assert_eq!(measure_box(&Value::Null), None);
    assert_eq!(measure_box(&Value::Integer(842)), None);
    assert_eq!(measure_box(&box_of(Vec::new())), None);
    assert_eq!(measure_box(&box_of(vec![Value::Integer(0), Value::Integer(0), Value::Integer(595)])), None);
    assert_eq!(
        measure_box(&box_of(vec![Value::Integer(0), Value::Null, Value::Integer(595), Value::Integer(842)])),
        None
    );
    assert_eq!(
        measure_box(&box_of(vec![Value::Integer(0), Value::Integer(0), Value::Integer(595), Value::Name(b"x".to_vec())])),
        None
    );
}

#[test]
fn page_height_falls_back_to_a4() {
    let mut doc = Document::with_version("1.5");
    assert_eq!(page_height(&doc, &Vec::new()), 842_000);
    assert_eq!(page_height(&doc, &vec![entry("MediaBox", Value::Null)]), 842_000);
    assert_eq!(page_height(&doc, &vec![entry("MediaBox", Value::Reference((7, 0)))]), 842_000);
    assert_eq!(page_height(&doc, &vec![entry("CropBox", box_of(Vec::new()))]), 842_000);
    assert_eq!(page_height_at(&doc, (1, 0)), 842_000);
    let not_a_page = doc.add_object(Object::Integer(3));
    assert_eq!(page_height_at(&doc, not_a_page), 842_000);
}

#[test]
fn page_height_is_read_from_the_page() {
    let mut doc = Document::with_version("1.5");
    let shared = doc.add_object(Object::Array(vec![
        Object::Integer(0),
        Object::Integer(0),
        Object::Real(612.0),
        Object::Real(792.0),
    ]));
    let here = vec![entry(
        "MediaBox",
        box_of(vec![Value::Integer(0), Value::Integer(0), Value::Integer(420), Value::Integer(595)]),
    )];
    assert_eq!(page_height(&doc, &here), 595_000);
    let there = vec![entry("MediaBox", Value::Reference(shared))];
    assert_eq!(page_height(&doc, &there), 792_000);
    let mut page = lopdf::Dictionary::new();
    page.set("MediaBox", Object::Reference(shared));
    let id = doc.add_object(page);
    assert_eq!(page_height_at(&doc, id), 792_000);
}

#[test]
fn page_stands_under_its_own_identifier_or_one_step_on() {
    let mut doc = Document::with_version("1.5");
    let page = doc.add_object(lopdf::Dictionary::new());
    let hop = doc.add_object(Object::Reference(page));
    let far = doc.add_object(Object::Reference(hop));
    assert_eq!(locate_page(&doc, page), page);
    assert_eq!(locate_page(&doc, hop), page);
    assert_eq!(locate_page(&doc, far), hop);
    assert_eq!(locate_page(&doc, (77, 0)), (77, 0));
    assert_eq!(page_height_at(&doc, locate_page(&doc, hop)), 842_000);
}
