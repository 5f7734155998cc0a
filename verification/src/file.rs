//! Files: the bytes of a document are opened, the document is worked on, and
//! it is written out again as bytes. Reading the bytes from a path and
//! writing them to one is left to the caller.
//!
//! Whether bytes can be opened, and whether a document can be written out,
//! is decided by `lopdf`. Each function here that makes such a call says
//! what holds whatever came back; beside it stands the function that takes
//! what came back and says exactly what becomes of it.

use vstd::prelude::*;
use lopdf::Document;
use crate::document::{doc_max_id, doc_objects, doc_pages};
use vstd::string::to_string_from_display_ensures;
use crate::reader::{annotations_of, read_annotations, record_models, AnnotationRecord, RecordModel};
use crate::text::{base64_len, base64_standard, encode_base64, fits_base64};
use crate::writer::{state_of, strip_annotations, stripped_upto, try_write_annotations, written};

verus! {

/// `lopdf::Error`, of which only its text is used.
#[verifier::external_type_specification]
#[verifier::external_body]
pub struct ExLoadError(lopdf::Error);

/// `std::io::Error`, of which only its text is used.
#[verifier::external_type_specification]
#[verifier::external_body]
pub struct ExIoError(std::io::Error);

/// Why a file could not be read or written.
#[derive(Debug, Clone, PartialEq, Eq)]
pub enum FileError {
    /// The bytes could not be opened as a document; the text says why.
    Load(String),
    /// The document has too few object numbers left for the notes.
    OutOfObjectNumbers,
    /// The document could not be written out; the text says why.
    Persist(String),
    /// The file is too long for its base64 text to be held.
    TooLong,
}

/// `Document::load_mem`: the document that the bytes hold, or the error of
/// the call.
#[verifier::external_body]
pub(crate) fn parse(bytes: &[u8]) -> (r: Result<Document, lopdf::Error>) {
    Document::load_mem(bytes)
}

/// The bytes that `Document::save_to` writes for a document; `None` where
/// the call fails. The call writes the objects of the document in the order
/// of their identifiers, then the cross-reference data and the trailer, and
/// reads nothing but the document.
pub uninterp spec fn doc_file(doc: Document) -> Option<Seq<u8>>;

/// Whether `after` is `doc` with its notes written anew from `records`.
pub open spec fn rewritten(doc: Document, after: Document, records: Seq<RecordModel>) -> bool {
    &&& doc_max_id(doc) + records.len() <= u32::MAX
    &&& state_of(after) == written(state_of(doc), doc_pages(doc), records)
}

/// `Document::save_to` into a vector: the bytes of the file, or the error of
/// the call. What is written depends on the document alone.
#[verifier::external_body]
pub(crate) fn serialize(doc: &mut Document) -> (r: Result<Vec<u8>, std::io::Error>)
    ensures
        match r {
            Ok(bytes) => doc_file(*old(doc)) == Some(bytes@),
            Err(_) => doc_file(*old(doc)) is None,
        },
{
    let mut bytes = Vec::new();
    doc.save_to(&mut bytes).map(|_| bytes)
}

/// What becomes of the result of opening: the document, or the failure with
/// the text of the error.
pub fn opened(parsed: Result<Document, lopdf::Error>) -> (r: Result<Document, FileError>)
    ensures
        match parsed {
            Ok(doc) => r == Ok::<Document, FileError>(doc),
            Err(error) => r matches Err(FileError::Load(why)) && to_string_from_display_ensures::<
                lopdf::Error,
            >(&error, why),
        },
{
    match parsed {
        Ok(doc) => Ok(doc),
        Err(error) => Err(FileError::Load(error.to_string())),
    }
}

/// Opens the bytes of a file as a document.
pub fn open(bytes: &[u8]) -> (r: Result<Document, FileError>)
    ensures
        r matches Err(e) ==> e is Load,
{
    opened(parse(bytes))
}

/// What becomes of the result of writing out: the bytes, or the failure with
/// the text of the error.
pub fn persisted(serialized: Result<Vec<u8>, std::io::Error>) -> (r: Result<Vec<u8>, FileError>)
    ensures
        match serialized {
            Ok(bytes) => r == Ok::<Vec<u8>, FileError>(bytes),
            Err(error) => r matches Err(FileError::Persist(why))
                && to_string_from_display_ensures::<std::io::Error>(&error, why),
        },
{
    match serialized {
        Ok(bytes) => Ok(bytes),
        Err(error) => Err(FileError::Persist(error.to_string())),
    }
}

/// Writes a document out as the bytes of a file: the bytes that the document
/// is written as, or the failure where it cannot be written, with the text
/// of the error that said so.
pub fn persist(doc: Document) -> (r: Result<Vec<u8>, FileError>)
    ensures
        match r {
            Ok(bytes) => doc_file(doc) == Some(bytes@),
            Err(FileError::Persist(why)) => doc_file(doc) is None && exists|error: std::io::Error|
                #[trigger] to_string_from_display_ensures::<std::io::Error>(&error, why),
            Err(_) => false,
        },
{
    let mut doc = doc;
    let serialized = serialize(&mut doc);
    let ghost outcome = serialized;
    let r = persisted(serialized);
    proof {
        if outcome is Err {
            assert(to_string_from_display_ensures::<std::io::Error>(
                &outcome->Err_0,
                r->Err_0->Persist_0,
            ));
        }
    }
    r
}

/// The notes of a document that was opened; the failure if it was not.
pub fn read_opened(opened: Result<Document, FileError>) -> (r: Result<Vec<AnnotationRecord>, FileError>)
    ensures
        match opened {
            Ok(doc) => r matches Ok(records) && record_models(records@) == annotations_of(
                doc_objects(doc),
                doc_pages(doc),
            ),
            Err(e) => r == Err::<Vec<AnnotationRecord>, FileError>(e),
        },
{
    match opened {
        Ok(doc) => Ok(read_annotations(&doc)),
        Err(e) => Err(e),
    }
}

/// Reads the free-text notes of the file with these bytes.
pub fn load_annotations(bytes: &[u8]) -> (r: Result<Vec<AnnotationRecord>, FileError>)
    ensures
        match r {
            Ok(records) => exists|doc: Document| #[trigger]
                annotations_of(doc_objects(doc), doc_pages(doc)) == record_models(records@),
            Err(e) => e is Load,
        },
{
    read_opened(open(bytes))
}

/// A document that was opened, with its notes written anew from `records`;
/// the failure if it was not opened or has too few object numbers left.
pub fn write_opened(opened: Result<Document, FileError>, records: &Vec<AnnotationRecord>) -> (r: Result<
    Document,
    FileError,
>)
    ensures
        match opened {
            Ok(doc) => if doc_max_id(doc) + records@.len() <= u32::MAX {
                r matches Ok(after) && state_of(after) == written(
                    state_of(doc),
                    doc_pages(doc),
                    record_models(records@),
                )
            } else {
                r matches Err(e) && e is OutOfObjectNumbers
            },
            Err(e) => r matches Err(same) && same == e,
        },
{
    match opened {
        Ok(doc) => {
            let mut doc = doc;
            match try_write_annotations(&mut doc, records) {
                Ok(_) => Ok(doc),
                Err(_) => Err(FileError::OutOfObjectNumbers),
            }
        },
        Err(e) => Err(e),
    }
}

/// The bytes of a document that was worked on; the failure if it was not.
pub fn persist_written(worked: Result<Document, FileError>) -> (r: Result<Vec<u8>, FileError>)
    ensures
        match worked {
            Ok(doc) => match r {
                Ok(bytes) => doc_file(doc) == Some(bytes@),
                Err(e) => doc_file(doc) is None && e is Persist,
            },
            Err(e) => r == Err::<Vec<u8>, FileError>(e),
        },
{
    match worked {
        Ok(doc) => persist(doc),
        Err(e) => Err(e),
    }
}

/// Writes the notes of the file with these bytes anew from `annotations`,
/// the whole set, and returns the bytes of the file that results.
///
/// Where the bytes open as a document, that document has its notes written
/// anew and is written out: the result is the bytes it is written as. It is
/// the failure where the bytes do not open, where the document has too few
/// object numbers left, or where the document written anew cannot be written
/// out.
pub fn save_pdf_with_annotations(bytes: &[u8], annotations: &Vec<AnnotationRecord>) -> (r: Result<
    Vec<u8>,
    FileError,
>)
    ensures
        match r {
            Ok(file) => exists|doc: Document, after: Document|
                #[trigger] rewritten(doc, after, record_models(annotations@)) && doc_file(after)
                    == Some(file@),
            Err(FileError::Load(_)) => true,
            Err(FileError::OutOfObjectNumbers) => exists|doc: Document|
                #[trigger] doc_max_id(doc) + annotations@.len() > u32::MAX,
            Err(FileError::Persist(_)) => exists|doc: Document, after: Document|
                #[trigger] rewritten(doc, after, record_models(annotations@)) && doc_file(after)
                    is None,
            Err(FileError::TooLong) => false,
        },
{
    let found = open(bytes);
    let ghost before = found;
    let worked = write_opened(found, annotations);
    let ghost between = worked;
    let r = persist_written(worked);
    proof {
        if before is Ok && between is Ok {
            assert(rewritten(before->Ok_0, between->Ok_0, record_models(annotations@)));
        }
    }
    r
}

/// A document that was opened, without the lists of annotations of its
/// pages; the failure if it was not opened.
pub fn strip_opened(opened: Result<Document, FileError>) -> (r: Result<Document, FileError>)
    ensures
        match opened {
            Ok(doc) => r matches Ok(after) && doc_objects(after) == stripped_upto(
                doc_objects(doc),
                doc_pages(doc),
                doc_pages(doc).len(),
            ),
            Err(e) => r matches Err(same) && same == e,
        },
{
    match opened {
        Ok(doc) => {
            let mut doc = doc;
            strip_annotations(&mut doc);
            Ok(doc)
        },
        Err(e) => Err(e),
    }
}

/// The base64 text of the bytes of a file.
pub fn encode_file(bytes: &[u8]) -> (r: Result<String, FileError>)
    ensures
        match r {
            Ok(text) => fits_base64(bytes@.len()) && text@ == base64_standard(bytes@)
                && text@.len() == base64_len(bytes@.len()),
            Err(e) => !fits_base64(bytes@.len()) && e is TooLong,
        },
{
    let groups = bytes.len() / 3;
    if groups > usize::MAX / 4 || (bytes.len() % 3 != 0 && groups * 4 > usize::MAX - 4) {
        return Err(FileError::TooLong);
    }
    Ok(encode_base64(bytes))
}

/// The base64 text of a file that was written out; the failure if it was
/// not.
pub fn encode_persisted(persisted: Result<Vec<u8>, FileError>) -> (r: Result<String, FileError>)
    ensures
        match persisted {
            Ok(bytes) => match r {
                Ok(text) => fits_base64(bytes@.len()) && text@ == base64_standard(bytes@)
                    && text@.len() == base64_len(bytes@.len()),
                Err(e) => !fits_base64(bytes@.len()) && e is TooLong,
            },
            Err(e) => r == Err::<String, FileError>(e),
        },
{
    match persisted {
        Ok(bytes) => encode_file(bytes.as_slice()),
        Err(e) => Err(e),
    }
}

/// Whether `after` is `doc` without the lists of annotations of its pages:
/// every page that is a dictionary has lost the key of its list, and all
/// else is as it was.
pub open spec fn stripped(doc: Document, after: Document) -> bool {
    doc_objects(after) == stripped_upto(doc_objects(doc), doc_pages(doc), doc_pages(doc).len())
}

/// Opens the file with these bytes for display.
///
/// Where the bytes open as a document, that document loses the lists of
/// annotations of its pages and is written out: the result is the base64
/// text of the bytes it is written as. It is the failure where the bytes do
/// not open, where the document so stripped cannot be written out, or where
/// the file written is too long for its base64 text.
pub fn open_pdf_file(bytes: &[u8]) -> (r: Result<String, FileError>)
    ensures
        match r {
            Ok(text) => exists|doc: Document, after: Document|
                #[trigger] stripped(doc, after) && doc_file(after) is Some && fits_base64(
                    doc_file(after)->Some_0.len(),
                ) && text@ == base64_standard(doc_file(after)->Some_0),
            Err(FileError::Load(_)) => true,
            Err(FileError::OutOfObjectNumbers) => false,
            Err(FileError::Persist(_)) => exists|doc: Document, after: Document|
                #[trigger] stripped(doc, after) && doc_file(after) is None,
            Err(FileError::TooLong) => exists|doc: Document, after: Document|
                #[trigger] stripped(doc, after) && doc_file(after) is Some && !fits_base64(
                    doc_file(after)->Some_0.len(),
                ),
        },
{
    let found = open(bytes);
    let ghost before = found;
    let bare = strip_opened(found);
    let ghost between = bare;
    let saved = persist_written(bare);
    let r = encode_persisted(saved);
    proof {
        if before is Ok && between is Ok {
            assert(stripped(before->Ok_0, between->Ok_0));
        }
    }
    r
}

} // verus!
