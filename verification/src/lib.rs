//! Free-text notes on the pages of a PDF document.
//!
//! A note is a short text placed on a page. To a caller it is an
//! [`reader::AnnotationRecord`]: the index of the page, a position measured
//! from the top left corner of the page, the text and a font size. In the
//! document it is an annotation dictionary of subtype `FreeText`, listed by
//! its page, with a box measured from the bottom left corner. This library
//! reads the one from the other and writes the other from the one.
//!
//! Lengths and positions are whole numbers of thousandths of a unit
//! ([`fixed`]); a real number of the document is held as its decimal text
//! ([`decimal`]). The document itself is held by `lopdf` and reached through
//! the calls of [`document`], whose behaviour is stated there without proof.
//! Everything else is proved against those statements:
//!
//! - [`object`] and [`accessor`]: the values of the object graph, their typed
//!   projections, and the one step from a reference to its object;
//! - [`geometry`] and [`page`]: the two ways of measuring a page, and the
//!   height of a page;
//! - [`appearance`]: the appearance string that carries the font size;
//! - [`reader`]: the notes of a document;
//! - [`grouping`] and [`writer`]: the records grouped by page, and the notes
//!   of a document replaced by a given set;
//! - [`file`]: the same on the bytes of a file;
//! - [`laws`] and [`read_back`]: what holds of writing whatever the
//!   document, and of reading what was written.

pub mod fixed;
pub mod decimal;
pub mod geometry;
pub mod object;
pub mod appearance;
pub mod document;
pub mod accessor;
pub mod text;
pub mod page;
pub mod reader;
pub mod grouping;
pub mod writer;
pub mod file;
pub mod laws;
pub mod read_back;
