//! Conversion between wet values, the decoded form of a document, and the
//! text of two file formats, together with the location of a file in a
//! partition scheme.

pub mod adaptor;
pub mod common;
pub mod error;
pub mod text;
pub mod value;
pub mod json;
pub mod ini;
