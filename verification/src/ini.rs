//! The INI text of a wet value.
//!
//! A document is a mapping. Its entries with a scalar come first, one line
//! `key=value` each. Then come its entries with a mapping of scalars, each as a
//! section: a line `[name]` and the lines of the section's entries. A scalar is
//! written as `null`, `true`, `false`, a decimal integer, or bare text; text
//! that would read back as something else cannot be written. Blank lines and
//! lines that start with `;` or `#` are skipped when a document is read.

pub mod decimal;
pub mod reader;
pub mod reads_all;
pub mod round_trip;
pub mod scalar;
pub mod writer;

use vstd::prelude::*;
use vstd::slice::slice_to_vec;
use vstd::utf8::*;
use crate::error::{CodecError, ConvertError};
use crate::ini::reader::{ini_parse, read_document};
use crate::ini::reads_all::lemma_ini_reads_all;
use crate::ini::writer::{ini_text, write_document};
use crate::text::chars_of;
use crate::value::{Wet, WetValue};

verus! {

/// A tree that can be written as INI text has no key twice in a mapping.
pub proof fn lemma_written_is_well_formed(tree: Wet)
    requires
        ini_text(tree) is Some,
    ensures
        tree.well_formed(),
{
    let entries = tree->Object_0;
    assert forall|i: int| 0 <= i < entries.len() implies (#[trigger] entries[i]).1.well_formed() by {
        if entries[i].1 is Object {
            let inner = entries[i].1->Object_0;
            assert forall|j: int| 0 <= j < inner.len() implies (#[trigger] inner[j]).1.well_formed() by {}
        }
    }
}

/// The INI text of a tree, as UTF-8.
pub open spec fn ini_encoding(tree: Wet) -> Result<Seq<u8>, ConvertError> {
    match ini_text(tree) {
        Some(text) => Ok(encode_utf8(text)),
        None => Err(ConvertError::Codec(CodecError::Unrepresentable)),
    }
}

/// The tree that the bytes of an INI text stand for.
pub open spec fn ini_decoding(text: Seq<u8>) -> Result<Wet, ConvertError> {
    if !valid_utf8(text) {
        Err(ConvertError::Codec(CodecError::Encoding))
    } else {
        match ini_parse(decode_utf8(text)) {
            Some(tree) => Ok(tree),
            None => Err(ConvertError::Codec(CodecError::Malformed)),
        }
    }
}

/// Writes a wet value as INI text, which is UTF-8.
pub fn encode_ini(wet: &WetValue) -> (r: Result<Vec<u8>, ConvertError>)
    ensures
        match ini_encoding(wet@) {
            Ok(text) => r matches Ok(bytes) && bytes@ == text && valid_utf8(text),
            Err(e) => r matches Err(f) && f == e,
        },
{
    proof {
        if ini_text(wet@) is Some {
            encode_utf8_valid_utf8(ini_text(wet@)->0);
        }
    }
    match write_document(wet) {
        Some(text) => Ok(text.as_str().as_bytes_vec()),
        None => Err(ConvertError::Codec(CodecError::Unrepresentable)),
    }
}

/// Reads INI text into a wet value.
pub fn decode_ini(text: &[u8]) -> (r: Result<WetValue, ConvertError>)
    ensures
        match ini_decoding(text@) {
            Ok(tree) => r matches Ok(wet) && wet@ == tree && tree.well_formed(),
            Err(e) => r matches Err(f) && f == e,
        },
{
    proof {
        if ini_decoding(text@) is Ok {
            lemma_ini_reads_all(decode_utf8(text@));
            lemma_written_is_well_formed(ini_decoding(text@)->Ok_0);
        }
    }
    let text = match String::from_utf8(slice_to_vec(text)) {
        Ok(text) => text,
        Err(_) => {
            return Err(ConvertError::Codec(CodecError::Encoding));
        },
    };
    let chars = chars_of(text.as_str());
    match read_document(chars.as_slice()) {
        Some(wet) => Ok(wet),
        None => Err(ConvertError::Codec(CodecError::Malformed)),
    }
}

} // verus!
