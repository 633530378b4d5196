//! Codec adaptors: one per text format, each able to write a wet value and to
//! read one.

use vstd::prelude::*;
use vstd::utf8::valid_utf8;
use crate::error::ConvertError;
use crate::ini::{decode_ini, encode_ini, ini_decoding, ini_encoding};
use crate::json::{decode_json, encode_json, json_decoding, json_encoding};
use crate::value::{Wet, WetValue};

verus! {

/// What every codec adaptor can do.
pub trait Adaptor {
    /// The text that this adaptor writes for a tree, or the error that it
    /// reports.
    spec fn encoding(&self, tree: Wet) -> Result<Seq<u8>, ConvertError>;

    /// The tree that this adaptor reads from a text, or the error that it
    /// reports.
    spec fn decoding(&self, text: Seq<u8>) -> Result<Wet, ConvertError>;

    /// Appends the text of `wet` to `sink`; the text is UTF-8. On an error
    /// `sink` is left as it was.
    fn serialize(&self, wet: WetValue, sink: &mut Vec<u8>) -> (r: Result<(), ConvertError>)
        ensures
            match self.encoding(wet@) {
                Ok(text) => r is Ok && final(sink)@ == old(sink)@ + text && valid_utf8(text),
                Err(e) => r == Err::<(), ConvertError>(e) && final(sink)@ == old(sink)@,
            },
    ;

    /// Reads the whole of `source` as one value, in which no mapping has a
    /// key twice.
    fn deserialize(&self, source: &[u8]) -> (r: Result<WetValue, ConvertError>)
        ensures
            match self.decoding(source@) {
                Ok(tree) => r matches Ok(wet) && wet@ == tree && tree.well_formed(),
                Err(e) => r matches Err(f) && f == e,
            },
    ;
}

/// The adaptor for INI text. It has nothing to configure.
pub struct IniAdaptor {}

impl IniAdaptor {
    /// The adaptor for INI text.
    pub fn new() -> IniAdaptor {
        IniAdaptor {}
    }
}

impl Adaptor for IniAdaptor {
    open spec fn encoding(&self, tree: Wet) -> Result<Seq<u8>, ConvertError> {
        ini_encoding(tree)
    }

    open spec fn decoding(&self, text: Seq<u8>) -> Result<Wet, ConvertError> {
        ini_decoding(text)
    }

    fn serialize(&self, wet: WetValue, sink: &mut Vec<u8>) -> (r: Result<(), ConvertError>) {
        match encode_ini(&wet) {
            Ok(text) => {
                let mut text = text;
                sink.append(&mut text);
                Ok(())
            },
            Err(e) => Err(e),
        }
    }

    fn deserialize(&self, source: &[u8]) -> (r: Result<WetValue, ConvertError>) {
        decode_ini(source)
    }
}

/// The adaptor for JSON text, compact or indented.
pub struct JsonAdaptor {
    pretty: bool,
}

impl JsonAdaptor {
    /// Whether this adaptor indents what it writes.
    pub closed spec fn pretty(&self) -> bool {
        self.pretty
    }

    /// The adaptor for JSON text that indents what it writes if `pretty` is
    /// set, and writes it compact if not.
    pub fn new(pretty: bool) -> (adaptor: JsonAdaptor)
        ensures
            adaptor.pretty() == pretty,
    {
        JsonAdaptor { pretty }
    }
}

impl Adaptor for JsonAdaptor {
    open spec fn encoding(&self, tree: Wet) -> Result<Seq<u8>, ConvertError> {
        json_encoding(tree, self.pretty())
    }

    open spec fn decoding(&self, text: Seq<u8>) -> Result<Wet, ConvertError> {
        json_decoding(text)
    }

    fn serialize(&self, wet: WetValue, sink: &mut Vec<u8>) -> (r: Result<(), ConvertError>) {
        match encode_json(wet, self.pretty) {
            Ok(text) => {
                let mut text = text;
                sink.append(&mut text);
                Ok(())
            },
            Err(e) => Err(e),
        }
    }

    fn deserialize(&self, source: &[u8]) -> (r: Result<WetValue, ConvertError>) {
        decode_json(source)
    }
}

} // verus!
