//! Locations of files in a partition scheme, the selector of a text format,
//! and the conversion between wet values and text in the selected format.

use vstd::prelude::*;
use vstd::utf8::*;
use crate::adaptor::{Adaptor, IniAdaptor, JsonAdaptor};
use crate::error::{CodecError, ConvertError};
use crate::ini::reads_all::{kept, lemma_ini_reads_all};
use crate::ini::round_trip::lemma_ini_round_trip;
use crate::ini::writer::ini_text;
use crate::ini::{ini_decoding, ini_encoding};
use crate::json::{json_decoding, json_encoding};
use crate::text::same_text;
use crate::value::{Wet, WetValue};

verus! {

/// A partition within a partition scheme: a primary partition, or a logical
/// partition inside one.
#[derive(Eq, PartialEq, Clone, Debug, Structural)]
pub struct Partition {
    primary: u8,
    logical: Option<u64>,
}

impl Partition {
    /// The slot of the primary partition.
    pub closed spec fn primary_slot(&self) -> u8 {
        self.primary
    }

    /// The index of the logical partition; `None` for a primary partition.
    pub closed spec fn logical_index(&self) -> Option<u64> {
        self.logical
    }

    /// The primary partition in slot `primary`.
    pub fn primary(primary: u8) -> (p: Partition)
        ensures
            p.primary_slot() == primary,
            p.logical_index() == None::<u64>,
    {
        Partition { primary: primary, logical: None }
    }

    /// The logical partition `logical` under the primary slot `primary`.
    pub fn logical(primary: u8, logical: u64) -> (p: Partition)
        ensures
            p.primary_slot() == primary,
            p.logical_index() == Some(logical),
    {
        Partition { primary: primary, logical: Some(logical) }
    }

    /// Two partitions are the same value exactly when they name the same slot
    /// and the same logical index.
    pub proof fn equal_by_parts(a: Partition, b: Partition)
        ensures
            a == b <==> (a.primary_slot() == b.primary_slot() && a.logical_index()
                == b.logical_index()),
    {
    }
}

/// The location of a file in a partition scheme.
#[derive(Eq, PartialEq, Clone, Debug)]
pub struct FileNode {
    /// The components of the file's path, the root first.
    pub path: Vec<String>,
    /// The partition that holds the file.
    pub partition: Partition,
}

impl FileNode {
    /// A location names a file when its path has a component and no
    /// component is empty.
    pub open spec fn well_formed(&self) -> bool {
        &&& self.path@.len() > 0
        &&& forall|i: int| 0 <= i < self.path@.len() ==> (#[trigger] self.path@[i])@.len() > 0
    }

    /// Whether this location names a file.
    pub fn is_well_formed(&self) -> (ok: bool)
        ensures
            ok == self.well_formed(),
    {
        if self.path.len() == 0 {
            return false;
        }
        let mut i: usize = 0;
        while i < self.path.len()
            invariant
                i <= self.path@.len(),
                forall|j: int| 0 <= j < i ==> (#[trigger] self.path@[j])@.len() > 0,
            decreases self.path@.len() - i,
        {
            if self.path[i].as_str().is_empty() {
                return false;
            }
            i += 1;
        }
        true
    }
}

/// The text formats that a value can be written in.
#[derive(Eq, PartialEq, Clone, Copy, Debug, Structural)]
pub enum FileFormat {
    Ini,
    Json,
}

impl FileFormat {
    /// The format that a name selects: `"ini"` and `"json"`, in lower case,
    /// and nothing else.
    pub open spec fn named(name: Seq<char>) -> Option<FileFormat> {
        if name == "ini"@ {
            Some(FileFormat::Ini)
        } else if name == "json"@ {
            Some(FileFormat::Json)
        } else {
            None
        }
    }

    /// Each of the two names selects its own format.
    pub proof fn names_select()
        ensures
            FileFormat::named("ini"@) == Some(FileFormat::Ini),
            FileFormat::named("json"@) == Some(FileFormat::Json),
    {
        reveal_strlit("ini");
        reveal_strlit("json");
        assert("ini"@.len() != "json"@.len());
    }

    /// Reads a format's name.
    pub fn from_str(s: &str) -> (r: Result<FileFormat, ConvertError>)
        ensures
            r == match FileFormat::named(s@) {
                Some(format) => Ok::<FileFormat, ConvertError>(format),
                None => Err(ConvertError::UnknownFormat),
            },
    {
        if same_text(s, "ini") {
            Ok(FileFormat::Ini)
        } else if same_text(s, "json") {
            Ok(FileFormat::Json)
        } else {
            Err(ConvertError::UnknownFormat)
        }
    }
}

/// The bytes that the adaptor of a format writes for a tree. JSON is written
/// compact.
pub open spec fn encoding(format: FileFormat, tree: Wet) -> Result<Seq<u8>, ConvertError> {
    match format {
        FileFormat::Ini => ini_encoding(tree),
        FileFormat::Json => json_encoding(tree, false),
    }
}

/// The tree that the adaptor of a format reads from bytes.
pub open spec fn decoding(format: FileFormat, text: Seq<u8>) -> Result<Wet, ConvertError> {
    match format {
        FileFormat::Ini => ini_decoding(text),
        FileFormat::Json => json_decoding(text),
    }
}

/// The text of a tree in a format: what the adaptor writes, read as UTF-8.
pub open spec fn serialized(tree: Wet, format: FileFormat) -> Result<Seq<char>, ConvertError> {
    match encoding(format, tree) {
        Ok(bytes) => if valid_utf8(bytes) {
            Ok(decode_utf8(bytes))
        } else {
            Err(ConvertError::Decode)
        },
        Err(e) => Err(e),
    }
}

/// Reads the bytes that an adaptor wrote as UTF-8 text.
pub fn decode_text(buffer: Vec<u8>) -> (r: Result<String, ConvertError>)
    ensures
        match r {
            Ok(text) => valid_utf8(buffer@) && text@ == decode_utf8(buffer@),
            Err(e) => !valid_utf8(buffer@) && e == ConvertError::Decode,
        },
{
    match String::from_utf8(buffer) {
        Ok(text) => Ok(text),
        Err(_) => Err(ConvertError::Decode),
    }
}

/// Writes a wet value as text in the given format. Both adaptors write
/// UTF-8, so the only errors are theirs.
pub fn serialize(wet: WetValue, format: &FileFormat) -> (r: Result<String, ConvertError>)
    ensures
        match serialized(wet@, *format) {
            Ok(text) => r matches Ok(s) && s@ == text,
            Err(e) => r matches Err(f) && f == e,
        },
        r matches Err(e) ==> e == ConvertError::Codec(CodecError::Unrepresentable),
{
    let mut buffer: Vec<u8> = Vec::new();
    match format {
        FileFormat::Ini => {
            let adaptor = IniAdaptor::new();
            match adaptor.serialize(wet, &mut buffer) {
                Ok(()) => {},
                Err(e) => {
                    return Err(e);
                },
            }
        },
        FileFormat::Json => {
            let adaptor = JsonAdaptor::new(false);
            match adaptor.serialize(wet, &mut buffer) {
                Ok(()) => {},
                Err(e) => {
                    return Err(e);
                },
            }
        },
    }
    assert(buffer@ =~= encoding(*format, wet@)->Ok_0);
    decode_text(buffer)
}

/// Reads the text of a wet value in the given format. The whole of `content`
/// is read: text that is not one document of the format is an error.
pub fn deserialize(content: &[u8], format: &FileFormat) -> (r: Result<WetValue, ConvertError>)
    ensures
        match decoding(*format, content@) {
            Ok(tree) => r matches Ok(wet) && wet@ == tree && tree.well_formed(),
            Err(e) => r matches Err(f) && f == e,
        },
{
    match format {
        FileFormat::Ini => {
            let adaptor = IniAdaptor::new();
            adaptor.deserialize(content)
        },
        FileFormat::Json => {
            let adaptor = JsonAdaptor::new(false);
            adaptor.deserialize(content)
        },
    }
}

/// INI text is always UTF-8: a tree that the INI grammar can hold is
/// serialized to its INI text, and any other tree is refused.
pub proof fn ini_serialized(tree: Wet)
    ensures
        serialized(tree, FileFormat::Ini) == match ini_text(tree) {
            Some(text) => Ok::<Seq<char>, ConvertError>(text),
            None => Err(ConvertError::Codec(CodecError::Unrepresentable)),
        },
{
    if ini_text(tree) is Some {
        encode_utf8_valid_utf8(ini_text(tree)->0);
        encode_utf8_decode_utf8(ini_text(tree)->0);
    }
}

/// Round trip through INI: where a tree can be serialized as INI, the bytes
/// of its text deserialize as INI to the same tree.
pub proof fn ini_round_trip(tree: Wet)
    requires
        serialized(tree, FileFormat::Ini) is Ok,
    ensures
        decoding(FileFormat::Ini, encode_utf8(serialized(tree, FileFormat::Ini)->Ok_0)) == Ok::<
            Wet,
            ConvertError,
        >(tree),
{
    ini_serialized(tree);
    let text = ini_text(tree)->0;
    encode_utf8_valid_utf8(text);
    encode_utf8_decode_utf8(text);
    lemma_ini_round_trip(tree);
}

/// Nothing of an INI text is passed over in silence: where bytes deserialize
/// as INI, the value can be serialized as INI again, and its text is the text
/// that was read without its blank lines and comments, each line ended by a
/// line break.
pub proof fn ini_reads_all(content: Seq<u8>)
    requires
        decoding(FileFormat::Ini, content) is Ok,
    ensures
        serialized(decoding(FileFormat::Ini, content)->Ok_0, FileFormat::Ini) == Ok::<
            Seq<char>,
            ConvertError,
        >(kept(decode_utf8(content))),
{
    lemma_ini_reads_all(decode_utf8(content));
    ini_serialized(decoding(FileFormat::Ini, content)->Ok_0);
}

/// Serializing again after a round trip through INI gives the same text.
pub proof fn ini_reserialize(tree: Wet)
    requires
        serialized(tree, FileFormat::Ini) is Ok,
    ensures
        ({
            let text = serialized(tree, FileFormat::Ini)->Ok_0;
            let back = decoding(FileFormat::Ini, encode_utf8(text));
            back is Ok && serialized(back->Ok_0, FileFormat::Ini) == Ok::<Seq<char>, ConvertError>(
                text,
            )
        }),
{
    ini_round_trip(tree);
}

} // verus!
