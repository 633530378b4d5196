//! JSON text, written and read by `serde_json`.
//!
//! The values of `serde_json` are opaque here. What one holds is named by
//! [`json_content`], and the functions below that build and take apart such
//! values say what they do to it. The text that `serde_json` writes for a tree,
//! and the tree that it reads from a text, are named too: nothing in this
//! library computes them.

use vstd::prelude::*;
use vstd::utf8::valid_utf8;
use crate::error::{CodecError, ConvertError};
use crate::value::{
    distinct_keys, entry_views, key_is_new, lemma_array_view, lemma_object_view, views, Numeral,
    Wet, WetNumber, WetValue,
};

verus! {

/// `serde_json::Value`, a JSON value: carried, never looked into.
#[verifier::external_type_specification]
#[verifier::external_body]
pub struct ExJsonValue(serde_json::Value);

/// `serde_json::Number`, a JSON number: carried, never looked into.
#[verifier::external_type_specification]
#[verifier::external_body]
pub struct ExJsonNumber(serde_json::Number);

/// `serde_json::Error`, what `serde_json` reports when it fails.
#[verifier::external_type_specification]
#[verifier::external_body]
pub struct ExJsonError(serde_json::Error);

/// The number that a `serde_json::Number` holds: an unsigned integer, an
/// integer below zero, or another number. The integer that stands for another
/// number tells two of them apart and is never computed.
pub uninterp spec fn number_content(n: serde_json::Number) -> Numeral;

/// The tree that a `serde_json::Value` holds, the entries of each mapping in
/// the order in which the mapping hands them out.
pub uninterp spec fn json_content(v: serde_json::Value) -> Wet;

/// One level of a `serde_json::Value`: its kind, and what it holds directly.
pub enum Shell {
    Null,
    Bool(bool),
    Number(serde_json::Number),
    Text(String),
    Array(Vec<serde_json::Value>),
    Object(Vec<(String, serde_json::Value)>),
}

/// The trees that a sequence of `serde_json` values holds.
pub open spec fn contents(items: Seq<serde_json::Value>) -> Seq<Wet> {
    Seq::new(items.len(), |i: int| json_content(items[i]))
}

/// The keys and trees that the entries of a mapping hold.
pub open spec fn entry_contents(entries: Seq<(String, serde_json::Value)>) -> Seq<
    (Seq<char>, Wet),
> {
    Seq::new(entries.len(), |i: int| (entries[i].0@, json_content(entries[i].1)))
}

impl Shell {
    /// The tree that the `serde_json::Value` of this level holds.
    pub open spec fn content(self) -> Wet {
        match self {
            Shell::Null => Wet::Null,
            Shell::Bool(b) => Wet::Bool(b),
            Shell::Number(n) => Wet::Number(number_content(n)),
            Shell::Text(s) => Wet::Text(s@),
            Shell::Array(items) => Wet::Array(contents(items@)),
            Shell::Object(entries) => Wet::Object(entry_contents(entries@)),
        }
    }

    /// The entries of a mapping have distinct keys.
    pub open spec fn keyed(self) -> bool {
        self matches Shell::Object(entries) ==> distinct_keys(entry_contents(entries@))
    }
}

/// Builds the `serde_json::Value` of one level, with the variant of that
/// name; for a mapping, `serde_json::Map` collects the entries in their
/// order. Entries with one key would be merged there, so they are left out.
#[verifier::external_body]
pub(crate) fn json_close(shell: Shell) -> (v: serde_json::Value)
    requires
        shell.keyed(),
    ensures
        json_content(v) == shell.content(),
{
    match shell {
        Shell::Null => serde_json::Value::Null,
        Shell::Bool(b) => serde_json::Value::Bool(b),
        Shell::Number(n) => serde_json::Value::Number(n),
        Shell::Text(s) => serde_json::Value::String(s),
        Shell::Array(items) => serde_json::Value::Array(items),
        Shell::Object(entries) => serde_json::Value::Object(entries.into_iter().collect()),
    }
}

/// Takes a `serde_json::Value` apart by its variant; the entries of a
/// `serde_json::Map` come in the order of its iterator, each key once.
#[verifier::external_body]
pub(crate) fn json_open(v: serde_json::Value) -> (shell: Shell)
    ensures
        shell.content() == json_content(v),
        shell.keyed(),
{
    match v {
        serde_json::Value::Null => Shell::Null,
        serde_json::Value::Bool(b) => Shell::Bool(b),
        serde_json::Value::Number(n) => Shell::Number(n),
        serde_json::Value::String(s) => Shell::Text(s),
        serde_json::Value::Array(items) => Shell::Array(items),
        serde_json::Value::Object(map) => Shell::Object(map.into_iter().collect()),
    }
}

/// `serde_json::Number::from` on a `u64` holds that integer.
#[verifier::external_body]
pub(crate) fn number_unsigned(n: u64) -> (number: serde_json::Number)
    ensures
        number_content(number) == Numeral::PosInt(n),
{
    serde_json::Number::from(n)
}

/// `serde_json::Number::from` on an `i64` holds that integer, as a negative
/// one where it is below zero and as an unsigned one where it is not.
#[verifier::external_body]
pub(crate) fn number_signed(n: i64) -> (number: serde_json::Number)
    ensures
        number_content(number) == if n < 0 {
            Numeral::NegInt(n)
        } else {
            Numeral::PosInt(n as u64)
        },
{
    serde_json::Number::from(n)
}

/// The derived `clone` of `serde_json::Number` copies the number.
pub assume_specification[ <serde_json::Number as Clone>::clone ](n: &serde_json::Number) -> (r:
    serde_json::Number)
    ensures
        number_content(r) == number_content(*n),
;

/// `serde_json::Number::as_u64` gives the integer of an unsigned number and
/// `None` for a negative integer and for any other number.
pub assume_specification[ serde_json::Number::as_u64 ](n: &serde_json::Number) -> (r: Option<u64>)
    ensures
        r == match number_content(*n) {
            Numeral::PosInt(u) => Some(u),
            _ => None::<u64>,
        },
;

/// `serde_json::Number::as_i64` gives the integer of a negative number, that
/// of an unsigned number up to `i64::MAX`, and `None` otherwise. A negative
/// number is below zero.
pub assume_specification[ serde_json::Number::as_i64 ](n: &serde_json::Number) -> (r: Option<i64>)
    ensures
        r == match number_content(*n) {
            Numeral::PosInt(u) => if u <= i64::MAX {
                Some(u as i64)
            } else {
                None::<i64>
            },
            Numeral::NegInt(i) => Some(i),
            Numeral::Float(_) => None::<i64>,
        },
        r matches Some(i) ==> (i < 0 <==> number_content(*n) is NegInt),
;

/// The compact JSON text that `serde_json::to_vec` writes for a value that
/// holds this tree; `None` where it reports an error.
pub uninterp spec fn json_text(tree: Wet) -> Option<Seq<u8>>;

/// The indented JSON text that `serde_json::to_vec_pretty` writes for a value
/// that holds this tree; `None` where it reports an error.
pub uninterp spec fn json_pretty_text(tree: Wet) -> Option<Seq<u8>>;

/// The tree of the value that `serde_json::from_slice` reads from these
/// bytes; `None` where it reports an error.
pub uninterp spec fn json_parse(text: Seq<u8>) -> Option<Wet>;

/// `serde_json::to_vec` on a `serde_json::Value`: the bytes depend on
/// nothing but the tree that the value holds, and they are UTF-8, which
/// `serde_json::to_string` relies on.
#[verifier::external_body]
pub(crate) fn json_to_vec(v: &serde_json::Value) -> (r: Result<Vec<u8>, serde_json::Error>)
    ensures
        match r {
            Ok(bytes) => json_text(json_content(*v)) == Some(bytes@) && valid_utf8(bytes@),
            Err(_) => json_text(json_content(*v)) is None,
        },
{
    serde_json::to_vec(v)
}

/// `serde_json::to_vec_pretty` on a `serde_json::Value`: the bytes depend on
/// nothing but the tree that the value holds, and they are UTF-8, which
/// `serde_json::to_string_pretty` relies on.
#[verifier::external_body]
pub(crate) fn json_to_vec_pretty(v: &serde_json::Value) -> (r: Result<Vec<u8>, serde_json::Error>)
    ensures
        match r {
            Ok(bytes) => json_pretty_text(json_content(*v)) == Some(bytes@) && valid_utf8(bytes@),
            Err(_) => json_pretty_text(json_content(*v)) is None,
        },
{
    serde_json::to_vec_pretty(v)
}

/// `serde_json::from_slice` to a `serde_json::Value`: whether it succeeds,
/// and the tree of the value, depend on nothing but the bytes.
#[verifier::external_body]
pub(crate) fn json_from_slice(text: &[u8]) -> (r: Result<serde_json::Value, serde_json::Error>)
    ensures
        match r {
            Ok(v) => json_parse(text@) == Some(json_content(v)),
            Err(_) => json_parse(text@) is None,
        },
{
    serde_json::from_slice(text)
}

/// The JSON text of a tree, compact or indented. A tree with one key twice
/// in a mapping has none, nor has one that `serde_json` refuses to write.
pub open spec fn json_encoding(tree: Wet, pretty: bool) -> Result<Seq<u8>, ConvertError> {
    let text = if pretty {
        json_pretty_text(tree)
    } else {
        json_text(tree)
    };
    if tree.well_formed() && text is Some {
        Ok(text->0)
    } else {
        Err(ConvertError::Codec(CodecError::Unrepresentable))
    }
}

/// The tree that a JSON text stands for.
pub open spec fn json_decoding(text: Seq<u8>) -> Result<Wet, ConvertError> {
    match json_parse(text) {
        Some(tree) => Ok(tree),
        None => Err(ConvertError::Codec(CodecError::Malformed)),
    }
}

/// Turns a wet value into the `serde_json::Value` that holds the same tree.
/// A mapping with one key twice has none.
pub fn to_json(wet: WetValue) -> (r: Result<serde_json::Value, ConvertError>)
    ensures
        match r {
            Ok(v) => wet@.well_formed() && json_content(v) == wet@,
            Err(e) => !wet@.well_formed() && e == ConvertError::Codec(
                CodecError::Unrepresentable,
            ),
        },
    decreases wet,
{
    match wet {
        WetValue::Null => Ok(json_close(Shell::Null)),
        WetValue::Bool(b) => Ok(json_close(Shell::Bool(b))),
        WetValue::Number(n) => {
            let number = match n {
                WetNumber::PosInt(u) => number_unsigned(u),
                WetNumber::NegInt(i) => number_signed(i),
                WetNumber::Float(x) => x,
            };
            Ok(json_close(Shell::Number(number)))
        },
        WetValue::Text(s) => Ok(json_close(Shell::Text(s))),
        WetValue::Array(items) => {
            let ghost all = items@;
            proof {
                lemma_array_view(items);
            }
            let mut out: Vec<serde_json::Value> = Vec::new();
            for item in it: items
                invariant
                    it.seq() == all,
                    wet == WetValue::Array(items),
                    wet@ == Wet::Array(views(all)),
                    out@.len() == it.index(),
                    forall|j: int|
                        0 <= j < out@.len() ==> json_content(#[trigger] out@[j]) == all[j]@
                            && all[j]@.well_formed(),
            {
                let ghost k = it.index();
                match to_json(item) {
                    Ok(v) => out.push(v),
                    Err(e) => {
                        assert(!wet@->Array_0[k].well_formed());
                        return Err(e);
                    },
                }
            }
            let v = json_close(Shell::Array(out));
            assert(contents(out@) =~= views(all));
            Ok(v)
        },
        WetValue::Object(entries) => {
            let ghost all = entries@;
            proof {
                lemma_object_view(entries);
            }
            let mut out: Vec<(String, serde_json::Value)> = Vec::new();
            for entry in it: entries
                invariant
                    it.seq() == all,
                    wet == WetValue::Object(entries),
                    wet@ == Wet::Object(entry_views(all)),
                    out@.len() == it.index(),
                    forall|j: int|
                        0 <= j < out@.len() ==> (#[trigger] out@[j]).0@ == all[j].0@
                            && json_content(out@[j].1) == all[j].1@ && all[j].1@.well_formed(),
                    distinct_keys(entry_contents(out@)),
            {
                let ghost k = it.index();
                let ghost before = out@;
                let (key, value) = entry;
                if !key_is_new(&out, out.len(), key.as_str()) {
                    proof {
                        let i = choose|i: int| 0 <= i < before.len() && before[i].0@ == key@;
                        assert(entry_views(all)[i].0 == entry_views(all)[k].0);
                    }
                    return Err(ConvertError::Codec(CodecError::Unrepresentable));
                }
                match to_json(value) {
                    Ok(v) => {
                        out.push((key, v));
                        assert forall|i: int, j: int| 0 <= i < j < out@.len() implies (
                        #[trigger] entry_contents(out@)[i]).0 != (#[trigger] entry_contents(
                            out@,
                        )[j]).0 by {
                            if j < before.len() {
                                assert(entry_contents(before)[i].0 != entry_contents(before)[j].0);
                            }
                        }
                    },
                    Err(e) => {
                        assert(!wet@->Object_0[k].1.well_formed());
                        return Err(e);
                    },
                }
            }
            let v = json_close(Shell::Object(out));
            assert(entry_contents(out@) =~= entry_views(all));
            Ok(v)
        },
    }
}

/// The number of a wet value that holds what a `serde_json::Number` holds: an
/// integer where it is one.
pub fn number_of(n: serde_json::Number) -> (number: WetNumber)
    ensures
        number@ == number_content(n),
{
    match n.as_u64() {
        Some(u) => WetNumber::PosInt(u),
        None => match n.as_i64() {
            Some(i) => WetNumber::NegInt(i),
            None => WetNumber::Float(n),
        },
    }
}

/// Turns a `serde_json::Value` into the wet value that holds the same tree.
pub fn from_json(v: serde_json::Value) -> (wet: WetValue)
    ensures
        wet@ == json_content(v),
        wet@.well_formed(),
    decreases json_content(v),
{
    match json_open(v) {
        Shell::Null => WetValue::Null,
        Shell::Bool(b) => WetValue::Bool(b),
        Shell::Number(n) => WetValue::Number(number_of(n)),
        Shell::Text(s) => WetValue::Text(s),
        Shell::Array(items) => {
            let ghost all = items@;
            let mut out: Vec<WetValue> = Vec::new();
            for item in it: items
                invariant
                    it.seq() == all,
                    json_content(v) == Wet::Array(contents(all)),
                    out@.len() == it.index(),
                    forall|j: int|
                        0 <= j < out@.len() ==> (#[trigger] out@[j])@ == json_content(all[j])
                            && out@[j]@.well_formed(),
            {
                let ghost k = it.index();
                assert(decreases_to!(json_content(v) => json_content(v)->Array_0));
                assert(decreases_to!(contents(all) => contents(all)[k]));
                out.push(from_json(item));
            }
            proof {
                lemma_array_view(out);
                assert(views(out@) =~= contents(all));
            }
            WetValue::Array(out)
        },
        Shell::Object(entries) => {
            let ghost all = entries@;
            let mut out: Vec<(String, WetValue)> = Vec::new();
            for entry in it: entries
                invariant
                    it.seq() == all,
                    json_content(v) == Wet::Object(entry_contents(all)),
                    out@.len() == it.index(),
                    forall|j: int|
                        0 <= j < out@.len() ==> (#[trigger] out@[j]).0@ == all[j].0@
                            && out@[j].1@ == json_content(all[j].1) && out@[j].1@.well_formed(),
            {
                let ghost k = it.index();
                let (key, value) = entry;
                assert(decreases_to!(json_content(v) => json_content(v)->Object_0));
                assert(decreases_to!(entry_contents(all) => entry_contents(all)[k]));
                assert(decreases_to!(entry_contents(all)[k] => entry_contents(all)[k].1));
                out.push((key, from_json(value)));
            }
            proof {
                lemma_object_view(out);
                assert(entry_views(out@) =~= entry_contents(all));
            }
            WetValue::Object(out)
        },
    }
}

/// Writes a wet value as JSON text, which is UTF-8.
pub fn encode_json(wet: WetValue, pretty: bool) -> (r: Result<Vec<u8>, ConvertError>)
    ensures
        match json_encoding(wet@, pretty) {
            Ok(text) => r matches Ok(bytes) && bytes@ == text && valid_utf8(text),
            Err(e) => r matches Err(f) && f == e,
        },
{
    let v = match to_json(wet) {
        Ok(v) => v,
        Err(e) => {
            return Err(e);
        },
    };
    let written = if pretty {
        json_to_vec_pretty(&v)
    } else {
        json_to_vec(&v)
    };
    match written {
        Ok(bytes) => Ok(bytes),
        Err(_) => Err(ConvertError::Codec(CodecError::Unrepresentable)),
    }
}

/// Reads JSON text into a wet value.
pub fn decode_json(text: &[u8]) -> (r: Result<WetValue, ConvertError>)
    ensures
        match json_decoding(text@) {
            Ok(tree) => r matches Ok(wet) && wet@ == tree && tree.well_formed(),
            Err(e) => r matches Err(f) && f == e,
        },
{
    match json_from_slice(text) {
        Ok(v) => Ok(from_json(v)),
        Err(_) => Err(ConvertError::Codec(CodecError::Malformed)),
    }
}

} // verus!
