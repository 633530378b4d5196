//! The text of a document, and the writer that produces it.

use vstd::prelude::*;
use crate::ini::scalar::{lacks, scalar_text, write_scalar};
use crate::text::chars_of;
use crate::value::{distinct_keys, entry_views, key_is_new, lemma_object_view, Wet, WetValue};

verus! {

/// A key can be written when it has no `=` and no line break and does not
/// start like a section or a comment.
pub open spec fn key_ok(key: Seq<char>) -> bool {
    &&& !key.contains('=')
    &&& !key.contains('\n')
    &&& key.len() > 0 ==> key[0] != '[' && key[0] != ';' && key[0] != '#'
}

/// The name of a section can be written when it has no line break.
pub open spec fn name_ok(name: Seq<char>) -> bool {
    !name.contains('\n')
}

/// An entry that one line `key=value` can hold.
pub open spec fn scalar_entry(entry: (Seq<char>, Wet)) -> bool {
    key_ok(entry.0) && scalar_text(entry.1) is Some
}

/// The line of an entry with a scalar, with its line break.
pub open spec fn scalar_line(entry: (Seq<char>, Wet)) -> Seq<char> {
    entry.0 + seq!['='] + scalar_text(entry.1)->0 + seq!['\n']
}

/// The lines of the entries of a section.
pub open spec fn scalar_lines(entries: Seq<(Seq<char>, Wet)>) -> Seq<char>
    decreases entries.len(),
{
    if entries.len() == 0 {
        Seq::empty()
    } else {
        scalar_line(entries[0]) + scalar_lines(entries.drop_first())
    }
}

/// The entries of a section can be written when their keys differ and each
/// holds a scalar.
pub open spec fn section_ok(entries: Seq<(Seq<char>, Wet)>) -> bool {
    &&& distinct_keys(entries)
    &&& forall|i: int| 0 <= i < entries.len() ==> scalar_entry(#[trigger] entries[i])
}

/// An entry of a document can be written when it holds a scalar, or a
/// mapping that can be written as a section.
pub open spec fn entry_ok(entry: (Seq<char>, Wet)) -> bool {
    match entry.1 {
        Wet::Object(entries) => name_ok(entry.0) && section_ok(entries),
        _ => scalar_entry(entry),
    }
}

/// The text of one entry of a document: a line, or a section.
pub open spec fn entry_text(entry: (Seq<char>, Wet)) -> Seq<char> {
    match entry.1 {
        Wet::Object(entries) => seq!['['] + entry.0 + seq![']', '\n'] + scalar_lines(entries),
        _ => scalar_line(entry),
    }
}

/// The text of the entries of a document.
pub open spec fn document_text(entries: Seq<(Seq<char>, Wet)>) -> Seq<char>
    decreases entries.len(),
{
    if entries.len() == 0 {
        Seq::empty()
    } else {
        entry_text(entries[0]) + document_text(entries.drop_first())
    }
}

/// The entries of a document can be written when their keys differ, each can
/// be written, and no scalar follows a section.
pub open spec fn document_ok(entries: Seq<(Seq<char>, Wet)>) -> bool {
    &&& distinct_keys(entries)
    &&& forall|i: int| 0 <= i < entries.len() ==> entry_ok(#[trigger] entries[i])
    &&& forall|i: int, j: int|
        0 <= i < j < entries.len() && (#[trigger] entries[i]).1 is Object ==> (
        #[trigger] entries[j]).1 is Object
}

/// The INI text of a tree; `None` for a tree that the grammar cannot hold.
pub open spec fn ini_text(tree: Wet) -> Option<Seq<char>> {
    match tree {
        Wet::Object(entries) => if document_ok(entries) {
            Some(document_text(entries))
        } else {
            None
        },
        _ => None,
    }
}

/// Whether a key can be written.
fn key_can_be_written(key: &[char]) -> (ok: bool)
    ensures
        ok == key_ok(key@),
{
    if !lacks(key, '=') || !lacks(key, '\n') {
        return false;
    }
    if key.len() > 0 {
        let first: char = key[0];
        if first == '[' || first == ';' || first == '#' {
            return false;
        }
    }
    true
}

/// Appends the line of an entry with a scalar. Where the entry has no such
/// line, what was appended has no meaning.
fn write_line(out: &mut String, key: &String, value: &WetValue) -> (written: bool)
    ensures
        written == scalar_entry((key@, value@)),
        written ==> final(out)@ == old(out)@ + scalar_line((key@, value@)),
{
    let chars = chars_of(key.as_str());
    if !key_can_be_written(chars.as_slice()) {
        return false;
    }
    out.append(key.as_str());
    out.push('=');
    if !write_scalar(out, value) {
        return false;
    }
    out.push('\n');
    assert(out@ =~= old(out)@ + scalar_line((key@, value@)));
    true
}

/// Appends the lines of the entries of a section. Where they cannot be
/// written, what was appended has no meaning.
fn write_section(out: &mut String, entries: &Vec<(String, WetValue)>) -> (written: bool)
    ensures
        written == section_ok(entry_views(entries@)),
        written ==> final(out)@ == old(out)@ + scalar_lines(entry_views(entries@)),
{
    let ghost trees = entry_views(entries@);
    let mut i: usize = 0;
    assert(trees.skip(0) =~= trees);
    while i < entries.len()
        invariant
            i <= entries@.len(),
            trees == entry_views(entries@),
            distinct_keys(trees.take(i as int)),
            forall|j: int| 0 <= j < i ==> scalar_entry(#[trigger] trees[j]),
            out@ + scalar_lines(trees.skip(i as int)) == old(out)@ + scalar_lines(trees),
        decreases entries@.len() - i,
    {
        let ghost before = out@;
        if !key_is_new(entries, i, entries[i].0.as_str()) {
            proof {
                let j = choose|j: int| 0 <= j < i && entries@[j].0@ == entries@[i as int].0@;
                assert(trees[j].0 == trees[i as int].0);
            }
            return false;
        }
        if !write_line(out, &entries[i].0, &entries[i].1) {
            return false;
        }
        proof {
            let rest = trees.skip(i as int);
            assert(rest.drop_first() =~= trees.skip(i + 1));
            assert(out@ + scalar_lines(trees.skip(i + 1)) =~= before + scalar_lines(rest));
        }
        i += 1;
    }
    proof {
        assert(trees.take(i as int) =~= trees);
        assert(scalar_lines(trees.skip(i as int)) =~= Seq::<char>::empty());
        assert(out@ =~= out@ + Seq::<char>::empty());
    }
    true
}

/// Writes a tree as INI text; `None` for a tree that the grammar cannot
/// hold.
pub fn write_document(wet: &WetValue) -> (r: Option<String>)
    ensures
        match ini_text(wet@) {
            Some(text) => r matches Some(s) && s@ == text,
            None => r is None,
        },
{
    let entries = match wet {
        WetValue::Object(entries) => entries,
        _ => {
            return None;
        },
    };
    proof {
        lemma_object_view(*entries);
    }
    let ghost trees = entry_views(entries@);
    let mut out = String::new();
    let mut in_sections = false;
    let mut i: usize = 0;
    assert(trees.skip(0) =~= trees);
    while i < entries.len()
        invariant
            i <= entries@.len(),
            trees == entry_views(entries@),
            wet@ == Wet::Object(trees),
            distinct_keys(trees.take(i as int)),
            forall|j: int| 0 <= j < i ==> entry_ok(#[trigger] trees[j]),
            forall|a: int, b: int|
                0 <= a < b < i && (#[trigger] trees[a]).1 is Object ==> (#[trigger] trees[b]).1
                    is Object,
            in_sections <==> exists|j: int| 0 <= j < i && (#[trigger] trees[j]).1 is Object,
            out@ + document_text(trees.skip(i as int)) == document_text(trees),
        decreases entries@.len() - i,
    {
        let ghost before = out@;
        let ghost tree = trees[i as int];
        if !key_is_new(entries, i, entries[i].0.as_str()) {
            proof {
                let j = choose|j: int| 0 <= j < i && entries@[j].0@ == entries@[i as int].0@;
                assert(trees[j].0 == trees[i as int].0);
            }
            return None;
        }
        match &entries[i].1 {
            WetValue::Object(inner) => {
                proof {
                    lemma_object_view(*inner);
                }
                let name = chars_of(entries[i].0.as_str());
                if !lacks(name.as_slice(), '\n') {
                    return None;
                }
                out.push('[');
                out.append(entries[i].0.as_str());
                out.push(']');
                out.push('\n');
                if !write_section(&mut out, inner) {
                    return None;
                }
                in_sections = true;
                assert(out@ =~= before + entry_text(tree));
            },
            _ => {
                if in_sections {
                    return None;
                }
                if !write_line(&mut out, &entries[i].0, &entries[i].1) {
                    return None;
                }
                assert(out@ =~= before + entry_text(tree));
            },
        }
        proof {
            let rest = trees.skip(i as int);
            assert(rest.drop_first() =~= trees.skip(i + 1));
            assert(out@ + document_text(trees.skip(i + 1)) =~= before + document_text(rest));
        }
        i += 1;
    }
    proof {
        assert(trees.take(i as int) =~= trees);
        assert(document_text(trees.skip(i as int)) =~= Seq::<char>::empty());
        assert(out@ =~= out@ + Seq::<char>::empty());
    }
    Some(out)
}

} // verus!
