//! Proof that a document that was written reads back as itself.

use vstd::prelude::*;
use crate::ini::reader::{has_key, ini_parse, lemma_first_index, Draft};
use crate::ini::scalar::{lemma_scalar_round_trip, scalar_text};
use crate::ini::writer::{
    document_ok, document_text, ini_text, scalar_entry, scalar_lines, section_ok,
};
use crate::value::Wet;

verus! {

/// Reading a line and what follows it is reading the line, then the rest.
proof fn lemma_run_line(draft: Draft, line: Seq<char>, rest: Seq<char>)
    requires
        !line.contains('\n'),
    ensures
        draft.run(line + seq!['\n'] + rest) == match draft.step(line) {
            Some(next) => next.run(rest),
            None => None,
        },
{
    let text = line + seq!['\n'] + rest;
    lemma_first_index(text, '\n', line.len() as int);
    assert(text.take(line.len() as int) =~= line);
    assert(text.skip(line.len() as int + 1) =~= rest);
}

/// The line of an entry with a scalar, without its line break.
spec fn bare_line(entry: (Seq<char>, Wet)) -> Seq<char> {
    entry.0 + seq!['='] + scalar_text(entry.1)->0
}

/// The line of an entry with a scalar adds that entry to the draft.
proof fn lemma_step_scalar(draft: Draft, entry: (Seq<char>, Wet))
    requires
        scalar_entry(entry),
        !has_key(draft.current, entry.0),
    ensures
        !bare_line(entry).contains('\n'),
        draft.step(bare_line(entry)) == Some(
            Draft { done: draft.done, name: draft.name, current: draft.current.push(entry) },
        ),
{
    let key = entry.0;
    let value = scalar_text(entry.1)->0;
    let line = bare_line(entry);
    lemma_scalar_round_trip(entry.1);
    lemma_first_index(line, '=', key.len() as int);
    assert(line.take(key.len() as int) =~= key);
    assert(line.skip(key.len() as int + 1) =~= value);
}

/// The lines of the entries of a section, from the `i`th on, add those
/// entries to a draft that holds the ones before.
proof fn lemma_run_scalars(draft: Draft, entries: Seq<(Seq<char>, Wet)>, i: int, rest: Seq<char>)
    requires
        section_ok(entries),
        0 <= i <= entries.len(),
        draft.current == entries.take(i),
    ensures
        draft.run(scalar_lines(entries.skip(i)) + rest) == (Draft {
            done: draft.done,
            name: draft.name,
            current: entries,
        }).run(rest),
    decreases entries.len() - i,
{
    let left = entries.skip(i);
    if i == entries.len() {
        assert(entries.take(i) =~= entries);
        assert(scalar_lines(left) + rest =~= rest);
    } else {
        let entry = entries[i];
        assert(left.drop_first() =~= entries.skip(i + 1));
        let after = scalar_lines(entries.skip(i + 1)) + rest;
        assert(scalar_lines(left) + rest =~= bare_line(entry) + seq!['\n'] + after);
        lemma_step_scalar(draft, entry);
        lemma_run_line(draft, bare_line(entry), after);
        let next = Draft {
            done: draft.done,
            name: draft.name,
            current: draft.current.push(entry),
        };
        assert(next.current =~= entries.take(i + 1));
        lemma_run_scalars(next, entries, i + 1, rest);
    }
}

/// The text of the entries of a document, from the `i`th on, completes a
/// draft that holds the ones before.
proof fn lemma_run_document(draft: Draft, entries: Seq<(Seq<char>, Wet)>, i: int) -> (end: Draft)
    requires
        document_ok(entries),
        0 <= i <= entries.len(),
        draft.entries() == entries.take(i),
        draft.name is Some ==> i > 0 && entries[i - 1].1 is Object,
    ensures
        draft.run(document_text(entries.skip(i))) == Some(end),
        end.entries() == entries,
    decreases entries.len() - i,
{
    let left = entries.skip(i);
    if i == entries.len() {
        assert(entries.take(i) =~= entries);
        draft
    } else {
        let entry = entries[i];
        assert(left.drop_first() =~= entries.skip(i + 1));
        let after = document_text(entries.skip(i + 1));
        match entry.1 {
            Wet::Object(inner) => {
                let name = entry.0;
                let header = seq!['['] + name + seq![']'];
                assert(document_text(left) =~= header + seq!['\n'] + (scalar_lines(inner) + after));
                assert(header.subrange(1, header.len() - 1) =~= name);
                lemma_run_line(draft, header, scalar_lines(inner) + after);
                let opened = Draft { done: entries.take(i), name: Some(name), current: Seq::empty() };
                assert(opened.current =~= inner.take(0));
                assert(inner.skip(0) =~= inner);
                lemma_run_scalars(opened, inner, 0, after);
                let filled = Draft { done: entries.take(i), name: Some(name), current: inner };
                assert(filled.entries() =~= entries.take(i + 1));
                lemma_run_document(filled, entries, i + 1)
            },
            _ => {
                assert(document_text(left) =~= bare_line(entry) + seq!['\n'] + after);
                lemma_step_scalar(draft, entry);
                lemma_run_line(draft, bare_line(entry), after);
                let next = Draft {
                    done: draft.done,
                    name: draft.name,
                    current: draft.current.push(entry),
                };
                assert(next.entries() =~= entries.take(i + 1));
                lemma_run_document(next, entries, i + 1)
            },
        }
    }
}

/// A tree that can be written as INI text reads back from that text as
/// itself.
pub proof fn lemma_ini_round_trip(tree: Wet)
    requires
        ini_text(tree) is Some,
    ensures
        ini_parse(ini_text(tree)->0) == Some(tree),
{
    let entries = tree->Object_0;
    assert(entries.take(0) =~= Draft::start().entries());
    assert(entries.skip(0) =~= entries);
    lemma_run_document(Draft::start(), entries, 0);
}

} // verus!
