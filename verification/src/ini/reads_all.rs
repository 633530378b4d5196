//! Proof that a text that was read holds nothing but the document, blank
//! lines and comments.

use vstd::prelude::*;
use crate::ini::reader::{first_index, ini_parse, Draft};
use crate::ini::scalar::{lemma_scalar_text_of, scalar_of};
use crate::ini::writer::{
    document_ok, document_text, entry_ok, entry_text, ini_text, name_ok, scalar_line,
    scalar_lines, section_ok,
};
use crate::value::{distinct_keys, Wet};

verus! {

/// A line that is skipped when a document is read: a blank line or a comment.
pub open spec fn skipped(line: Seq<char>) -> bool {
    line.len() == 0 || line[0] == ';' || line[0] == '#'
}

/// A text without its blank lines and comments, each line ended by a line
/// break.
pub open spec fn kept(text: Seq<char>) -> Seq<char>
    decreases text.len(),
{
    if text.len() == 0 {
        Seq::empty()
    } else {
        let end = first_index(text, '\n');
        let line = text.take(end);
        let head = if skipped(line) {
            Seq::empty()
        } else {
            line + seq!['\n']
        };
        if 0 <= end < text.len() {
            head + kept(text.skip(end + 1))
        } else {
            head
        }
    }
}

/// The first `c` of a text is within the text, and `c` stands nowhere before
/// it.
proof fn lemma_first_index_is_first(text: Seq<char>, c: char)
    ensures
        0 <= first_index(text, c) <= text.len(),
        forall|j: int| 0 <= j < first_index(text, c) ==> text[j] != c,
        first_index(text, c) < text.len() ==> text[first_index(text, c)] == c,
    decreases text.len(),
{
    if text.len() == 0 || text[0] == c {
    } else {
        let rest = text.drop_first();
        lemma_first_index_is_first(rest, c);
        assert forall|j: int| 0 <= j < first_index(text, c) implies text[j] != c by {
            if j > 0 {
                assert(text[j] == rest[j - 1]);
            }
        }
    }
}

/// The lines of a section with one more entry.
proof fn lemma_scalar_lines_push(entries: Seq<(Seq<char>, Wet)>, entry: (Seq<char>, Wet))
    ensures
        scalar_lines(entries.push(entry)) == scalar_lines(entries) + scalar_line(entry),
    decreases entries.len(),
{
    let more = entries.push(entry);
    if entries.len() == 0 {
        assert(more.drop_first() =~= Seq::empty());
        assert(scalar_lines(more.drop_first()) =~= Seq::<char>::empty());
        assert(scalar_lines(more) =~= scalar_lines(entries) + scalar_line(entry));
    } else {
        assert(more.drop_first() =~= entries.drop_first().push(entry));
        lemma_scalar_lines_push(entries.drop_first(), entry);
        assert(scalar_lines(more) =~= scalar_lines(entries) + scalar_line(entry));
    }
}

/// The text of a document with one more entry.
proof fn lemma_document_text_push(entries: Seq<(Seq<char>, Wet)>, entry: (Seq<char>, Wet))
    ensures
        document_text(entries.push(entry)) == document_text(entries) + entry_text(entry),
    decreases entries.len(),
{
    let more = entries.push(entry);
    if entries.len() == 0 {
        assert(more.drop_first() =~= Seq::empty());
        assert(document_text(more.drop_first()) =~= Seq::<char>::empty());
        assert(document_text(more) =~= document_text(entries) + entry_text(entry));
    } else {
        assert(more.drop_first() =~= entries.drop_first().push(entry));
        lemma_document_text_push(entries.drop_first(), entry);
        assert(document_text(more) =~= document_text(entries) + entry_text(entry));
    }
}

impl Draft {
    /// What has been read can be written: the entries so far make a document,
    /// and those read before any section hold scalars.
    pub open spec fn sound(self) -> bool {
        &&& document_ok(self.entries())
        &&& match self.name {
            Some(name) => name_ok(name) && section_ok(self.current),
            None => section_ok(self.current),
        }
    }

    /// The text of what has been read.
    pub open spec fn text(self) -> Seq<char> {
        document_text(self.entries())
    }
}

/// A line that is read keeps the draft sound and adds itself to its text,
/// unless it is a blank line or a comment.
proof fn lemma_step_keeps(draft: Draft, line: Seq<char>)
    requires
        draft.sound(),
        !line.contains('\n'),
        draft.step(line) is Some,
    ensures
        draft.step(line)->0.sound(),
        draft.step(line)->0.text() == draft.text() + if skipped(line) {
            Seq::<char>::empty()
        } else {
            line + seq!['\n']
        },
{
    let next = draft.step(line)->0;
    if skipped(line) {
        assert(draft.text() + Seq::<char>::empty() =~= draft.text());
    } else if line[0] == '[' {
        let name = line.subrange(1, line.len() - 1);
        let entry = (name, Wet::Object(Seq::empty()));
        let before = draft.entries();
        let after = before.push(entry);
        assert(next.entries() =~= after);
        assert(scalar_lines(Seq::empty()) =~= Seq::<char>::empty());
        assert(entry_text(entry) =~= line + seq!['\n']);
        lemma_document_text_push(before, entry);
    } else {
        lemma_first_index_is_first(line, '=');
        let at = first_index(line, '=');
        let key = line.take(at);
        let value = line.skip(at + 1);
        let entry = (key, scalar_of(value));
        lemma_scalar_text_of(value);
        assert(scalar_line(entry) =~= line + seq!['\n']);
        let current = draft.current.push(entry);
        match draft.name {
            Some(name) => {
                let before = draft.entries();
                let after = next.entries();
                let old_section = (name, Wet::Object(draft.current));
                let new_section = (name, Wet::Object(current));
                assert(before =~= draft.done.push(old_section));
                assert(after =~= draft.done.push(new_section));
                lemma_document_text_push(draft.done, old_section);
                lemma_document_text_push(draft.done, new_section);
                lemma_scalar_lines_push(draft.current, entry);
                assert(entry_text(new_section) =~= entry_text(old_section) + scalar_line(entry));
                assert(document_text(after) =~= document_text(before) + scalar_line(entry));
                assert(distinct_keys(after)) by {
                    assert forall|i: int, j: int| 0 <= i < j < after.len() implies (
                    #[trigger] after[i]).0 != (#[trigger] after[j]).0 by {
                        assert(before[i].0 != before[j].0);
                    }
                }
                assert forall|i: int| 0 <= i < after.len() implies entry_ok(#[trigger] after[i]) by {
                    if i < draft.done.len() {
                        assert(entry_ok(before[i]));
                    }
                }
                assert forall|i: int, j: int|
                    0 <= i < j < after.len() && (#[trigger] after[i]).1 is Object implies (
                #[trigger] after[j]).1 is Object by {
                    if j < draft.done.len() {
                        assert(before[i].1 is Object ==> before[j].1 is Object);
                    }
                }
            },
            None => {
                let before = draft.current;
                assert(next.entries() =~= current);
                lemma_document_text_push(before, entry);
            },
        }
    }
}

/// The lines of a text that are read keep the draft sound and add
/// themselves to its text.
proof fn lemma_run_keeps(draft: Draft, text: Seq<char>)
    requires
        draft.sound(),
        draft.run(text) is Some,
    ensures
        draft.run(text)->0.sound(),
        draft.run(text)->0.text() == draft.text() + kept(text),
    decreases text.len(),
{
    if text.len() == 0 {
        assert(draft.text() + kept(text) =~= draft.text());
    } else {
        lemma_first_index_is_first(text, '\n');
        let end = first_index(text, '\n');
        let line = text.take(end);
        lemma_step_keeps(draft, line);
        let next = draft.step(line)->0;
        let head = if skipped(line) {
            Seq::<char>::empty()
        } else {
            line + seq!['\n']
        };
        if end < text.len() {
            let rest = text.skip(end + 1);
            lemma_run_keeps(next, rest);
            assert(draft.text() + (head + kept(rest)) =~= draft.text() + head + kept(rest));
        }
    }
}

/// Nothing of a text is passed over when it is read: the tree that it
/// stands for can be written, and its text is the text that was read without
/// its blank lines and comments.
pub proof fn lemma_ini_reads_all(text: Seq<char>)
    requires
        ini_parse(text) is Some,
    ensures
        ini_text(ini_parse(text)->0) == Some(kept(text)),
{
    let start = Draft::start();
    assert(start.entries() =~= Seq::empty());
    assert(document_text(Seq::empty()) =~= Seq::<char>::empty());
    lemma_run_keeps(start, text);
    assert(start.text() + kept(text) =~= kept(text));
}

} // verus!
