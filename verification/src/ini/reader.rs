//! The document that a text stands for, and the reader that finds it.

use vstd::prelude::*;
use crate::ini::scalar::{read_scalar, scalar_of};
use crate::text::string_of;
use crate::value::{entry_views, key_is_new, lemma_object_view, Wet, WetValue};

verus! {

/// The place of the first `c` in a text; the length of the text where it has
/// none.
pub open spec fn first_index(text: Seq<char>, c: char) -> int
    decreases text.len(),
{
    if text.len() == 0 || text[0] == c {
        0
    } else {
        1 + first_index(text.drop_first(), c)
    }
}

/// A place is the first of `c` when `c` stands there, or the text ends
/// there, and `c` stands nowhere before it.
pub proof fn lemma_first_index(text: Seq<char>, c: char, n: int)
    requires
        0 <= n <= text.len(),
        forall|j: int| 0 <= j < n ==> text[j] != c,
        n < text.len() ==> text[n] == c,
    ensures
        first_index(text, c) == n,
    decreases n,
{
    if n > 0 {
        let rest = text.drop_first();
        lemma_first_index(rest, c, n - 1);
    }
}

/// Whether some entry has this key.
pub open spec fn has_key(entries: Seq<(Seq<char>, Wet)>, key: Seq<char>) -> bool {
    exists|i: int| 0 <= i < entries.len() && (#[trigger] entries[i]).0 == key
}

/// What has been read of a document.
pub ghost struct Draft {
    /// The entries that are complete. Empty until a section begins.
    pub done: Seq<(Seq<char>, Wet)>,
    /// The name of the section that is being read; `None` before the first.
    pub name: Option<Seq<char>>,
    /// The entries read since the last section began.
    pub current: Seq<(Seq<char>, Wet)>,
}

impl Draft {
    /// Nothing read yet.
    pub open spec fn start() -> Draft {
        Draft { done: Seq::empty(), name: None, current: Seq::empty() }
    }

    /// The entries of the document, were it to end here.
    pub open spec fn entries(self) -> Seq<(Seq<char>, Wet)> {
        match self.name {
            Some(name) => self.done.push((name, Wet::Object(self.current))),
            None => self.current,
        }
    }

    /// The draft after one more line; `None` for a line that is none of the
    /// grammar, and for one that brings a key a second time.
    pub open spec fn step(self, line: Seq<char>) -> Option<Draft> {
        if line.len() == 0 || line[0] == ';' || line[0] == '#' {
            Some(self)
        } else if line[0] == '[' {
            let name = line.subrange(1, line.len() - 1);
            if line.len() >= 2 && line.last() == ']' && !has_key(self.entries(), name) {
                Some(Draft { done: self.entries(), name: Some(name), current: Seq::empty() })
            } else {
                None
            }
        } else {
            let at = first_index(line, '=');
            let key = line.take(at);
            if at < line.len() && !has_key(self.current, key) {
                Some(
                    Draft {
                        done: self.done,
                        name: self.name,
                        current: self.current.push((key, scalar_of(line.skip(at + 1)))),
                    },
                )
            } else {
                None
            }
        }
    }

    /// The draft after the lines of a text.
    pub open spec fn run(self, text: Seq<char>) -> Option<Draft>
        decreases text.len(),
    {
        if text.len() == 0 {
            Some(self)
        } else {
            let end = first_index(text, '\n');
            match self.step(text.take(end)) {
                Some(next) => if 0 <= end < text.len() {
                    next.run(text.skip(end + 1))
                } else {
                    Some(next)
                },
                None => None,
            }
        }
    }
}

/// The tree that an INI text stands for; `None` for a text that is none of
/// the grammar.
pub open spec fn ini_parse(text: Seq<char>) -> Option<Wet> {
    match Draft::start().run(text) {
        Some(draft) => Some(Wet::Object(draft.entries())),
        None => None,
    }
}

/// The place of the first `c` from `from` up to `to`; `to` where there is
/// none.
fn find(chars: &[char], from: usize, to: usize, c: char) -> (at: usize)
    requires
        from <= to <= chars@.len(),
    ensures
        from <= at <= to,
        at - from == first_index(chars@.subrange(from as int, to as int), c),
{
    let mut at: usize = from;
    while at < to && chars[at] != c
        invariant
            from <= at <= to <= chars@.len(),
            forall|j: int| from <= j < at ==> chars@[j] != c,
        decreases to - at,
    {
        at += 1;
    }
    proof {
        lemma_first_index(chars@.subrange(from as int, to as int), c, at - from);
    }
    at
}

/// What has been read of a document, as values.
pub(crate) struct Reader {
    done: Vec<(String, WetValue)>,
    name: Option<String>,
    current: Vec<(String, WetValue)>,
}

impl View for Reader {
    type V = Draft;

    closed spec fn view(&self) -> Draft {
        Draft {
            done: entry_views(self.done@),
            name: match self.name {
                Some(name) => Some(name@),
                None => None,
            },
            current: entry_views(self.current@),
        }
    }
}

impl Reader {
    /// A reader that has read nothing.
    pub(crate) fn new() -> (reader: Reader)
        ensures
            reader@ == Draft::start(),
    {
        let reader = Reader { done: Vec::new(), name: None, current: Vec::new() };
        assert(reader@.done =~= Seq::empty());
        assert(reader@.current =~= Seq::empty());
        reader
    }

    /// The entries of the document, were it to end here.
    pub(crate) fn finish(self) -> (entries: Vec<(String, WetValue)>)
        ensures
            entry_views(entries@) == self@.entries(),
    {
        let Reader { done, name, current } = self;
        match name {
            Some(name) => {
                let mut entries = done;
                proof {
                    lemma_object_view(current);
                }
                entries.push((name, WetValue::Object(current)));
                assert(entry_views(entries@) =~= self@.entries());
                entries
            },
            None => current,
        }
    }

    /// Reads the line that the characters from `from` up to `to` hold.
    pub(crate) fn read_line(self, chars: &[char], from: usize, to: usize) -> (r: Option<Reader>)
        requires
            from <= to <= chars@.len(),
        ensures
            match self@.step(chars@.subrange(from as int, to as int)) {
                Some(draft) => r matches Some(next) && next@ == draft,
                None => r is None,
            },
    {
        let ghost line = chars@.subrange(from as int, to as int);
        if from == to {
            return Some(self);
        }
        let first: char = chars[from];
        if first == ';' || first == '#' {
            return Some(self);
        }
        if first == '[' {
            if to - from < 2 || chars[to - 1] != ']' {
                return None;
            }
            let name = string_of(chars, from + 1, to - 1);
            assert(line.subrange(1, line.len() - 1) =~= chars@.subrange(from + 1, to - 1));
            let ghost before = self@;
            let entries = self.finish();
            if !key_is_new(&entries, entries.len(), name.as_str()) {
                proof {
                    let i = choose|i: int| 0 <= i < entries@.len() && entries@[i].0@ == name@;
                    assert(entry_views(entries@)[i].0 == name@);
                }
                return None;
            }
            let next = Reader { done: entries, name: Some(name), current: Vec::new() };
            assert(next@.current =~= Seq::empty());
            return Some(next);
        }
        let at = find(chars, from, to, '=');
        if at == to {
            return None;
        }
        let key = string_of(chars, from, at);
        assert(line.take(at - from) =~= chars@.subrange(from as int, at as int));
        assert(line.skip(at - from + 1) =~= chars@.subrange(at + 1, to as int));
        let ghost before = self@;
        let Reader { done, name, current } = self;
        if !key_is_new(&current, current.len(), key.as_str()) {
            proof {
                let i = choose|i: int| 0 <= i < current@.len() && current@[i].0@ == key@;
                assert(entry_views(current@)[i].0 == key@);
            }
            return None;
        }
        let value = read_scalar(chars, at + 1, to);
        let mut current = current;
        current.push((key, value));
        let next = Reader { done, name, current };
        assert(next@.current =~= before.current.push((key@, value@)));
        Some(next)
    }
}

/// Reads INI text; `None` for a text that is none of the grammar.
pub fn read_document(chars: &[char]) -> (r: Option<WetValue>)
    ensures
        match ini_parse(chars@) {
            Some(tree) => r matches Some(wet) && wet@ == tree,
            None => r is None,
        },
{
    let mut reader = Reader::new();
    let mut from: usize = 0;
    assert(chars@.skip(0) =~= chars@);
    while from < chars.len()
        invariant
            from <= chars@.len(),
            reader@.run(chars@.skip(from as int)) == Draft::start().run(chars@),
        decreases chars@.len() - from,
    {
        let ghost text = chars@.skip(from as int);
        let to = find(chars, from, chars.len(), '\n');
        assert(chars@.subrange(from as int, chars@.len() as int) =~= text);
        assert(text.take(to - from) =~= chars@.subrange(from as int, to as int));
        reader = match reader.read_line(chars, from, to) {
            Some(next) => next,
            None => {
                return None;
            },
        };
        if to < chars.len() {
            assert(text.skip(to - from + 1) =~= chars@.skip(to + 1));
            from = to + 1;
        } else {
            from = to;
        }
    }
    let entries = reader.finish();
    proof {
        lemma_object_view(entries);
    }
    Some(WetValue::Object(entries))
}

} // verus!
