//! Wet values: the decoded, in-memory form of a document.

use vstd::prelude::*;
use crate::json::number_content;
use crate::text::same_text;

verus! {

/// The number that a number of a wet value stands for.
pub ghost enum Numeral {
    /// An integer from zero to `u64::MAX`.
    PosInt(u64),
    /// An integer below zero.
    NegInt(i64),
    /// Any other number. The integer tells two such numbers apart; nothing
    /// computes it.
    Float(u64),
}

/// The tree that a wet value stands for.
pub ghost enum Wet {
    Null,
    Bool(bool),
    Number(Numeral),
    Text(Seq<char>),
    Array(Seq<Wet>),
    Object(Seq<(Seq<char>, Wet)>),
}

/// No key occurs twice among the entries of a mapping.
pub open spec fn distinct_keys(entries: Seq<(Seq<char>, Wet)>) -> bool {
    forall|i: int, j: int|
        0 <= i < j < entries.len() ==> (#[trigger] entries[i]).0 != (#[trigger] entries[j]).0
}

impl Wet {
    /// Every mapping in the tree has distinct keys.
    pub open spec fn well_formed(self) -> bool
        decreases self,
    {
        match self {
            Wet::Array(items) => forall|i: int|
                0 <= i < items.len() ==> (#[trigger] items[i]).well_formed(),
            Wet::Object(entries) => {
                &&& distinct_keys(entries)
                &&& forall|i: int|
                    0 <= i < entries.len() ==> (#[trigger] entries[i]).1.well_formed()
            },
            _ => true,
        }
    }
}

/// A number of a wet value. One number can be held in more than one way, and
/// `==` tells the ways apart; the view does not.
#[derive(Clone, Debug, PartialEq, Eq)]
pub enum WetNumber {
    /// An integer from zero to `u64::MAX`.
    PosInt(u64),
    /// An integer from `i64::MIN` to `i64::MAX`.
    NegInt(i64),
    /// A number as the JSON library holds it. Any number can stand here; the
    /// library itself puts here only those that are not 64-bit integers.
    Float(serde_json::Number),
}

impl View for WetNumber {
    type V = Numeral;

    open spec fn view(&self) -> Numeral {
        match self {
            WetNumber::PosInt(n) => Numeral::PosInt(*n),
            WetNumber::NegInt(n) => if *n < 0 {
                Numeral::NegInt(*n)
            } else {
                Numeral::PosInt(*n as u64)
            },
            WetNumber::Float(n) => number_content(*n),
        }
    }
}

/// A wet value: null, a boolean, a number, a string, a sequence of values, or
/// a mapping from strings to values that keeps the order of its entries. A
/// mapping is meant to hold each key once; one that does not is refused when
/// it is written.
#[derive(Debug, PartialEq, Eq)]
pub enum WetValue {
    Null,
    Bool(bool),
    Number(WetNumber),
    Text(String),
    Array(Vec<WetValue>),
    Object(Vec<(String, WetValue)>),
}

impl WetValue {
    /// The tree that this value stands for.
    pub open spec fn tree(self) -> Wet
        decreases self,
    {
        match self {
            WetValue::Null => Wet::Null,
            WetValue::Bool(b) => Wet::Bool(b),
            WetValue::Number(n) => Wet::Number(n@),
            WetValue::Text(s) => Wet::Text(s@),
            WetValue::Array(items) => Wet::Array(
                Seq::new(
                    items@.len(),
                    |i: int|
                        if 0 <= i < items@.len() {
                            items@[i].tree()
                        } else {
                            Wet::Null
                        },
                ),
            ),
            WetValue::Object(entries) => Wet::Object(
                Seq::new(
                    entries@.len(),
                    |i: int|
                        if 0 <= i < entries@.len() {
                            (entries@[i].0@, entries@[i].1.tree())
                        } else {
                            (Seq::empty(), Wet::Null)
                        },
                ),
            ),
        }
    }
}

impl View for WetValue {
    type V = Wet;

    open spec fn view(&self) -> Wet {
        self.tree()
    }
}

/// The trees of a sequence of wet values.
pub open spec fn views(items: Seq<WetValue>) -> Seq<Wet> {
    Seq::new(items.len(), |i: int| items[i]@)
}

/// The keys and trees of the entries of a mapping.
pub open spec fn entry_views(entries: Seq<(String, WetValue)>) -> Seq<(Seq<char>, Wet)> {
    Seq::new(entries.len(), |i: int| (entries[i].0@, entries[i].1@))
}

/// The tree of a sequence is the sequence of the trees of its items.
pub proof fn lemma_array_view(items: Vec<WetValue>)
    ensures
        WetValue::Array(items)@ == Wet::Array(views(items@)),
{
    assert(WetValue::Array(items)@->Array_0 =~= views(items@));
}

/// The tree of a mapping holds the keys and the trees of its entries.
pub proof fn lemma_object_view(entries: Vec<(String, WetValue)>)
    ensures
        WetValue::Object(entries)@ == Wet::Object(entry_views(entries@)),
{
    assert(WetValue::Object(entries)@->Object_0 =~= entry_views(entries@));
}

impl Clone for WetValue {
    /// A copy that stands for the same tree.
    fn clone(&self) -> (copy: WetValue)
        ensures
            copy@ == self@,
        decreases self,
    {
        match self {
            WetValue::Null => WetValue::Null,
            WetValue::Bool(b) => WetValue::Bool(*b),
            WetValue::Number(n) => WetValue::Number(
                match n {
                    WetNumber::PosInt(u) => WetNumber::PosInt(*u),
                    WetNumber::NegInt(i) => WetNumber::NegInt(*i),
                    WetNumber::Float(x) => WetNumber::Float(x.clone()),
                },
            ),
            WetValue::Text(s) => WetValue::Text(s.clone()),
            WetValue::Array(items) => {
                let mut copies: Vec<WetValue> = Vec::new();
                let mut i: usize = 0;
                while i < items.len()
                    invariant
                        i <= items@.len(),
                        *self == WetValue::Array(*items),
                        copies@.len() == i,
                        forall|j: int| 0 <= j < i ==> (#[trigger] copies@[j])@ == items@[j]@,
                    decreases items@.len() - i,
                {
                    assert(decreases_to!(*items => items[i as int]));
                    assert(decreases_to!(*self => self->Array_0));
                    copies.push(items[i].clone());
                    i += 1;
                }
                proof {
                    lemma_array_view(*items);
                    lemma_array_view(copies);
                    assert(views(copies@) =~= views(items@));
                }
                WetValue::Array(copies)
            },
            WetValue::Object(entries) => {
                let mut copies: Vec<(String, WetValue)> = Vec::new();
                let mut i: usize = 0;
                while i < entries.len()
                    invariant
                        i <= entries@.len(),
                        *self == WetValue::Object(*entries),
                        copies@.len() == i,
                        forall|j: int|
                            0 <= j < i ==> (#[trigger] copies@[j]).0@ == entries@[j].0@
                                && copies@[j].1@ == entries@[j].1@,
                    decreases entries@.len() - i,
                {
                    assert(decreases_to!(*entries => entries[i as int]));
                    assert(decreases_to!(*self => self->Object_0));
                    assert(decreases_to!(entries[i as int] => entries[i as int].1));
                    copies.push((entries[i].0.clone(), entries[i].1.clone()));
                    i += 1;
                }
                proof {
                    lemma_object_view(*entries);
                    lemma_object_view(copies);
                    assert(entry_views(copies@) =~= entry_views(entries@));
                }
                WetValue::Object(copies)
            },
        }
    }
}

/// Whether `key` is the key of none of the first `upto` of `entries`.
pub fn key_is_new<T>(entries: &Vec<(String, T)>, upto: usize, key: &str) -> (fresh: bool)
    requires
        upto <= entries@.len(),
    ensures
        fresh == forall|i: int| 0 <= i < upto ==> (#[trigger] entries@[i]).0@ != key@,
{
    let mut i: usize = 0;
    while i < upto
        invariant
            i <= upto <= entries@.len(),
            forall|j: int| 0 <= j < i ==> (#[trigger] entries@[j]).0@ != key@,
        decreases upto - i,
    {
        if same_text(entries[i].0.as_str(), key) {
            return false;
        }
        i += 1;
    }
    true
}

} // verus!
