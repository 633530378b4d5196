//! The text of a scalar, and the scalar that a text stands for.

use vstd::prelude::*;
use crate::ini::decimal::{
    canonical, decimal, digits_value, lemma_canonical_decimal, lemma_decimal, push_decimal,
    read_decimal,
};
use crate::text::{chars_of, string_of};
use crate::value::{Numeral, Wet, WetNumber, WetValue};

verus! {

/// The word for the null value.
pub open spec fn null_word() -> Seq<char> {
    seq!['n', 'u', 'l', 'l']
}

/// The word for the boolean true.
pub open spec fn true_word() -> Seq<char> {
    seq!['t', 'r', 'u', 'e']
}

/// The word for the boolean false.
pub open spec fn false_word() -> Seq<char> {
    seq!['f', 'a', 'l', 's', 'e']
}

/// The text of a number: its decimal digits, after a `-` where it is below
/// zero. A number that is not an integer has none.
pub open spec fn number_text(n: Numeral) -> Option<Seq<char>> {
    match n {
        Numeral::PosInt(u) => Some(decimal(u as nat)),
        Numeral::NegInt(i) => if i < 0 {
            Some(seq!['-'] + decimal((-i) as nat))
        } else {
            None
        },
        Numeral::Float(_) => None,
    }
}

/// The integer that a text stands for, if it is the text of one that fits
/// 64 bits.
pub open spec fn number_of_text(text: Seq<char>) -> Option<Numeral> {
    if canonical(text) {
        if digits_value(text) <= u64::MAX {
            Some(Numeral::PosInt(digits_value(text) as u64))
        } else {
            None
        }
    } else if text.len() > 1 && text[0] == '-' && canonical(text.skip(1)) && 0 < digits_value(
        text.skip(1),
    ) <= 0x8000_0000_0000_0000 {
        Some(Numeral::NegInt((-digits_value(text.skip(1))) as i64))
    } else {
        None
    }
}

/// The scalar that the text of a value stands for.
pub open spec fn scalar_of(text: Seq<char>) -> Wet {
    if text == null_word() {
        Wet::Null
    } else if text == true_word() {
        Wet::Bool(true)
    } else if text == false_word() {
        Wet::Bool(false)
    } else {
        match number_of_text(text) {
            Some(n) => Wet::Number(n),
            None => Wet::Text(text),
        }
    }
}

/// Text that can be written bare: it has no line break and reads back as
/// text.
pub open spec fn plain_text(text: Seq<char>) -> bool {
    !text.contains('\n') && scalar_of(text) == Wet::Text(text)
}

/// The text of a scalar; `None` for a sequence, a mapping, a number that is
/// not an integer, and text that cannot be written bare.
pub open spec fn scalar_text(tree: Wet) -> Option<Seq<char>> {
    match tree {
        Wet::Null => Some(null_word()),
        Wet::Bool(b) => Some(
            if b {
                true_word()
            } else {
                false_word()
            },
        ),
        Wet::Number(n) => number_text(n),
        Wet::Text(s) => if plain_text(s) {
            Some(s)
        } else {
            None
        },
        _ => None,
    }
}

/// A scalar that was written reads back as itself, and its text has no line
/// break.
pub proof fn lemma_scalar_round_trip(tree: Wet)
    requires
        scalar_text(tree) is Some,
    ensures
        scalar_of(scalar_text(tree)->0) == tree,
        !scalar_text(tree)->0.contains('\n'),
{
    match tree {
        Wet::Number(Numeral::PosInt(u)) => {
            lemma_decimal(u as nat);
        },
        Wet::Number(Numeral::NegInt(i)) => {
            lemma_decimal((-i) as nat);
            assert(scalar_text(tree)->0.skip(1) =~= decimal((-i) as nat));
        },
        _ => {},
    }
}

/// Whether the characters from `from` up to `to` spell `word`.
fn spells(chars: &[char], from: usize, to: usize, word: &[char]) -> (same: bool)
    requires
        from <= to <= chars@.len(),
    ensures
        same == (chars@.subrange(from as int, to as int) == word@),
{
    if to - from != word.len() {
        return false;
    }
    let mut i: usize = 0;
    while i < word.len()
        invariant
            from <= to <= chars@.len(),
            to - from == word@.len(),
            i <= word@.len(),
            forall|j: int| 0 <= j < i ==> chars@[from + j] == word@[j],
        decreases word@.len() - i,
    {
        if chars[from + i] != word[i] {
            return false;
        }
        i += 1;
    }
    assert(chars@.subrange(from as int, to as int) =~= word@);
    true
}

/// Reads the characters from `from` up to `to` as an integer.
pub fn read_number(chars: &[char], from: usize, to: usize) -> (r: Option<WetNumber>)
    requires
        from <= to <= chars@.len(),
    ensures
        match number_of_text(chars@.subrange(from as int, to as int)) {
            Some(n) => r matches Some(number) && number@ == n,
            None => r is None,
        },
{
    let ghost text = chars@.subrange(from as int, to as int);
    if to - from > 1 && chars[from] == '-' {
        assert(text.skip(1) =~= chars@.subrange(from + 1, to as int));
        match read_decimal(chars, from + 1, to) {
            Some(m) => {
                if m == 0 || m > 0x8000_0000_0000_0000 {
                    None
                } else if m == 0x8000_0000_0000_0000 {
                    Some(WetNumber::NegInt(i64::MIN))
                } else {
                    let i: i64 = -(m as i64);
                    Some(WetNumber::NegInt(i))
                }
            },
            None => None,
        }
    } else {
        match read_decimal(chars, from, to) {
            Some(u) => Some(WetNumber::PosInt(u)),
            None => None,
        }
    }
}

/// Reads the characters from `from` up to `to` as a scalar.
pub fn read_scalar(chars: &[char], from: usize, to: usize) -> (wet: WetValue)
    requires
        from <= to <= chars@.len(),
    ensures
        wet@ == scalar_of(chars@.subrange(from as int, to as int)),
{
    let null: [char; 4] = ['n', 'u', 'l', 'l'];
    let yes: [char; 4] = ['t', 'r', 'u', 'e'];
    let no: [char; 5] = ['f', 'a', 'l', 's', 'e'];
    assert(null@ =~= null_word());
    assert(yes@ =~= true_word());
    assert(no@ =~= false_word());
    if spells(chars, from, to, null.as_slice()) {
        WetValue::Null
    } else if spells(chars, from, to, yes.as_slice()) {
        WetValue::Bool(true)
    } else if spells(chars, from, to, no.as_slice()) {
        WetValue::Bool(false)
    } else {
        match read_number(chars, from, to) {
            Some(n) => WetValue::Number(n),
            None => WetValue::Text(string_of(chars, from, to)),
        }
    }
}

/// Whether none of the characters is `c`.
pub(crate) fn lacks(chars: &[char], c: char) -> (absent: bool)
    ensures
        absent == !chars@.contains(c),
{
    let mut i: usize = 0;
    while i < chars.len()
        invariant
            i <= chars@.len(),
            forall|j: int| 0 <= j < i ==> chars@[j] != c,
        decreases chars@.len() - i,
    {
        if chars[i] == c {
            return false;
        }
        i += 1;
    }
    true
}

/// Appends the text of a scalar, or nothing where it has none.
pub fn write_scalar(out: &mut String, wet: &WetValue) -> (written: bool)
    ensures
        match scalar_text(wet@) {
            Some(text) => written && final(out)@ == old(out)@ + text,
            None => !written && final(out)@ == old(out)@,
        },
{
    match wet {
        WetValue::Null => {
            out.push('n');
            out.push('u');
            out.push('l');
            out.push('l');
            assert(out@ =~= old(out)@ + null_word());
            true
        },
        WetValue::Bool(true) => {
            out.push('t');
            out.push('r');
            out.push('u');
            out.push('e');
            assert(out@ =~= old(out)@ + true_word());
            true
        },
        WetValue::Bool(false) => {
            out.push('f');
            out.push('a');
            out.push('l');
            out.push('s');
            out.push('e');
            assert(out@ =~= old(out)@ + false_word());
            true
        },
        WetValue::Number(WetNumber::PosInt(u)) => {
            push_decimal(out, *u);
            true
        },
        WetValue::Number(WetNumber::NegInt(i)) => {
            if *i >= 0 {
                push_decimal(out, *i as u64);
            } else {
                out.push('-');
                let magnitude: u64 = if *i == i64::MIN {
                    0x8000_0000_0000_0000
                } else {
                    (-*i) as u64
                };
                push_decimal(out, magnitude);
                assert(out@ =~= old(out)@ + (seq!['-'] + decimal((-*i) as nat)));
            }
            true
        },
        WetValue::Number(WetNumber::Float(n)) => {
            match n.as_u64() {
                Some(u) => {
                    push_decimal(out, u);
                    true
                },
                None => match n.as_i64() {
                    Some(i) => {
                        out.push('-');
                        let magnitude: u64 = if i == i64::MIN {
                            0x8000_0000_0000_0000
                        } else {
                            (-i) as u64
                        };
                        push_decimal(out, magnitude);
                        assert(out@ =~= old(out)@ + (seq!['-'] + decimal((-i) as nat)));
                        true
                    },
                    None => false,
                },
            }
        },
        WetValue::Text(s) => {
            let chars = chars_of(s.as_str());
            assert(chars@.subrange(0, chars@.len() as int) =~= chars@);
            let plain = lacks(chars.as_slice(), '\n') && match read_scalar(
                chars.as_slice(),
                0,
                chars.len(),
            ) {
                WetValue::Text(_) => true,
                _ => false,
            };
            if plain {
                out.append(s.as_str());
            }
            plain
        },
        WetValue::Array(_) => {
            false
        },
        WetValue::Object(_) => {
            false
        },
    }
}

/// Text without a line break is the text of the scalar that it stands for.
pub proof fn lemma_scalar_text_of(text: Seq<char>)
    requires
        !text.contains('\n'),
    ensures
        scalar_text(scalar_of(text)) == Some(text),
{
    if text != null_word() && text != true_word() && text != false_word() {
        match number_of_text(text) {
            Some(Numeral::PosInt(_)) => {
                lemma_canonical_decimal(text);
            },
            Some(Numeral::NegInt(_)) => {
                lemma_canonical_decimal(text.skip(1));
                assert(seq!['-'] + text.skip(1) =~= text);
            },
            _ => {},
        }
    }
}

} // verus!
