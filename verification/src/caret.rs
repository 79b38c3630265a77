//! The text of a focused element as the caret splits it: what lies before the selection, the
//! selection itself, what lies after it, and where the caret sits in lines and columns.
use vstd::prelude::*;

use crate::text::{after_last, chars_of, lemma_after_last, rfind_from, CharClass};
use crate::words::{
    char_units, encode_utf16, lemma_utf16_units_add, lemma_utf16_units_len, utf16_count,
    utf16_units,
};

verus! {

/// Whether `u` is a UTF-16 surrogate, half of a pair and never a character on its own.
pub open spec fn is_surrogate(u: u16) -> bool {
    0xD800 <= u <= 0xDFFF
}

/// Whether `u` is a high surrogate, the first half of a pair.
pub open spec fn is_high_surrogate(u: u16) -> bool {
    0xD800 <= u <= 0xDBFF
}

/// Whether `u` is a low surrogate, the second half of a pair.
pub open spec fn is_low_surrogate(u: u16) -> bool {
    0xDC00 <= u <= 0xDFFF
}

/// The character that the surrogate pair `(high, low)` encodes.
pub open spec fn pair_char(high: u16, low: u16) -> char {
    (0x10000 + (high - 0xD800) * 0x400 + (low - 0xDC00)) as char
}

/// The text that `units` decode to when every unpaired surrogate is replaced: a unit outside the
/// surrogate range is the character of that code, a high surrogate followed by a low one is the
/// character the pair encodes, and every other surrogate becomes one U+FFFD.
pub open spec fn lossy_utf16(units: Seq<u16>) -> Seq<char>
    decreases units.len(),
{
    if units.len() == 0 {
        Seq::empty()
    } else if !is_surrogate(units[0]) {
        seq![(units[0] as u32) as char] + lossy_utf16(units.drop_first())
    } else if is_high_surrogate(units[0]) && units.len() >= 2 && is_low_surrogate(units[1]) {
        seq![pair_char(units[0], units[1])] + lossy_utf16(units.subrange(2, units.len() as int))
    } else {
        seq!['\u{FFFD}'] + lossy_utf16(units.drop_first())
    }
}

/// Calls `String::from_utf16_lossy`, which std documents as decoding `units` with every stretch
/// of invalid data replaced by U+FFFD, one for each unpaired surrogate (it collects
/// `char::decode_utf16`, whose items are the characters of the units and pairs, and an error for
/// each unpaired surrogate, mapped to U+FFFD). The contract states that decoding as `lossy_utf16`.
#[verifier::external_body]
fn decode_utf16_lossy(units: &[u16]) -> (r: String)
    ensures
        r@ == lossy_utf16(units@),
{
    String::from_utf16_lossy(units)
}

/// Decoding the units of one character and then more units gives that character first.
proof fn lemma_lossy_utf16_char(c: char, rest: Seq<u16>)
    ensures
        lossy_utf16(char_units(c) + rest) == seq![c] + lossy_utf16(rest),
{
    let units = char_units(c) + rest;
    let code = c as u32;
    if code < 0x10000 {
        assert(units[0] == code as u16);
        assert(units.drop_first() =~= rest);
        assert(((units[0] as u32) as char) == c);
    } else {
        let above = code - 0x10000;
        assert(above / 0x400 <= 0x3FF);
        assert(units[0] == (0xD800 + above / 0x400) as u16);
        assert(units[1] == (0xDC00 + above % 0x400) as u16);
        assert(units.subrange(2, units.len() as int) =~= rest);
        assert(0x10000 + (above / 0x400) * 0x400 + above % 0x400 == code);
        assert(pair_char(units[0], units[1]) == c);
    }
}

/// Decoding the UTF-16 encoding of a text gives the text back.
pub proof fn lemma_lossy_utf16_of_encoding(t: Seq<char>)
    ensures
        lossy_utf16(utf16_units(t)) == t,
    decreases t.len(),
{
    if t.len() > 0 {
        let first = seq![t[0]];
        assert(t =~= first + t.drop_first());
        lemma_utf16_units_add(first, t.drop_first());
        assert(first.drop_last() =~= Seq::<char>::empty());
        assert(first.last() == t[0]);
        assert(utf16_units(first.drop_last()) =~= Seq::<u16>::empty());
        assert(utf16_units(first) =~= char_units(t[0]));
        lemma_lossy_utf16_char(t[0], utf16_units(t.drop_first()));
        lemma_lossy_utf16_of_encoding(t.drop_first());
    }
}

/// Every character comes from one unit or from a pair: the text has no more characters than there
/// are units, and at least half as many.
pub proof fn lemma_lossy_utf16_len(units: Seq<u16>)
    ensures
        lossy_utf16(units).len() <= units.len() <= 2 * lossy_utf16(units).len(),
    decreases units.len(),
{
    if units.len() > 0 {
        if !is_surrogate(units[0]) {
            lemma_lossy_utf16_len(units.drop_first());
        } else if is_high_surrogate(units[0]) && units.len() >= 2 && is_low_surrogate(units[1]) {
            lemma_lossy_utf16_len(units.subrange(2, units.len() as int));
        } else {
            lemma_lossy_utf16_len(units.drop_first());
        }
    }
}

/// The caret's text, split where the selection starts and ends.
#[derive(Debug)]
pub struct CaretText {
    pub text_before: String,
    pub text_after: String,
    /// The selected text; `None` where there is no selection or it is empty, so that the
    /// caller asks the element for its selected text instead.
    pub selected_text: Option<String>,
    pub selection_start: usize,
    pub selection_length: usize,
    /// The caret's line, counted from 1; `None` without a selection, or where the number does
    /// not fit in 32 bits.
    pub line: Option<u32>,
    /// The caret's column in characters, counted from 1; `None` as for the line.
    pub column: Option<u32>,
}

/// How many times `c` occurs in `s`.
pub open spec fn count_char(s: Seq<char>, c: char) -> int
    decreases s.len(),
{
    if s.len() == 0 {
        0
    } else {
        count_char(s.drop_last(), c) + if s.last() == c {
            1int
        } else {
            0
        }
    }
}

/// `count_char` counts each occurrence of `c` once: it is the length of what is left of `s`
/// when every other character is taken out. So the caret's line is one more than the number of
/// newlines before it, however they stand.
pub proof fn lemma_count_char_counts_each(s: Seq<char>, c: char)
    ensures
        count_char(s, c) == s.filter(|x: char| x == c).len(),
    decreases s.len(),
{
    reveal(Seq::filter);
    if s.len() > 0 {
        lemma_count_char_counts_each(s.drop_last(), c);
    }
}

/// Each further `c` adds one to the count, and any other character adds nothing.
pub proof fn lemma_count_char_push(s: Seq<char>, c: char, d: char)
    ensures
        count_char(s.push(d), c) == count_char(s, c) + if d == c {
            1int
        } else {
            0
        },
{
    lemma_count_char_counts_each(s, c);
    lemma_count_char_counts_each(s.push(d), c);
    reveal(Seq::filter);
    assert(s.push(d).drop_last() =~= s);
}

/// The number, counted from 1, of the place that follows `count` others: a line after `count`
/// newlines, a column after `count` characters. `None` where it does not fit in 32 bits.
pub open spec fn one_based(count: int) -> Option<u32> {
    if count + 1 <= u32::MAX {
        Some((count + 1) as u32)
    } else {
        None
    }
}

/// Where the selection `(start, length)` starts and ends in `n` code units, both cut to `n`.
pub open spec fn selection_head(n: int, start: usize) -> int {
    if start < n {
        start as int
    } else {
        n
    }
}

pub open spec fn selection_tail(n: int, start: usize, length: usize) -> int {
    let end = if start + length > usize::MAX {
        usize::MAX as int
    } else {
        start + length
    };
    if end < n {
        end
    } else {
        n
    }
}

/// How many newlines `v` holds.
fn count_newlines(v: &Vec<char>) -> (r: usize)
    ensures
        r == count_char(v@, '\n'),
{
    let mut count: usize = 0;
    let mut i: usize = 0;
    assert(v@.take(0) =~= Seq::<char>::empty());
    while i < v.len()
        invariant
            0 <= i <= v.len(),
            count == count_char(v@.take(i as int), '\n'),
            count <= i,
        decreases v.len() - i,
    {
        assert(v@.take(i + 1).drop_last() =~= v@.take(i as int));
        if v[i] == '\n' {
            count = count + 1;
        }
        i = i + 1;
    }
    assert(v@.take(v.len() as int) =~= v@);
    count
}

/// The number, counted from 1, of the place after `count` others, if it fits in 32 bits.
fn count_from_one(count: usize) -> (r: Option<u32>)
    ensures
        r == one_based(count as int),
{
    if count < 4294967295usize {
        Some(count as u32 + 1)
    } else {
        None
    }
}

/// Splits the value of a focused element where its selection `(start, length)`, in UTF-16 code
/// units, starts and ends, and places the caret in lines and columns. Without a selection the
/// whole value lies after the caret.
pub fn caret_text(value: &str, selection: Option<(usize, usize)>) -> (r: CaretText)
    ensures
        selection is None ==> {
            &&& r.text_before@ == Seq::<char>::empty()
            &&& r.text_after@ == value@
            &&& r.selected_text is None
            &&& r.selection_start == 0
            &&& r.selection_length == 0
            &&& r.line is None
            &&& r.column is None
        },
        selection matches Some((start, length)) ==> {
            let units = utf16_units(value@);
            let head = selection_head(units.len() as int, start);
            let tail = selection_tail(units.len() as int, start, length);
            let before = lossy_utf16(units.subrange(0, head));
            let selected = lossy_utf16(units.subrange(head, tail));
            &&& r.text_before@ == before
            &&& r.text_after@ == lossy_utf16(units.subrange(tail, units.len() as int))
            &&& r.selected_text matches Some(s) ==> s@ == selected
            &&& (r.selected_text is Some) == (head < tail)
            &&& r.selection_start == start
            &&& r.selection_length == length
            &&& r.line == one_based(count_char(before, '\n'))
            &&& r.column == one_based(before.len() - after_last(before, CharClass::Newline))
        },
        selection matches Some((start, length)) ==> forall|i: int, j: int|
            0 <= i <= j <= value@.len() && #[trigger] utf16_count(value@.take(i))
                == selection_head(utf16_units(value@).len() as int, start)
                && #[trigger] utf16_count(value@.take(j)) == selection_tail(
                utf16_units(value@).len() as int,
                start,
                length,
            ) ==> {
                &&& r.text_before@ == value@.take(i)
                &&& r.text_after@ == value@.skip(j)
                &&& r.selected_text matches Some(s) ==> s@ == value@.subrange(i, j)
                &&& r.selected_text is None ==> i == j
            },
{
    match selection {
        None => CaretText {
            text_before: String::new(),
            text_after: String::from_str(value),
            selected_text: None,
            selection_start: 0,
            selection_length: 0,
            line: None,
            column: None,
        },
        Some((start, length)) => {
            let units = encode_utf16(value);
            let n = units.len();
            let head = if start < n {
                start
            } else {
                n
            };
            let end = start.saturating_add(length);
            let tail = if end < n {
                end
            } else {
                n
            };
            let slice = units.as_slice();
            let text_before = decode_utf16_lossy(&slice[0..head]);
            let selected = decode_utf16_lossy(&slice[head..tail]);
            let text_after = decode_utf16_lossy(&slice[tail..n]);
            let before_chars = chars_of(text_before.as_str());
            let newlines = count_newlines(&before_chars);
            let line_start = rfind_from(&before_chars, 0, CharClass::Newline);
            proof {
                assert(before_chars@.subrange(0, before_chars@.len() as int) =~= before_chars@);
                lemma_after_last(before_chars@, CharClass::Newline);
            }
            let column_count = before_chars.len() - line_start;
            proof {
                lemma_utf16_units_len(value@);
                assert forall|i: int, j: int|
                    0 <= i <= j <= value@.len() && #[trigger] utf16_count(value@.take(i))
                        == head && #[trigger] utf16_count(value@.take(j)) == tail implies {
                    &&& text_before@ == value@.take(i)
                    &&& text_after@ == value@.skip(j)
                    &&& selected@ == value@.subrange(i, j)
                } by {
                    let a = value@.take(i);
                    let b = value@.subrange(i, j);
                    let c = value@.skip(j);
                    assert(value@ =~= (a + b) + c);
                    assert(value@.take(j) =~= a + b);
                    lemma_utf16_units_add(a + b, c);
                    lemma_utf16_units_add(a, b);
                    lemma_utf16_units_len(a);
                    lemma_utf16_units_len(a + b);
                    let ua = utf16_units(a);
                    let ub = utf16_units(b);
                    let uc = utf16_units(c);
                    assert(units@.subrange(0, head as int) =~= ua);
                    assert(units@.subrange(head as int, tail as int) =~= ub);
                    assert(units@.subrange(tail as int, n as int) =~= uc);
                    lemma_lossy_utf16_of_encoding(a);
                    lemma_lossy_utf16_of_encoding(b);
                    lemma_lossy_utf16_of_encoding(c);
                }
                lemma_lossy_utf16_len(units@.subrange(head as int, tail as int));
            }
            let selected_text = if selected.as_str().unicode_len() == 0 {
                None
            } else {
                Some(selected)
            };
            CaretText {
                line: count_from_one(newlines),
                column: count_from_one(column_count),
                text_after,
                selected_text,
                selection_start: start,
                selection_length: length,
                text_before,
            }
        },
    }
}

} // verus!
