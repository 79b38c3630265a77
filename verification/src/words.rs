//! Splitting a text field's value into words, with offsets in UTF-16 code units (the unit of both
//! the accessibility API and JavaScript string indices), and finding a word again in the value.
use vstd::prelude::*;
use vstd::string::*;
use vstd::utf8::{encode_scalar, encode_utf8};

use crate::text::{
    after_last, chars_of, class_contains, in_class, is_token_char, lemma_after_last,
    lemma_after_last_unique, push_char, CharClass, alphanumeric_char,
};

verus! {

/// How many words get a rectangle: every word costs an accessibility round-trip.
pub const MAX_WORD_BOXES: usize = 80;

/// How deep the search for styled text runs goes below the focused element.
pub const MAX_RUN_DEPTH: usize = 14;

/// How many UTF-16 code units encode `c`: one inside the basic multilingual plane, two outside.
pub open spec fn utf16_width(c: char) -> int {
    if (c as u32) < 0x10000 {
        1
    } else {
        2
    }
}

/// How many UTF-16 code units encode `s`.
pub open spec fn utf16_count(s: Seq<char>) -> int
    decreases s.len(),
{
    if s.len() == 0 {
        0
    } else {
        utf16_count(s.drop_last()) + utf16_width(s.last())
    }
}

/// The maximal runs of word characters in `s`, as `(start, end)` character indices, in order.
pub open spec fn token_runs(s: Seq<char>) -> Seq<(int, int)>
    decreases s.len(),
{
    if s.len() == 0 {
        Seq::empty()
    } else if !is_token_char(s.last()) {
        token_runs(s.drop_last())
    } else {
        let start = after_last(s, CharClass::NotToken);
        proof {
            lemma_after_last(s.drop_last(), CharClass::NotToken);
        }
        token_runs(s.take(start)) + seq![(start, s.len() as int)]
    }
}

/// A word as `words_with_offsets` hands it out for the run `run` of `s`: its UTF-16 offset, its
/// UTF-16 length and its text.
pub open spec fn word_entry(s: Seq<char>, run: (int, int), entry: (usize, usize, String)) -> bool {
    &&& entry.0 == utf16_count(s.take(run.0))
    &&& entry.1 == utf16_count(s.subrange(run.0, run.1))
    &&& entry.2@ == s.subrange(run.0, run.1)
}

/// How many UTF-16 code units encode `c`, as `char::len_utf16` counts them.
pub fn len_utf16(c: char) -> (r: usize)
    ensures
        r == utf16_width(c),
{
    if (c as u32) < 0x10000 {
        1
    } else {
        2
    }
}

pub proof fn lemma_utf16_width(c: char)
    ensures
        1 <= utf16_width(c) <= 2,
{
}

/// The UTF-16 length of two texts put together is the sum of theirs.
pub proof fn lemma_utf16_count_add(a: Seq<char>, b: Seq<char>)
    ensures
        utf16_count(a + b) == utf16_count(a) + utf16_count(b),
    decreases b.len(),
{
    if b.len() > 0 {
        assert((a + b).drop_last() =~= a + b.drop_last());
        lemma_utf16_count_add(a, b.drop_last());
    } else {
        assert(a + b =~= a);
    }
}

/// A prefix takes no more code units than the whole.
pub proof fn lemma_utf16_count_prefix(s: Seq<char>, i: int)
    requires
        0 <= i <= s.len(),
    ensures
        0 <= utf16_count(s.take(i)) <= utf16_count(s),
{
    assert(s =~= s.take(i) + s.skip(i));
    lemma_utf16_count_add(s.take(i), s.skip(i));
    lemma_utf16_count_nonneg(s.take(i));
    lemma_utf16_count_nonneg(s.skip(i));
}

pub proof fn lemma_utf16_count_nonneg(s: Seq<char>)
    ensures
        utf16_count(s) >= 0,
    decreases s.len(),
{
    if s.len() > 0 {
        lemma_utf16_count_nonneg(s.drop_last());
    }
}

/// A text takes no more UTF-16 code units than UTF-8 bytes.
pub proof fn lemma_utf16_count_within_utf8(s: Seq<char>)
    ensures
        utf16_count(s) <= encode_utf8(s).len(),
    decreases s.len(),
{
    if s.len() > 0 {
        lemma_utf16_count_within_utf8(s.drop_first());
        assert(s =~= seq![s[0]] + s.drop_first());
        lemma_utf16_count_add(seq![s[0]], s.drop_first());
        let one = seq![s[0]];
        assert(one.drop_last() =~= Seq::<char>::empty());
        assert(one.last() == s[0]);
        assert(utf16_count(one.drop_last()) == 0);
        assert(utf16_count(one) == utf16_width(s[0]));
        assert(encode_scalar(s[0] as u32).len() >= utf16_width(s[0]));
    }
}

/// Closing a run of word characters `[start, i)` of `s` adds it to the runs found before it.
proof fn lemma_close_run(s: Seq<char>, start: int, i: int)
    requires
        0 <= start < i <= s.len(),
        start == 0 || !is_token_char(s[start - 1]),
        forall|j: int| start <= j < i ==> is_token_char(#[trigger] s[j]),
    ensures
        token_runs(s.take(i)) == token_runs(s.take(start)) + seq![(start, i)],
{
    let t = s.take(i);
    assert forall|j: int| start <= j < t.len() implies !in_class(CharClass::NotToken, #[trigger] t[j]) by {
        assert(t[j] == s[j]);
    }
    if start > 0 {
        assert(t[start - 1] == s[start - 1]);
    }
    lemma_after_last_unique(t, CharClass::NotToken, start);
    assert(t.last() == s[i - 1]);
    assert(t.take(start) =~= s.take(start));
}

/// Splits `text` into words, yielding each with its UTF-16 offset and length.
pub fn words_with_offsets(text: &str) -> (words: Vec<(usize, usize, String)>)
    ensures
        words.len() == token_runs(text@).len(),
        forall|k: int|
            0 <= k < words.len() ==> word_entry(text@, token_runs(text@)[k], #[trigger] words@[k]),
{
    let chars = chars_of(text);
    let ghost s = text@;
    // the offsets fit in a `usize`: the text takes no more code units than it takes bytes
    let byte_len = text.as_bytes().len();
    proof {
        lemma_utf16_count_within_utf8(s);
        assert(utf16_count(s) <= byte_len);
    }
    let mut words: Vec<(usize, usize, String)> = Vec::new();
    let mut offset: usize = 0;
    let mut start: usize = 0;
    let mut start_offset: usize = 0;
    let mut in_word = false;
    let mut current = String::new();
    let mut i: usize = 0;
    assert(s.take(0) =~= Seq::<char>::empty());
    while i < chars.len()
        invariant
            chars@ == s,
            utf16_count(s) <= usize::MAX,
            0 <= i <= chars.len(),
            offset == utf16_count(s.take(i as int)),
            !in_word ==> (i == 0 || !is_token_char(s[i - 1])),
            !in_word ==> words.len() == token_runs(s.take(i as int)).len(),
            !in_word ==> forall|k: int|
                0 <= k < words.len() ==> word_entry(
                    s,
                    token_runs(s.take(i as int))[k],
                    #[trigger] words@[k],
                ),
            in_word ==> start < i,
            in_word ==> (start == 0 || !is_token_char(s[start - 1])),
            in_word ==> forall|j: int| start <= j < i ==> is_token_char(#[trigger] s[j]),
            in_word ==> current@ == s.subrange(start as int, i as int),
            in_word ==> start_offset == utf16_count(s.take(start as int)),
            in_word ==> words.len() == token_runs(s.take(start as int)).len(),
            in_word ==> forall|k: int|
                0 <= k < words.len() ==> word_entry(
                    s,
                    token_runs(s.take(start as int))[k],
                    #[trigger] words@[k],
                ),
        decreases chars.len() - i,
    {
        let character = chars[i];
        let ghost before_step = s.take(i as int);
        proof {
            assert(s.take(i + 1).drop_last() =~= before_step);
            assert(s.take(i + 1).last() == character);
            lemma_utf16_count_prefix(s, i + 1);
        }
        if !class_contains(CharClass::NotToken, character) {
            if !in_word {
                start = i;
                start_offset = offset;
                current = String::new();
                in_word = true;
                assert(s.subrange(start as int, i as int) =~= Seq::<char>::empty());
            }
            push_char(&mut current, character);
            assert(current@ =~= s.subrange(start as int, i + 1));
        } else if in_word {
            proof {
                lemma_close_run(s, start as int, i as int);
                assert(s.take(i as int) =~= s.take(start as int) + s.subrange(
                    start as int,
                    i as int,
                ));
                lemma_utf16_count_add(s.take(start as int), s.subrange(start as int, i as int));
                lemma_utf16_count_nonneg(s.subrange(start as int, i as int));
            }
            let entry = (start_offset, offset - start_offset, current);
            words.push(entry);
            current = String::new();
            in_word = false;
        }
        proof {
            lemma_utf16_width(character);
        }
        offset = offset + len_utf16(character);
        i = i + 1;
    }
    proof {
        assert(s.take(chars.len() as int) =~= s);
    }
    if in_word {
        proof {
            lemma_close_run(s, start as int, i as int);
            assert(s.take(i as int) =~= s.take(start as int) + s.subrange(start as int, i as int));
            lemma_utf16_count_add(s.take(start as int), s.subrange(start as int, i as int));
            lemma_utf16_count_nonneg(s.subrange(start as int, i as int));
        }
        let entry = (start_offset, offset - start_offset, current);
        words.push(entry);
    }
    words
}

/// The first `limit` words of `text`, each with its UTF-16 offset and length: the words that get a
/// rectangle when `limit` of them are left.
pub fn first_words(text: &str, limit: usize) -> (words: Vec<(usize, usize, String)>)
    ensures
        words.len() == if token_runs(text@).len() < limit {
            token_runs(text@).len() as int
        } else {
            limit as int
        },
        forall|k: int|
            0 <= k < words.len() ==> word_entry(text@, token_runs(text@)[k], #[trigger] words@[k]),
{
    let mut words = words_with_offsets(text);
    let ghost all = words@;
    words.truncate(limit);
    assert forall|k: int| 0 <= k < words.len() implies word_entry(
        text@,
        token_runs(text@)[k],
        #[trigger] words@[k],
    ) by {
        assert(words@[k] == all[k]);
    }
    words
}

/// How many more words get a rectangle once `placed` have one: every word costs an accessibility
/// round-trip, so no more than `MAX_WORD_BOXES` are placed in all.
pub fn boxes_left(placed: usize) -> (r: usize)
    ensures
        r == if placed < MAX_WORD_BOXES {
            MAX_WORD_BOXES - placed
        } else {
            0
        },
{
    MAX_WORD_BOXES.saturating_sub(placed)
}

/// The UTF-16 code units that encode `c`: the code point itself inside the basic multilingual
/// plane, a surrogate pair outside it.
pub open spec fn char_units(c: char) -> Seq<u16> {
    if (c as u32) < 0x10000 {
        seq![(c as u32) as u16]
    } else {
        seq![
            (0xD800 + ((c as u32) - 0x10000) / 0x400) as u16,
            (0xDC00 + ((c as u32) - 0x10000) % 0x400) as u16,
        ]
    }
}

/// The UTF-16 encoding of `s`, as `str::encode_utf16` yields it.
pub open spec fn utf16_units(s: Seq<char>) -> Seq<u16>
    decreases s.len(),
{
    if s.len() == 0 {
        Seq::empty()
    } else {
        utf16_units(s.drop_last()) + char_units(s.last())
    }
}

/// The encoding of a text has as many code units as `utf16_count` counts.
pub proof fn lemma_utf16_units_len(s: Seq<char>)
    ensures
        utf16_units(s).len() == utf16_count(s),
    decreases s.len(),
{
    if s.len() > 0 {
        lemma_utf16_units_len(s.drop_last());
    }
}

/// The encoding of two texts put together is the two encodings put together.
pub proof fn lemma_utf16_units_add(a: Seq<char>, b: Seq<char>)
    ensures
        utf16_units(a + b) == utf16_units(a) + utf16_units(b),
    decreases b.len(),
{
    if b.len() > 0 {
        assert((a + b).drop_last() =~= a + b.drop_last());
        assert((a + b).last() == b.last());
        lemma_utf16_units_add(a, b.drop_last());
        assert(utf16_units(a + b) =~= utf16_units(a) + utf16_units(b));
    } else {
        assert(a + b =~= a);
        assert(utf16_units(a) + utf16_units(b) =~= utf16_units(a));
    }
}

/// The UTF-16 code units of `text`.
pub fn encode_utf16(text: &str) -> (units: Vec<u16>)
    ensures
        units@ == utf16_units(text@),
{
    let chars = chars_of(text);
    let ghost s = text@;
    let mut units: Vec<u16> = Vec::new();
    let mut i: usize = 0;
    assert(s.take(0) =~= Seq::<char>::empty());
    while i < chars.len()
        invariant
            chars@ == s,
            0 <= i <= chars.len(),
            units@ == utf16_units(s.take(i as int)),
        decreases chars.len() - i,
    {
        let code = chars[i] as u32;
        if code < 0x10000 {
            units.push(code as u16);
        } else {
            let above = code - 0x10000;
            units.push((0xD800 + above / 0x400) as u16);
            units.push((0xDC00 + above % 0x400) as u16);
        }
        assert(s.take(i + 1).drop_last() =~= s.take(i as int));
        assert(s.take(i + 1).last() == chars@[i as int]);
        assert(units@ =~= utf16_units(s.take(i + 1)));
        i = i + 1;
    }
    assert(s.take(chars.len() as int) =~= s);
    units
}

/// Finds words of styled text runs again in the value of the element that holds them. Runs arrive
/// in document order, so each word is searched for from just past the previous match.
pub struct WordLocator {
    pub search_from: usize,
}

impl WordLocator {
    /// A locator that searches from the start of the value.
    pub fn new() -> (r: Self)
        ensures
            r.search_from == 0,
    {
        WordLocator { search_from: 0 }
    }

    /// Where `word` occurs in `value` at or after the last match; a match moves the search past it.
    pub fn locate(&mut self, value: &[u16], word: &[u16]) -> (r: Option<usize>)
        ensures
            match r {
                Some(index) => {
                    &&& word@.len() > 0
                    &&& old(self).search_from <= index
                    &&& occurs_at(value@, word@, index as int)
                    &&& forall|j: int|
                        old(self).search_from <= j < index ==> !occurs_at(value@, word@, j)
                    &&& final(self).search_from == index + word@.len()
                },
                None => {
                    &&& word@.len() == 0 || forall|j: int|
                        old(self).search_from <= j ==> !occurs_at(value@, word@, j)
                    &&& final(self).search_from == old(self).search_from
                },
            },
    {
        let found = find_utf16(value, word, self.search_from);
        if let Some(index) = found {
            assert(value@.len() == value.len());
            self.search_from = index + word.len();
        }
        found
    }
}

/// Whether `needle` occurs in `haystack` starting at `index`.
pub open spec fn occurs_at(haystack: Seq<u16>, needle: Seq<u16>, index: int) -> bool {
    0 <= index && index + needle.len() <= haystack.len() && haystack.subrange(
        index,
        index + needle.len(),
    ) == needle
}

/// Whether `needle` occurs in `haystack` starting at `index`, which leaves room for it.
fn matches_at(haystack: &[u16], needle: &[u16], index: usize) -> (r: bool)
    requires
        index + needle@.len() <= haystack@.len(),
    ensures
        r == occurs_at(haystack@, needle@, index as int),
{
    let mut j: usize = 0;
    assert(haystack@.len() == haystack.len());
    while j < needle.len()
        invariant
            haystack@.len() <= usize::MAX,
            index + needle@.len() <= haystack@.len(),
            0 <= j <= needle@.len(),
            forall|k: int| 0 <= k < j ==> haystack@[index + k] == needle@[k],
        decreases needle@.len() - j,
    {
        if haystack[index + j] != needle[j] {
            assert(haystack@.subrange(index as int, index + needle@.len())[j as int]
                != needle@[j as int]);
            return false;
        }
        j = j + 1;
    }
    assert(haystack@.subrange(index as int, index + needle@.len()) =~= needle@);
    true
}

/// The first place at or after `from` where `needle` occurs in `haystack`; `None` for an empty
/// needle.
pub fn find_utf16(haystack: &[u16], needle: &[u16], from: usize) -> (r: Option<usize>)
    ensures
        match r {
            Some(index) => {
                &&& needle@.len() > 0
                &&& from <= index
                &&& occurs_at(haystack@, needle@, index as int)
                &&& forall|j: int| from <= j < index ==> !occurs_at(haystack@, needle@, j)
            },
            None => needle@.len() == 0 || forall|j: int|
                from <= j ==> !occurs_at(haystack@, needle@, j),
        },
{
    if needle.len() == 0 || haystack.len() < needle.len() || from > haystack.len() - needle.len() {
        return None;
    }
    let last = haystack.len() - needle.len();
    let mut index = from;
    assert(haystack@.len() == haystack.len());
    while index <= last
        invariant
            haystack@.len() <= usize::MAX,
            last == haystack@.len() - needle@.len(),
            needle@.len() > 0,
            from <= index <= last + 1,
            forall|j: int| from <= j < index ==> !occurs_at(haystack@, needle@, j),
        decreases last + 1 - index,
    {
        if matches_at(haystack, needle, index) {
            return Some(index);
        }
        index = index + 1;
    }
    None
}

} // verus!

verus! {

/// Every run of `token_runs` is a non-empty stretch of word characters that cannot be extended on
/// either side, and the runs come in order, apart from one another.
pub proof fn lemma_token_runs_shape(s: Seq<char>)
    ensures
        forall|k: int|
            0 <= k < token_runs(s).len() ==> {
                let run = #[trigger] token_runs(s)[k];
                &&& 0 <= run.0 < run.1 <= s.len()
                &&& run.0 == 0 || !is_token_char(s[run.0 - 1])
                &&& run.1 == s.len() || !is_token_char(s[run.1])
                &&& forall|j: int| run.0 <= j < run.1 ==> is_token_char(#[trigger] s[j])
            },
        forall|k: int|
            0 <= k < token_runs(s).len() - 1 ==> #[trigger] token_runs(s)[k].1 < token_runs(
                s,
            )[k + 1].0,
    decreases s.len(),
{
    let runs = token_runs(s);
    if s.len() == 0 {
    } else if !is_token_char(s.last()) {
        let t = s.drop_last();
        lemma_token_runs_shape(t);
        assert(runs == token_runs(t));
        assert forall|k: int| 0 <= k < runs.len() - 1 implies #[trigger] runs[k].1 < runs[k
            + 1].0 by {
            assert(runs[k] == token_runs(t)[k]);
            assert(runs[k + 1] == token_runs(t)[k + 1]);
        }
        assert forall|k: int| 0 <= k < runs.len() implies {
            let run = #[trigger] runs[k];
            &&& 0 <= run.0 < run.1 <= s.len()
            &&& run.0 == 0 || !is_token_char(s[run.0 - 1])
            &&& run.1 == s.len() || !is_token_char(s[run.1])
            &&& forall|j: int| run.0 <= j < run.1 ==> is_token_char(#[trigger] s[j])
        } by {
            let run = token_runs(t)[k];
            assert(runs[k] == run);
            if run.0 > 0 {
                assert(s[run.0 - 1] == t[run.0 - 1]);
            }
            if run.1 < t.len() {
                assert(s[run.1] == t[run.1]);
            }
            assert forall|j: int| run.0 <= j < run.1 implies is_token_char(#[trigger] s[j]) by {
                assert(s[j] == t[j]);
                assert(is_token_char(t[j]));
            }
        }
    } else {
        let start = after_last(s, CharClass::NotToken);
        lemma_after_last(s, CharClass::NotToken);
        let t = s.take(start);
        lemma_token_runs_shape(t);
        let before = token_runs(t);
        assert(runs == before + seq![(start, s.len() as int)]);
        assert forall|k: int| 0 <= k < runs.len() implies {
            let run = #[trigger] runs[k];
            &&& 0 <= run.0 < run.1 <= s.len()
            &&& run.0 == 0 || !is_token_char(s[run.0 - 1])
            &&& run.1 == s.len() || !is_token_char(s[run.1])
            &&& forall|j: int| run.0 <= j < run.1 ==> is_token_char(#[trigger] s[j])
        } by {
            if k < before.len() {
                let run = before[k];
                assert(runs[k] == run);
                if run.0 > 0 {
                    assert(s[run.0 - 1] == t[run.0 - 1]);
                }
                if run.1 < t.len() {
                    assert(s[run.1] == t[run.1]);
                } else {
                    assert(run.1 == start);
                    assert(start > 0);
                    assert(in_class(CharClass::NotToken, s[start - 1]));
                    assert(is_token_char(t[run.1 - 1]));
                    assert(false);
                }
                assert forall|j: int| run.0 <= j < run.1 implies is_token_char(
                    #[trigger] s[j],
                ) by {
                    assert(s[j] == t[j]);
                    assert(is_token_char(t[j]));
                }
            } else {
                assert(runs[k] == (start, s.len() as int));
                if start > 0 {
                    assert(in_class(CharClass::NotToken, s[start - 1]));
                }
                assert forall|j: int| start <= j < s.len() implies is_token_char(
                    #[trigger] s[j],
                ) by {
                    assert(!in_class(CharClass::NotToken, s[j]));
                }
            }
        }
        assert forall|k: int| 0 <= k < runs.len() - 1 implies #[trigger] runs[k].1 < runs[k
            + 1].0 by {
            if k < before.len() - 1 {
                assert(runs[k] == before[k]);
                assert(runs[k + 1] == before[k + 1]);
            } else {
                let run = before[k];
                assert(runs[k] == run);
                assert(runs[k + 1] == (start, s.len() as int));
                if run.1 == start {
                    assert(start > 0);
                    assert(in_class(CharClass::NotToken, s[start - 1]));
                    assert(is_token_char(t[run.1 - 1]));
                    assert(s[start - 1] == t[start - 1]);
                }
            }
        }
    }
}

/// The words of a field's value come in order and apart from one another: each ends before the
/// next one starts, in UTF-16 code units as in characters.
pub proof fn lemma_words_in_order(s: Seq<char>, words: Seq<(usize, usize, String)>)
    requires
        words.len() == token_runs(s).len(),
        forall|k: int| 0 <= k < words.len() ==> word_entry(s, token_runs(s)[k], #[trigger] words[k]),
    ensures
        forall|k: int|
            0 <= k < words.len() - 1 ==> #[trigger] words[k].0 + words[k].1 < words[k + 1].0,
        forall|k: int| 0 <= k < words.len() ==> #[trigger] words[k].1 > 0,
{
    lemma_token_runs_shape(s);
    let runs = token_runs(s);
    assert forall|k: int| 0 <= k < words.len() implies #[trigger] words[k].1 > 0 by {
        let run = runs[k];
        assert(word_entry(s, run, words[k]));
        lemma_utf16_count_positive(s.subrange(run.0, run.1));
    }
    assert forall|k: int| 0 <= k < words.len() - 1 implies #[trigger] words[k].0 + words[k].1
        < words[k + 1].0 by {
        let a = runs[k];
        let b = runs[k + 1];
        assert(word_entry(s, a, words[k]));
        assert(word_entry(s, b, words[k + 1]));
        assert(a.1 < b.0);
        // the first word's prefix and the word itself make up the prefix up to its end
        assert(s.take(a.1) =~= s.take(a.0) + s.subrange(a.0, a.1));
        lemma_utf16_count_add(s.take(a.0), s.subrange(a.0, a.1));
        // and at least one character lies between it and the next word
        assert(s.take(b.0) =~= s.take(a.1) + s.subrange(a.1, b.0));
        lemma_utf16_count_add(s.take(a.1), s.subrange(a.1, b.0));
        lemma_utf16_count_positive(s.subrange(a.1, b.0));
    }
}

/// A non-empty text takes at least one code unit.
pub proof fn lemma_utf16_count_positive(s: Seq<char>)
    ensures
        s.len() > 0 ==> utf16_count(s) > 0,
        utf16_count(s) >= 0,
{
    lemma_utf16_count_nonneg(s);
    if s.len() > 0 {
        lemma_utf16_count_nonneg(s.drop_last());
    }
}

/// Every word character of `s` lies in one of its runs: splitting the text misses no word.
pub proof fn lemma_token_runs_cover(s: Seq<char>)
    ensures
        forall|j: int|
            0 <= j < s.len() && is_token_char(#[trigger] s[j]) ==> exists|k: int|
                0 <= k < token_runs(s).len() && #[trigger] token_runs(s)[k].0 <= j < token_runs(
                    s,
                )[k].1,
    decreases s.len(),
{
    let runs = token_runs(s);
    if s.len() == 0 {
    } else if !is_token_char(s.last()) {
        let t = s.drop_last();
        lemma_token_runs_cover(t);
        assert(runs == token_runs(t));
        assert forall|j: int| 0 <= j < s.len() && is_token_char(#[trigger] s[j]) implies exists|
            k: int,
        | 0 <= k < runs.len() && #[trigger] runs[k].0 <= j < runs[k].1 by {
            assert(j < t.len());
            assert(t[j] == s[j]);
        }
    } else {
        let start = after_last(s, CharClass::NotToken);
        lemma_after_last(s, CharClass::NotToken);
        let t = s.take(start);
        lemma_token_runs_cover(t);
        let before = token_runs(t);
        assert(runs == before + seq![(start, s.len() as int)]);
        assert forall|j: int| 0 <= j < s.len() && is_token_char(#[trigger] s[j]) implies exists|
            k: int,
        | 0 <= k < runs.len() && #[trigger] runs[k].0 <= j < runs[k].1 by {
            if j >= start {
                assert(runs[before.len() as int] == (start, s.len() as int));
                assert(runs[before.len() as int].0 <= j < runs[before.len() as int].1);
            } else {
                assert(t[j] == s[j]);
                let k = choose|k: int|
                    0 <= k < before.len() && #[trigger] before[k].0 <= j < before[k].1;
                assert(runs[k] == before[k]);
                assert(runs[k].0 <= j < runs[k].1);
            }
        }
    }
}

/// The words of a field are the longest runs of letters, digits (as `char::is_alphanumeric`
/// answers), apostrophes and hyphens: every character of a word is one of those, and the
/// characters just before and just after a word are not.
pub proof fn lemma_words_are_longest_runs(s: Seq<char>)
    ensures
        forall|k: int|
            0 <= k < token_runs(s).len() ==> {
                let run = #[trigger] token_runs(s)[k];
                &&& 0 <= run.0 < run.1 <= s.len()
                &&& forall|j: int|
                    run.0 <= j < run.1 ==> (alphanumeric_char(#[trigger] s[j]) || s[j] == '\''
                        || s[j] == '-')
                &&& run.0 == 0 || !(alphanumeric_char(s[run.0 - 1]) || s[run.0 - 1] == '\''
                    || s[run.0 - 1] == '-')
                &&& run.1 == s.len() || !(alphanumeric_char(s[run.1]) || s[run.1] == '\''
                    || s[run.1] == '-')
            },
{
    lemma_token_runs_shape(s);
    assert forall|k: int| 0 <= k < token_runs(s).len() implies {
        let run = #[trigger] token_runs(s)[k];
        &&& 0 <= run.0 < run.1 <= s.len()
        &&& forall|j: int|
            run.0 <= j < run.1 ==> (alphanumeric_char(#[trigger] s[j]) || s[j] == '\'' || s[j]
                == '-')
        &&& run.0 == 0 || !(alphanumeric_char(s[run.0 - 1]) || s[run.0 - 1] == '\'' || s[run.0
            - 1] == '-')
        &&& run.1 == s.len() || !(alphanumeric_char(s[run.1]) || s[run.1] == '\'' || s[run.1]
            == '-')
    } by {
        let run = token_runs(s)[k];
        assert forall|j: int| run.0 <= j < run.1 implies (alphanumeric_char(#[trigger] s[j])
            || s[j] == '\'' || s[j] == '-') by {
            assert(is_token_char(s[j]));
        }
    }
}

} // verus!
