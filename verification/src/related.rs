//! What surrounds the caret, read from the text on either side of it.
use vstd::prelude::*;
use vstd::string::*;

use crate::model::RelatedContent;
use crate::text::{
    after_last, chars_of, find_before, first_in, non_empty, opt_text, rfind_from,
    trim_non_empty, trimmed, trim_start, lemma_trimmed_range, lemma_after_last, lemma_first_in,
    in_class, ends_sentence, CharClass, is_word_char, is_alphanumeric, lemma_after_last_unique,
    lemma_first_in_unique, alphanumeric_char,
};

verus! {

/// How many characters of raw text are kept on either side of the caret.
pub const SURROUNDING_CHARS: usize = 400;

/// The part of `before` that lies on the caret's line.
pub open spec fn line_before(before: Seq<char>) -> Seq<char> {
    before.subrange(after_last(before, CharClass::Newline), before.len() as int)
}

/// The part of `after` that lies on the caret's line.
pub open spec fn line_after(after: Seq<char>) -> Seq<char> {
    after.subrange(0, first_in(after, CharClass::Newline))
}

/// The run of word characters that ends at the caret.
pub open spec fn word_before(before: Seq<char>) -> Seq<char> {
    let line = line_before(before);
    line.subrange(after_last(line, CharClass::NotWord), line.len() as int)
}

/// The run of word characters that starts at the caret.
pub open spec fn word_after(after: Seq<char>) -> Seq<char> {
    let line = line_after(after);
    line.subrange(0, first_in(line, CharClass::NotWord))
}

/// The word the caret sits in, if any.
pub open spec fn caret_word(before: Seq<char>, after: Seq<char>) -> Option<Seq<char>> {
    non_empty(word_before(before) + word_after(after))
}

/// The whole line the caret sits on.
pub open spec fn caret_line(before: Seq<char>, after: Seq<char>) -> Seq<char> {
    line_before(before) + line_after(after)
}

/// Where the caret's sentence ends in `after`: just past its first terminator, or at the end.
pub open spec fn sentence_end(after: Seq<char>) -> int {
    if first_in(after, CharClass::SentenceEnd) < after.len() {
        first_in(after, CharClass::SentenceEnd) + 1
    } else {
        after.len() as int
    }
}

/// The untrimmed text of the caret's sentence.
pub open spec fn sentence_text(before: Seq<char>, after: Seq<char>) -> Seq<char> {
    before.subrange(after_last(before, CharClass::SentenceEnd), before.len() as int)
        + after.subrange(0, sentence_end(after))
}

/// The caret's sentence, trimmed, if anything is left of it.
pub open spec fn caret_sentence(before: Seq<char>, after: Seq<char>) -> Option<Seq<char>> {
    non_empty(trimmed(sentence_text(before, after)))
}

/// Whether a blank line (two newlines in a row) starts at `i`.
pub open spec fn blank_at(s: Seq<char>, i: int) -> bool {
    0 <= i && i + 1 < s.len() && s[i] == '\n' && s[i + 1] == '\n'
}

/// Where the caret's paragraph starts in `before`: just past its last blank line, or at 0.
pub open spec fn paragraph_start(before: Seq<char>) -> int
    decreases before.len(),
{
    if before.len() < 2 {
        0
    } else if blank_at(before, before.len() - 2) {
        before.len() as int
    } else {
        paragraph_start(before.drop_last())
    }
}

/// Where the caret's paragraph ends in `after`: at its first blank line, or at the end.
pub open spec fn paragraph_end(after: Seq<char>) -> int
    decreases after.len(),
{
    if after.len() < 2 {
        after.len() as int
    } else if blank_at(after, 0) {
        0
    } else {
        1 + paragraph_end(after.drop_first())
    }
}

/// Whether the caret sits between the two newlines of a blank line with text of the paragraph on
/// both sides of it, so that the two pieces of the paragraph would meet in that blank line.
pub open spec fn caret_splits_blank_line(before: Seq<char>, after: Seq<char>) -> bool {
    &&& paragraph_start(before) < before.len()
    &&& 0 < paragraph_end(after)
    &&& before.last() == '\n'
    &&& after[0] == '\n'
}

/// The untrimmed text of the caret's paragraph: from just past the last blank line before the
/// caret to the first one after it. A caret inside a blank line that has text on both sides sits
/// between two paragraphs, in neither of them, so its paragraph holds nothing.
pub open spec fn paragraph_text(before: Seq<char>, after: Seq<char>) -> Seq<char> {
    if caret_splits_blank_line(before, after) {
        Seq::empty()
    } else {
        before.subrange(paragraph_start(before), before.len() as int) + after.subrange(
            0,
            paragraph_end(after),
        )
    }
}

/// The caret's paragraph, trimmed, if anything is left of it.
pub open spec fn caret_paragraph(before: Seq<char>, after: Seq<char>) -> Option<Seq<char>> {
    non_empty(trimmed(paragraph_text(before, after)))
}

pub open spec fn min_len(n: nat, bound: nat) -> int {
    if n < bound {
        n as int
    } else {
        bound as int
    }
}

/// The last `SURROUNDING_CHARS` characters of `text`, or all of it when it is shorter.
pub open spec fn window_before(text: Seq<char>) -> Seq<char> {
    text.subrange(text.len() - min_len(text.len(), SURROUNDING_CHARS as nat), text.len() as int)
}

/// The first `SURROUNDING_CHARS` characters of `text`, or all of it when it is shorter.
pub open spec fn window_after(text: Seq<char>) -> Seq<char> {
    text.subrange(0, min_len(text.len(), SURROUNDING_CHARS as nat))
}

/// Everything around the caret that is worth knowing without asking the system for more: the word
/// it sits in, the line, the sentence, the paragraph, and a bounded window of raw text on either
/// side.
pub fn from_caret(text_before: &str, text_after: &str) -> (r: RelatedContent)
    ensures
        opt_text(r.word) == caret_word(text_before@, text_after@),
        r.line@ == caret_line(text_before@, text_after@),
        opt_text(r.sentence) == caret_sentence(text_before@, text_after@),
        opt_text(r.paragraph) == caret_paragraph(text_before@, text_after@),
        r.before@ == window_before(text_before@),
        r.after@ == window_after(text_after@),
{
    let before = chars_of(text_before);
    let after = chars_of(text_after);
    let line_start = rfind_from(&before, 0, CharClass::Newline);
    let line_end = find_before(&after, after.len(), CharClass::Newline);
    let word_start = rfind_from(&before, line_start, CharClass::NotWord);
    let word_end = find_before(&after, line_end, CharClass::NotWord);
    proof {
        let b = text_before@;
        let a = text_after@;
        assert(b.subrange(0, b.len() as int) =~= b);
        assert(a.subrange(0, a.len() as int) =~= a);
        assert(line_before(b) =~= b.subrange(line_start as int, b.len() as int));
        assert(line_after(a) =~= a.subrange(0, line_end as int));
        assert(word_before(b) =~= b.subrange(word_start as int, b.len() as int));
        assert(word_after(a) =~= a.subrange(0, word_end as int));
    }

    let mut word = String::from_str(text_before.substring_char(word_start, before.len()));
    word.append(text_after.substring_char(0, word_end));
    let word = if word_start == before.len() && word_end == 0 {
        None
    } else {
        Some(word)
    };

    let mut line = String::from_str(text_before.substring_char(line_start, before.len()));
    line.append(text_after.substring_char(0, line_end));

    RelatedContent {
        word,
        line,
        sentence: sentence(text_before, text_after),
        paragraph: paragraph(text_before, text_after),
        before: bounded_tail(text_before),
        after: bounded_head(text_after),
    }
}

/// Whether `character` can be part of the word the caret sits in.
fn is_word(character: char) -> (r: bool)
    ensures
        r == is_word_char(character),
{
    is_alphanumeric(character) || character == '\'' || character == '-' || character == '_'
}

/// The sentence around the caret: from just past the last terminator before it to just past the
/// first one after it, trimmed.
fn sentence(text_before: &str, text_after: &str) -> (r: Option<String>)
    ensures
        opt_text(r) == caret_sentence(text_before@, text_after@),
{
    let before = chars_of(text_before);
    let after = chars_of(text_after);
    let start = rfind_from(&before, 0, CharClass::SentenceEnd);
    let first = find_before(&after, after.len(), CharClass::SentenceEnd);
    let end = if first < after.len() {
        first + 1
    } else {
        after.len()
    };
    proof {
        assert(text_before@.subrange(0, before.len() as int) =~= text_before@);
        assert(text_after@.subrange(0, after.len() as int) =~= text_after@);
    }
    let mut joined = String::from_str(text_before.substring_char(start, before.len()));
    joined.append(text_after.substring_char(0, end));
    trim_non_empty(joined.as_str())
}

/// The index just past the last blank line of `v`, or 0.
fn blank_line_start(v: &Vec<char>) -> (r: usize)
    ensures
        r == paragraph_start(v@),
        r <= v.len(),
{
    let mut i: usize = v.len();
    assert(v@.take(i as int) =~= v@);
    while i >= 2
        invariant
            0 <= i <= v.len(),
            paragraph_start(v@) == paragraph_start(v@.take(i as int)),
        decreases i,
    {
        if v[i - 2] == '\n' && v[i - 1] == '\n' {
            return i;
        }
        assert(v@.take(i as int).drop_last() =~= v@.take(i - 1));
        i = i - 1;
    }
    0
}

/// The index of the first blank line of `v`, or its length.
fn blank_line_end(v: &Vec<char>) -> (r: usize)
    ensures
        r == paragraph_end(v@),
        r <= v.len(),
{
    let mut i: usize = 0;
    assert(v@.skip(0) =~= v@);
    while i < v.len() && v.len() - i >= 2
        invariant
            0 <= i <= v.len(),
            paragraph_end(v@) == i + paragraph_end(v@.skip(i as int)),
        decreases v.len() - i,
    {
        if v[i] == '\n' && v[i + 1] == '\n' {
            return i;
        }
        assert(v@.skip(i as int).drop_first() =~= v@.skip(i + 1));
        i = i + 1;
    }
    v.len()
}

/// The paragraph around the caret: from just past the last blank line before it to the first one
/// after it, trimmed.
fn paragraph(text_before: &str, text_after: &str) -> (r: Option<String>)
    ensures
        opt_text(r) == caret_paragraph(text_before@, text_after@),
{
    let before = chars_of(text_before);
    let after = chars_of(text_after);
    let start = blank_line_start(&before);
    let end = blank_line_end(&after);
    if start < before.len() && 0 < end && before[before.len() - 1] == '\n' && after[0] == '\n' {
        proof {
            lemma_trimmed_range(Seq::<char>::empty());
        }
        return None;
    }
    let mut joined = String::from_str(text_before.substring_char(start, before.len()));
    joined.append(text_after.substring_char(0, end));
    trim_non_empty(joined.as_str())
}

/// The last `SURROUNDING_CHARS` characters of `text`.
fn bounded_tail(text: &str) -> (r: String)
    ensures
        r@ == window_before(text@),
{
    let count = text.unicode_len();
    let skip = count.saturating_sub(SURROUNDING_CHARS);
    String::from_str(text.substring_char(skip, count))
}

/// The first `SURROUNDING_CHARS` characters of `text`.
fn bounded_head(text: &str) -> (r: String)
    ensures
        r@ == window_after(text@),
{
    let count = text.unicode_len();
    let take = if count < SURROUNDING_CHARS {
        count
    } else {
        SURROUNDING_CHARS
    };
    String::from_str(text.substring_char(0, take))
}

} // verus!

verus! {

/// The line the caret sits on stops at the surrounding newlines: it holds none.
pub proof fn lemma_line_holds_no_newline(before: Seq<char>, after: Seq<char>)
    ensures
        forall|i: int| 0 <= i < caret_line(before, after).len() ==> #[trigger] caret_line(
            before,
            after,
        )[i] != '\n',
{
    lemma_after_last(before, CharClass::Newline);
    lemma_first_in(after, CharClass::Newline);
    let lb = line_before(before);
    let la = line_after(after);
    assert forall|i: int| 0 <= i < caret_line(before, after).len() implies #[trigger] caret_line(
        before,
        after,
    )[i] != '\n' by {
        if i < lb.len() {
            assert(caret_line(before, after)[i] == before[after_last(before, CharClass::Newline)
                + i]);
        } else {
            assert(caret_line(before, after)[i] == after[i - lb.len()]);
        }
    }
}

/// The caret's word is made of word characters only, none of them a newline.
pub proof fn lemma_word_is_made_of_word_chars(before: Seq<char>, after: Seq<char>)
    ensures
        caret_word(before, after) matches Some(w) ==> forall|i: int|
            0 <= i < w.len() ==> is_word_char(#[trigger] w[i]) && w[i] != '\n',
{
    let lb = line_before(before);
    let la = line_after(after);
    lemma_after_last(before, CharClass::Newline);
    lemma_first_in(after, CharClass::Newline);
    lemma_after_last(lb, CharClass::NotWord);
    lemma_first_in(la, CharClass::NotWord);
    let wb = word_before(before);
    let wa = word_after(after);
    let w = wb + wa;
    assert forall|i: int| 0 <= i < w.len() implies is_word_char(#[trigger] w[i]) && w[i]
        != '\n' by {
        if i < wb.len() {
            let k = after_last(lb, CharClass::NotWord) + i;
            assert(w[i] == lb[k]);
            assert(lb[k] == before[after_last(before, CharClass::Newline) + k]);
        } else {
            let k = i - wb.len();
            assert(w[i] == la[k]);
            assert(la[k] == after[k]);
        }
    }
}

/// The caret sits inside the word it splits: with a word character (not a newline) on each side
/// of it, its word holds both, and the word is whole — neither side of it continues the word
/// within the line.
pub proof fn lemma_caret_inside_word(before: Seq<char>, after: Seq<char>)
    requires
        before.len() > 0 && is_word_char(before.last()) && before.last() != '\n',
        after.len() > 0 && is_word_char(after[0]) && after[0] != '\n',
    ensures
        caret_word(before, after) == Some(word_before(before) + word_after(after)),
        word_before(before).len() > 0 && word_before(before).last() == before.last(),
        word_after(after).len() > 0 && word_after(after)[0] == after[0],
        ({
            let line = line_before(before);
            let start = after_last(line, CharClass::NotWord);
            start == 0 || !is_word_char(line[start - 1])
        }),
        ({
            let line = line_after(after);
            let end = first_in(line, CharClass::NotWord);
            end == line.len() || !is_word_char(line[end])
        }),
{
    let lb = line_before(before);
    let la = line_after(after);
    lemma_after_last(before, CharClass::Newline);
    lemma_first_in(after, CharClass::Newline);
    lemma_after_last(lb, CharClass::NotWord);
    lemma_first_in(la, CharClass::NotWord);
    assert(lb.len() > 0);
    assert(lb.last() == before.last());
    assert(la.len() > 0);
    assert(la[0] == after[0]);
    assert(word_before(before).last() == lb.last());
    assert(word_after(after)[0] == la[0]);
}

/// The caret's word lies in the caret's line, where the caret splits both.
pub proof fn lemma_word_lies_in_line(before: Seq<char>, after: Seq<char>)
    ensures
        ({
            let line = line_before(before);
            let start = after_last(line, CharClass::NotWord);
            let word = word_before(before) + word_after(after);
            &&& 0 <= start <= line.len()
            &&& start + word.len() <= caret_line(before, after).len()
            &&& caret_line(before, after).subrange(start, start + word.len()) == word
        }),
{
    let lb = line_before(before);
    let la = line_after(after);
    lemma_after_last(before, CharClass::Newline);
    lemma_first_in(after, CharClass::Newline);
    lemma_after_last(lb, CharClass::NotWord);
    lemma_first_in(la, CharClass::NotWord);
    let start = after_last(lb, CharClass::NotWord);
    let word = word_before(before) + word_after(after);
    assert(caret_line(before, after).subrange(start, start + word.len()) =~= word);
}

/// A caret between words belongs to none of them: with no word character on either side of it,
/// it sits in no word.
pub proof fn lemma_caret_between_words(before: Seq<char>, after: Seq<char>)
    requires
        before.len() == 0 || !is_word_char(before.last()),
        after.len() == 0 || !is_word_char(after[0]),
    ensures
        caret_word(before, after) is None,
{
    let lb = line_before(before);
    let la = line_after(after);
    lemma_after_last(before, CharClass::Newline);
    lemma_first_in(after, CharClass::Newline);
    if lb.len() > 0 {
        assert(lb.last() == before.last());
        assert(after_last(lb, CharClass::NotWord) == lb.len());
    }
    if la.len() > 0 {
        assert(la[0] == after[0]);
        assert(first_in(la, CharClass::NotWord) == 0);
    }
}

/// The sentence runs between its terminators: no character but its last one ends a sentence.
pub proof fn lemma_sentence_ends_only_at_its_end(before: Seq<char>, after: Seq<char>)
    ensures
        caret_sentence(before, after) matches Some(s) ==> forall|i: int|
            0 <= i < s.len() - 1 ==> !ends_sentence(#[trigger] s[i]),
{
    let text = sentence_text(before, after);
    let start = after_last(before, CharClass::SentenceEnd);
    let end = sentence_end(after);
    let head = before.subrange(start, before.len() as int);
    lemma_after_last(before, CharClass::SentenceEnd);
    lemma_first_in(after, CharClass::SentenceEnd);
    lemma_trimmed_range(text);
    // every character of the untrimmed text but its last one is no terminator
    assert forall|j: int| 0 <= j < text.len() - 1 implies !ends_sentence(#[trigger] text[j]) by {
        if j < head.len() {
            assert(text[j] == before[start + j]);
            assert(!in_class(CharClass::SentenceEnd, before[start + j]));
        } else {
            assert(text[j] == after[j - head.len()]);
            assert(!in_class(CharClass::SentenceEnd, after[j - head.len()]));
        }
    }
    let t = trimmed(text);
    assert forall|i: int| 0 <= i < t.len() - 1 implies !ends_sentence(#[trigger] t[i]) by {
        assert(t[i] == text[trim_start(text) + i]);
    }
}

/// The caret's sentence is everything from just past the last full stop, exclamation mark,
/// question mark or newline before the caret up to and including the first one after it (or the
/// end of the text), trimmed: no other character cuts it. `k` is where it starts in `before` and
/// `m` where it ends in `after`.
pub proof fn lemma_sentence_runs_between_terminators(
    before: Seq<char>,
    after: Seq<char>,
    k: int,
    m: int,
)
    requires
        0 <= k <= before.len(),
        k > 0 ==> (before[k - 1] == '.' || before[k - 1] == '!' || before[k - 1] == '?'
            || before[k - 1] == '\n'),
        forall|j: int|
            k <= j < before.len() ==> !(#[trigger] before[j] == '.' || before[j] == '!'
                || before[j] == '?' || before[j] == '\n'),
        0 <= m <= after.len(),
        forall|j: int|
            0 <= j < m - 1 ==> !(#[trigger] after[j] == '.' || after[j] == '!' || after[j] == '?'
                || after[j] == '\n'),
        (m > 0 && (after[m - 1] == '.' || after[m - 1] == '!' || after[m - 1] == '?'
            || after[m - 1] == '\n')) || (m == after.len() && (m == 0 || !(after[m - 1] == '.'
            || after[m - 1] == '!' || after[m - 1] == '?' || after[m - 1] == '\n'))),
    ensures
        caret_sentence(before, after) == non_empty(
            trimmed(before.subrange(k, before.len() as int) + after.subrange(0, m)),
        ),
{
    assert forall|j: int| k <= j < before.len() implies !in_class(
        CharClass::SentenceEnd,
        #[trigger] before[j],
    ) by {
        assert(!(before[j] == '.' || before[j] == '!' || before[j] == '?' || before[j] == '\n'));
    }
    lemma_after_last_unique(before, CharClass::SentenceEnd, k);
    if m > 0 && (after[m - 1] == '.' || after[m - 1] == '!' || after[m - 1] == '?' || after[m - 1]
        == '\n') {
        assert forall|j: int| 0 <= j < m - 1 implies !in_class(
            CharClass::SentenceEnd,
            #[trigger] after[j],
        ) by {
            assert(!(after[j] == '.' || after[j] == '!' || after[j] == '?' || after[j] == '\n'));
        }
        lemma_first_in_unique(after, CharClass::SentenceEnd, m - 1);
    } else {
        assert forall|j: int| 0 <= j < m implies !in_class(
            CharClass::SentenceEnd,
            #[trigger] after[j],
        ) by {
            if j < m - 1 {
                assert(!(after[j] == '.' || after[j] == '!' || after[j] == '?' || after[j]
                    == '\n'));
            }
        }
        lemma_first_in_unique(after, CharClass::SentenceEnd, m);
    }
}

/// The caret's line is everything from just past the last newline before the caret to the first
/// newline after it (or the end of the text): no other character cuts it. `k` is where it starts
/// in `before` and `m` where it ends in `after`.
pub proof fn lemma_line_runs_between_newlines(before: Seq<char>, after: Seq<char>, k: int, m: int)
    requires
        0 <= k <= before.len(),
        k > 0 ==> before[k - 1] == '\n',
        forall|j: int| k <= j < before.len() ==> #[trigger] before[j] != '\n',
        0 <= m <= after.len(),
        m < after.len() ==> after[m] == '\n',
        forall|j: int| 0 <= j < m ==> #[trigger] after[j] != '\n',
    ensures
        caret_line(before, after) == before.subrange(k, before.len() as int) + after.subrange(0, m),
{
    assert forall|j: int| k <= j < before.len() implies !in_class(
        CharClass::Newline,
        #[trigger] before[j],
    ) by {
        assert(before[j] != '\n');
    }
    lemma_after_last_unique(before, CharClass::Newline, k);
    assert forall|j: int| 0 <= j < m implies !in_class(CharClass::Newline, #[trigger] after[j]) by {
        assert(after[j] != '\n');
    }
    lemma_first_in_unique(after, CharClass::Newline, m);
}

/// The caret's word is the longest run of letters, digits (as `char::is_alphanumeric` answers),
/// apostrophes, hyphens and underscores around the caret on its line: `k` is where it starts in
/// the line's part before the caret and `m` where it ends in the part after it.
pub proof fn lemma_word_is_the_longest_run(before: Seq<char>, after: Seq<char>, k: int, m: int)
    requires
        0 <= k <= line_before(before).len(),
        k > 0 ==> !(alphanumeric_char(line_before(before)[k - 1]) || line_before(before)[k - 1]
            == '\'' || line_before(before)[k - 1] == '-' || line_before(before)[k - 1] == '_'),
        forall|j: int|
            k <= j < line_before(before).len() ==> (alphanumeric_char(
                #[trigger] line_before(before)[j],
            ) || line_before(before)[j] == '\'' || line_before(before)[j] == '-'
                || line_before(before)[j] == '_'),
        0 <= m <= line_after(after).len(),
        m < line_after(after).len() ==> !(alphanumeric_char(line_after(after)[m])
            || line_after(after)[m] == '\'' || line_after(after)[m] == '-' || line_after(after)[m]
            == '_'),
        forall|j: int|
            0 <= j < m ==> (alphanumeric_char(#[trigger] line_after(after)[j])
                || line_after(after)[j] == '\'' || line_after(after)[j] == '-'
                || line_after(after)[j] == '_'),
    ensures
        caret_word(before, after) == non_empty(
            line_before(before).subrange(k, line_before(before).len() as int) + line_after(
                after,
            ).subrange(0, m),
        ),
{
    let lb = line_before(before);
    let la = line_after(after);
    assert forall|j: int| k <= j < lb.len() implies in_class(CharClass::NotWord, #[trigger] lb[j])
        == false by {
        assert(is_word_char(lb[j]));
    }
    lemma_after_last_unique(lb, CharClass::NotWord, k);
    assert forall|j: int| 0 <= j < m implies in_class(CharClass::NotWord, #[trigger] la[j])
        == false by {
        assert(is_word_char(la[j]));
    }
    lemma_first_in_unique(la, CharClass::NotWord, m);
}

/// The paragraph runs between blank lines and holds none itself.
pub proof fn lemma_paragraph_holds_no_blank_line(before: Seq<char>, after: Seq<char>)
    ensures
        caret_paragraph(before, after) matches Some(p) ==> forall|i: int|
            !#[trigger] blank_at(p, i),
{
    let text = paragraph_text(before, after);
    if caret_splits_blank_line(before, after) {
        lemma_trimmed_range(text);
    } else {
        let start = paragraph_start(before);
        let end = paragraph_end(after);
        let head = before.subrange(start, before.len() as int);
        let tail = after.subrange(0, end);
        lemma_paragraph_start(before);
        lemma_paragraph_end(after);
        lemma_trimmed_range(text);
        assert forall|j: int| !#[trigger] blank_at(text, j) by {
            if blank_at(text, j) {
                if j + 1 < head.len() {
                    assert(text[j] == before[start + j]);
                    assert(text[j + 1] == before[start + j + 1]);
                    assert(blank_at(before, start + j));
                } else if j >= head.len() {
                    assert(text[j] == after[j - head.len()]);
                    assert(text[j + 1] == after[j + 1 - head.len()]);
                    assert(blank_at(after, j - head.len()));
                } else {
                    assert(text[j] == before[before.len() - 1]);
                    assert(text[j + 1] == after[0]);
                }
            }
        }
        let t = trimmed(text);
        assert forall|i: int| !#[trigger] blank_at(t, i) by {
            if blank_at(t, i) {
                assert(t[i] == text[trim_start(text) + i]);
                assert(t[i + 1] == text[trim_start(text) + i + 1]);
                assert(blank_at(text, trim_start(text) + i));
            }
        }
    }
}

/// No blank line starts at or after the start of the caret's paragraph.
pub proof fn lemma_paragraph_start(s: Seq<char>)
    ensures
        0 <= paragraph_start(s) <= s.len(),
        forall|i: int| paragraph_start(s) <= i ==> !#[trigger] blank_at(s, i),
    decreases s.len(),
{
    if s.len() >= 2 && !blank_at(s, s.len() - 2) {
        lemma_paragraph_start(s.drop_last());
        assert forall|i: int| paragraph_start(s) <= i implies !#[trigger] blank_at(s, i) by {
            if blank_at(s, i) && i + 2 < s.len() {
                assert(blank_at(s.drop_last(), i));
            }
        }
    }
}

/// No blank line starts before the end of the caret's paragraph.
pub proof fn lemma_paragraph_end(s: Seq<char>)
    ensures
        0 <= paragraph_end(s) <= s.len(),
        forall|i: int| i < paragraph_end(s) ==> !#[trigger] blank_at(s, i),
    decreases s.len(),
{
    if s.len() >= 2 && !blank_at(s, 0) {
        lemma_paragraph_end(s.drop_first());
        assert forall|i: int| i < paragraph_end(s) implies !#[trigger] blank_at(s, i) by {
            if blank_at(s, i) && i > 0 {
                assert(blank_at(s.drop_first(), i - 1));
            }
        }
    }
}

/// The window of raw text on either side of the caret is bounded: it holds at most
/// `SURROUNDING_CHARS` characters, the ones nearest the caret.
pub proof fn lemma_window_is_bounded(before: Seq<char>, after: Seq<char>)
    ensures
        window_before(before).len() == min_len(before.len(), SURROUNDING_CHARS as nat),
        window_after(after).len() == min_len(after.len(), SURROUNDING_CHARS as nat),
        window_before(before).len() <= SURROUNDING_CHARS,
        window_after(after).len() <= SURROUNDING_CHARS,
        before.len() <= SURROUNDING_CHARS ==> window_before(before) == before,
        after.len() <= SURROUNDING_CHARS ==> window_after(after) == after,
        forall|i: int|
            0 <= i < window_before(before).len() ==> #[trigger] window_before(before)[i]
                == before[before.len() - window_before(before).len() + i],
        forall|i: int|
            0 <= i < window_after(after).len() ==> #[trigger] window_after(after)[i] == after[i],
{
    if before.len() <= SURROUNDING_CHARS {
        assert(window_before(before) =~= before);
    }
    if after.len() <= SURROUNDING_CHARS {
        assert(window_after(after) =~= after);
    }
}

} // verus!
