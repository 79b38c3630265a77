//! Character-level building blocks: classifying characters, scanning for the last or first
//! character of a class, comparing and trimming text.
use vstd::prelude::*;
use vstd::string::*;

verus! {

/// Whether `c` has the Unicode `Alphabetic` or `Numeric` property, as `char::is_alphanumeric`
/// answers it.
pub uninterp spec fn char_is_alphanumeric(c: char) -> bool;

/// Whether `c` has the Unicode `White_Space` property, as `char::is_whitespace` answers it.
pub uninterp spec fn char_is_whitespace(c: char) -> bool;

/// Whether `c` is an ASCII digit or an ASCII letter, upper or lower case.
pub open spec fn ascii_alphanumeric(c: char) -> bool {
    let u = c as u32;
    (0x30 <= u <= 0x39) || (0x41 <= u <= 0x5A) || (0x61 <= u <= 0x7A)
}

/// Whether `c` is one of the ASCII characters with the `White_Space` property: tab, line feed,
/// vertical tab, form feed, carriage return and space.
pub open spec fn ascii_whitespace(c: char) -> bool {
    let u = c as u32;
    (0x09 <= u <= 0x0D) || u == 0x20
}

/// What `char::is_alphanumeric` answers for `c`: on ASCII, whether it is a letter or a digit;
/// beyond ASCII, `char_is_alphanumeric`.
pub open spec fn alphanumeric_char(c: char) -> bool {
    if (c as u32) < 0x80 {
        ascii_alphanumeric(c)
    } else {
        char_is_alphanumeric(c)
    }
}

/// What `char::is_whitespace` answers for `c`: on ASCII, whether it is one of the six whitespace
/// characters; beyond ASCII, `char_is_whitespace`.
pub open spec fn whitespace_char(c: char) -> bool {
    if (c as u32) < 0x80 {
        ascii_whitespace(c)
    } else {
        char_is_whitespace(c)
    }
}

/// Calls `char::is_alphanumeric`, which std documents as the Unicode `Alphabetic` or `Numeric`
/// property. Among ASCII characters those are exactly the letters and the digits, which the
/// contract states; beyond ASCII it names the answer `char_is_alphanumeric`, a function of `c`
/// alone, and leaves the Unicode tables behind it unstated.
#[verifier::external_body]
pub(crate) fn is_alphanumeric(c: char) -> (r: bool)
    ensures
        (c as u32) < 0x80 ==> r == ascii_alphanumeric(c),
        (c as u32) >= 0x80 ==> r == char_is_alphanumeric(c),
{
    c.is_alphanumeric()
}

/// Calls `char::is_whitespace`, which std documents as the Unicode `White_Space` property. Among
/// ASCII characters that is exactly tab, line feed, vertical tab, form feed, carriage return and
/// space, which the contract states; beyond ASCII it names the answer `char_is_whitespace`, a
/// function of `c` alone, and leaves the Unicode tables behind it unstated.
#[verifier::external_body]
pub(crate) fn is_whitespace(c: char) -> (r: bool)
    ensures
        (c as u32) < 0x80 ==> r == ascii_whitespace(c),
        (c as u32) >= 0x80 ==> r == char_is_whitespace(c),
{
    c.is_whitespace()
}

/// Calls `String::push`, which appends `c` to the end of `s`.
#[verifier::external_body]
pub(crate) fn push_char(s: &mut String, c: char)
    ensures
        final(s)@ == old(s)@.push(c),
{
    s.push(c)
}

/// A character that belongs to the word the caret sits in.
pub open spec fn is_word_char(c: char) -> bool {
    alphanumeric_char(c) || c == '\'' || c == '-' || c == '_'
}

/// A character that belongs to a word of a text field's value.
pub open spec fn is_token_char(c: char) -> bool {
    alphanumeric_char(c) || c == '\'' || c == '-'
}

/// A character that ends a sentence.
pub open spec fn ends_sentence(c: char) -> bool {
    c == '.' || c == '!' || c == '?' || c == '\n'
}

/// The classes of characters that the scans below look for.
#[derive(Clone, Copy, Debug, PartialEq, Eq)]
pub enum CharClass {
    Newline,
    SentenceEnd,
    NotWord,
    NotToken,
    NotWhitespace,
}

pub open spec fn in_class(class: CharClass, c: char) -> bool {
    match class {
        CharClass::Newline => c == '\n',
        CharClass::SentenceEnd => ends_sentence(c),
        CharClass::NotWord => !is_word_char(c),
        CharClass::NotToken => !is_token_char(c),
        CharClass::NotWhitespace => !whitespace_char(c),
    }
}

/// Whether `c` belongs to `class`.
pub fn class_contains(class: CharClass, c: char) -> (r: bool)
    ensures
        r == in_class(class, c),
{
    match class {
        CharClass::Newline => c == '\n',
        CharClass::SentenceEnd => c == '.' || c == '!' || c == '?' || c == '\n',
        CharClass::NotWord => !(is_alphanumeric(c) || c == '\'' || c == '-' || c == '_'),
        CharClass::NotToken => !(is_alphanumeric(c) || c == '\'' || c == '-'),
        CharClass::NotWhitespace => !is_whitespace(c),
    }
}

/// The index just past the last character of `s` in `class`; 0 where there is none.
pub open spec fn after_last(s: Seq<char>, class: CharClass) -> int
    decreases s.len(),
{
    if s.len() == 0 {
        0
    } else if in_class(class, s.last()) {
        s.len() as int
    } else {
        after_last(s.drop_last(), class)
    }
}

/// The index of the first character of `s` in `class`; `s.len()` where there is none.
pub open spec fn first_in(s: Seq<char>, class: CharClass) -> int
    decreases s.len(),
{
    if s.len() == 0 {
        0
    } else if in_class(class, s[0]) {
        0
    } else {
        1 + first_in(s.drop_first(), class)
    }
}

/// `after_last` is the one index past which no character is in the class, and just before which
/// one is.
pub proof fn lemma_after_last(s: Seq<char>, class: CharClass)
    ensures
        0 <= after_last(s, class) <= s.len(),
        after_last(s, class) > 0 ==> in_class(class, s[after_last(s, class) - 1]),
        forall|j: int| after_last(s, class) <= j < s.len() ==> !in_class(class, #[trigger] s[j]),
    decreases s.len(),
{
    if s.len() > 0 && !in_class(class, s.last()) {
        lemma_after_last(s.drop_last(), class);
        assert forall|j: int| after_last(s, class) <= j < s.len() implies !in_class(
            class,
            #[trigger] s[j],
        ) by {
            if j < s.len() - 1 {
                assert(s[j] == s.drop_last()[j]);
            }
        }
    }
}

pub proof fn lemma_after_last_unique(s: Seq<char>, class: CharClass, k: int)
    requires
        0 <= k <= s.len(),
        k > 0 ==> in_class(class, s[k - 1]),
        forall|j: int| k <= j < s.len() ==> !in_class(class, #[trigger] s[j]),
    ensures
        k == after_last(s, class),
    decreases s.len(),
{
    if s.len() > 0 && k < s.len() {
        assert(!in_class(class, s[s.len() - 1]));
        assert forall|j: int| k <= j < s.drop_last().len() implies !in_class(
            class,
            #[trigger] s.drop_last()[j],
        ) by {
            assert(s.drop_last()[j] == s[j]);
        }
        lemma_after_last_unique(s.drop_last(), class, k);
    }
}

/// `first_in` is the one index before which no character is in the class, and at which one is.
pub proof fn lemma_first_in(s: Seq<char>, class: CharClass)
    ensures
        0 <= first_in(s, class) <= s.len(),
        first_in(s, class) < s.len() ==> in_class(class, s[first_in(s, class)]),
        forall|j: int| 0 <= j < first_in(s, class) ==> !in_class(class, #[trigger] s[j]),
    decreases s.len(),
{
    if s.len() > 0 && !in_class(class, s[0]) {
        lemma_first_in(s.drop_first(), class);
        assert forall|j: int| 0 <= j < first_in(s, class) implies !in_class(
            class,
            #[trigger] s[j],
        ) by {
            if j > 0 {
                assert(s[j] == s.drop_first()[j - 1]);
            }
        }
    }
}

pub proof fn lemma_first_in_unique(s: Seq<char>, class: CharClass, k: int)
    requires
        0 <= k <= s.len(),
        k < s.len() ==> in_class(class, s[k]),
        forall|j: int| 0 <= j < k ==> !in_class(class, #[trigger] s[j]),
    ensures
        k == first_in(s, class),
    decreases s.len(),
{
    if s.len() > 0 && k > 0 {
        assert(!in_class(class, s[0]));
        assert forall|j: int| 0 <= j < k - 1 implies !in_class(
            class,
            #[trigger] s.drop_first()[j],
        ) by {
            assert(s.drop_first()[j] == s[j + 1]);
        }
        lemma_first_in_unique(s.drop_first(), class, k - 1);
    }
}

/// The characters of `s`, in order.
pub fn chars_of(s: &str) -> (v: Vec<char>)
    ensures
        v@ == s@,
{
    let mut v: Vec<char> = Vec::new();
    for c in it: s.chars()
        invariant
            v@ == it.seq().take(it.index()),
    {
        v.push(c);
    }
    v
}

/// Whether `a` and `b` hold the same characters.
pub fn same_text(a: &str, b: &str) -> (r: bool)
    ensures
        r == (a@ == b@),
{
    let av = chars_of(a);
    let bv = chars_of(b);
    if av.len() != bv.len() {
        return false;
    }
    let mut i: usize = 0;
    while i < av.len()
        invariant
            av@ == a@,
            bv@ == b@,
            av.len() == bv.len(),
            0 <= i <= av.len(),
            forall|j: int| 0 <= j < i ==> av@[j] == bv@[j],
        decreases av.len() - i,
    {
        if av[i] != bv[i] {
            return false;
        }
        i = i + 1;
    }
    assert(av@ =~= bv@);
    true
}

/// The index just past the last character of `v[lo..]` in `class`, counted from the start of
/// `v`; `lo` where there is none.
pub fn rfind_from(v: &Vec<char>, lo: usize, class: CharClass) -> (r: usize)
    requires
        lo <= v.len(),
    ensures
        r == lo + after_last(v@.subrange(lo as int, v.len() as int), class),
        lo <= r <= v.len(),
{
    let ghost tail = v@.subrange(lo as int, v.len() as int);
    let mut i: usize = v.len();
    while i > lo
        invariant
            lo <= i <= v.len(),
            tail == v@.subrange(lo as int, v.len() as int),
            forall|j: int| i <= j < v.len() ==> !in_class(class, #[trigger] v@[j]),
        decreases i,
    {
        if class_contains(class, v[i - 1]) {
            proof {
                assert forall|j: int| i - lo <= j < tail.len() implies !in_class(
                    class,
                    #[trigger] tail[j],
                ) by {
                    assert(tail[j] == v@[j + lo]);
                }
                lemma_after_last_unique(tail, class, i - lo);
            }
            return i;
        }
        i = i - 1;
    }
    proof {
        assert forall|j: int| 0 <= j < tail.len() implies !in_class(class, #[trigger] tail[j]) by {
            assert(tail[j] == v@[j + lo]);
        }
        lemma_after_last_unique(tail, class, 0);
    }
    lo
}

/// The index of the first character of `v[..hi]` in `class`; `hi` where there is none.
pub fn find_before(v: &Vec<char>, hi: usize, class: CharClass) -> (r: usize)
    requires
        hi <= v.len(),
    ensures
        r == first_in(v@.subrange(0, hi as int), class),
        r <= hi,
{
    let ghost head = v@.subrange(0, hi as int);
    let mut i: usize = 0;
    while i < hi
        invariant
            0 <= i <= hi <= v.len(),
            head == v@.subrange(0, hi as int),
            forall|j: int| 0 <= j < i ==> !in_class(class, #[trigger] v@[j]),
        decreases hi - i,
    {
        if class_contains(class, v[i]) {
            proof {
                assert forall|j: int| 0 <= j < i implies !in_class(class, #[trigger] head[j]) by {
                    assert(head[j] == v@[j]);
                }
                lemma_first_in_unique(head, class, i as int);
            }
            return i;
        }
        i = i + 1;
    }
    proof {
        assert forall|j: int| 0 <= j < hi implies !in_class(class, #[trigger] head[j]) by {
            assert(head[j] == v@[j]);
        }
        lemma_first_in_unique(head, class, hi as int);
    }
    hi
}

/// `s` without its leading and trailing whitespace, as `str::trim` cuts it.
pub open spec fn trimmed(s: Seq<char>) -> Seq<char> {
    if first_in(s, CharClass::NotWhitespace) < s.len() {
        s.subrange(first_in(s, CharClass::NotWhitespace), after_last(s, CharClass::NotWhitespace))
    } else {
        Seq::empty()
    }
}

/// Where `trimmed` starts cutting `s`.
pub open spec fn trim_start(s: Seq<char>) -> int {
    if first_in(s, CharClass::NotWhitespace) < s.len() {
        first_in(s, CharClass::NotWhitespace)
    } else {
        0
    }
}

/// Where `trimmed` stops cutting `s`.
pub open spec fn trim_end(s: Seq<char>) -> int {
    if first_in(s, CharClass::NotWhitespace) < s.len() {
        after_last(s, CharClass::NotWhitespace)
    } else {
        0
    }
}

/// Trimmed text is a stretch of the text it was cut from.
pub proof fn lemma_trimmed_range(s: Seq<char>)
    ensures
        0 <= trim_start(s) <= trim_end(s) <= s.len(),
        trimmed(s) =~= s.subrange(trim_start(s), trim_end(s)),
{
    lemma_first_in(s, CharClass::NotWhitespace);
    lemma_after_last(s, CharClass::NotWhitespace);
}

/// `None` for empty text, the text itself otherwise.
pub open spec fn non_empty(s: Seq<char>) -> Option<Seq<char>> {
    if s.len() == 0 {
        None
    } else {
        Some(s)
    }
}

/// The characters of an optional string.
pub open spec fn opt_text(o: Option<String>) -> Option<Seq<char>> {
    match o {
        Some(s) => Some(s@),
        None => None,
    }
}

/// The trimmed text of `s`, or `None` where nothing but whitespace is left.
pub fn trim_non_empty(s: &str) -> (r: Option<String>)
    ensures
        opt_text(r) == non_empty(trimmed(s@)),
{
    let v = chars_of(s);
    let start = find_before(&v, v.len(), CharClass::NotWhitespace);
    proof {
        assert(v@.subrange(0, v.len() as int) =~= v@);
        lemma_first_in(v@, CharClass::NotWhitespace);
    }
    if start == v.len() {
        return None;
    }
    let end = rfind_from(&v, 0, CharClass::NotWhitespace);
    proof {
        assert(v@.subrange(0, v.len() as int) =~= v@);
        lemma_after_last(v@, CharClass::NotWhitespace);
        // the first character out of whitespace lies before the end of the last one
        assert(start < end);
    }
    Some(String::from_str(s.substring_char(start, end)))
}

} // verus!
