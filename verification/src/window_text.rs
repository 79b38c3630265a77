//! Gathering the visible text of a whole window while walking its element tree. A browser's tree
//! can be the entire DOM, so the walk is bounded in depth, in elements and in text.
use vstd::prelude::*;
use vstd::string::*;

use crate::text::{chars_of, same_text, trim_non_empty, trimmed};

verus! {

/// How deep the walk goes below its root.
pub const MAX_DEPTH: usize = 40;

/// How many elements the walk visits.
pub const MAX_NODES: usize = 1500;

/// How many bytes of text the walk gathers before it stops.
pub const MAX_CHARS: usize = 20_000;

/// How many times the walk is tried: Chromium finishes building its tree some time after its
/// accessibility flags are set, so an empty first read is retried.
pub const MAX_ATTEMPTS: usize = 5;

/// How many bytes UTF-8 takes for `c`.
pub open spec fn utf8_width(c: char) -> int {
    if (c as u32) < 0x80 {
        1
    } else if (c as u32) < 0x800 {
        2
    } else if (c as u32) < 0x10000 {
        3
    } else {
        4
    }
}

/// How many bytes UTF-8 takes for `s`.
pub open spec fn utf8_count(s: Seq<char>) -> int
    decreases s.len(),
{
    if s.len() == 0 {
        0
    } else {
        utf8_count(s.drop_last()) + utf8_width(s.last())
    }
}

pub proof fn lemma_utf8_count_add(a: Seq<char>, b: Seq<char>)
    ensures
        utf8_count(a + b) == utf8_count(a) + utf8_count(b),
    decreases b.len(),
{
    if b.len() > 0 {
        assert((a + b).drop_last() =~= a + b.drop_last());
        lemma_utf8_count_add(a, b.drop_last());
    } else {
        assert(a + b =~= a);
    }
}

pub proof fn lemma_utf8_count_nonneg(s: Seq<char>)
    ensures
        utf8_count(s) >= 0,
    decreases s.len(),
{
    if s.len() > 0 {
        lemma_utf8_count_nonneg(s.drop_last());
    }
}

/// `n` cut to the largest `usize`.
pub open spec fn saturated(n: int) -> int {
    if n > usize::MAX {
        usize::MAX as int
    } else {
        n
    }
}

/// How many bytes UTF-8 takes for `text`, cut to the largest `usize`.
fn utf8_len(text: &str) -> (r: usize)
    ensures
        r == saturated(utf8_count(text@)),
{
    let chars = chars_of(text);
    let mut count: usize = 0;
    let mut i: usize = 0;
    assert(text@.take(0) =~= Seq::<char>::empty());
    while i < chars.len()
        invariant
            chars@ == text@,
            0 <= i <= chars.len(),
            count == saturated(utf8_count(text@.take(i as int))),
        decreases chars.len() - i,
    {
        let code = chars[i] as u32;
        let width: usize = if code < 0x80 {
            1
        } else if code < 0x800 {
            2
        } else if code < 0x10000 {
            3
        } else {
            4
        };
        assert(text@.take(i + 1).drop_last() =~= text@.take(i as int));
        proof {
            lemma_utf8_count_nonneg(text@.take(i as int));
        }
        count = count.saturating_add(width);
        i = i + 1;
    }
    assert(text@.take(chars.len() as int) =~= text@);
    count
}

/// The text gathered so far on a walk of a window's element tree.
pub struct TextCollector {
    /// How many elements the walk has visited.
    pub nodes: usize,
    /// The gathered text: every distinct trimmed text, each followed by a newline.
    pub out: String,
    /// How many bytes `out` takes, cut to the largest `usize`.
    pub out_bytes: usize,
    /// The texts gathered so far, each once.
    pub seen: Vec<String>,
}

/// Whether `texts` holds `text`.
pub open spec fn holds_text(texts: Seq<String>, text: Seq<char>) -> bool {
    exists|i: int| 0 <= i < texts.len() && #[trigger] texts[i]@ == text
}

/// The texts `texts`, each followed by a newline, one after the other.
pub open spec fn gathered(texts: Seq<String>) -> Seq<char>
    decreases texts.len(),
{
    if texts.len() == 0 {
        Seq::empty()
    } else {
        gathered(texts.drop_last()) + texts.last()@ + seq!['\n']
    }
}

/// No two of `texts` hold the same characters.
pub open spec fn distinct_texts(texts: Seq<String>) -> bool {
    forall|i: int, j: int| 0 <= i < j < texts.len() ==> texts[i]@ != texts[j]@
}

/// What the collector holds after it is handed `text`: its trimmed form is added, followed by a
/// newline, unless it is empty or was added before.
pub open spec fn after_add(out: Seq<char>, seen: Seq<String>, text: Seq<char>) -> Seq<char> {
    let t = trimmed(text);
    if t.len() == 0 || holds_text(seen, t) {
        out
    } else {
        out + t + seq!['\n']
    }
}

impl TextCollector {
    /// The gathered text is the distinct texts seen, in the order they came, each on a line of
    /// its own; `out_bytes` counts its bytes.
    pub open spec fn wf(&self) -> bool {
        &&& self.out_bytes == saturated(utf8_count(self.out@))
        &&& self.out@ == gathered(self.seen@)
        &&& distinct_texts(self.seen@)
    }

    /// A collector that has visited nothing and gathered nothing.
    pub fn new() -> (r: Self)
        ensures
            r.wf(),
            r.nodes == 0,
            r.out@ == Seq::<char>::empty(),
            r.seen@.len() == 0,
    {
        TextCollector { nodes: 0, out: String::new(), out_bytes: 0, seen: Vec::new() }
    }

    /// Whether the walk visits an element at `depth` below its root: only within the depth, element
    /// and text bounds.
    pub fn may_visit(&self, depth: usize) -> (r: bool)
        requires
            self.wf(),
        ensures
            r == (depth <= MAX_DEPTH && self.nodes <= MAX_NODES && utf8_count(self.out@)
                <= MAX_CHARS),
    {
        depth <= MAX_DEPTH && self.nodes <= MAX_NODES && self.out_bytes <= MAX_CHARS
    }

    /// Whether the walk goes on to the next child: only within the element and text bounds.
    pub fn may_continue(&self) -> (r: bool)
        requires
            self.wf(),
        ensures
            r == (self.nodes <= MAX_NODES && utf8_count(self.out@) <= MAX_CHARS),
    {
        self.nodes <= MAX_NODES && self.out_bytes <= MAX_CHARS
    }

    /// Counts a visited element.
    pub fn enter(&mut self)
        requires
            old(self).nodes <= MAX_NODES,
        ensures
            final(self).nodes == old(self).nodes + 1,
            final(self).out == old(self).out,
            final(self).out_bytes == old(self).out_bytes,
            final(self).seen == old(self).seen,
    {
        self.nodes = self.nodes + 1;
    }

    /// Adds `text`, trimmed, unless it is empty or was added before.
    pub fn add(&mut self, text: &str)
        requires
            old(self).wf(),
        ensures
            final(self).wf(),
            final(self).nodes == old(self).nodes,
            final(self).out@ == after_add(old(self).out@, old(self).seen@, text@),
            trimmed(text@).len() == 0 || holds_text(old(self).seen@, trimmed(text@))
                ==> final(self).seen@ == old(self).seen@,
            trimmed(text@).len() > 0 && !holds_text(old(self).seen@, trimmed(text@)) ==> {
                &&& final(self).seen@.len() == old(self).seen@.len() + 1
                &&& final(self).seen@.drop_last() == old(self).seen@
                &&& final(self).seen@.last()@ == trimmed(text@)
            },
    {
        let trimmed_text = match trim_non_empty(text) {
            Some(t) => t,
            None => {
                return;
            },
        };
        let mut i: usize = 0;
        while i < self.seen.len()
            invariant
                self.wf(),
                self.nodes == old(self).nodes,
                self.out@ == old(self).out@,
                self.seen@ == old(self).seen@,
                0 <= i <= self.seen.len(),
                trimmed_text@ == trimmed(text@),
                forall|k: int| 0 <= k < i ==> self.seen@[k]@ != trimmed_text@,
            decreases self.seen.len() - i,
        {
            if same_text(self.seen[i].as_str(), trimmed_text.as_str()) {
                assert(holds_text(self.seen@, trimmed_text@));
                return;
            }
            i = i + 1;
        }
        let bytes = utf8_len(trimmed_text.as_str());
        self.out.append(trimmed_text.as_str());
        self.out.append("\n");
        proof {
            reveal_strlit("\n");
            assert("\n"@ =~= seq!['\n']);
            lemma_utf8_count_add(old(self).out@ + trimmed_text@, seq!['\n']);
            lemma_utf8_count_add(old(self).out@, trimmed_text@);
            lemma_utf8_count_nonneg(old(self).out@);
            lemma_utf8_count_nonneg(trimmed_text@);
            assert(seq!['\n'].drop_last() =~= Seq::<char>::empty());
            assert(seq!['\n'].len() == 1);
            assert(seq!['\n'].last() == '\n');
            assert(utf8_count(seq!['\n'].drop_last()) == 0);
            assert(('\n' as u32) < 0x80);
            assert(utf8_width('\n') == 1);
            assert(utf8_count(seq!['\n']) == 1);
        }
        self.out_bytes = self.out_bytes.saturating_add(bytes).saturating_add(1);
        let ghost before = self.seen@;
        self.seen.push(trimmed_text);
        proof {
            assert(self.seen@.drop_last() =~= before);
            assert(self.out@ =~= gathered(self.seen@));
            assert(self.seen@[before.len() as int]@ == trimmed(text@));
            assert(holds_text(self.seen@, trimmed(text@)));
        }
    }
}

/// The gathered text of a window, unless it holds nothing but whitespace.
pub fn non_blank(text: String) -> (r: Option<String>)
    ensures
        trimmed(text@).len() == 0 ==> r is None,
        trimmed(text@).len() != 0 ==> r == Some(text),
{
    match trim_non_empty(text.as_str()) {
        None => None,
        Some(_) => Some(text),
    }
}

/// The longest text gathered over the attempts at walking a window so far.
pub struct BestText {
    pub text: String,
    /// How many bytes `text` takes, cut to the largest `usize`.
    pub bytes: usize,
}

impl BestText {
    /// Nothing gathered yet.
    pub fn new() -> (r: Self)
        ensures
            r.text@ == Seq::<char>::empty(),
            r.bytes == 0,
    {
        BestText { text: String::new(), bytes: 0 }
    }

    /// Keeps the text of attempt `attempt` (counted from 0) if it is longer than the best so far;
    /// answers whether to try again: only while the walk reached no more than one element and
    /// attempts remain.
    pub fn record(&mut self, collector: TextCollector, attempt: usize) -> (again: bool)
        requires
            collector.wf(),
        ensures
            collector.out_bytes > old(self).bytes ==> final(self).text == collector.out
                && final(self).bytes == collector.out_bytes,
            collector.out_bytes <= old(self).bytes ==> final(self).text == old(self).text
                && final(self).bytes == old(self).bytes,
            again == (collector.nodes <= 1 && attempt + 1 < MAX_ATTEMPTS),
    {
        let again = collector.nodes <= 1 && attempt < MAX_ATTEMPTS - 1;
        if collector.out_bytes > self.bytes {
            self.bytes = collector.out_bytes;
            self.text = collector.out;
        }
        again
    }

    /// The best text gathered, unless it holds nothing but whitespace.
    pub fn finish(self) -> (r: Option<String>)
        ensures
            trimmed(self.text@).len() == 0 ==> r is None,
            trimmed(self.text@).len() != 0 ==> r == Some(self.text),
    {
        non_blank(self.text)
    }
}

} // verus!
