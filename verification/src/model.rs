//! The plain data the library hands out: the focused application, what surrounds the caret, and
//! which parts of a capture to gather.
use vstd::prelude::*;

verus! {

/// The application that owns the focus.
#[derive(Debug, Clone)]
pub struct AppInfo {
    pub name: String,
    pub bundle_id: Option<String>,
    pub path: Option<String>,
    pub pid: i32,
}

/// The text around the caret: the word it sits in, its line, sentence and paragraph, and a
/// bounded window of raw text on either side.
#[derive(Debug, Clone)]
pub struct RelatedContent {
    pub word: Option<String>,
    pub line: String,
    pub sentence: Option<String>,
    pub paragraph: Option<String>,
    pub before: String,
    pub after: String,
}

/// Which of the expensive parts of a capture to gather.
#[derive(Debug, Clone, Copy, PartialEq, Eq, Structural)]
pub struct CaptureOptions {
    pub pointer: bool,
    pub attribute_names: bool,
    pub window_text: bool,
    pub words: bool,
}

impl CaptureOptions {
    /// Only what is cheap enough to read on every keystroke: the pointer, and nothing else.
    pub fn fast() -> (r: Self)
        ensures
            r == (CaptureOptions {
                pointer: true,
                attribute_names: false,
                window_text: false,
                words: false,
            }),
    {
        Self { pointer: true, attribute_names: false, window_text: false, words: false }
    }

    /// Every part of a capture.
    pub fn everything() -> (r: Self)
        ensures
            r == (CaptureOptions {
                pointer: true,
                attribute_names: true,
                window_text: true,
                words: true,
            }),
    {
        Self { pointer: true, attribute_names: true, window_text: true, words: true }
    }
}

impl Default for CaptureOptions {
    /// The default capture is the fast one.
    fn default() -> (r: Self)
        ensures
            r == (CaptureOptions {
                pointer: true,
                attribute_names: false,
                window_text: false,
                words: false,
            }),
    {
        Self::fast()
    }
}

} // verus!
