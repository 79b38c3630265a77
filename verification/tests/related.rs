use systex::related::{from_caret, SURROUNDING_CHARS};

#[test]
fn the_caret_sits_inside_the_word_it_splits() {
    let related = from_caret("the quick bro", "wn fox");

    assert_eq!(related.word.as_deref(), Some("brown"));
    assert_eq!(related.line, "the quick brown fox");
}

#[test]
fn a_caret_between_words_belongs_to_none_of_them() {
    assert_eq!(from_caret("hello ", "world").word.as_deref(), Some("world"));
    assert_eq!(from_caret("hello", " world").word.as_deref(), Some("hello"));
    assert_eq!(from_caret("hello ", " world").word, None);
}

#[test]
fn the_line_stops_at_the_surrounding_newlines() {
    let related = from_caret("first\nsec", "ond\nthird");

    assert_eq!(related.line, "second");
}

#[test]
fn the_sentence_runs_between_its_terminators() {
    let related = from_caret("One. Two is he", "re. Three.");

    assert_eq!(related.sentence.as_deref(), Some("Two is here."));
}

#[test]
fn the_paragraph_runs_between_blank_lines() {
    let related = from_caret("intro\n\nbody sta", "rts here\n\noutro");

    assert_eq!(related.paragraph.as_deref(), Some("body starts here"));
}

#[test]
fn the_surrounding_window_is_bounded() {
    let related = from_caret(&"a".repeat(900), &"b".repeat(900));

    assert_eq!(related.before.chars().count(), SURROUNDING_CHARS);
    assert_eq!(related.after.chars().count(), SURROUNDING_CHARS);
}

#[test]
fn an_empty_field_relates_to_nothing() {
    let related = from_caret("", "");

    assert_eq!(related.word, None);
    assert_eq!(related.line, "");
    assert_eq!(related.sentence, None);
    assert_eq!(related.paragraph, None);
}

#[test]
fn the_word_stops_at_the_line_and_at_punctuation() {
    let related = from_caret("x\nit's well-made_", "ok, yes");

    assert_eq!(related.word.as_deref(), Some("well-made_ok"));
    assert_eq!(related.line, "it's well-made_ok, yes");
}

#[test]
fn the_word_takes_letters_beyond_ascii() {
    let related = from_caret("naï", "ve café");

    assert_eq!(related.word.as_deref(), Some("naïve"));
}

#[test]
fn a_sentence_without_terminators_is_the_whole_text_trimmed() {
    let related = from_caret("  just one", " clause  ");

    assert_eq!(related.sentence.as_deref(), Some("just one clause"));
    assert_eq!(related.paragraph.as_deref(), Some("just one clause"));
}

#[test]
fn a_sentence_of_whitespace_is_none() {
    let related = from_caret("Done. ", " \n");

    assert_eq!(related.sentence, None);
}

#[test]
fn the_sentence_keeps_its_own_terminator_only() {
    let related = from_caret("Really?! What", " now! Then");

    assert_eq!(related.sentence.as_deref(), Some("What now!"));
}

#[test]
fn a_short_window_is_the_whole_text() {
    let related = from_caret("abc", "def");

    assert_eq!(related.before, "abc");
    assert_eq!(related.after, "def");
}

#[test]
fn the_window_keeps_the_characters_nearest_the_caret() {
    let before = format!("{}{}", "x".repeat(10), "y".repeat(400));
    let after = format!("{}{}", "z".repeat(400), "w".repeat(10));
    let related = from_caret(&before, &after);

    assert_eq!(related.before, "y".repeat(400));
    assert_eq!(related.after, "z".repeat(400));
}

#[test]
fn the_window_counts_characters_not_bytes() {
    let related = from_caret(&"é".repeat(450), &"ü".repeat(450));

    assert_eq!(related.before.chars().count(), 400);
    assert_eq!(related.after.chars().count(), 400);
}

#[test]
fn a_caret_inside_a_blank_line_sits_in_no_paragraph() {
    let related = from_caret("x\n", "\ny");

    assert_eq!(related.paragraph, None);
    assert_eq!(related.line, "");

    let related = from_caret("x\n", "y\n\nz");
    assert_eq!(related.paragraph.as_deref(), Some("x\ny"));

    // the blank line ends the paragraph right after the caret, so it holds no blank line
    let related = from_caret("x\n", "\n\ny");
    assert_eq!(related.paragraph.as_deref(), Some("x"));
    let related = from_caret("x\n\n", "\ny");
    assert_eq!(related.paragraph.as_deref(), Some("y"));
}
