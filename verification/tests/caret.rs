use systex::caret::caret_text;

#[test]
fn without_a_selection_everything_lies_after_the_caret() {
    let text = caret_text("hello", None);

    assert_eq!(text.text_before, "");
    assert_eq!(text.text_after, "hello");
    assert_eq!(text.selected_text, None);
    assert_eq!((text.selection_start, text.selection_length), (0, 0));
    assert_eq!(text.line, None);
    assert_eq!(text.column, None);
}

#[test]
fn the_selection_splits_the_value() {
    let text = caret_text("one\ntwo three", Some((8, 5)));

    assert_eq!(text.text_before, "one\ntwo ");
    assert_eq!(text.selected_text.as_deref(), Some("three"));
    assert_eq!(text.text_after, "");
    assert_eq!((text.selection_start, text.selection_length), (8, 5));
    assert_eq!(text.line, Some(2));
    assert_eq!(text.column, Some(5));
}

#[test]
fn a_bare_caret_has_no_selected_text() {
    let text = caret_text("ab\ncd", Some((4, 0)));

    assert_eq!(text.text_before, "ab\nc");
    assert_eq!(text.text_after, "d");
    assert_eq!(text.selected_text, None);
    assert_eq!(text.line, Some(2));
    assert_eq!(text.column, Some(2));
}

#[test]
fn a_selection_past_the_end_is_cut_to_the_value() {
    let text = caret_text("abc", Some((2, usize::MAX)));

    assert_eq!(text.text_before, "ab");
    assert_eq!(text.selected_text.as_deref(), Some("c"));
    assert_eq!(text.text_after, "");
    assert_eq!(text.selection_length, usize::MAX);

    let text = caret_text("abc", Some((10, 3)));

    assert_eq!(text.text_before, "abc");
    assert_eq!(text.text_after, "");
    assert_eq!(text.column, Some(4));
    assert_eq!(text.line, Some(1));
}

#[test]
fn offsets_are_utf16_code_units() {
    // '😀' is two code units: the caret after it sits at 2.
    let text = caret_text("😀é x", Some((3, 1)));

    assert_eq!(text.text_before, "😀é");
    assert_eq!(text.selected_text.as_deref(), Some(" "));
    assert_eq!(text.text_after, "x");
    assert_eq!(text.column, Some(3));
}

#[test]
fn a_caret_inside_a_surrogate_pair_decodes_lossily() {
    let text = caret_text("😀", Some((1, 0)));

    assert_eq!(text.text_before, "\u{fffd}");
    assert_eq!(text.text_after, "\u{fffd}");
}

#[test]
fn a_non_empty_selection_always_has_text() {
    let text = caret_text("a\u{fffd}b", Some((1, 1)));
    assert_eq!(text.selected_text.as_deref(), Some("\u{fffd}"));

    // half of a surrogate pair is still selected text, decoded lossily
    let text = caret_text("😀", Some((0, 1)));
    assert_eq!(text.selected_text.as_deref(), Some("\u{fffd}"));
}

#[test]
fn each_half_of_a_split_pair_becomes_one_replacement_character() {
    let text = caret_text("a😀b\nc", Some((2, 0)));

    assert_eq!(text.text_before, "a\u{fffd}");
    assert_eq!(text.text_after, "\u{fffd}b\nc");
    assert_eq!(text.line, Some(1));
    assert_eq!(text.column, Some(3));
}
