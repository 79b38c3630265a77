use systex::words::{
    boxes_left, encode_utf16, find_utf16, first_words, len_utf16, words_with_offsets, WordLocator,
    MAX_WORD_BOXES,
};

fn units(text: &str) -> Vec<u16> {
    text.encode_utf16().collect()
}

#[test]
fn words_come_with_their_offsets() {
    let words = words_with_offsets("hi there, it's well-made");

    assert_eq!(
        words,
        vec![
            (0, 2, "hi".to_string()),
            (3, 5, "there".to_string()),
            (10, 4, "it's".to_string()),
            (15, 9, "well-made".to_string()),
        ]
    );
}

#[test]
fn underscores_split_words_of_a_field() {
    let words = words_with_offsets("snake_case");

    assert_eq!(words, vec![(0, 5, "snake".to_string()), (6, 4, "case".to_string())]);
}

#[test]
fn offsets_count_utf16_code_units() {
    // '😀' takes two UTF-16 code units, 'é' one.
    let words = words_with_offsets("😀 café 😀x");

    assert_eq!(words, vec![(3, 4, "café".to_string()), (10, 1, "x".to_string())]);
}

#[test]
fn empty_and_blank_text_hold_no_words() {
    assert!(words_with_offsets("").is_empty());
    assert!(words_with_offsets("  ,. \n").is_empty());
}

#[test]
fn a_word_at_the_very_end_is_kept() {
    assert_eq!(words_with_offsets("end"), vec![(0, 3, "end".to_string())]);
}

#[test]
fn utf16_widths_and_encoding_match_std() {
    for character in ['a', 'é', '中', '😀', '\u{ffff}', '\u{10000}', '\u{10ffff}'] {
        assert_eq!(len_utf16(character), character.len_utf16());
    }
    for text in ["", "plain", "naïve café", "😀 and 𝄞", "\u{10ffff}\u{ffff}"] {
        assert_eq!(encode_utf16(text), units(text));
    }
}

#[test]
fn find_utf16_finds_the_first_match_from_a_position() {
    let haystack = units("abcabc");

    assert_eq!(find_utf16(&haystack, &units("bc"), 0), Some(1));
    assert_eq!(find_utf16(&haystack, &units("bc"), 2), Some(4));
    assert_eq!(find_utf16(&haystack, &units("bc"), 5), None);
    assert_eq!(find_utf16(&haystack, &units("abcabc"), 0), Some(0));
    assert_eq!(find_utf16(&haystack, &units("abcabcd"), 0), None);
    assert_eq!(find_utf16(&haystack, &[], 0), None);
    assert_eq!(find_utf16(&haystack, &units("x"), 0), None);
    assert_eq!(find_utf16(&haystack, &units("c"), 9), None);
}

#[test]
fn the_locator_searches_past_each_match() {
    let value = units("the cat and the hat");
    let mut locator = WordLocator::new();

    assert_eq!(locator.locate(&value, &units("the")), Some(0));
    assert_eq!(locator.search_from, 3);
    assert_eq!(locator.locate(&value, &units("the")), Some(12));
    assert_eq!(locator.locate(&value, &units("cat")), None);
    assert_eq!(locator.search_from, 15);
    assert_eq!(locator.locate(&value, &units("hat")), Some(16));
    assert_eq!(locator.locate(&value, &[]), None);
    assert_eq!(locator.search_from, 19);
}

#[test]
fn only_the_first_words_get_a_box() {
    let words = first_words("one two three", 2);
    assert_eq!(words, vec![(0, 3, "one".to_string()), (4, 3, "two".to_string())]);
    assert_eq!(first_words("one two", 5).len(), 2);
    assert!(first_words("one two", 0).is_empty());

    let many = "w ".repeat(100);
    assert_eq!(first_words(&many, MAX_WORD_BOXES).len(), 80);
    assert_eq!(boxes_left(0), 80);
    assert_eq!(boxes_left(75), 5);
    assert_eq!(boxes_left(80), 0);
    assert_eq!(boxes_left(200), 0);
}
