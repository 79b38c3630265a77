use systex::element::{is_editable, selection_from_range, text_roles_list};
use systex::window_text::{
    non_blank, BestText, TextCollector, MAX_ATTEMPTS, MAX_CHARS, MAX_DEPTH, MAX_NODES,
};

#[test]
fn text_roles_and_selections_are_editable() {
    for role in text_roles_list() {
        assert!(is_editable(role, None, false));
    }
    assert!(is_editable("AXGroup", Some("AXContentEditable"), false));
    assert!(is_editable("AXGroup", None, true));
    assert!(!is_editable("AXGroup", Some("AXContent"), false));
    assert!(!is_editable("AXButton", None, false));
    assert!(!is_editable("", None, false));
}

#[test]
fn the_collector_keeps_each_text_once_trimmed() {
    let mut collector = TextCollector::new();

    collector.add("  Title  ");
    collector.add("Title");
    collector.add("   ");
    collector.add("Body\ttext ");
    collector.add("");

    assert_eq!(collector.out, "Title\nBody\ttext\n");
    assert_eq!(collector.out_bytes, collector.out.len());
    assert_eq!(collector.seen, vec!["Title".to_string(), "Body\ttext".to_string()]);
}

#[test]
fn the_collector_counts_bytes_like_str_len() {
    let mut collector = TextCollector::new();

    collector.add("naïve 😀 中");
    assert_eq!(collector.out_bytes, collector.out.len());
}

#[test]
fn the_walk_is_bounded() {
    let mut collector = TextCollector::new();

    assert!(collector.may_visit(MAX_DEPTH));
    assert!(!collector.may_visit(MAX_DEPTH + 1));
    for _ in 0..=MAX_NODES {
        collector.enter();
    }
    assert!(!collector.may_visit(0));
    assert!(!collector.may_continue());

    let mut collector = TextCollector::new();
    collector.add(&"x".repeat(MAX_CHARS));
    assert!(!collector.may_continue());
    assert!(!collector.may_visit(0));

    let mut collector = TextCollector::new();
    collector.add(&"x".repeat(MAX_CHARS - 1));
    assert!(collector.may_continue());
}

#[test]
fn blank_window_text_is_none() {
    assert_eq!(non_blank(" \n\t".to_string()), None);
    assert_eq!(non_blank(String::new()), None);
    assert_eq!(non_blank(" a\n".to_string()), Some(" a\n".to_string()));
}

#[test]
fn reported_ranges_become_selections() {
    assert_eq!(selection_from_range(3, 2), Some((3, 2)));
    assert_eq!(selection_from_range(0, -5), Some((0, 0)));
    assert_eq!(selection_from_range(-1, 4), None);
}

#[test]
fn the_longest_attempt_wins_and_a_reached_tree_ends_the_search() {
    let mut best = BestText::new();

    let mut empty = TextCollector::new();
    empty.enter();
    assert!(best.record(empty, 0));
    assert_eq!(best.text, "");

    let mut first = TextCollector::new();
    first.enter();
    first.add("short");
    assert!(best.record(first, 1));
    assert_eq!(best.text, "short\n");

    let mut second = TextCollector::new();
    second.enter();
    second.add("ab");
    assert!(best.record(second, 2));
    assert_eq!(best.text, "short\n");

    let mut reached = TextCollector::new();
    reached.enter();
    reached.enter();
    reached.add("a longer text");
    assert!(!best.record(reached, 3));
    assert_eq!(best.text, "a longer text\n");
    assert_eq!(best.finish().as_deref(), Some("a longer text\n"));
}

#[test]
fn the_search_gives_up_after_the_last_attempt() {
    let mut best = BestText::new();

    assert!(best.record(TextCollector::new(), MAX_ATTEMPTS - 2));
    assert!(!best.record(TextCollector::new(), MAX_ATTEMPTS - 1));
    assert_eq!(best.finish(), None);
}
