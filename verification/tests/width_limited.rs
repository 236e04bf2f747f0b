use se::truncate_to_width;
use se::WidthLimited;

#[test]
fn input_width_less_than_max() {
    let input: Vec<String> = ["r", "u", "s", "t"].iter().map(|s| s.to_string()).collect();
    let mut width_limited = WidthLimited::new(input, 10);

    assert_eq!(width_limited.next(), Some("r".to_string()));
    assert_eq!(width_limited.next(), Some("u".to_string()));
    assert_eq!(width_limited.next(), Some("s".to_string()));
    assert_eq!(width_limited.next(), Some("t".to_string()));
    assert_eq!(width_limited.next(), None);
}

#[test]
fn input_width_equal_to_max() {
    let input: Vec<String> = "hello".chars().map(|c| c.to_string()).collect();
    let mut width_limited = WidthLimited::new(input, 5);

    assert_eq!(width_limited.next(), Some("h".to_string()));
    assert_eq!(width_limited.next(), Some("e".to_string()));
    assert_eq!(width_limited.next(), Some("l".to_string()));
    assert_eq!(width_limited.next(), Some("l".to_string()));
    assert_eq!(width_limited.next(), Some("o".to_string()));
    assert_eq!(width_limited.next(), None);
}

#[test]
fn input_width_greater_than_max() {
    //                     Width: 1 2345 6789
    let input: Vec<String> = "a long text".split_whitespace().map(|s| s.to_string()).collect();
    let mut width_limited = WidthLimited::new(input, 8);

    assert_eq!(width_limited.next(), Some("a".to_string()));
    assert_eq!(width_limited.next(), Some("long".to_string()));
    assert_eq!(width_limited.next(), None);
}

#[test]
fn wide_cluster_is_excluded_whole_at_the_boundary() {
    // A CJK cluster is two columns wide; with one column left it must be
    // dropped entirely, not half-rendered.
    let input: Vec<String> = ["a", "\u{4f60}", "b"].iter().map(|s| s.to_string()).collect();
    let mut width_limited = WidthLimited::new(input.clone(), 2);
    assert_eq!(width_limited.next(), Some("a".to_string()));
    assert_eq!(width_limited.next(), None);

    let mut wide_enough = WidthLimited::new(input, 3);
    assert_eq!(wide_enough.next(), Some("a".to_string()));
    assert_eq!(wide_enough.next(), Some("\u{4f60}".to_string()));
    assert_eq!(wide_enough.next(), None);
}

#[test]
fn truncation_keeps_whole_clusters_within_budget() {
    let items: Vec<String> = ["he", "\u{4f60}\u{597d}", "x"].iter().map(|s| s.to_string()).collect();
    // Widths: 2, 4, 1. Budget 5 fits only the first two? 2 + 4 = 6 > 5, so
    // only "he" fits and the wide pair is excluded whole.
    assert_eq!(truncate_to_width(&items, 5), "he");
    assert_eq!(truncate_to_width(&items, 6), "he\u{4f60}\u{597d}");
    assert_eq!(truncate_to_width(&items, 7), "he\u{4f60}\u{597d}x");
    assert_eq!(truncate_to_width(&items, 0), "");
}

#[test]
fn zero_width_items_at_exhausted_budget_are_dropped() {
    // Once the budget is used up the pass stops, even for width-zero items.
    let items: Vec<String> = ["ab", "\u{200b}"].iter().map(|s| s.to_string()).collect();
    assert_eq!(truncate_to_width(&items, 2), "ab");
}
