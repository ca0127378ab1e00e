use git_agent::fold::{fold, Span};
use git_agent::order::sort_by_key;

fn span(start: usize, end: usize) -> Span {
    Span { start, end }
}

#[test]
fn fold_replaces_a_single_range() {
    let out = fold("fn main() { body }", &vec![span(10, 18)], " ... ");
    assert_eq!(out, "fn main()  ... ");
}

#[test]
fn fold_without_ranges_returns_the_text() {
    assert_eq!(fold("unchanged", &vec![], "#"), "unchanged");
    assert_eq!(fold("", &vec![], "#"), "");
}

#[test]
fn fold_keeps_the_outermost_of_nested_ranges() {
    let text = "0123456789abcdefghij";
    let spans = vec![span(4, 8), span(2, 12), span(14, 16)];
    assert_eq!(fold(text, &spans, "#"), "01#cd#ghij");
}

#[test]
fn fold_skips_a_range_that_overlaps_the_last_folded_one() {
    let text = "0123456789abcdefghij";
    let spans = vec![span(2, 10), span(5, 15), span(12, 14)];
    assert_eq!(fold(text, &spans, "<>"), "01<>ab<>efghij");
}

#[test]
fn fold_takes_ranges_in_order_of_their_start() {
    let text = "0123456789";
    let spans = vec![span(6, 8), span(1, 3)];
    assert_eq!(fold(text, &spans, "_"), "0_345_89");
}

#[test]
fn fold_of_ranges_with_the_same_start_keeps_the_first_given() {
    let text = "0123456789";
    assert_eq!(fold(text, &vec![span(2, 4), span(2, 8)], "_"), "01_456789");
    assert_eq!(fold(text, &vec![span(2, 8), span(2, 4)], "_"), "01_89");
}

#[test]
fn fold_accepts_a_range_that_starts_where_the_last_one_ended() {
    let text = "0123456789";
    assert_eq!(fold(text, &vec![span(2, 4), span(4, 6)], "_"), "01__6789");
}

#[test]
fn fold_leaves_out_ranges_of_negative_length_and_ranges_beyond_the_text() {
    let text = "0123456789";
    assert_eq!(fold(text, &vec![span(6, 2)], "_"), "0123456789");
    assert_eq!(fold(text, &vec![span(8, 11)], "_"), "0123456789");
    assert_eq!(fold(text, &vec![span(6, 2), span(7, 9)], "_"), "0123456_9");
}

#[test]
fn fold_leaves_out_a_range_that_cuts_a_character() {
    let text = "a\u{e9}b";
    assert_eq!(fold(text, &vec![span(1, 2)], "_"), "a\u{e9}b");
    assert_eq!(fold(text, &vec![span(1, 3)], "_"), "a_b");
}

#[test]
fn fold_of_an_empty_range_inserts_the_placeholder() {
    assert_eq!(fold("abcd", &vec![span(2, 2)], "-"), "ab-cd");
}

#[test]
fn sort_by_key_is_stable() {
    let sorted = sort_by_key(&vec![span(5, 1), span(2, 2), span(5, 3), span(2, 4), span(0, 5)]);
    let pairs: Vec<(usize, usize)> = sorted.iter().map(|s| (s.start, s.end)).collect();
    assert_eq!(pairs, vec![(0, 5), (2, 2), (2, 4), (5, 1), (5, 3)]);
}
