use voca::meaning::{cut_index, truncate_meaning};
use voca::text::chars_of;

#[test]
fn truncation_at_each_marker() {
    assert_eq!(truncate_meaning("run (= dash) quickly"), "run");
    assert_eq!(truncate_meaning("go (\u{2192} proceed) now"), "go");
    assert_eq!(truncate_meaning("stay (\u{2194} leave)"), "stay");
}

#[test]
fn truncation_leaves_plain_text() {
    assert_eq!(truncate_meaning("plain text"), "plain text");
    assert_eq!(truncate_meaning("  plain text \n"), "plain text");
}

#[test]
fn truncation_at_the_earliest_marker() {
    assert_eq!(truncate_meaning("foo (\u{2192} bar (= baz"), "foo");
    assert_eq!(truncate_meaning("foo (= bar (\u{2192} baz"), "foo");
    assert_eq!(truncate_meaning("a (\u{2194} b (\u{2192} c (= d"), "a");
    assert_eq!(truncate_meaning("a (b) (\u{2194} c"), "a (b)");
}

#[test]
fn marker_at_the_start_leaves_nothing() {
    assert_eq!(truncate_meaning("(= all of it"), "");
    assert_eq!(truncate_meaning("  (\u{2192} see there"), "");
}

#[test]
fn parenthesis_alone_is_no_marker() {
    assert_eq!(truncate_meaning("(Abbr.) a/c"), "(Abbr.) a/c");
    assert_eq!(truncate_meaning("ends with ("), "ends with (");
    assert_eq!(truncate_meaning("a = b"), "a = b");
}

#[test]
fn cut_index_is_the_start_of_the_first_marker() {
    assert_eq!(cut_index(&chars_of("run (= dash)")), 4);
    assert_eq!(cut_index(&chars_of("계좌 (\u{2192} x")), 3);
    assert_eq!(cut_index(&chars_of("none")), 4);
    assert_eq!(cut_index(&chars_of("")), 0);
    assert_eq!(cut_index(&chars_of("((=")), 1);
}

#[test]
fn truncating_twice_changes_nothing() {
    for raw in ["run (= dash) quickly", " a (b) ", "(= x", "x (\u{2194} y (= z"] {
        let once = truncate_meaning(raw);
        assert_eq!(truncate_meaning(&once), once);
    }
}
