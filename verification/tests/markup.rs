use voca::markup::{is_tag_free, join, strip_markup};

#[test]
fn markup_is_stripped() {
    let t = "(Abbr.) <span class=\'related_word\' lang=\'en\' >a/c</span>. 계좌";
    assert_eq!(strip_markup(t), "(Abbr.) a/c. 계좌");
}

#[test]
fn text_without_tags_is_kept() {
    assert_eq!(strip_markup("plain text"), "plain text");
    assert_eq!(strip_markup(""), "");
    assert_eq!(strip_markup("a > b"), "a > b");
    assert_eq!(strip_markup("a < b"), "a < b");
    assert_eq!(strip_markup("<>"), "<>");
}

#[test]
fn tags_go_and_their_contents_stay() {
    assert_eq!(strip_markup("<b>bold</b> and <i>italic</i>"), "bold and italic");
    assert_eq!(strip_markup("<a href=\"x>y\">link</a>"), "link");
    assert_eq!(strip_markup("<br/>"), "");
    assert_eq!(strip_markup("a<b>"), "a");
}

#[test]
fn quoting_inside_a_tag_may_be_malformed() {
    assert_eq!(strip_markup("<a title='x'\">t</a>"), "t");
    assert_eq!(strip_markup("<a title=\"x\"'>t</a>"), "t");
    assert_eq!(strip_markup("<a title='x>t"), "<a title='x>t");
}

#[test]
fn stripping_twice_gives_the_same() {
    for raw in [
        "(Abbr.) <span class=\'related_word\' lang=\'en\' >a/c</span>. 계좌",
        "<b>bold</b> and <i>italic</i>",
        "plain",
        "<x\"<b>y>",
        "a < b",
    ] {
        let once = strip_markup(raw);
        assert!(is_tag_free(&once));
        assert_eq!(strip_markup(&once), once);
    }
}

#[test]
fn removing_a_tag_can_complete_another() {
    let raw = "<'<'x\"y'>'>";
    let once = strip_markup(raw);
    assert_eq!(once, "<''>");
    assert!(!is_tag_free(&once));
    assert_eq!(strip_markup(&once), "");
}

#[test]
fn tag_free_means_no_match() {
    assert!(is_tag_free("plain"));
    assert!(is_tag_free(""));
    assert!(is_tag_free("a < b \" > c"));
    assert!(!is_tag_free("a < b > c"));
    assert!(!is_tag_free("<b>"));
    assert!(!is_tag_free("a<b>"));
    assert!(!is_tag_free("a<b>c"));
}

#[test]
fn join_writes_parts_in_order() {
    let parts = vec![String::from("a"), String::from(""), String::from("계좌"), String::from("b")];
    assert_eq!(join(&parts), "a계좌b");
    assert_eq!(join(&Vec::new()), "");
}
