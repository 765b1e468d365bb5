use std::cmp::Ordering::{Equal, Greater, Less};
use yanos::text::{compare_text, same_text};

#[test]
fn texts_compare_like_strings() {
    let samples = ["", "a", "ab", "b", "Z", "é", "ä", "abc"];
    for a in samples {
        for b in samples {
            assert_eq!(compare_text(a, b), a.cmp(b));
            assert_eq!(same_text(a, b), a == b);
        }
    }
    assert_eq!(compare_text("a", "b"), Less);
    assert_eq!(compare_text("b", "ab"), Greater);
    assert_eq!(compare_text("ab", "ab"), Equal);
}
