use site_server::text::str_le;

#[test]
fn a_text_stands_at_itself() {
    assert!(str_le("index.html", "index.html"));
    assert!(str_le("", ""));
}

#[test]
fn the_empty_text_stands_first() {
    assert!(str_le("", "a"));
    assert!(!str_le("a", ""));
}

#[test]
fn a_prefix_stands_before_the_longer_text() {
    assert!(str_le("project", "projects"));
    assert!(!str_le("projects", "project"));
}

#[test]
fn the_first_difference_decides() {
    assert!(str_le("abc", "abd"));
    assert!(!str_le("abd", "abc"));
    assert!(str_le("abz", "ac"));
    assert!(!str_le("b", "azzz"));
}

#[test]
fn code_points_decide_not_the_alphabet() {
    assert!(str_le("Z", "a"));
    assert!(!str_le("a", "Z"));
    assert!(str_le("z", "\u{E9}"));
    assert!(str_le("\u{FF5E}", "\u{1F600}"));
    assert!(!str_le("\u{1F600}", "\u{FF5E}"));
}

#[test]
fn comparison_agrees_with_the_standard_order() {
    let samples = ["", "a", "A", "ab", "a.html", "b", "\u{E9}", "\u{1F600}", "\u{FF5E}x", "zz"];
    for a in samples {
        for b in samples {
            assert_eq!(str_le(a, b), a <= b, "{a:?} against {b:?}");
        }
    }
}

#[test]
fn of_two_texts_one_stands_first() {
    let samples = ["", "a", "ab", "b", "B", "\u{E9}"];
    for a in samples {
        for b in samples {
            assert!(str_le(a, b) || str_le(b, a));
            if str_le(a, b) && str_le(b, a) {
                assert_eq!(a, b);
            }
        }
    }
}

#[test]
fn order_carries_over() {
    let samples = ["", "a", "ab", "b", "B", "\u{E9}", "abc"];
    for a in samples {
        for b in samples {
            for c in samples {
                if str_le(a, b) && str_le(b, c) {
                    assert!(str_le(a, c));
                }
            }
        }
    }
}
