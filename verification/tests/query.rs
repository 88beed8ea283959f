use sig::query::{chars_of, is_whitespace, split_query, trim_bounds};

fn expected_patterns(query: &str) -> Vec<&str> {
    query.split('|').map(|s| s.trim()).filter(|s| !s.is_empty()).collect()
}

#[test]
fn split_query_splits_at_bars() {
    assert_eq!(split_query("foo|bar"), vec!["foo", "bar"]);
    assert_eq!(split_query("foo|bar|baz"), vec!["foo", "bar", "baz"]);
}

#[test]
fn split_query_of_one_pattern() {
    assert_eq!(split_query("err"), vec!["err"]);
}

#[test]
fn split_query_trims_each_pattern() {
    assert_eq!(split_query("  foo  | bar\t|\nbaz "), vec!["foo", "bar", "baz"]);
}

#[test]
fn split_query_keeps_white_space_inside_a_pattern() {
    assert_eq!(split_query(" a b |c  d"), vec!["a b", "c  d"]);
}

#[test]
fn split_query_drops_empty_patterns() {
    assert_eq!(split_query("a||b"), vec!["a", "b"]);
    assert_eq!(split_query("|a|"), vec!["a"]);
    assert_eq!(split_query("a|   |b"), vec!["a", "b"]);
}

#[test]
fn split_query_of_the_empty_query_is_empty() {
    assert!(split_query("").is_empty());
}

#[test]
fn split_query_of_white_space_is_empty() {
    assert!(split_query("   ").is_empty());
    assert!(split_query("\t\n\r ").is_empty());
}

#[test]
fn split_query_of_bars_and_white_space_is_empty() {
    assert!(split_query("|").is_empty());
    assert!(split_query("||||").is_empty());
    assert!(split_query(" | \t|  |").is_empty());
}

#[test]
fn split_query_trims_unicode_white_space() {
    assert_eq!(split_query("\u{3000}x\u{a0}|\u{2003}y z\u{85}"), vec!["x", "y z"]);
}

#[test]
fn split_query_counts_characters_not_bytes() {
    assert_eq!(split_query(" wörld | héllo|日本語 "), vec!["wörld", "héllo", "日本語"]);
}

#[test]
fn split_query_agrees_with_split_trim_and_filter() {
    let queries = [
        "",
        " ",
        "|",
        "a",
        "a|b",
        " a | b ",
        "a||b|",
        "||a b||",
        "foo|bar baz| qux\t",
        "\u{2028}|x\u{2029}",
        "é|ü |  ß",
        "a\\|b",
        "(|)",
        "x | | | y",
    ];
    for query in queries {
        assert_eq!(split_query(query), expected_patterns(query), "query {:?}", query);
    }
}

#[test]
fn is_whitespace_is_the_unicode_property() {
    for code in 0u32..=0x10FFFF {
        if let Some(c) = char::from_u32(code) {
            assert_eq!(is_whitespace(c), c.is_whitespace(), "U+{:04X}", code);
        }
    }
}

#[test]
fn is_whitespace_on_some_characters() {
    assert!(is_whitespace(' '));
    assert!(is_whitespace('\t'));
    assert!(is_whitespace('\n'));
    assert!(is_whitespace('\u{3000}'));
    assert!(!is_whitespace('a'));
    assert!(!is_whitespace('|'));
    assert!(!is_whitespace('\u{200B}'));
}

#[test]
fn chars_of_gives_the_characters_in_order() {
    assert_eq!(chars_of("a|ü"), vec!['a', '|', 'ü']);
    assert!(chars_of("").is_empty());
}

#[test]
fn trim_bounds_narrows_to_what_is_left() {
    let chars: Vec<char> = "  ab c \t|x".chars().collect();
    assert_eq!(trim_bounds(&chars, 0, 8), (2, 6));
    assert_eq!(trim_bounds(&chars, 2, 6), (2, 6));
    assert_eq!(trim_bounds(&chars, 9, 10), (9, 10));
}

#[test]
fn trim_bounds_of_white_space_is_empty() {
    let chars: Vec<char> = "a   b".chars().collect();
    assert_eq!(trim_bounds(&chars, 1, 4), (4, 4));
    assert_eq!(trim_bounds(&chars, 2, 2), (2, 2));
}
