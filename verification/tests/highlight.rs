use sig::highlight::{styled, styled_from, StyledLine};
use sig::search::{MatchError, Span};

#[derive(Clone, Copy, Debug, PartialEq, Eq)]
enum Style {
    Red,
    Bold,
}

fn span(start: usize, end: usize) -> Span {
    Span { start, end }
}

fn marks(line: &StyledLine<Style>) -> Vec<bool> {
    (0..line.len()).map(|i| line.is_highlighted(i)).collect()
}

#[test]
fn empty_query_shows_the_line_without_highlight() {
    let shown = styled("", "some line", Style::Red, false).unwrap();
    assert_eq!(shown.text(), "some line");
    assert_eq!(shown.len(), 9);
    assert_eq!(shown.highlighted_ranges(), vec![]);
    assert!(marks(&shown).iter().all(|m| !m));
    assert_eq!(shown, StyledLine::plain("some line"));
}

#[test]
fn empty_query_shows_every_line() {
    for line in ["", " ", "abc", "héllo", "a|b", "("] {
        let shown = styled("", line, Style::Red, true).unwrap();
        assert_eq!(shown, StyledLine::plain(line));
    }
}

#[test]
fn white_space_query_shows_the_line_without_highlight() {
    let shown = styled("  \t ", "some line", Style::Red, false).unwrap();
    assert_eq!(shown, StyledLine::plain("some line"));
}

#[test]
fn query_of_bars_and_white_space_is_as_the_empty_query() {
    for query in ["|", "||", " | ", "\t|\n|  "] {
        for line in ["", "abc", "a | b"] {
            assert_eq!(
                styled(query, line, Style::Red, false),
                styled("", line, Style::Red, false)
            );
        }
    }
}

#[test]
fn highlighted_bytes_lie_inside_the_line() {
    let line = "abc abc";
    for query in ["abc", "c$", ".*", "x*", "a|b|c", "(abc ?)+"] {
        if let Some(shown) = styled(query, line, Style::Red, false) {
            assert_eq!(shown.len(), line.len());
            for range in shown.highlighted_ranges() {
                assert!(range.start < range.end);
                assert!(range.end <= line.len());
            }
            assert_eq!(shown.style_at(line.len()), None);
            assert!(!shown.is_highlighted(line.len()));
        }
    }
}

#[test]
fn case_insensitive_query_matches_the_other_case() {
    let shown = styled("ABC", "abc line", Style::Red, true).unwrap();
    assert_eq!(shown.highlighted_ranges(), vec![span(0, 3)]);
}

#[test]
fn case_sensitive_query_does_not_match_the_other_case() {
    assert_eq!(styled("ABC", "abc line", Style::Red, false), None);
}

#[test]
fn patterns_of_a_query_are_united() {
    let shown = styled("foo|bar", "a foo and bar", Style::Red, false).unwrap();
    assert_eq!(shown.text(), "a foo and bar");
    assert_eq!(shown.highlighted_ranges(), vec![span(2, 5), span(10, 13)]);
    for i in 0..shown.len() {
        let inside = (2..5).contains(&i) || (10..13).contains(&i);
        assert_eq!(shown.style_at(i), if inside { Some(Style::Red) } else { None });
    }
}

#[test]
fn one_matching_pattern_is_enough() {
    let shown = styled("nope | foo", "a foo", Style::Bold, false).unwrap();
    assert_eq!(shown.highlighted_ranges(), vec![span(2, 5)]);
    assert_eq!(shown.style_at(2), Some(Style::Bold));
}

#[test]
fn query_highlights_the_start_of_a_line() {
    let shown = styled("err", "error: x", Style::Red, false).unwrap();
    assert_eq!(shown.highlighted_ranges(), vec![span(0, 3)]);
    assert_eq!(marks(&shown), vec![true, true, true, false, false, false, false, false]);
}

#[test]
fn line_without_a_match_is_not_shown() {
    assert_eq!(styled("err", "ok", Style::Red, false), None);
    assert_eq!(styled("foo|bar", "baz", Style::Red, true), None);
}

#[test]
fn query_that_does_not_compile_shows_nothing() {
    assert_eq!(styled("(", "a ( b", Style::Red, false), None);
    assert_eq!(styled("a|[", "a", Style::Red, false), None);
    assert_eq!(styled("*", "star *", Style::Red, true), None);
}

#[test]
fn patterns_are_regular_expressions() {
    let shown = styled("[0-9]+ | b.d", "abd 12 bad", Style::Red, false).unwrap();
    assert_eq!(shown.highlighted_ranges(), vec![span(4, 6), span(7, 10)]);
}

#[test]
fn matches_that_touch_make_one_range() {
    let shown = styled("ab", "xababx", Style::Red, false).unwrap();
    assert_eq!(shown.highlighted_ranges(), vec![span(1, 5)]);
}

#[test]
fn empty_matches_show_the_line_without_highlight() {
    let shown = styled("x*", "abc", Style::Red, false).unwrap();
    assert_eq!(shown, StyledLine::plain("abc"));
}

#[test]
fn empty_match_at_the_end_does_not_count() {
    assert_eq!(styled("$", "abc", Style::Red, false), None);
    assert_eq!(styled("x*", "", Style::Red, false), None);
}

#[test]
fn highlight_counts_bytes() {
    let shown = styled("wörld", "héllo wörld", Style::Red, false).unwrap();
    assert_eq!(shown.text(), "héllo wörld");
    assert_eq!(shown.len(), 13);
    assert_eq!(shown.highlighted_ranges(), vec![span(7, 13)]);
}

#[test]
fn highlighted_marks_the_bytes_of_the_spans() {
    let line = StyledLine::highlighted("abcdef", &vec![span(1, 3), span(4, 5)], Style::Red);
    assert_eq!(marks(&line), vec![false, true, true, false, true, false]);
    assert_eq!(line.style_at(1), Some(Style::Red));
    assert_eq!(line.style_at(3), None);
}

#[test]
fn highlighted_unites_overlapping_spans() {
    let line = StyledLine::highlighted("abcdef", &vec![span(3, 5), span(1, 4)], Style::Red);
    assert_eq!(line.highlighted_ranges(), vec![span(1, 5)]);
}

#[test]
fn highlighted_leaves_out_what_lies_beyond_the_line() {
    let line = StyledLine::highlighted("abc", &vec![span(1, 10), span(7, 9)], Style::Red);
    assert_eq!(marks(&line), vec![false, true, true]);
    assert_eq!(line.highlighted_ranges(), vec![span(1, 3)]);
}

#[test]
fn highlighted_ignores_spans_that_hold_nothing() {
    let line = StyledLine::highlighted("abc", &vec![span(1, 1), span(2, 0)], Style::Red);
    assert_eq!(line, StyledLine::plain("abc"));
}

#[test]
fn highlighted_ranges_of_a_fully_highlighted_line() {
    let line = StyledLine::highlighted("abc", &vec![span(0, 3)], Style::Red);
    assert_eq!(line.highlighted_ranges(), vec![span(0, 3)]);
}

#[test]
fn plain_line_of_the_empty_text() {
    let line: StyledLine<Style> = StyledLine::plain("");
    assert_eq!(line.len(), 0);
    assert_eq!(line.text(), "");
    assert_eq!(line.highlighted_ranges(), vec![]);
}

#[test]
fn styled_from_shows_nothing_without_matches() {
    assert_eq!(styled_from("abc", &Ok(vec![]), Style::Red), None);
}

#[test]
fn styled_from_shows_nothing_after_a_failed_search() {
    assert_eq!(styled_from("abc", &Err(MatchError::InvalidPattern), Style::Red), None);
}

#[test]
fn styled_from_highlights_the_matches() {
    let shown = styled_from("abc", &Ok(vec![span(0, 1)]), Style::Red).unwrap();
    assert_eq!(shown, StyledLine::highlighted("abc", &vec![span(0, 1)], Style::Red));
    assert_eq!(marks(&shown), vec![true, false, false]);
}

#[test]
fn char_styles_follow_the_characters() {
    let shown = styled("wörld", "héllo wörld", Style::Red, false).unwrap();
    let styles = shown.char_styles();
    assert_eq!(styles.len(), 11);
    for (k, style) in styles.iter().enumerate() {
        assert_eq!(*style, if k >= 6 { Some(Style::Red) } else { None }, "character {}", k);
    }
}

#[test]
fn char_styles_of_an_ascii_line_are_the_byte_styles() {
    let shown = styled("foo|bar", "a foo and bar", Style::Bold, false).unwrap();
    let styles = shown.char_styles();
    assert_eq!(styles.len(), shown.len());
    for (i, style) in styles.iter().enumerate() {
        assert_eq!(*style, shown.style_at(i));
    }
}

#[test]
fn char_styles_of_wide_characters() {
    let line = StyledLine::highlighted("a日本😀b", &vec![span(1, 4), span(7, 11)], Style::Red);
    assert_eq!(line.len(), 12);
    assert_eq!(
        line.char_styles(),
        vec![None, Some(Style::Red), None, Some(Style::Red), None]
    );
}

#[test]
fn char_styles_of_the_empty_line() {
    let line: StyledLine<Style> = StyledLine::plain("");
    assert_eq!(line.char_styles(), vec![]);
}

#[test]
fn clone_of_a_styled_line_is_equal() {
    let line = StyledLine::highlighted("abc", &vec![span(1, 2)], Style::Red);
    assert_eq!(line.clone(), line);
}

#[test]
fn overlapping_matches_of_two_patterns_are_united() {
    let shown = styled("ab|bc", "abc", Style::Red, false).unwrap();
    assert_eq!(shown.highlighted_ranges(), vec![span(0, 3)]);
    let shown = styled("foo|foobar", "foobar!", Style::Red, false).unwrap();
    assert_eq!(shown.highlighted_ranges(), vec![span(0, 6)]);
}

#[test]
fn order_of_the_patterns_does_not_matter() {
    for line in ["a foo and bar", "barfoo", "nothing", "foo"] {
        assert_eq!(
            styled("foo|bar", line, Style::Red, false),
            styled("bar|foo", line, Style::Red, false)
        );
    }
}
