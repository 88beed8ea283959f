//! Styled lines: a line of text in which the bytes that a query matched carry
//! the highlight style.

use crate::offsets::{lemma_offset_step, offset_of, utf8_width};
use crate::query::{
    chars_of, is_blank, lemma_empty_query_holds_no_pattern, lemma_no_pattern_iff_blank,
    lemma_trim_empty_iff_all_space, patterns_of, split_query, trim,
};
use crate::search::{all_accepted, all_compile, covered, matched, MatchError, Span};
use vstd::prelude::*;
use vstd::string::StringSliceAdditionalSpecFns;
use vstd::utf8::encode_utf8;

verus! {

/// What a styled line is to its contracts: the text, and for each byte of
/// the text in UTF-8 the style that it carries, if it carries one.
pub struct StyledText<S> {
    pub text: Seq<char>,
    pub styles: Seq<Option<S>>,
}

impl<S> StyledText<S> {
    /// Whether the byte at `i` is highlighted.
    pub open spec fn highlights(self, i: int) -> bool {
        0 <= i < self.styles.len() && self.styles[i] is Some
    }
}

/// A line of text and the style of each of its bytes.
#[derive(Debug, PartialEq, Eq)]
pub struct StyledLine<S> {
    text: String,
    styles: Vec<Option<S>>,
}

/// The styles of a line of `len` bytes in which the bytes that `spans` hold
/// carry `style`, and the others none.
pub open spec fn styles_of<S>(spans: Seq<Span>, len: nat, style: S) -> Seq<Option<S>> {
    Seq::new(
        len,
        |i: int|
            if covered(spans, i) {
                Some(style)
            } else {
                None
            },
    )
}

/// `line` with the bytes that `spans` hold highlighted in `style`. What of a
/// span lies beyond the end of the line is left out.
pub open spec fn highlighted_text<S>(line: Seq<char>, spans: Seq<Span>, style: S) -> StyledText<
    S,
> {
    StyledText { text: line, styles: styles_of(spans, encode_utf8(line).len(), style) }
}

/// `line` with no byte highlighted.
pub open spec fn plain_text<S>(line: Seq<char>) -> StyledText<S> {
    StyledText { text: line, styles: Seq::new(encode_utf8(line).len(), |i: int| None) }
}

/// What is shown of `line` after a search: nothing if the search failed or
/// no match counts, else the line with the matches highlighted.
pub open spec fn shown<S>(line: Seq<char>, outcome: Result<Seq<Span>, MatchError>, style: S)
    -> Option<StyledText<S>> {
    match outcome {
        Ok(spans) => if spans.len() == 0 {
            None
        } else {
            Some(highlighted_text(line, spans, style))
        },
        Err(_) => None,
    }
}

/// What `query` makes of `line`. A query without patterns shows every line
/// as it is. Any other query shows the lines in which a match of one of its
/// patterns counts, with all such matches highlighted; where the patterns do
/// not compile it shows no line.
pub open spec fn styled_text<S>(
    query: Seq<char>,
    line: Seq<char>,
    style: S,
    case_insensitive: bool,
) -> Option<StyledText<S>> {
    let patterns = patterns_of(query);
    let haystack = encode_utf8(line);
    if patterns.len() == 0 {
        Some(plain_text(line))
    } else if !all_compile(patterns, case_insensitive) {
        None
    } else {
        shown(line, Ok(all_accepted(patterns, case_insensitive, haystack)), style)
    }
}

/// Whether the bytes from `a` up to `b` are a longest run of styled bytes.
pub open spec fn is_run<S>(styles: Seq<Option<S>>, a: int, b: int) -> bool {
    &&& 0 <= a < b <= styles.len()
    &&& forall|i: int| a <= i < b ==> (#[trigger] styles[i]) is Some
    &&& a > 0 ==> styles[a - 1] is None
    &&& b < styles.len() ==> styles[b] is None
}

/// One more span covers what it holds besides what was covered before.
pub proof fn lemma_covered_push(spans: Seq<Span>, span: Span, i: int)
    ensures
        covered(spans.push(span), i) <==> covered(spans, i) || span.start <= i < span.end,
{
    let more = spans.push(span);
    if covered(spans, i) {
        let k = choose|k: int| 0 <= k < spans.len() && (#[trigger] spans[k]).start <= i < spans[k].end;
        assert(more[k] == spans[k]);
    }
    if span.start <= i < span.end {
        assert(more[spans.len() as int] == span);
    }
    if covered(more, i) {
        let k = choose|k: int| 0 <= k < more.len() && (#[trigger] more[k]).start <= i < more[k].end;
        if k < spans.len() {
            assert(spans[k] == more[k]);
        }
    }
}

/// A query that holds nothing but `|` and white space shows every line, and
/// shows it as the empty query does: with no byte highlighted.
pub proof fn lemma_blank_query_shows_every_line<S>(
    query: Seq<char>,
    line: Seq<char>,
    style: S,
    case_insensitive: bool,
)
    requires
        is_blank(query),
    ensures
        styled_text(query, line, style, case_insensitive) == Some(plain_text::<S>(line)),
        styled_text(query, line, style, case_insensitive) == styled_text(
            Seq::<char>::empty(),
            line,
            style,
            case_insensitive,
        ),
        forall|i: int| !plain_text::<S>(line).highlights(i),
{
    lemma_no_pattern_iff_blank(query);
    lemma_no_pattern_iff_blank(Seq::<char>::empty());
}

/// A query of which trimming leaves nothing shows every line with no byte
/// highlighted.
pub proof fn lemma_empty_query_shows_every_line<S>(
    query: Seq<char>,
    line: Seq<char>,
    style: S,
    case_insensitive: bool,
)
    requires
        trim(query).len() == 0,
    ensures
        styled_text(query, line, style, case_insensitive) == Some(plain_text::<S>(line)),
        forall|i: int| !plain_text::<S>(line).highlights(i),
{
    lemma_empty_query_holds_no_pattern(query);
}

/// In a line that is shown, every highlighted byte lies inside the line,
/// carries the highlight style, and is held by a match that counts.
pub proof fn lemma_highlight_inside_line<S>(
    query: Seq<char>,
    line: Seq<char>,
    style: S,
    case_insensitive: bool,
    i: int,
)
    requires
        styled_text(query, line, style, case_insensitive) matches Some(text) && text.highlights(i),
    ensures
        0 <= i < encode_utf8(line).len(),
        styled_text(query, line, style, case_insensitive)->0.styles[i] == Some(style),
        covered(all_accepted(patterns_of(query), case_insensitive, encode_utf8(line)), i),
{
}

impl<S> View for StyledLine<S> {
    type V = StyledText<S>;

    closed spec fn view(&self) -> StyledText<S> {
        StyledText { text: self.text@, styles: self.styles@ }
    }
}

impl<S> StyledLine<S> {
    /// Every byte of the text has its entry among the styles.
    #[verifier::type_invariant]
    spec fn well_formed(&self) -> bool {
        self.styles@.len() == encode_utf8(self.text@).len()
    }
}

impl<S: Clone> Clone for StyledLine<S> {
    fn clone(&self) -> (r: Self)
        ensures
            r@.text == self@.text,
            r@.styles.len() == self@.styles.len(),
    {
        proof {
            use_type_invariant(self);
        }
        StyledLine { text: self.text.clone(), styles: self.styles.clone() }
    }
}

impl<S: Copy> StyledLine<S> {
    /// `line` with no byte highlighted.
    pub fn plain(line: &str) -> (r: Self)
        ensures
            r@ == plain_text::<S>(line@),
    {
        let len: usize = line.as_bytes().len();
        let mut styles: Vec<Option<S>> = Vec::new();
        let mut i: usize = 0;
        while i < len
            invariant
                i <= len,
                styles@ == Seq::new(i as nat, |j: int| None::<S>),
            decreases len - i,
        {
            styles.push(None);
            i += 1;
        }
        StyledLine { text: line.to_owned(), styles }
    }

    /// `line` with the bytes that `spans` hold highlighted in `style`.
    pub fn highlighted(line: &str, spans: &Vec<Span>, style: S) -> (r: Self)
        ensures
            r@ == highlighted_text(line@, spans@, style),
    {
        let plain: StyledLine<S> = StyledLine::plain(line);
        let len: usize = line.as_bytes().len();
        let mut styles = plain.styles;
        let mut k: usize = 0;
        while k < spans.len()
            invariant
                k <= spans.len(),
                len == encode_utf8(line@).len(),
                styles@ == styles_of(spans@.take(k as int), len as nat, style),
            decreases spans.len() - k,
        {
            let span = spans[k];
            let stop: usize = if span.end < len {
                span.end
            } else {
                len
            };
            let ghost before = spans@.take(k as int);
            let mut i: usize = span.start;
            while i < stop
                invariant
                    stop <= len,
                    span.start <= i,
                    i <= stop || i == span.start,
                    styles@.len() == len,
                    forall|j: int|
                        0 <= j < len ==> #[trigger] styles@[j] == if covered(before, j) || (
                        span.start <= j < i) {
                            Some(style)
                        } else {
                            None
                        },
                decreases stop - i,
            {
                styles.set(i, Some(style));
                i += 1;
            }
            proof {
                assert(spans@.take(k + 1) =~= before.push(span));
                assert forall|j: int| 0 <= j < len implies #[trigger] styles@[j] == styles_of(
                    before.push(span),
                    len as nat,
                    style,
                )[j] by {
                    lemma_covered_push(before, span, j);
                }
            }
            k += 1;
        }
        assert(spans@.take(spans.len() as int) =~= spans@);
        StyledLine { text: line.to_owned(), styles }
    }

    /// The text of the line.
    pub fn text(&self) -> (t: &str)
        ensures
            t@ == self@.text,
    {
        self.text.as_str()
    }

    /// The number of bytes of the line.
    pub fn len(&self) -> (n: usize)
        ensures
            n == self@.styles.len(),
            n == encode_utf8(self@.text).len(),
    {
        proof {
            use_type_invariant(self);
        }
        self.styles.len()
    }

    /// The style that the byte at `i` carries; none beyond the end of the line.
    pub fn style_at(&self, i: usize) -> (style: Option<S>)
        ensures
            style == if i < self@.styles.len() {
                self@.styles[i as int]
            } else {
                None
            },
    {
        if i < self.styles.len() {
            self.styles[i]
        } else {
            None
        }
    }

    /// Whether the byte at `i` is highlighted.
    pub fn is_highlighted(&self, i: usize) -> (b: bool)
        ensures
            b == (i < self@.styles.len() && self@.styles[i as int] is Some),
    {
        i < self.styles.len() && self.styles[i].is_some()
    }

    /// The style of each character of the line: the style that the first of
    /// its bytes carries.
    pub fn char_styles(&self) -> (styles: Vec<Option<S>>)
        ensures
            styles@.len() == self@.text.len(),
            forall|k: int|
                0 <= k < styles@.len() ==> #[trigger] styles@[k] == self@.styles[offset_of(
                    self@.text,
                    k,
                )],
    {
        proof {
            use_type_invariant(self);
        }
        let chars = chars_of(self.text.as_str());
        let mut styles: Vec<Option<S>> = Vec::new();
        let mut offset: usize = 0;
        let mut k: usize = 0;
        while k < chars.len()
            invariant
                chars@ == self@.text,
                self.styles@.len() == encode_utf8(self.text@).len(),
                k <= chars.len(),
                offset == offset_of(self@.text, k as int),
                styles@.len() == k,
                forall|j: int|
                    0 <= j < k ==> #[trigger] styles@[j] == self@.styles[offset_of(self@.text, j)],
            decreases chars.len() - k,
        {
            proof {
                lemma_offset_step(self@.text, k as int);
            }
            styles.push(self.styles[offset]);
            let width: usize = utf8_width(chars[k]);
            assert(offset + width <= self.styles.len());
            offset = offset + width;
            k += 1;
        }
        styles
    }

    /// The highlighted bytes as ranges, from left to right: each is a longest
    /// run of highlighted bytes and lies inside the line, no two touch, and
    /// together they hold the highlighted bytes and no others.
    pub fn highlighted_ranges(&self) -> (ranges: Vec<Span>)
        ensures
            forall|k: int|
                0 <= k < ranges.len() ==> is_run(
                    self@.styles,
                    (#[trigger] ranges[k]).start as int,
                    ranges[k].end as int,
                ),
            forall|k: int|
                0 <= k < ranges.len() - 1 ==> (#[trigger] ranges[k]).end < ranges[k + 1].start,
            forall|i: int|
                0 <= i < self@.styles.len() ==> ((#[trigger] self@.styles[i]) is Some <==> covered(
                    ranges@,
                    i,
                )),
    {
        let len: usize = self.styles.len();
        let mut ranges: Vec<Span> = Vec::new();
        let mut i: usize = 0;
        while i < len
            invariant
                len == self.styles.len(),
                i <= len,
                i == 0 || i == len || self.styles@[i - 1] is None,
                forall|k: int|
                    0 <= k < ranges.len() ==> is_run(
                        self.styles@,
                        (#[trigger] ranges[k]).start as int,
                        ranges[k].end as int,
                    ),
                forall|k: int|
                    0 <= k < ranges.len() ==> (#[trigger] ranges[k]).end <= i && (i < len
                        ==> ranges[k].end < i),
                forall|k: int|
                    0 <= k < ranges.len() - 1 ==> (#[trigger] ranges[k]).end < ranges[k + 1].start,
                forall|j: int|
                    0 <= j < i ==> ((#[trigger] self.styles@[j]) is Some <==> covered(ranges@, j)),
            decreases len - i,
        {
            if self.styles[i].is_some() {
                let a: usize = i;
                let mut b: usize = i + 1;
                while b < len && self.styles[b].is_some()
                    invariant
                        len == self.styles.len(),
                        a < b <= len,
                        forall|j: int| a <= j < b ==> (#[trigger] self.styles@[j]) is Some,
                    decreases len - b,
                {
                    b += 1;
                }
                let span = Span { start: a, end: b };
                proof {
                    assert forall|j: int| 0 <= j < b implies ((#[trigger] self.styles@[j]) is Some
                        <==> covered(ranges@.push(span), j)) by {
                        lemma_covered_push(ranges@, span, j);
                    }
                }
                ranges.push(span);
                i = if b < len {
                    b + 1
                } else {
                    b
                };
            } else {
                i += 1;
            }
        }
        ranges
    }
}

/// Decides from the outcome of a search what is shown of `line`.
pub fn styled_from<S: Copy>(line: &str, outcome: &Result<Vec<Span>, MatchError>, style: S) -> (r:
    Option<StyledLine<S>>)
    ensures
        match (r, outcome) {
            (Some(s), Ok(spans)) => shown(line@, Ok(spans@), style) == Some(s@),
            (None, Ok(spans)) => shown(line@, Ok::<Seq<Span>, MatchError>(spans@), style) is None,
            (Some(_), Err(_)) => false,
            (None, Err(_)) => true,
        },
{
    match outcome {
        Ok(spans) => {
            if spans.len() == 0 {
                None
            } else {
                Some(StyledLine::highlighted(line, spans, style))
            }
        },
        Err(_) => None,
    }
}

/// Decides whether `line` is shown under `query`, and with what highlighted.
///
/// The query is split at `|` into patterns, each a regular expression. With
/// no pattern left the line is shown as it is. Otherwise the line is shown if
/// a match of one of the patterns counts, with every such match highlighted
/// in `highlight_style`. A query whose patterns do not compile shows nothing.
pub fn styled<S: Copy>(query: &str, line: &str, highlight_style: S, case_insensitive: bool) -> (r:
    Option<StyledLine<S>>)
    ensures
        match r {
            Some(s) => styled_text(query@, line@, highlight_style, case_insensitive) == Some(s@),
            None => styled_text(query@, line@, highlight_style, case_insensitive) is None,
        },
        is_blank(query@) || trim(query@).len() == 0 ==> (r matches Some(s) && s@ == plain_text::<S>(
            line@,
        )),
        r matches Some(s) ==> s@.text == line@ && (forall|i: int|
            s@.highlights(i) ==> 0 <= i < encode_utf8(line@).len()),
{
    proof {
        lemma_no_pattern_iff_blank(query@);
        lemma_trim_empty_iff_all_space(query@);
    }
    let piped = split_query(query);
    if piped.len() == 0 {
        Some(StyledLine::plain(line))
    } else {
        let outcome = matched(piped.as_slice(), line, case_insensitive);
        styled_from(line, &outcome, highlight_style)
    }
}

} // verus!
