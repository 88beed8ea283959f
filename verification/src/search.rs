//! Searching one line for the patterns of a query.
//!
//! The patterns are regular expressions. Compiling them and finding their
//! matches is the work of the `grep` crate; which of the matches count is
//! decided here.

use crate::query::texts;
use grep::matcher::Matcher;
use grep::regex::RegexMatcherBuilder;
use vstd::prelude::*;
use vstd::string::StringSliceAdditionalSpecFns;

verus! {

/// A range of bytes of a line: from `start` up to, not including, `end`.
#[derive(Clone, Copy, Debug, PartialEq, Eq, Structural)]
pub struct Span {
    pub start: usize,
    pub end: usize,
}

/// Why a line could not be searched.
#[derive(Clone, Copy, Debug, PartialEq, Eq, Structural)]
pub enum MatchError {
    /// One of the patterns is no regular expression that can be compiled.
    InvalidPattern,
}

/// The error of the `grep` crate's regex matcher.
#[verifier::external_type_specification]
#[verifier::external_body]
pub struct ExRegexError(grep::regex::Error);

/// Whether `grep`'s regex builder, matching case-insensitively or not,
/// compiles `pattern`.
pub uninterp spec fn regex_compiles(pattern: Seq<char>, case_insensitive: bool) -> bool;

/// The matches that the matcher compiled from `pattern` reports in
/// `haystack` when it is asked for all of them from the start, in the order
/// in which it reports them.
pub uninterp spec fn regex_found(
    pattern: Seq<char>,
    case_insensitive: bool,
    haystack: Seq<u8>,
) -> Seq<Span>;

/// Whether `found` are successive matches in a haystack of `len` bytes: each
/// is a range inside the haystack, and none begins before the one in front
/// of it has ended.
pub open spec fn successive(found: Seq<Span>, len: int) -> bool {
    &&& forall|k: int|
        0 <= k < found.len() ==> (#[trigger] found[k]).start <= found[k].end <= len
    &&& forall|j: int, k: int|
        0 <= j < k < found.len() ==> (#[trigger] found[j]).end <= (#[trigger] found[k]).start
}

/// Puts the match from `start` to `end` at the back of `found` and asks for
/// the next one.
fn record(found: &mut Vec<Span>, start: usize, end: usize) -> (more: bool)
    ensures
        final(found)@ == old(found)@.push(Span { start, end }),
        more,
{
    found.push(Span { start, end });
    true
}

/// Compiles `pattern` with `grep::regex::RegexMatcherBuilder::build`, the
/// builder's case-insensitive flag set as given and everything else left at
/// its default, and collects every match that
/// `grep::matcher::Matcher::find_iter_at` reports in `haystack` from offset 0.
///
/// Trusted: the builder fails exactly where `regex_compiles` says it does,
/// and the matches handed out are those that `regex_found` names. Of what
/// the matches are, only this is claimed: they are successive
/// non-overlapping matches, as `find_iter_at` is documented to report them,
/// each a range of bytes of the haystack whose start is not after its end.
/// The search itself cannot fail: the error type of this matcher has no
/// values.
#[verifier::external_body]
fn find_all(pattern: &str, case_insensitive: bool, haystack: &[u8]) -> (r: Result<
    Vec<Span>,
    grep::regex::Error,
>)
    ensures
        r is Ok <==> regex_compiles(pattern@, case_insensitive),
        r matches Ok(found) ==> found@ == regex_found(pattern@, case_insensitive, haystack@),
        r matches Ok(found) ==> successive(found@, haystack@.len() as int),
{
    let matcher = RegexMatcherBuilder::new().case_insensitive(case_insensitive).build(pattern)?;
    let mut found = Vec::new();
    let _ = matcher.find_iter_at(haystack, 0, |m| record(&mut found, m.start(), m.end()));
    Ok(found)
}

/// The number of spans at the front of `found` that start in front of `len`.
pub open spec fn leading_inside(found: Seq<Span>, len: int) -> nat
    decreases found.len(),
{
    if found.len() == 0 || found[0].start >= len {
        0
    } else {
        1 + leading_inside(found.drop_first(), len)
    }
}

/// The matches that count in a line of `len` bytes: those in front of the
/// first one that starts at or after the end of the line. There the scan of
/// the line ends, so that an empty match at the very end is never taken.
pub open spec fn accepted(found: Seq<Span>, len: int) -> Seq<Span> {
    found.take(leading_inside(found, len) as int)
}

/// `leading_inside` counts up to the first span that starts at or after `len`.
pub proof fn lemma_leading_inside(found: Seq<Span>, len: int, k: int)
    requires
        0 <= k <= found.len(),
        forall|j: int| 0 <= j < k ==> (#[trigger] found[j]).start < len,
        k < found.len() ==> found[k].start >= len,
    ensures
        leading_inside(found, len) == k,
    decreases k,
{
    if k > 0 {
        lemma_leading_inside(found.drop_first(), len, k - 1);
    }
}

/// Every accepted span starts inside the line, and the accepted spans are
/// the longest such run at the front of what was found.
pub proof fn lemma_accepted_start_inside(found: Seq<Span>, len: int)
    ensures
        leading_inside(found, len) <= found.len(),
        accepted(found, len).len() == leading_inside(found, len),
        forall|j: int|
            0 <= j < leading_inside(found, len) ==> (#[trigger] found[j]).start < len,
        leading_inside(found, len) < found.len() ==> found[leading_inside(found, len) as int].start
            >= len,
    decreases found.len(),
{
    if found.len() > 0 && found[0].start < len {
        let rest = found.drop_first();
        lemma_accepted_start_inside(rest, len);
        let n = leading_inside(rest, len) as int;
        assert forall|j: int| 0 <= j < n + 1 implies (#[trigger] found[j]).start < len by {
            if j > 0 {
                assert(found[j] == rest[j - 1]);
            }
        }
    }
}

/// Of successive matches in a line, those count that start inside the line,
/// and no others: all that is left out are empty matches at the very end.
/// The matches that count are successive matches themselves.
pub proof fn lemma_accepted_of_successive(found: Seq<Span>, len: int)
    requires
        successive(found, len),
    ensures
        accepted(found, len).len() <= found.len(),
        forall|k: int|
            0 <= k < accepted(found, len).len() ==> #[trigger] accepted(found, len)[k] == found[k],
        forall|k: int|
            0 <= k < found.len() ==> (k < accepted(found, len).len() <==> (
            #[trigger] found[k]).start < len),
        forall|k: int|
            accepted(found, len).len() <= k < found.len() ==> (#[trigger] found[k]).start == len
                && found[k].end == len,
        successive(accepted(found, len), len),
{
    lemma_accepted_start_inside(found, len);
}

/// Picks from what a search found the matches that count in a line of `len`
/// bytes.
pub fn accept(found: &Vec<Span>, len: usize) -> (spans: Vec<Span>)
    ensures
        spans@ == accepted(found@, len as int),
{
    let mut spans: Vec<Span> = Vec::new();
    let mut i: usize = 0;
    while i < found.len() && found[i].start < len
        invariant
            i <= found.len(),
            spans@ == found@.take(i as int),
            forall|j: int| 0 <= j < i ==> (#[trigger] found@[j]).start < len,
        decreases found.len() - i,
    {
        spans.push(found[i]);
        i += 1;
    }
    proof {
        lemma_leading_inside(found@, len as int, i as int);
    }
    spans
}

/// Whether every one of `patterns` compiles.
pub open spec fn all_compile(patterns: Seq<Seq<char>>, case_insensitive: bool) -> bool {
    forall|k: int| 0 <= k < patterns.len() ==> regex_compiles(#[trigger] patterns[k], case_insensitive)
}

/// The matches of `patterns` that count in `haystack`: those of the first
/// pattern in the order in which its search reports them, then those of the
/// second, and so on.
pub open spec fn all_accepted(
    patterns: Seq<Seq<char>>,
    case_insensitive: bool,
    haystack: Seq<u8>,
) -> Seq<Span>
    decreases patterns.len(),
{
    if patterns.len() == 0 {
        Seq::empty()
    } else {
        all_accepted(patterns.drop_last(), case_insensitive, haystack) + accepted(
            regex_found(patterns.last(), case_insensitive, haystack),
            haystack.len() as int,
        )
    }
}

/// Whether every one of `spans` starts inside a line of `len` bytes and ends
/// inside it or at its end.
pub open spec fn inside_line(spans: Seq<Span>, len: int) -> bool {
    forall|k: int|
        0 <= k < spans.len() ==> (#[trigger] spans[k]).start < len && spans[k].start
            <= spans[k].end <= len
}

/// Whether one of `spans` holds the byte at `i`.
pub open spec fn covered(spans: Seq<Span>, i: int) -> bool {
    exists|k: int| 0 <= k < spans.len() && (#[trigger] spans[k]).start <= i < spans[k].end
}

/// Two lists of spans, one after the other, hold what either holds.
pub proof fn lemma_covered_add(a: Seq<Span>, b: Seq<Span>, i: int)
    ensures
        covered(a + b, i) <==> covered(a, i) || covered(b, i),
{
    let both = a + b;
    if covered(a, i) {
        let k = choose|k: int| 0 <= k < a.len() && (#[trigger] a[k]).start <= i < a[k].end;
        assert(both[k] == a[k]);
    }
    if covered(b, i) {
        let k = choose|k: int| 0 <= k < b.len() && (#[trigger] b[k]).start <= i < b[k].end;
        assert(both[a.len() + k] == b[k]);
    }
    if covered(both, i) {
        let k = choose|k: int| 0 <= k < both.len() && (#[trigger] both[k]).start <= i < both[k].end;
        if k >= a.len() {
            assert(b[k - a.len()] == both[k]);
        }
    }
}

/// The matches of the pattern at `k` that count in `haystack`.
pub open spec fn accepted_of(
    patterns: Seq<Seq<char>>,
    case_insensitive: bool,
    haystack: Seq<u8>,
    k: int,
) -> Seq<Span> {
    accepted(regex_found(patterns[k], case_insensitive, haystack), haystack.len() as int)
}

/// The matches of several patterns are united: a byte lies in a match that
/// counts exactly if it lies in such a match of one of the patterns, and
/// there is a match that counts exactly if one of the patterns has one.
pub proof fn lemma_patterns_are_united(
    patterns: Seq<Seq<char>>,
    case_insensitive: bool,
    haystack: Seq<u8>,
)
    ensures
        forall|i: int|
            covered(all_accepted(patterns, case_insensitive, haystack), i) <==> exists|k: int|
                0 <= k < patterns.len() && covered(
                    #[trigger] accepted_of(patterns, case_insensitive, haystack, k),
                    i,
                ),
        all_accepted(patterns, case_insensitive, haystack).len() > 0 <==> exists|k: int|
            0 <= k < patterns.len() && (#[trigger] accepted_of(
                patterns,
                case_insensitive,
                haystack,
                k,
            )).len() > 0,
    decreases patterns.len(),
{
    if patterns.len() > 0 {
        let before = patterns.drop_last();
        let last = patterns.len() - 1;
        let earlier = all_accepted(before, case_insensitive, haystack);
        let latest = accepted_of(patterns, case_insensitive, haystack, last);
        lemma_patterns_are_united(before, case_insensitive, haystack);
        assert forall|k: int| 0 <= k < last implies #[trigger] accepted_of(
            before,
            case_insensitive,
            haystack,
            k,
        ) == accepted_of(patterns, case_insensitive, haystack, k) by {
            assert(before[k] == patterns[k]);
        }
        assert forall|i: int|
            covered(all_accepted(patterns, case_insensitive, haystack), i) <==> exists|k: int|
                0 <= k < patterns.len() && covered(
                    #[trigger] accepted_of(patterns, case_insensitive, haystack, k),
                    i,
                ) by {
            lemma_covered_add(earlier, latest, i);
            if covered(earlier, i) {
                let k = choose|k: int|
                    0 <= k < before.len() && covered(
                        #[trigger] accepted_of(before, case_insensitive, haystack, k),
                        i,
                    );
                assert(covered(accepted_of(patterns, case_insensitive, haystack, k), i));
            }
            if exists|k: int|
                0 <= k < patterns.len() && covered(
                    #[trigger] accepted_of(patterns, case_insensitive, haystack, k),
                    i,
                ) {
                let k = choose|k: int|
                    0 <= k < patterns.len() && covered(
                        #[trigger] accepted_of(patterns, case_insensitive, haystack, k),
                        i,
                    );
                if k < last {
                    assert(covered(accepted_of(before, case_insensitive, haystack, k), i));
                }
            }
        }
        if earlier.len() > 0 {
            let k = choose|k: int|
                0 <= k < before.len() && (#[trigger] accepted_of(
                    before,
                    case_insensitive,
                    haystack,
                    k,
                )).len() > 0;
            assert(accepted_of(patterns, case_insensitive, haystack, k).len() > 0);
        }
        if exists|k: int|
            0 <= k < patterns.len() && (#[trigger] accepted_of(
                patterns,
                case_insensitive,
                haystack,
                k,
            )).len() > 0 {
            let k = choose|k: int|
                0 <= k < patterns.len() && (#[trigger] accepted_of(
                    patterns,
                    case_insensitive,
                    haystack,
                    k,
                )).len() > 0;
            if k < last {
                assert(accepted_of(before, case_insensitive, haystack, k).len() > 0);
            }
        }
    }
}

/// Searches `line` for each of the patterns `queries`, a regular expression
/// each, and returns the byte ranges of the matches that count: those of the
/// first pattern from left to right, then those of the second, and so on.
/// Every range lies inside the line.
///
/// Fails exactly if one of the patterns does not compile.
pub fn matched(queries: &[&str], line: &str, case_insensitive: bool) -> (r: Result<
    Vec<Span>,
    MatchError,
>)
    ensures
        r is Ok <==> all_compile(texts(queries@), case_insensitive),
        r matches Ok(spans) ==> spans@ == all_accepted(
            texts(queries@),
            case_insensitive,
            line.spec_bytes(),
        ),
        r matches Ok(spans) ==> inside_line(spans@, line.spec_bytes().len() as int),
        r matches Err(e) ==> e == MatchError::InvalidPattern,
{
    let haystack = line.as_bytes();
    let ghost patterns = texts(queries@);
    let mut spans: Vec<Span> = Vec::new();
    let mut k: usize = 0;
    while k < queries.len()
        invariant
            k <= queries.len(),
            patterns == texts(queries@),
            haystack@ == line.spec_bytes(),
            all_compile(patterns.take(k as int), case_insensitive),
            spans@ == all_accepted(patterns.take(k as int), case_insensitive, haystack@),
            inside_line(spans@, haystack@.len() as int),
        decreases queries.len() - k,
    {
        proof {
            assert(patterns.take(k + 1).drop_last() =~= patterns.take(k as int));
        }
        match find_all(queries[k], case_insensitive, haystack) {
            Ok(found) => {
                let mut counting = accept(&found, haystack.len());
                proof {
                    lemma_accepted_of_successive(found@, haystack@.len() as int);
                }
                spans.append(&mut counting);
            },
            Err(_) => {
                assert(patterns[k as int] == queries@[k as int]@);
                return Err(MatchError::InvalidPattern);
            },
        }
        k += 1;
    }
    assert(patterns.take(k as int) =~= patterns);
    Ok(spans)
}

} // verus!
