//! Queries.
//!
//! A query is what the user has typed so far. It is read as a list of
//! alternative patterns separated by `|`. White space around a pattern does
//! not count, and a pattern of which nothing is left is dropped. A query that
//! holds no pattern at all selects every line.

use vstd::prelude::*;
use vstd::string::StrSliceExecFns;

verus! {

/// Whether `c` has the Unicode property White_Space.
pub open spec fn is_space(c: char) -> bool {
    let n: u32 = c as u32;
    ||| 0x09 <= n <= 0x0D
    ||| n == 0x20
    ||| n == 0x85
    ||| n == 0xA0
    ||| n == 0x1680
    ||| 0x2000 <= n <= 0x200A
    ||| n == 0x2028
    ||| n == 0x2029
    ||| n == 0x202F
    ||| n == 0x205F
    ||| n == 0x3000
}

/// Whether `c` separates two alternatives of a query.
pub open spec fn is_bar(c: char) -> bool {
    c == '|'
}

/// `s` without the white space at its front.
pub open spec fn trim_start(s: Seq<char>) -> Seq<char>
    decreases s.len(),
{
    if s.len() > 0 && is_space(s[0]) {
        trim_start(s.drop_first())
    } else {
        s
    }
}

/// `s` without the white space at its back.
pub open spec fn trim_end(s: Seq<char>) -> Seq<char>
    decreases s.len(),
{
    if s.len() > 0 && is_space(s.last()) {
        trim_end(s.drop_last())
    } else {
        s
    }
}

/// `s` without the white space at either end.
pub open spec fn trim(s: Seq<char>) -> Seq<char> {
    trim_end(trim_start(s))
}

/// The number of characters of `s` in front of its first `|`; the length of
/// `s` where it holds none.
pub open spec fn head_len(s: Seq<char>) -> nat
    decreases s.len(),
{
    if s.len() == 0 || is_bar(s[0]) {
        0
    } else {
        1 + head_len(s.drop_first())
    }
}

/// The pieces of `s` between its `|` characters, in order. There is always at
/// least one piece, and a piece may be empty.
pub open spec fn split(s: Seq<char>) -> Seq<Seq<char>>
    decreases s.len(),
{
    let k = head_len(s) as int;
    if k >= s.len() {
        seq![s]
    } else {
        seq![s.take(k)] + split(s.skip(k + 1))
    }
}

/// The pieces trimmed, without those of which nothing is left.
pub open spec fn kept(pieces: Seq<Seq<char>>) -> Seq<Seq<char>> {
    pieces.map_values(|p: Seq<char>| trim(p)).filter(|p: Seq<char>| p.len() > 0)
}

/// The patterns that the query `q` holds.
pub open spec fn patterns_of(q: Seq<char>) -> Seq<Seq<char>> {
    kept(split(q))
}

/// Whether `q` holds nothing but `|` and white space.
pub open spec fn is_blank(q: Seq<char>) -> bool {
    forall|i: int| 0 <= i < q.len() ==> is_bar(#[trigger] q[i]) || is_space(q[i])
}

/// The texts of a list of string slices.
pub open spec fn texts(parts: Seq<&str>) -> Seq<Seq<char>> {
    parts.map_values(|p: &str| p@)
}

/// Whether `c` is white space.
pub fn is_whitespace(c: char) -> (b: bool)
    ensures
        b == is_space(c),
{
    let n: u32 = c as u32;
    (0x09 <= n && n <= 0x0D) || n == 0x20 || n == 0x85 || n == 0xA0 || n == 0x1680 || (0x2000 <= n
        && n <= 0x200A) || n == 0x2028 || n == 0x2029 || n == 0x202F || n == 0x205F || n == 0x3000
}

/// The characters of `s`, in order.
pub fn chars_of(s: &str) -> (v: Vec<char>)
    ensures
        v@ == s@,
{
    let mut v: Vec<char> = Vec::new();
    for c in it: s.chars()
        invariant
            it.seq() == s@,
            v@ == s@.take(it.index() as int),
    {
        v.push(c);
    }
    v
}

/// Trims the piece `chars[from..to]`: the bounds of what is left of it.
pub fn trim_bounds(chars: &Vec<char>, from: usize, to: usize) -> (r: (usize, usize))
    requires
        from <= to <= chars.len(),
    ensures
        from <= r.0 <= r.1 <= to,
        chars@.subrange(r.0 as int, r.1 as int) == trim(chars@.subrange(from as int, to as int)),
{
    let mut a: usize = from;
    while a < to && is_whitespace(chars[a])
        invariant
            from <= a <= to <= chars.len(),
            trim_start(chars@.subrange(from as int, to as int)) == trim_start(
                chars@.subrange(a as int, to as int),
            ),
        decreases to - a,
    {
        assert(chars@.subrange(a as int, to as int).drop_first() =~= chars@.subrange(
            a as int + 1,
            to as int,
        ));
        a += 1;
    }
    let mut b: usize = to;
    while b > a && is_whitespace(chars[b - 1])
        invariant
            a <= b <= to <= chars.len(),
            trim_end(chars@.subrange(a as int, to as int)) == trim_end(
                chars@.subrange(a as int, b as int),
            ),
        decreases b - a,
    {
        assert(chars@.subrange(a as int, b as int).drop_last() =~= chars@.subrange(
            a as int,
            b as int - 1,
        ));
        b -= 1;
    }
    (a, b)
}

/// Adding a piece to the pieces adds its trimmed text to what is kept of
/// them, unless nothing is left of it.
pub proof fn lemma_kept_push(pieces: Seq<Seq<char>>, piece: Seq<char>)
    ensures
        kept(pieces.push(piece)) == if trim(piece).len() > 0 {
            kept(pieces).push(trim(piece))
        } else {
            kept(pieces)
        },
{
    let f = |p: Seq<char>| trim(p);
    let nonempty = |p: Seq<char>| p.len() > 0;
    pieces.lemma_push_map_commute(f, piece);
    pieces.map_values(f).lemma_filter_push(trim(piece), nonempty);
}

/// Where the first `|` of `s` stands at `k`, `k` characters stand in front of it.
pub proof fn lemma_head_len_at_bar(s: Seq<char>, k: int)
    requires
        0 <= k < s.len(),
        is_bar(s[k]),
        forall|j: int| 0 <= j < k ==> !is_bar(#[trigger] s[j]),
    ensures
        head_len(s) == k,
    decreases k,
{
    if k > 0 {
        let rest = s.drop_first();
        lemma_head_len_at_bar(rest, k - 1);
    }
}

/// Where `s` holds no `|`, all of it stands in front of the first one.
pub proof fn lemma_head_len_without_bar(s: Seq<char>)
    requires
        forall|j: int| 0 <= j < s.len() ==> !is_bar(#[trigger] s[j]),
    ensures
        head_len(s) == s.len(),
    decreases s.len(),
{
    if s.len() > 0 {
        let rest = s.drop_first();
        lemma_head_len_without_bar(rest);
    }
}

/// Where the white space at the front of `s` ends: `trim_start` skips exactly
/// that many characters.
pub proof fn lemma_trim_start_skips(s: Seq<char>) -> (k: int)
    ensures
        0 <= k <= s.len(),
        trim_start(s) == s.skip(k),
        forall|j: int| 0 <= j < k ==> is_space(#[trigger] s[j]),
        k < s.len() ==> !is_space(s[k]),
    decreases s.len(),
{
    if s.len() > 0 && is_space(s[0]) {
        let rest = s.drop_first();
        let k = lemma_trim_start_skips(rest);
        assert forall|j: int| 0 <= j < k + 1 implies is_space(#[trigger] s[j]) by {
            if j > 0 {
                assert(s[j] == rest[j - 1]);
            }
        }
        k + 1
    } else {
        0
    }
}

/// Where the white space at the back of `s` begins: `trim_end` takes exactly
/// that many characters.
pub proof fn lemma_trim_end_takes(s: Seq<char>) -> (k: int)
    ensures
        0 <= k <= s.len(),
        trim_end(s) == s.take(k),
        forall|j: int| k <= j < s.len() ==> is_space(#[trigger] s[j]),
        k > 0 ==> !is_space(s[k - 1]),
    decreases s.len(),
{
    if s.len() > 0 && is_space(s.last()) {
        let rest = s.drop_last();
        let k = lemma_trim_end_takes(rest);
        assert forall|j: int| k <= j < s.len() implies is_space(#[trigger] s[j]) by {
            if j < s.len() - 1 {
                assert(s[j] == rest[j]);
            }
        }
        k
    } else {
        s.len() as int
    }
}

/// Trimming leaves nothing exactly of a text that is white space throughout.
pub proof fn lemma_trim_empty_iff_all_space(s: Seq<char>)
    ensures
        trim(s).len() == 0 <==> (forall|j: int| 0 <= j < s.len() ==> is_space(#[trigger] s[j])),
{
    let a = lemma_trim_start_skips(s);
    let t = s.skip(a);
    let b = lemma_trim_end_takes(t);
    if a < s.len() && b == 0 {
        // `t` begins with a character that is no white space, so some of it stays.
        assert(is_space(t[0]));
    }
}

/// No `|` stands in front of the first one.
pub proof fn lemma_head_holds_no_bar(s: Seq<char>)
    ensures
        head_len(s) <= s.len(),
        forall|j: int| 0 <= j < head_len(s) ==> !is_bar(#[trigger] s[j]),
        head_len(s) < s.len() ==> is_bar(s[head_len(s) as int]),
    decreases s.len(),
{
    if s.len() > 0 && !is_bar(s[0]) {
        let rest = s.drop_first();
        lemma_head_holds_no_bar(rest);
        assert forall|j: int| 0 <= j < head_len(s) implies !is_bar(#[trigger] s[j]) by {
            if j > 0 {
                assert(s[j] == rest[j - 1]);
            }
        }
    }
}

/// What is kept of two lists of pieces, one after the other.
pub proof fn lemma_kept_add(a: Seq<Seq<char>>, b: Seq<Seq<char>>)
    ensures
        kept(a + b) == kept(a) + kept(b),
{
    let f = |p: Seq<char>| trim(p);
    let nonempty = |p: Seq<char>| p.len() > 0;
    assert((a + b).map_values(f) =~= a.map_values(f) + b.map_values(f));
    Seq::filter_distributes_over_add(a.map_values(f), b.map_values(f), nonempty);
}

/// What is kept of a single piece.
pub proof fn lemma_kept_one(piece: Seq<char>)
    ensures
        kept(seq![piece]) == if trim(piece).len() > 0 {
            seq![trim(piece)]
        } else {
            Seq::<Seq<char>>::empty()
        },
{
    reveal(Seq::filter);
    lemma_kept_push(Seq::<Seq<char>>::empty(), piece);
}

/// A query holds no pattern exactly if it holds nothing but `|` and white
/// space.
pub proof fn lemma_no_pattern_iff_blank(q: Seq<char>)
    ensures
        patterns_of(q).len() == 0 <==> is_blank(q),
    decreases q.len(),
{
    lemma_head_holds_no_bar(q);
    let k = head_len(q) as int;
    let head = q.take(k);
    lemma_trim_empty_iff_all_space(head);
    if k >= q.len() {
        assert(head =~= q);
        lemma_kept_one(q);
    } else {
        let rest = q.skip(k + 1);
        lemma_no_pattern_iff_blank(rest);
        lemma_kept_add(seq![head], split(rest));
        lemma_kept_one(head);
        if patterns_of(q).len() == 0 {
            assert forall|i: int| 0 <= i < q.len() implies is_bar(#[trigger] q[i]) || is_space(
                q[i],
            ) by {
                if i < k {
                    assert(q[i] == head[i]);
                } else if i > k {
                    assert(q[i] == rest[i - k - 1]);
                }
            }
        }
    }
}

/// A query of which trimming leaves nothing holds no pattern.
pub proof fn lemma_empty_query_holds_no_pattern(q: Seq<char>)
    requires
        trim(q).len() == 0,
    ensures
        patterns_of(q) == Seq::<Seq<char>>::empty(),
{
    lemma_trim_empty_iff_all_space(q);
    lemma_no_pattern_iff_blank(q);
}

/// A query that holds nothing but `|` and white space holds no pattern, as
/// the empty query does.
pub proof fn lemma_blank_query_holds_no_pattern(q: Seq<char>)
    requires
        is_blank(q),
    ensures
        patterns_of(q) == Seq::<Seq<char>>::empty(),
        patterns_of(q) == patterns_of(Seq::<char>::empty()),
{
    lemma_no_pattern_iff_blank(q);
    lemma_no_pattern_iff_blank(Seq::<char>::empty());
}

/// Appends to `parts` what is left of the piece `chars[from..to]` of `query`
/// after trimming, unless nothing is left.
fn push_piece<'a>(
    query: &'a str,
    chars: &Vec<char>,
    from: usize,
    to: usize,
    parts: &mut Vec<&'a str>,
    Ghost(done): Ghost<Seq<Seq<char>>>,
)
    requires
        chars@ == query@,
        from <= to <= chars.len(),
        texts(old(parts)@) == kept(done),
    ensures
        texts(final(parts)@) == kept(done.push(query@.subrange(from as int, to as int))),
{
    let (a, b) = trim_bounds(chars, from, to);
    proof {
        lemma_kept_push(done, query@.subrange(from as int, to as int));
    }
    if a < b {
        let part = query.substring_char(a, b);
        proof {
            old(parts)@.lemma_push_map_commute(|p: &str| p@, part);
        }
        parts.push(part);
    }
}

/// The patterns that `query` holds: its pieces between `|`, trimmed, without
/// the empty ones, in the order in which they stand in the query.
pub fn split_query<'a>(query: &'a str) -> (parts: Vec<&'a str>)
    ensures
        texts(parts@) == patterns_of(query@),
{
    let chars = chars_of(query);
    let n: usize = chars.len();
    let mut parts: Vec<&'a str> = Vec::new();
    let mut start: usize = 0;
    let mut i: usize = 0;
    let ghost mut done: Seq<Seq<char>> = Seq::empty();
    proof {
        reveal(Seq::filter);
        assert(query@.skip(0) =~= query@);
    }
    while i < n
        invariant
            n == chars.len(),
            chars@ == query@,
            start <= i <= n,
            forall|j: int| start <= j < i ==> !is_bar(#[trigger] query@[j]),
            split(query@) == done + split(query@.skip(start as int)),
            texts(parts@) == kept(done),
        decreases n - i,
    {
        if chars[i] == '|' {
            let ghost rest = query@.skip(start as int);
            proof {
                lemma_head_len_at_bar(rest, i - start);
                assert(rest.take(i - start) =~= query@.subrange(start as int, i as int));
                assert(rest.skip(i - start + 1) =~= query@.skip(i + 1));
            }
            push_piece(query, &chars, start, i, &mut parts, Ghost(done));
            proof {
                done = done.push(query@.subrange(start as int, i as int));
            }
            start = i + 1;
        }
        i += 1;
    }
    proof {
        let rest = query@.skip(start as int);
        lemma_head_len_without_bar(rest);
        assert(done + seq![rest] =~= done.push(rest));
    }
    push_piece(query, &chars, start, n, &mut parts, Ghost(done));
    parts
}

} // verus!
