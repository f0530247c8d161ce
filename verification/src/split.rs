//! Splitting the text of an argument or index list at its top-level commas:
//! commas inside brackets or string literals do not split, and each piece is
//! trimmed of whitespace.
use vstd::prelude::*;
use vstd::string::StringSliceAdditionalSpecFns;

verus! {

/// `x` alone is a whitespace character: a space, or a tab, line feed,
/// vertical tab, form feed or carriage return.
pub open spec fn is_ws1(x: u8) -> bool {
    x == 32u8 || (9u8 <= x && x <= 13u8)
}

/// `x y` encode a two-byte whitespace character: U+0085 or U+00A0.
pub open spec fn is_ws2(x: u8, y: u8) -> bool {
    x == 0xC2u8 && (y == 0x85u8 || y == 0xA0u8)
}

/// `x y z` encode a three-byte whitespace character: U+1680, U+2000 to
/// U+200A, U+2028, U+2029, U+202F, U+205F or U+3000.
pub open spec fn is_ws3(x: u8, y: u8, z: u8) -> bool {
    (x == 0xE1u8 && y == 0x9Au8 && z == 0x80u8) || (x == 0xE2u8 && y == 0x80u8 && ((0x80u8 <= z
        && z <= 0x8Au8) || z == 0xA8u8 || z == 0xA9u8 || z == 0xAFu8)) || (x == 0xE2u8 && y
        == 0x81u8 && z == 0x9Fu8) || (x == 0xE3u8 && y == 0x80u8 && z == 0x80u8)
}

/// The length in bytes of the whitespace character that starts at `i` and
/// ends by `end`, or 0 when none does.
pub open spec fn ws_len_at(b: Seq<u8>, i: int, end: int) -> int {
    if 0 <= i < end && end <= b.len() {
        if is_ws1(b[i]) {
            1
        } else if i + 1 < end && is_ws2(b[i], b[i + 1]) {
            2
        } else if i + 2 < end && is_ws3(b[i], b[i + 1], b[i + 2]) {
            3
        } else {
            0
        }
    } else {
        0
    }
}

/// The length in bytes of the whitespace character that ends at `j` and
/// starts at `start` or later, or 0 when none does.
pub open spec fn ws_len_before(b: Seq<u8>, start: int, j: int) -> int {
    if 0 <= start < j && j <= b.len() {
        if is_ws1(b[j - 1]) {
            1
        } else if j - 2 >= start && is_ws2(b[j - 2], b[j - 1]) {
            2
        } else if j - 3 >= start && is_ws3(b[j - 3], b[j - 2], b[j - 1]) {
            3
        } else {
            0
        }
    } else {
        0
    }
}

/// Where the text from `i` to `end` starts once leading whitespace is skipped.
pub open spec fn skip_ws(b: Seq<u8>, i: int, end: int) -> int
    decreases end - i,
{
    if ws_len_at(b, i, end) > 0 {
        skip_ws(b, i + ws_len_at(b, i, end), end)
    } else {
        i
    }
}

/// Where the text from `start` to `j` ends once trailing whitespace is dropped.
pub open spec fn skip_ws_back(b: Seq<u8>, start: int, j: int) -> int
    decreases j - start,
{
    if ws_len_before(b, start, j) > 0 {
        skip_ws_back(b, start, j - ws_len_before(b, start, j))
    } else {
        j
    }
}

/// The range of the text from `a` to `e` with leading and trailing whitespace
/// removed.
pub open spec fn trim_range(b: Seq<u8>, a: int, e: int) -> (int, int) {
    let s = skip_ws(b, a, e);
    (s, skip_ws_back(b, s, e))
}

/// The scanner's state after the first `k` bytes: the bracket depth, whether
/// it is inside a string literal, and whether the next byte is escaped.
pub open spec fn scan(b: Seq<u8>, k: int) -> (int, bool, bool)
    decreases k,
{
    if k <= 0 {
        (0, false, false)
    } else {
        let prev = scan(b, k - 1);
        let c = b[k - 1];
        if prev.2 {
            (prev.0, prev.1, false)
        } else if c == 92u8 && prev.1 {
            (prev.0, prev.1, true)
        } else if c == 34u8 {
            (prev.0, !prev.1, false)
        } else if (c == 40u8 || c == 91u8 || c == 123u8) && !prev.1 {
            (prev.0 + 1, prev.1, false)
        } else if (c == 41u8 || c == 93u8 || c == 125u8) && !prev.1 {
            (prev.0 - 1, prev.1, false)
        } else {
            prev
        }
    }
}

/// The byte at `i` is a comma that splits: at depth zero, outside strings
/// and not escaped.
pub open spec fn is_separator(b: Seq<u8>, i: int) -> bool {
    b[i] == 44u8 && scan(b, i).0 == 0 && !scan(b, i).1 && !scan(b, i).2
}

/// Where the piece open after the first `k` bytes starts.
pub open spec fn open_start(b: Seq<u8>, k: int) -> int
    decreases k,
{
    if k <= 0 {
        0
    } else if is_separator(b, k - 1) {
        k
    } else {
        open_start(b, k - 1)
    }
}

/// The trimmed range of the text from `a` to `e`, when it is not empty.
pub open spec fn keep(b: Seq<u8>, a: int, e: int) -> Seq<(int, int)> {
    let r = trim_range(b, a, e);
    if r.0 < r.1 {
        seq![r]
    } else {
        Seq::empty()
    }
}

/// The trimmed, non-empty pieces closed by a separator among the first `k`
/// bytes, in order.
pub open spec fn closed_pieces(b: Seq<u8>, k: int) -> Seq<(int, int)>
    decreases k,
{
    if k <= 0 {
        Seq::empty()
    } else if is_separator(b, k - 1) {
        closed_pieces(b, k - 1) + keep(b, open_start(b, k - 1), k - 1)
    } else {
        closed_pieces(b, k - 1)
    }
}

/// The trimmed, non-empty pieces of the whole text, in order.
pub open spec fn top_level_pieces(b: Seq<u8>) -> Seq<(int, int)> {
    closed_pieces(b, b.len() as int) + keep(b, open_start(b, b.len() as int), b.len() as int)
}

/// Byte ranges as integer pairs.
pub open spec fn ranges_view(v: Seq<(usize, usize)>) -> Seq<(int, int)> {
    v.map_values(|p: (usize, usize)| (p.0 as int, p.1 as int))
}

/// Whether `x` alone is a whitespace character.
fn ws1(x: u8) -> (r: bool)
    ensures
        r == is_ws1(x),
{
    x == 32u8 || (9u8 <= x && x <= 13u8)
}

/// Whether `x y` encode a two-byte whitespace character.
fn ws2(x: u8, y: u8) -> (r: bool)
    ensures
        r == is_ws2(x, y),
{
    x == 0xC2u8 && (y == 0x85u8 || y == 0xA0u8)
}

/// Whether `x y z` encode a three-byte whitespace character.
fn ws3(x: u8, y: u8, z: u8) -> (r: bool)
    ensures
        r == is_ws3(x, y, z),
{
    (x == 0xE1u8 && y == 0x9Au8 && z == 0x80u8) || (x == 0xE2u8 && y == 0x80u8 && ((0x80u8 <= z
        && z <= 0x8Au8) || z == 0xA8u8 || z == 0xA9u8 || z == 0xAFu8)) || (x == 0xE2u8 && y
        == 0x81u8 && z == 0x9Fu8) || (x == 0xE3u8 && y == 0x80u8 && z == 0x80u8)
}

/// The range from `a` to `e` with leading and trailing whitespace removed.
pub(crate) fn trim_bytes(b: &[u8], a: usize, e: usize) -> (r: (usize, usize))
    requires
        a <= e <= b@.len(),
    ensures
        (r.0 as int, r.1 as int) == trim_range(b@, a as int, e as int),
        a <= r.0 <= r.1 <= e,
{
    let mut s = a;
    while s < e && (ws1(b[s]) || (e - s > 1 && ws2(b[s], b[s + 1])) || (e - s > 2 && ws3(
        b[s],
        b[s + 1],
        b[s + 2],
    )))
        invariant
            a <= s <= e <= b@.len(),
            skip_ws(b@, s as int, e as int) == skip_ws(b@, a as int, e as int),
        decreases e - s,
    {
        if ws1(b[s]) {
            s = s + 1;
        } else if e - s > 1 && ws2(b[s], b[s + 1]) {
            s = s + 2;
        } else {
            s = s + 3;
        }
    }
    let mut t = e;
    while t > s && (ws1(b[t - 1]) || (t - s >= 2 && ws2(b[t - 2], b[t - 1])) || (t - s >= 3
        && ws3(b[t - 3], b[t - 2], b[t - 1])))
        invariant
            a <= s <= t <= e <= b@.len(),
            s as int == skip_ws(b@, a as int, e as int),
            skip_ws_back(b@, s as int, t as int) == skip_ws_back(b@, s as int, e as int),
        decreases t - s,
    {
        if ws1(b[t - 1]) {
            t = t - 1;
        } else if t - s >= 2 && ws2(b[t - 2], b[t - 1]) {
            t = t - 2;
        } else {
            t = t - 3;
        }
    }
    (s, t)
}

/// `c` opens a bracket: `(`, `[` or `{`.
pub open spec fn is_opening_bracket(c: u8) -> bool {
    c == 40u8 || c == 91u8 || c == 123u8
}

/// `c` closes a bracket or delimits a string literal: `)`, `]`, `}` or `"`.
pub open spec fn closes_or_quotes(c: u8) -> bool {
    c == 41u8 || c == 93u8 || c == 125u8 || c == 34u8
}

/// Inside an opened bracket the scanner stays nested, outside strings and
/// escapes, as long as no bracket closes and no string starts.
proof fn lemma_scan_nested(t: Seq<u8>, k: int)
    requires
        t.len() > 0,
        is_opening_bracket(t[0]),
        forall|i: int| 1 <= i < t.len() - 1 ==> !closes_or_quotes(#[trigger] t[i]),
        1 <= k <= t.len() - 1,
    ensures
        scan(t, k).0 >= 1 && !scan(t, k).1 && !scan(t, k).2,
    decreases k,
{
    if k > 1 {
        lemma_scan_nested(t, k - 1);
        assert(!closes_or_quotes(t[k - 1]));
    } else {
        assert(scan(t, 0) == (0int, false, false));
    }
}

/// Commas inside brackets never split: a text that opens with a bracket,
/// whose later bytes but the last close no bracket and start no string, is
/// one piece, whatever commas it holds; so `{a, b}`, `(a, b)` and `[a, b]`
/// are each a single piece.
pub proof fn lemma_commas_in_brackets_do_not_split(t: Seq<u8>)
    requires
        t.len() > 0,
        is_opening_bracket(t[0]),
        forall|i: int| 1 <= i < t.len() - 1 ==> !closes_or_quotes(#[trigger] t[i]),
    ensures
        top_level_pieces(t) == keep(t, 0, t.len() as int),
{
    assert forall|i: int| 0 <= i < t.len() implies !is_separator(t, i) by {
        if i >= 1 {
            lemma_scan_nested(t, i);
        }
    }
    lemma_no_separator_pieces(t, t.len() as int);
    assert(closed_pieces(t, t.len() as int) + keep(t, 0, t.len() as int) =~= keep(t, 0, t.len() as int));
}

/// Without a separator among the first `k` bytes, no piece is closed and
/// the open one starts at the beginning.
proof fn lemma_no_separator_pieces(t: Seq<u8>, k: int)
    requires
        0 <= k <= t.len(),
        forall|i: int| 0 <= i < t.len() ==> !is_separator(t, i),
    ensures
        closed_pieces(t, k) == Seq::<(int, int)>::empty(),
        open_start(t, k) == 0,
    decreases k,
{
    if k > 0 {
        lemma_no_separator_pieces(t, k - 1);
    }
}

/// `c` closes a bracket: `)`, `]` or `}`.
pub open spec fn is_closing_bracket(c: u8) -> bool {
    c == 41u8 || c == 93u8 || c == 125u8
}

/// The scanner's state after `k` bytes depends on those bytes alone.
proof fn lemma_scan_prefix(t: Seq<u8>, x: Seq<u8>, k: int)
    requires
        0 <= k <= t.len(),
    ensures
        scan(t + x, k) == scan(t, k),
    decreases k,
{
    if k > 0 {
        lemma_scan_prefix(t, x, k - 1);
        assert((t + x)[k - 1] == t[k - 1]);
    }
}

/// Inside one bracket holding no brackets or strings, the scanner is one
/// level deep.
proof fn lemma_scan_one_deep(g: Seq<u8>, k: int)
    requires
        g.len() >= 2,
        is_opening_bracket(g[0]),
        forall|i: int| 1 <= i < g.len() - 1 ==> !is_opening_bracket(#[trigger] g[i]) && !closes_or_quotes(g[i]),
        1 <= k <= g.len() - 1,
    ensures
        scan(g, k) == (1int, false, false),
    decreases k,
{
    if k > 1 {
        lemma_scan_one_deep(g, k - 1);
        assert(!is_opening_bracket(g[k - 1]) && !closes_or_quotes(g[k - 1]));
    } else {
        assert(scan(g, 0) == (0int, false, false));
    }
}

/// A bracket that closes ends its nesting: after `(...)`, `[...]` or
/// `{...}` holding no brackets or strings, a comma splits again.
pub proof fn lemma_comma_after_closed_bracket_splits(g: Seq<u8>, v: Seq<u8>)
    requires
        g.len() >= 2,
        is_opening_bracket(g[0]),
        is_closing_bracket(g.last()),
        forall|i: int| 1 <= i < g.len() - 1 ==> !is_opening_bracket(#[trigger] g[i]) && !closes_or_quotes(g[i]),
    ensures
        is_separator(g + seq![44u8] + v, g.len() as int),
{
    let t = g + seq![44u8] + v;
    lemma_scan_one_deep(g, g.len() - 1);
    lemma_scan_prefix(g, seq![44u8] + v, g.len() as int);
    assert(g + seq![44u8] + v =~= g + (seq![44u8] + v));
    assert(t[g.len() as int] == 44u8);
}

/// Inside a string literal the scanner stays in the string, as long as no
/// quote or backslash comes.
proof fn lemma_scan_in_string(t: Seq<u8>, k: int)
    requires
        t.len() > 0,
        t[0] == 34u8,
        forall|i: int| 1 <= i < t.len() - 1 ==> #[trigger] t[i] != 34u8 && t[i] != 92u8,
        1 <= k <= t.len() - 1,
    ensures
        scan(t, k) == (0int, true, false),
    decreases k,
{
    if k > 1 {
        lemma_scan_in_string(t, k - 1);
        assert(t[k - 1] != 34u8 && t[k - 1] != 92u8);
    } else {
        assert(scan(t, 0) == (0int, false, false));
    }
}

/// Commas inside a string literal never split: a text that opens a string
/// and holds no other quote or backslash before its last byte is one piece,
/// so `"a, b"` is a single piece.
pub proof fn lemma_commas_in_strings_do_not_split(t: Seq<u8>)
    requires
        t.len() > 0,
        t[0] == 34u8,
        forall|i: int| 1 <= i < t.len() - 1 ==> #[trigger] t[i] != 34u8 && t[i] != 92u8,
    ensures
        top_level_pieces(t) == keep(t, 0, t.len() as int),
{
    assert forall|i: int| 0 <= i < t.len() implies !is_separator(t, i) by {
        if i >= 1 {
            lemma_scan_in_string(t, i);
        }
    }
    lemma_no_separator_pieces(t, t.len() as int);
    assert(closed_pieces(t, t.len() as int) + keep(t, 0, t.len() as int) =~= keep(t, 0, t.len() as int));
}

/// The byte ranges of the pieces of `text` between its top-level commas, in
/// order: a comma splits only outside brackets (`(`, `[`, `{`) and outside
/// string literals, where a backslash escapes the next character. Each piece
/// is trimmed of leading and trailing whitespace, and pieces that are empty
/// once trimmed are left out.
pub fn split_top_level(text: &str) -> (r: Vec<(usize, usize)>)
    requires
        text.spec_bytes().len() <= i64::MAX,
    ensures
        ranges_view(r@) == top_level_pieces(text.spec_bytes()),
{
    let b = text.as_bytes();
    let n = b.len();
    let mut out: Vec<(usize, usize)> = Vec::new();
    let mut depth: i64 = 0;
    let mut in_string = false;
    let mut escape = false;
    let mut cur: usize = 0;
    let mut i: usize = 0;
    proof {
        assert(ranges_view(out@) =~= closed_pieces(b@, 0));
    }
    while i < n
        invariant
            n == b@.len(),
            b@ == text.spec_bytes(),
            n <= i64::MAX,
            0 <= i <= n,
            (depth as int, in_string, escape) == scan(b@, i as int),
            -(i as int) <= depth <= i,
            cur as int == open_start(b@, i as int),
            cur <= i,
            ranges_view(out@) == closed_pieces(b@, i as int),
        decreases n - i,
    {
        let c = b[i];
        let ghost before = out@;
        if escape {
            escape = false;
        } else if c == 92u8 && in_string {
            escape = true;
        } else if c == 34u8 {
            in_string = !in_string;
        } else if (c == 40u8 || c == 91u8 || c == 123u8) && !in_string {
            depth = depth + 1;
        } else if (c == 41u8 || c == 93u8 || c == 125u8) && !in_string {
            depth = depth - 1;
        } else if c == 44u8 && depth == 0 && !in_string {
            let (s, t) = trim_bytes(b, cur, i);
            if s < t {
                out.push((s, t));
                proof {
                    assert(ranges_view(out@) =~= ranges_view(before) + seq![(s as int, t as int)]);
                }
            } else {
                proof {
                    assert(ranges_view(before) + Seq::<(int, int)>::empty() =~= ranges_view(before));
                }
            }
            cur = i + 1;
        }
        i += 1;
    }
    let (s, t) = trim_bytes(b, cur, n);
    let ghost before = out@;
    if s < t {
        out.push((s, t));
        proof {
            assert(ranges_view(out@) =~= ranges_view(before) + seq![(s as int, t as int)]);
        }
    } else {
        proof {
            assert(ranges_view(before) + Seq::<(int, int)>::empty() =~= ranges_view(before));
        }
    }
    out
}

} // verus!
