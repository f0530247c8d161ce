//! Character-level text helpers: Unicode white space, trimming, and the
//! lines of a text, over the characters of strings.
use vstd::prelude::*;
use vstd::string::StrSliceExecFns;

verus! {

/// Unicode white space, as `char::is_whitespace` decides it.
pub open spec fn is_white_space(c: char) -> bool {
    ||| ('\u{9}' <= c && c <= '\u{d}')
    ||| c == ' '
    ||| c == '\u{85}'
    ||| c == '\u{a0}'
    ||| c == '\u{1680}'
    ||| ('\u{2000}' <= c && c <= '\u{200a}')
    ||| c == '\u{2028}'
    ||| c == '\u{2029}'
    ||| c == '\u{202f}'
    ||| c == '\u{205f}'
    ||| c == '\u{3000}'
}

/// `s` without its leading white space.
pub open spec fn trim_start(s: Seq<char>) -> Seq<char>
    decreases s.len(),
{
    if s.len() > 0 && is_white_space(s[0]) {
        trim_start(s.drop_first())
    } else {
        s
    }
}

/// `s` without its trailing white space.
pub open spec fn trim_end(s: Seq<char>) -> Seq<char>
    decreases s.len(),
{
    if s.len() > 0 && is_white_space(s.last()) {
        trim_end(s.drop_last())
    } else {
        s
    }
}

/// `s` without leading or trailing white space.
pub open spec fn trim(s: Seq<char>) -> Seq<char> {
    trim_end(trim_start(s))
}

/// The index of the first white space character of `s`, or its length when
/// it has none.
pub open spec fn first_ws(s: Seq<char>) -> int
    decreases s.len(),
{
    if s.len() == 0 {
        0
    } else if is_white_space(s[0]) {
        0
    } else {
        1 + first_ws(s.drop_first())
    }
}

/// `s` starts with `p`.
pub open spec fn starts_with(s: Seq<char>, p: Seq<char>) -> bool {
    p.len() <= s.len() && s.subrange(0, p.len() as int) == p
}

/// The index of the first newline of `s`, or its length when it has none.
pub open spec fn first_newline(s: Seq<char>) -> int
    decreases s.len(),
{
    if s.len() == 0 {
        0
    } else if s[0] == '\n' {
        0
    } else {
        1 + first_newline(s.drop_first())
    }
}

/// The pieces of `s` between newlines, in order; a text without newline is
/// one piece.
pub open spec fn split_lines(s: Seq<char>) -> Seq<Seq<char>>
    decreases s.len(),
{
    let k = first_newline(s);
    if 0 <= k < s.len() {
        seq![s.subrange(0, k)] + split_lines(s.subrange(k + 1, s.len() as int))
    } else {
        seq![s]
    }
}

/// Whether `c` is Unicode white space.
pub fn is_white_space_char(c: char) -> (r: bool)
    ensures
        r == is_white_space(c),
{
    ('\u{9}' <= c && c <= '\u{d}') || c == ' ' || c == '\u{85}' || c == '\u{a0}' || c == '\u{1680}'
        || ('\u{2000}' <= c && c <= '\u{200a}') || c == '\u{2028}' || c == '\u{2029}' || c
        == '\u{202f}' || c == '\u{205f}' || c == '\u{3000}'
}

/// The start of `s[from..to]` without its leading white space.
pub fn skip_white_space(s: &str, from: usize, to: usize) -> (a: usize)
    requires
        from <= to <= s@.len(),
    ensures
        from <= a <= to,
        s@.subrange(a as int, to as int) == trim_start(s@.subrange(from as int, to as int)),
{
    let mut a = from;
    while a < to && is_white_space_char(s.get_char(a))
        invariant
            from <= a <= to <= s@.len(),
            trim_start(s@.subrange(from as int, to as int)) == trim_start(s@.subrange(a as int, to as int)),
        decreases to - a,
    {
        assert(s@.subrange(a as int, to as int).drop_first() =~= s@.subrange(a + 1, to as int));
        a += 1;
    }
    a
}

/// The bounds of `s[from..to]` without leading and trailing white space.
pub fn trim_bounds(s: &str, from: usize, to: usize) -> (ab: (usize, usize))
    requires
        from <= to <= s@.len(),
    ensures
        from <= ab.0 <= ab.1 <= to,
        s@.subrange(ab.0 as int, ab.1 as int) == trim(s@.subrange(from as int, to as int)),
{
    let a = skip_white_space(s, from, to);
    let mut b = to;
    while b > a && is_white_space_char(s.get_char(b - 1))
        invariant
            from <= a <= b <= to <= s@.len(),
            trim(s@.subrange(from as int, to as int)) == trim_end(s@.subrange(a as int, b as int)),
        decreases b,
    {
        assert(s@.subrange(a as int, b as int).drop_last() =~= s@.subrange(a as int, b - 1));
        b -= 1;
    }
    (a, b)
}

/// The index of the first white space character of `s[from..to]`, or `to`.
pub fn find_white_space(s: &str, from: usize, to: usize) -> (k: usize)
    requires
        from <= to <= s@.len(),
    ensures
        from <= k <= to,
        k - from == first_ws(s@.subrange(from as int, to as int)),
{
    let mut k = from;
    while k < to && !is_white_space_char(s.get_char(k))
        invariant
            from <= k <= to <= s@.len(),
            first_ws(s@.subrange(from as int, to as int)) == (k - from) + first_ws(
                s@.subrange(k as int, to as int),
            ),
        decreases to - k,
    {
        assert(s@.subrange(k as int, to as int).drop_first() =~= s@.subrange(k + 1, to as int));
        k += 1;
    }
    k
}

/// The index of the first newline of `s[from..to]`, or `to`.
pub fn find_newline(s: &str, from: usize, to: usize) -> (k: usize)
    requires
        from <= to <= s@.len(),
    ensures
        from <= k <= to,
        k - from == first_newline(s@.subrange(from as int, to as int)),
{
    let mut k = from;
    while k < to && s.get_char(k) != '\n'
        invariant
            from <= k <= to <= s@.len(),
            first_newline(s@.subrange(from as int, to as int)) == (k - from) + first_newline(
                s@.subrange(k as int, to as int),
            ),
        decreases to - k,
    {
        assert(s@.subrange(k as int, to as int).drop_first() =~= s@.subrange(k + 1, to as int));
        k += 1;
    }
    k
}

/// Whether `s[from..to]` starts with `p`.
pub fn starts_with_at(s: &str, from: usize, to: usize, p: &str) -> (r: bool)
    requires
        from <= to <= s@.len(),
    ensures
        r == starts_with(s@.subrange(from as int, to as int), p@),
{
    let n = p.unicode_len();
    if n > to - from {
        return false;
    }
    let mut i: usize = 0;
    while i < n
        invariant
            n == p@.len(),
            from + n <= to <= s@.len(),
            0 <= i <= n,
            forall|j: int| 0 <= j < i ==> s@[from + j] == p@[j],
        decreases n - i,
    {
        if s.get_char(from + i) != p.get_char(i) {
            assert(s@.subrange(from as int, to as int).subrange(0, n as int)[i as int] != p@[i as int]);
            return false;
        }
        i += 1;
    }
    assert(s@.subrange(from as int, to as int).subrange(0, n as int) =~= p@);
    true
}

/// A string holding `s[from..to]`.
pub fn sub_string(s: &str, from: usize, to: usize) -> (r: String)
    requires
        from <= to <= s@.len(),
    ensures
        r@ == s@.subrange(from as int, to as int),
{
    let mut r = String::new();
    let mut i = from;
    while i < to
        invariant
            from <= i <= to <= s@.len(),
            r@ == s@.subrange(from as int, i as int),
        decreases to - i,
    {
        let piece = s.substring_char(i, i + 1);
        r.append(piece);
        assert(r@ =~= s@.subrange(from as int, i + 1));
        i += 1;
    }
    r
}

} // verus!
