//! The shape of one index specification, `..`, `..e`, `e..`, `a..=b`,
//! `a..b..c`, `a..b` or `e`: where its expressions and its `..` stand in
//! the text.
use vstd::prelude::*;
use vstd::string::StringSliceAdditionalSpecFns;
use crate::text::{occurs_at, find_bytes};
use crate::split::{trim_range, trim_bytes};

verus! {

/// A byte range, from its first byte to just past its last.
pub type ByteRange = (usize, usize);

/// The shape of an index specification. Ranges count from the start of the
/// trimmed text.
#[derive(Debug, Clone, Copy, PartialEq, Eq)]
pub enum IndexSpecShape {
    /// `..`: the whole array.
    Full { dotdot: ByteRange },
    /// `..e`: up to `e`.
    To { dotdot: ByteRange, end: ByteRange },
    /// `e..`: from `e`.
    From { start: ByteRange, dotdot: ByteRange },
    /// `a..=b`.
    Inclusive { start: ByteRange, dotdoteq: ByteRange, end: ByteRange },
    /// `a..b..c`: from `a` to `b` in steps of `c`.
    Stepped { start: ByteRange, dotdot: ByteRange, end: ByteRange, step_dotdot: ByteRange, step: ByteRange },
    /// `a..b`.
    Range { start: ByteRange, dotdot: ByteRange, end: ByteRange },
    /// A single index.
    Single { expr: ByteRange },
}

/// Why an index specification is malformed.
#[derive(Debug, Clone, Copy, PartialEq, Eq, Structural)]
pub enum IndexSpecError {
    /// `..` at one end with no expression at the other.
    MissingExpression,
    /// `..=` without a start or an end.
    MissingInclusiveBound,
    /// Two `..` with an empty start, end or step.
    MissingStepPart,
    /// One `..` with an empty start or end.
    MissingRangeBound,
}

/// The first offset from `i` at which `needle` occurs in `hay`.
pub open spec fn find_from(hay: Seq<u8>, needle: Seq<u8>, i: int) -> Option<int>
    decreases hay.len() + 1 - i,
{
    if i < 0 || i > hay.len() {
        None
    } else if occurs_at(hay, needle, i) {
        Some(i)
    } else {
        find_from(hay, needle, i + 1)
    }
}

/// Where the text from `a` to `e` is first found in `t`; `a` when nowhere.
pub open spec fn locate(t: Seq<u8>, a: int, e: int) -> int {
    match find_from(t, t.subrange(a, e), 0) {
        Some(i) => i,
        None => a,
    }
}

/// The range at which the text from `a` to `e` is first found in `t`.
pub open spec fn located(t: Seq<u8>, a: int, e: int) -> (int, int) {
    (locate(t, a, e), locate(t, a, e) + (e - a))
}

/// The offsets at which a pair of dots starts, scanning from `j`: a pair is
/// taken whole, so `...` holds one pair.
pub open spec fn dot_pairs(t: Seq<u8>, j: int) -> Seq<int>
    decreases t.len() - j,
{
    if j < 0 || j + 1 >= t.len() {
        Seq::empty()
    } else if t[j] == 46u8 && t[j + 1] == 46u8 {
        seq![j] + dot_pairs(t, j + 2)
    } else {
        dot_pairs(t, j + 1)
    }
}

/// The number of characters among the first `j` bytes: the bytes that are
/// no continuation bytes.
pub open spec fn char_count(t: Seq<u8>, j: int) -> int
    decreases j,
{
    if j <= 0 {
        0
    } else {
        char_count(t, j - 1) + if 0x80u8 <= t[j - 1] && t[j - 1] <= 0xBFu8 {
            0int
        } else {
            1int
        }
    }
}

/// Offset `k` of `t` starts a character or is its end.
pub open spec fn at_char_start(t: Seq<u8>, k: int) -> bool {
    k == t.len() || (0 <= k < t.len() && !(0x80u8 <= t[k] && t[k] <= 0xBFu8))
}

/// `t` is `..` exactly.
pub open spec fn is_dotdot(t: Seq<u8>) -> bool {
    t.len() == 2 && t[0] == 46u8 && t[1] == 46u8
}

/// `t` starts with `..`.
pub open spec fn starts_dotdot(t: Seq<u8>) -> bool {
    t.len() >= 2 && t[0] == 46u8 && t[1] == 46u8
}

/// `t` ends with `..`.
pub open spec fn ends_dotdot(t: Seq<u8>) -> bool {
    t.len() >= 2 && t[t.len() - 2] == 46u8 && t[t.len() - 1] == 46u8
}

/// The bytes of `..=`.
pub open spec fn dotdoteq() -> Seq<u8> {
    seq![46u8, 46u8, 61u8]
}

/// `t` has none of the forms decided before its pairs of dots are counted.
pub open spec fn counts_dots(t: Seq<u8>) -> bool {
    !is_dotdot(t) && !starts_dotdot(t) && !ends_dotdot(t) && find_from(t, dotdoteq(), 0) is None
}

/// The pairs of dots of `t` are located by counting characters, and those
/// counts are taken as byte offsets: where there are one or two pairs, each
/// such offset and the offset two past it start a character.
pub open spec fn dot_offsets_ok(t: Seq<u8>) -> bool {
    let d = dot_pairs(t, 0);
    (d.len() == 1 || d.len() == 2) ==> (forall|k: int|
        0 <= k < d.len() ==> at_char_start(t, char_count(t, #[trigger] d[k])) && at_char_start(
            t,
            char_count(t, d[k]) + 2,
        ))
}

/// Bounds as machine offsets.
pub open spec fn br(r: (int, int)) -> ByteRange {
    (r.0 as usize, r.1 as usize)
}

/// The shape of the trimmed index specification `t`.
pub open spec fn index_spec_shape(t: Seq<u8>) -> Result<IndexSpecShape, IndexSpecError> {
    let n = t.len() as int;
    if is_dotdot(t) {
        Ok(IndexSpecShape::Full { dotdot: (0, 2) })
    } else if starts_dotdot(t) {
        let e = trim_range(t, 2, n);
        if e.0 == e.1 {
            Err(IndexSpecError::MissingExpression)
        } else {
            Ok(IndexSpecShape::To { dotdot: (0, 2), end: br(located(t, e.0, e.1)) })
        }
    } else if ends_dotdot(t) {
        let s = trim_range(t, 0, n - 2);
        if s.0 == s.1 {
            Err(IndexSpecError::MissingExpression)
        } else {
            Ok(IndexSpecShape::From { start: br(located(t, s.0, s.1)), dotdot: br((n - 2, n)) })
        }
    } else if find_from(t, dotdoteq(), 0) is Some {
        let pos = find_from(t, dotdoteq(), 0)->Some_0;
        let s = trim_range(t, 0, pos);
        let e = trim_range(t, pos + 3, n);
        if s.0 == s.1 || e.0 == e.1 {
            Err(IndexSpecError::MissingInclusiveBound)
        } else {
            Ok(
                IndexSpecShape::Inclusive {
                    start: br(located(t, s.0, s.1)),
                    dotdoteq: br((pos, pos + 3)),
                    end: br(located(t, e.0, e.1)),
                },
            )
        }
    } else {
        let d = dot_pairs(t, 0);
        if d.len() == 2 {
            let c0 = char_count(t, d[0]);
            let c1 = char_count(t, d[1]);
            let s = trim_range(t, 0, c0);
            let e = trim_range(t, c0 + 2, c1);
            let st = trim_range(t, c1 + 2, n);
            if s.0 == s.1 || e.0 == e.1 || st.0 == st.1 {
                Err(IndexSpecError::MissingStepPart)
            } else {
                Ok(
                    IndexSpecShape::Stepped {
                        start: br(located(t, s.0, s.1)),
                        dotdot: br((c0, c0 + 2)),
                        end: br(located(t, e.0, e.1)),
                        step_dotdot: br((c1, c1 + 2)),
                        step: br(located(t, st.0, st.1)),
                    },
                )
            }
        } else if d.len() == 1 {
            let c0 = char_count(t, d[0]);
            let s = trim_range(t, 0, c0);
            let e = trim_range(t, c0 + 2, n);
            if s.0 == s.1 || e.0 == e.1 {
                Err(IndexSpecError::MissingRangeBound)
            } else {
                Ok(
                    IndexSpecShape::Range {
                        start: br(located(t, s.0, s.1)),
                        dotdot: br((c0, c0 + 2)),
                        end: br(located(t, e.0, e.1)),
                    },
                )
            }
        } else {
            Ok(IndexSpecShape::Single { expr: (0, n as usize) })
        }
    }
}

/// Positions as integers.
pub open spec fn ints(v: Seq<usize>) -> Seq<int> {
    v.map_values(|x: usize| x as int)
}

/// The search from `i` finds what the search from the start finds when
/// nothing occurs before `i`.
proof fn lemma_find_from_skip(h: Seq<u8>, n: Seq<u8>, i: int)
    requires
        0 <= i <= h.len() + 1,
        forall|j: int| 0 <= j < i ==> !occurs_at(h, n, j),
    ensures
        find_from(h, n, 0) == find_from(h, n, i),
    decreases i,
{
    if i > 0 {
        lemma_find_from_skip(h, n, i - 1);
    }
}

/// The first occurrence of `needle` in `hay`.
fn find_first(hay: &[u8], needle: &[u8]) -> (r: Option<usize>)
    ensures
        match r {
            Some(i) => find_from(hay@, needle@, 0) == Some(i as int),
            None => find_from(hay@, needle@, 0) is None,
        },
{
    let r = find_bytes(hay, needle);
    proof {
        match r {
            Some(i) => {
                lemma_find_from_skip(hay@, needle@, i as int);
            },
            None => {
                lemma_find_from_skip(hay@, needle@, hay@.len() + 1int);
            },
        }
    }
    r
}

/// A copy of the bytes from `s` to `e`.
fn copy_bytes(b: &[u8], s: usize, e: usize) -> (v: Vec<u8>)
    requires
        s <= e <= b@.len(),
    ensures
        v@ == b@.subrange(s as int, e as int),
{
    let mut v: Vec<u8> = Vec::new();
    let mut i = s;
    while i < e
        invariant
            s <= i <= e <= b@.len(),
            v@ == b@.subrange(s as int, i as int),
        decreases e - i,
    {
        v.push(b[i]);
        i += 1;
        assert(v@ =~= b@.subrange(s as int, i as int));
    }
    v
}

/// The range at which the text from `a` to `e` is first found in `t`.
fn locate_range(t: &[u8], a: usize, e: usize) -> (r: ByteRange)
    requires
        a <= e <= t@.len(),
    ensures
        (r.0 as int, r.1 as int) == located(t@, a as int, e as int),
        r.1 <= t@.len(),
{
    let tn = t.len();
    let needle = copy_bytes(t, a, e);
    let ns = needle.as_slice();
    assert(ns@ == t@.subrange(a as int, e as int));
    match find_first(t, ns) {
        Some(i) => {
            proof {
                lemma_found_occurs(t@, ns@, 0);
            }
            assert(occurs_at(t@, ns@, i as int));
            assert(ns@.len() == e - a);
            assert(i + (e - a) <= t@.len());
            (i, i + (e - a))
        },
        None => (a, e),
    }
}

/// What the search finds occurs there.
proof fn lemma_found_occurs(h: Seq<u8>, n: Seq<u8>, i: int)
    ensures
        find_from(h, n, i) matches Some(k) ==> occurs_at(h, n, k),
    decreases h.len() + 1 - i,
{
    if 0 <= i <= h.len() && !occurs_at(h, n, i) {
        lemma_found_occurs(h, n, i + 1);
    }
}

/// The number of characters among the first `j` bytes.
fn count_chars(t: &[u8], j: usize) -> (r: usize)
    requires
        j <= t@.len(),
    ensures
        r as int == char_count(t@, j as int),
        r <= j,
{
    let mut c: usize = 0;
    let mut i: usize = 0;
    while i < j
        invariant
            i <= j <= t@.len(),
            c as int == char_count(t@, i as int),
            c <= i,
        decreases j - i,
    {
        if !(0x80u8 <= t[i] && t[i] <= 0xBFu8) {
            c += 1;
        }
        i += 1;
    }
    c
}

/// Counting characters over more bytes counts no fewer, and a dot counts one.
proof fn lemma_char_count_grows(t: Seq<u8>, i: int, j: int)
    requires
        0 <= i <= j <= t.len(),
    ensures
        char_count(t, i) <= char_count(t, j),
    decreases j - i,
{
    if i < j {
        lemma_char_count_grows(t, i, j - 1);
    }
}

/// The offsets at which pairs of dots start.
fn find_dot_pairs(t: &[u8]) -> (r: Vec<usize>)
    ensures
        ints(r@) == dot_pairs(t@, 0),
        forall|k: int| 0 <= k < r@.len() ==> #[trigger] r@[k] + 1 < t@.len() && t@[r@[k] as int] == 46u8
            && t@[r@[k] + 1] == 46u8,
        forall|k: int| 0 < k < r@.len() ==> r@[k - 1] + 2 <= #[trigger] r@[k],
{
    let n = t.len();
    let mut r: Vec<usize> = Vec::new();
    let mut j: usize = 0;
    while j < n && n - j > 1
        invariant
            n == t@.len(),
            j <= n,
            ints(r@) + dot_pairs(t@, j as int) == dot_pairs(t@, 0),
            forall|k: int| 0 <= k < r@.len() ==> #[trigger] r@[k] + 2 <= j,
            forall|k: int| 0 <= k < r@.len() ==> #[trigger] r@[k] + 1 < t@.len() && t@[r@[k] as int]
                == 46u8 && t@[r@[k] + 1] == 46u8,
            forall|k: int| 0 < k < r@.len() ==> r@[k - 1] + 2 <= #[trigger] r@[k],
        decreases n - j,
    {
        let ghost before = r@;
        if t[j] == 46u8 && t[j + 1] == 46u8 {
            r.push(j);
            assert(ints(r@) =~= ints(before) + seq![j as int]);
            assert(ints(r@) + dot_pairs(t@, j + 2) =~= ints(before) + dot_pairs(t@, j as int));
            j = j + 2;
        } else {
            j = j + 1;
        }
    }
    assert(ints(r@) + dot_pairs(t@, j as int) =~= ints(r@));
    r
}

/// The trimmed range of `text`, and the shape of the index specification it
/// holds, with ranges counted from the start of the trimmed text. In the
/// order tried: `..`; `..e`; `e..`; `a..=b` at the first `..=`; then, by the
/// pairs of dots, `a..b..c` for two pairs, `a..b` for one, and a single
/// index otherwise. Each expression's range is where its trimmed text is
/// first found in the specification. The pairs of dots are located by
/// counting characters, and the counts stand for byte offsets.
pub fn classify_index_spec(text: &str) -> (r: (ByteRange, Result<IndexSpecShape, IndexSpecError>))
    requires
        counts_dots(
            text.spec_bytes().subrange(
                trim_range(text.spec_bytes(), 0, text.spec_bytes().len() as int).0,
                trim_range(text.spec_bytes(), 0, text.spec_bytes().len() as int).1,
            ),
        ) ==> dot_offsets_ok(
            text.spec_bytes().subrange(
                trim_range(text.spec_bytes(), 0, text.spec_bytes().len() as int).0,
                trim_range(text.spec_bytes(), 0, text.spec_bytes().len() as int).1,
            ),
        ),
    ensures
        (r.0.0 as int, r.0.1 as int) == trim_range(text.spec_bytes(), 0, text.spec_bytes().len() as int),
        r.1 == index_spec_shape(text.spec_bytes().subrange(r.0.0 as int, r.0.1 as int)),
{
    let bytes = text.as_bytes();
    let (ts, te) = trim_bytes(bytes, 0, bytes.len());
    let tv = copy_bytes(bytes, ts, te);
    let t = tv.as_slice();
    let n = t.len();
    let ghost tt = t@;
    let shape = if n == 2 && t[0] == 46u8 && t[1] == 46u8 {
        Ok(IndexSpecShape::Full { dotdot: (0, 2) })
    } else if n >= 2 && t[0] == 46u8 && t[1] == 46u8 {
        let (a, e) = trim_bytes(t, 2, n);
        if a == e {
            Err(IndexSpecError::MissingExpression)
        } else {
            Ok(IndexSpecShape::To { dotdot: (0, 2), end: locate_range(t, a, e) })
        }
    } else if n >= 2 && t[n - 2] == 46u8 && t[n - 1] == 46u8 {
        let (a, e) = trim_bytes(t, 0, n - 2);
        if a == e {
            Err(IndexSpecError::MissingExpression)
        } else {
            Ok(IndexSpecShape::From { start: locate_range(t, a, e), dotdot: (n - 2, n) })
        }
    } else {
        let pat: [u8; 3] = [46u8, 46u8, 61u8];
        let pat_s = pat.as_slice();
        assert(pat_s@ =~= dotdoteq());
        match find_first(t, pat_s) {
            Some(pos) => {
                proof {
                    lemma_found_occurs(tt, dotdoteq(), 0);
                }
                let (a1, e1) = trim_bytes(t, 0, pos);
                let (a2, e2) = trim_bytes(t, pos + 3, n);
                if a1 == e1 || a2 == e2 {
                    Err(IndexSpecError::MissingInclusiveBound)
                } else {
                    Ok(
                        IndexSpecShape::Inclusive {
                            start: locate_range(t, a1, e1),
                            dotdoteq: (pos, pos + 3),
                            end: locate_range(t, a2, e2),
                        },
                    )
                }
            },
            None => {
                let d = find_dot_pairs(t);
                assert(d@.len() == dot_pairs(tt, 0).len());
                if d.len() == 2 {
                    assert(dot_pairs(tt, 0)[0] == d@[0] as int && dot_pairs(tt, 0)[1] == d@[1] as int);
                    let c0 = count_chars(t, d[0]);
                    let c1 = count_chars(t, d[1]);
                    proof {
                        lemma_char_count_grows(tt, d@[0] + 2, d@[1] as int);
                        assert(char_count(tt, d@[0] + 1) == char_count(tt, d@[0] as int) + 1);
                        assert(char_count(tt, d@[0] + 2) == char_count(tt, d@[0] + 1) + 1);
                    }
                    let (a1, e1) = trim_bytes(t, 0, c0);
                    let (a2, e2) = trim_bytes(t, c0 + 2, c1);
                    let (a3, e3) = trim_bytes(t, c1 + 2, n);
                    if a1 == e1 || a2 == e2 || a3 == e3 {
                        Err(IndexSpecError::MissingStepPart)
                    } else {
                        Ok(
                            IndexSpecShape::Stepped {
                                start: locate_range(t, a1, e1),
                                dotdot: (c0, c0 + 2),
                                end: locate_range(t, a2, e2),
                                step_dotdot: (c1, c1 + 2),
                                step: locate_range(t, a3, e3),
                            },
                        )
                    }
                } else if d.len() == 1 {
                    assert(dot_pairs(tt, 0)[0] == d@[0] as int);
                    let c0 = count_chars(t, d[0]);
                    let (a1, e1) = trim_bytes(t, 0, c0);
                    let (a2, e2) = trim_bytes(t, c0 + 2, n);
                    if a1 == e1 || a2 == e2 {
                        Err(IndexSpecError::MissingRangeBound)
                    } else {
                        Ok(
                            IndexSpecShape::Range {
                                start: locate_range(t, a1, e1),
                                dotdot: (c0, c0 + 2),
                                end: locate_range(t, a2, e2),
                            },
                        )
                    }
                } else {
                    Ok(IndexSpecShape::Single { expr: (0, n) })
                }
            },
        }
    };
    ((ts, te), shape)
}

} // verus!
