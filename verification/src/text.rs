//! Text scanning helpers used when locating keywords, operators and braces in
//! source text. Positions are byte offsets into the UTF-8 text.
use vstd::prelude::*;
use crate::span::Span;
use vstd::string::StringSliceAdditionalSpecFns;

verus! {

/// `needle` occurs in `hay` at byte offset `i`.
pub open spec fn occurs_at(hay: Seq<u8>, needle: Seq<u8>, i: int) -> bool {
    0 <= i && i + needle.len() <= hay.len() && hay.subrange(i, i + needle.len()) == needle
}

/// Whether `needle` occurs in `hay` at offset `i`.
fn bytes_occur_at(hay: &[u8], needle: &[u8], i: usize) -> (b: bool)
    requires
        i <= hay@.len(),
    ensures
        b == occurs_at(hay@, needle@, i as int),
{
    let m = hay.len();
    if needle.len() > m - i {
        return false;
    }
    let mut k: usize = 0;
    while k < needle.len()
        invariant
            m == hay@.len(),
            i <= hay@.len(),
            i + needle@.len() <= hay@.len(),
            0 <= k <= needle@.len(),
            forall|j: int| 0 <= j < k ==> hay@[i + j] == needle@[j],
        decreases needle@.len() - k,
    {
        if hay[i + k] != needle[k] {
            assert(hay@.subrange(i as int, i + needle@.len())[k as int] != needle@[k as int]);
            return false;
        }
        k += 1;
    }
    assert(hay@.subrange(i as int, i + needle@.len()) =~= needle@);
    true
}

/// The byte offset of the first occurrence of `needle` in `hay`, as `str::find` gives it.
pub fn find_bytes(hay: &[u8], needle: &[u8]) -> (r: Option<usize>)
    ensures
        r matches Some(i) ==> occurs_at(hay@, needle@, i as int) && forall|j: int|
            0 <= j < i ==> !occurs_at(hay@, needle@, j),
        r is None ==> forall|j: int| 0 <= j <= hay@.len() ==> !occurs_at(hay@, needle@, j),
{
    let n = hay.len();
    let mut i: usize = 0;
    while i < n
        invariant
            n == hay@.len(),
            0 <= i <= n,
            forall|j: int| 0 <= j < i ==> !occurs_at(hay@, needle@, j),
        decreases n - i,
    {
        if bytes_occur_at(hay, needle, i) {
            return Some(i);
        }
        i += 1;
    }
    if bytes_occur_at(hay, needle, n) {
        return Some(n);
    }
    None
}

/// The span of the first occurrence of `word` in `text`, offset by `start_offset`
/// (the position of `text` in the source). Finds keywords and operators alike.
pub fn find_keyword_span(text: &str, word: &str, start_offset: usize) -> (r: Option<Span>)
    requires
        start_offset + text.spec_bytes().len() + word.spec_bytes().len() <= usize::MAX,
    ensures
        match r {
            Some(sp) => exists|i: int|
                occurs_at(text.spec_bytes(), word.spec_bytes(), i) && (forall|j: int|
                    0 <= j < i ==> !occurs_at(text.spec_bytes(), word.spec_bytes(), j)) && sp
                    == Span {
                    start: (start_offset + i) as u32,
                    end: (start_offset + i + word.spec_bytes().len()) as u32,
                },
            None => forall|j: int|
                0 <= j <= text.spec_bytes().len() ==> !occurs_at(
                    text.spec_bytes(),
                    word.spec_bytes(),
                    j,
                ),
        },
{
    let hay = text.as_bytes();
    let needle = word.as_bytes();
    match find_bytes(hay, needle) {
        Some(pos) => {
            let start = start_offset + pos;
            let end = start + needle.len();
            Some(Span::from_usize(start, end))
        },
        None => None,
    }
}

/// Byte offset of the first `{` in `text`.
pub fn find_opening_brace(text: &str) -> (r: Option<usize>)
    ensures
        r matches Some(i) ==> i < text.spec_bytes().len() && text.spec_bytes()[i as int] == 123u8
            && forall|j: int| 0 <= j < i ==> text.spec_bytes()[j] != 123u8,
        r is None ==> forall|j: int|
            0 <= j < text.spec_bytes().len() ==> text.spec_bytes()[j] != 123u8,
{
    let b = text.as_bytes();
    let n = b.len();
    let mut i: usize = 0;
    while i < n
        invariant
            n == b@.len(),
            b@ == text.spec_bytes(),
            0 <= i <= n,
            forall|j: int| 0 <= j < i ==> b@[j] != 123u8,
        decreases n - i,
    {
        if b[i] == 123u8 {
            return Some(i);
        }
        i += 1;
    }
    None
}

/// The number of `{` minus the number of `}` among the `k` bytes of `b` from `start`.
pub open spec fn brace_depth(b: Seq<u8>, start: int, k: int) -> int
    decreases k,
{
    if k <= 0 {
        0
    } else {
        brace_depth(b, start, k - 1) + if b[start + k - 1] == 123u8 {
            1int
        } else if b[start + k - 1] == 125u8 {
            -1int
        } else {
            0int
        }
    }
}

/// The brace count returns to zero at a `}` ending the `k` bytes from `start`.
pub open spec fn closes_at(b: Seq<u8>, start: int, k: int) -> bool {
    k >= 1 && b[start + k - 1] == 125u8 && brace_depth(b, start, k) == 0
}

/// `f` is the first `{` at or after `from`.
pub open spec fn is_first_open(b: Seq<u8>, from: int, f: int) -> bool {
    &&& from <= f < b.len()
    &&& b[f] == 123u8
    &&& forall|j: int| from <= j < f ==> b[j] != 123u8
}

/// `p` is the offset just past the first `}` at which the count of `{` minus
/// `}` from the `{` at `f` returns to zero.
pub open spec fn first_close(b: Seq<u8>, f: int, p: int) -> bool {
    &&& f < p <= b.len()
    &&& closes_at(b, f, p - f)
    &&& forall|k: int| 1 <= k < p - f ==> !closes_at(b, f, k)
}

/// The count from `f` never returns to zero at a `}`.
pub open spec fn never_closes(b: Seq<u8>, f: int) -> bool {
    forall|k: int| 1 <= k <= b.len() - f ==> !closes_at(b, f, k)
}

/// Find the brace that closes the first `{` at or after `brace_start`,
/// counting nested braces: the offset just past the first `}` at which the
/// count of `{` minus `}` from that `{` returns to zero. A `}` before the
/// first `{` is passed over. `None` when there is no `{` or it is never
/// closed.
pub fn find_matching_brace(text: &str, brace_start: usize) -> (r: Option<usize>)
    requires
        brace_start <= text.spec_bytes().len(),
        vstd::utf8::is_char_boundary(text.spec_bytes(), brace_start as int),
        text.spec_bytes().len() <= i64::MAX,
    ensures
        match r {
            Some(p) => exists|f: int|
                is_first_open(text.spec_bytes(), brace_start as int, f) && first_close(text.spec_bytes(), f, p as int),
            None => forall|f: int|
                is_first_open(text.spec_bytes(), brace_start as int, f) ==> never_closes(text.spec_bytes(), f),
        },
{
    let b = text.as_bytes();
    let n = b.len();
    let mut f: usize = brace_start;
    while f < n && b[f] != 123u8
        invariant
            n == b@.len(),
            b@ == text.spec_bytes(),
            brace_start <= f <= n,
            forall|j: int| brace_start <= j < f ==> b@[j] != 123u8,
        decreases n - f,
    {
        f += 1;
    }
    if f >= n {
        return None;
    }
    assert(is_first_open(b@, brace_start as int, f as int));
    proof {
        assert forall|g: int| is_first_open(b@, brace_start as int, g) implies g == f by {
            if g < f {
                assert(b@[g] != 123u8);
            } else if g > f {
                assert(b@[f as int] != 123u8);
            }
        }
    }
    let mut count: i64 = 0;
    let mut i: usize = f;
    while i < n
        invariant
            n == b@.len(),
            b@ == text.spec_bytes(),
            f <= i <= n,
            f < n,
            is_first_open(b@, brace_start as int, f as int),
            forall|g: int| is_first_open(b@, brace_start as int, g) ==> g == f,
            n <= i64::MAX,
            count as int == brace_depth(b@, f as int, i - f),
            -(i - f) <= count <= i - f,
            forall|k: int| 1 <= k <= i - f ==> !closes_at(b@, f as int, k),
        decreases n - i,
    {
        let ghost k = i - f + 1;
        assert(brace_depth(b@, f as int, k) == brace_depth(b@, f as int, k - 1) + if b@[f + k - 1]
            == 123u8 {
            1int
        } else if b@[f + k - 1] == 125u8 {
            -1int
        } else {
            0int
        });
        if b[i] == 123u8 {
            count = count + 1;
        } else if b[i] == 125u8 {
            count = count - 1;
            if count == 0 {
                assert(first_close(b@, f as int, (i + 1) as int));
                return Some(i + 1);
            }
        }
        i += 1;
    }
    None
}

/// The content strictly between the brace at `brace_start` and the end of
/// the brace that `find_matching_brace` finds from it, or `None` when it
/// finds none. Both `brace_start` and the offset after it must be character
/// boundaries.
pub fn extract_braced_content(text: &str, brace_start: usize) -> (r: Option<&str>)
    requires
        brace_start < text.spec_bytes().len(),
        text.spec_bytes().len() <= i64::MAX,
        vstd::utf8::is_char_boundary(text.spec_bytes(), brace_start as int),
        vstd::utf8::is_char_boundary(text.spec_bytes(), brace_start + 1),
    ensures
        match r {
            Some(s) => exists|f: int, p: int|
                #![trigger text.spec_bytes().subrange(brace_start + 1, p - 1), is_first_open(text.spec_bytes(), brace_start as int, f)]
                is_first_open(text.spec_bytes(), brace_start as int, f) && first_close(text.spec_bytes(), f, p)
                    && s.spec_bytes() == text.spec_bytes().subrange(brace_start + 1, p - 1),
            None => forall|f: int|
                is_first_open(text.spec_bytes(), brace_start as int, f) ==> never_closes(text.spec_bytes(), f),
        },
{
    match find_matching_brace(text, brace_start) {
        None => None,
        Some(brace_end) => {
            let ghost f = choose|f: int| is_first_open(text.spec_bytes(), brace_start as int, f) && first_close(text.spec_bytes(), f, brace_end as int);
            proof {
                let b = text.spec_bytes();
                assert(brace_depth(b, f, 1) == brace_depth(b, f, 0) + (if b[f] == 123u8 { 1int } else if b[f] == 125u8 { -1int } else { 0int }));
                assert(!closes_at(b, f, 1));
                assert(brace_end - 1 >= brace_start + 1);
                vstd::utf8::encode_utf8_valid_utf8(text@);
            }
            let (_, tail) = text.split_at(brace_start + 1);
            proof {
                vstd::utf8::encode_utf8_valid_utf8(tail@);
                let tb = tail.spec_bytes();
                let idx = brace_end - 1 - (brace_start + 1);
                if idx > 0 {
                    assert(tb[idx] == text.spec_bytes()[brace_end - 1]);
                    vstd::utf8::is_char_boundary_iff_not_is_continuation_byte(tb, idx);
                }
            }
            let (content, _) = tail.split_at(brace_end - 1 - (brace_start + 1));
            assert(content.spec_bytes() =~= text.spec_bytes().subrange(
                brace_start + 1,
                brace_end - 1,
            ));
            Some(content)
        },
    }
}

/// An ASCII letter or digit.
pub open spec fn is_ascii_alnum(c: u8) -> bool {
    (48u8 <= c <= 57u8) || (65u8 <= c <= 90u8) || (97u8 <= c <= 122u8)
}

/// Whether `c` is an ASCII letter or digit.
fn ascii_alnum(c: u8) -> (r: bool)
    ensures
        r == is_ascii_alnum(c),
{
    (48u8 <= c && c <= 57u8) || (65u8 <= c && c <= 90u8) || (97u8 <= c && c <= 122u8)
}

/// `keyword` starts at `i` in `text` as a whole word, not part of another
/// word: the byte before it and the byte after it, where there are such
/// bytes, are not letters or digits.
pub open spec fn word_at(text: Seq<u8>, keyword: Seq<u8>, i: int) -> bool {
    &&& occurs_at(text, keyword, i)
    &&& (i > 0 ==> !is_ascii_alnum(text[i - 1]))
    &&& (i + keyword.len() < text.len() ==> !is_ascii_alnum(text[i + keyword.len()]))
}

/// Find `keyword` as a whole word in `text`, not part of another word: the
/// first offset where it starts with no letter or digit just before or just
/// after it. Letters and digits are the ASCII ones.
pub fn find_word_boundary(text: &str, keyword: &str) -> (r: Option<usize>)
    ensures
        match r {
            Some(i) => i < text.spec_bytes().len() && word_at(
                text.spec_bytes(),
                keyword.spec_bytes(),
                i as int,
            ) && forall|j: int| 0 <= j < i ==> !word_at(text.spec_bytes(), keyword.spec_bytes(), j),
            None => forall|j: int|
                0 <= j < text.spec_bytes().len() ==> !word_at(
                    text.spec_bytes(),
                    keyword.spec_bytes(),
                    j,
                ),
        },
{
    let hay = text.as_bytes();
    let needle = keyword.as_bytes();
    let n = hay.len();
    let mut i: usize = 0;
    while i < n
        invariant
            n == hay@.len(),
            hay@ == text.spec_bytes(),
            needle@ == keyword.spec_bytes(),
            0 <= i <= n,
            forall|j: int| 0 <= j < i ==> !word_at(hay@, needle@, j),
        decreases n - i,
    {
        if bytes_occur_at(hay, needle, i) {
            let after = i + needle.len();
            let after_ok = if after < n {
                !ascii_alnum(hay[after])
            } else {
                true
            };
            let before_ok = if i > 0 {
                !ascii_alnum(hay[i - 1])
            } else {
                true
            };
            if before_ok && after_ok {
                return Some(i);
            }
        }
        i += 1;
    }
    None
}

} // verus!
