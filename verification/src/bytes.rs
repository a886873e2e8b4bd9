//! Small byte-level helpers shared by the wire-format modules, with named
//! constants for the ASCII bytes the protocol speaks of.

use vstd::prelude::*;

verus! {

/// ASCII horizontal tab.
pub const HTAB: u8 = 9;

/// ASCII line feed.
pub const LF: u8 = 10;

/// ASCII carriage return.
pub const CR: u8 = 13;

/// ASCII space.
pub const SP: u8 = 32;

/// ASCII colon.
pub const COLON: u8 = 58;

/// Whether `b` counts as ASCII whitespace when lines and values are trimmed.
pub open spec fn is_ascii_ws(b: u8) -> bool {
    b == SP || b == HTAB || b == CR || b == LF
}

/// Exec mirror of [`is_ascii_ws`].
pub fn ascii_ws(b: u8) -> (r: bool)
    ensures
        r == is_ascii_ws(b),
{
    b == SP || b == HTAB || b == CR || b == LF
}

/// Whether two byte slices hold the same bytes.
pub fn bytes_eq(a: &[u8], b: &[u8]) -> (r: bool)
    ensures
        r == (a@ == b@),
{
    if a.len() != b.len() {
        assert(a@.len() != b@.len());
        return false;
    }
    let mut i: usize = 0;
    while i < a.len()
        invariant
            i <= a.len(),
            a.len() == b.len(),
            forall|j: int| 0 <= j < i ==> a@[j] == b@[j],
        decreases a.len() - i,
    {
        if a[i] != b[i] {
            return false;
        }
        i += 1;
    }
    assert(a@ =~= b@);
    true
}

/// The first position of `needle` in `haystack`, if any.
pub open spec fn spec_find_byte(haystack: Seq<u8>, needle: u8) -> Option<int>
    decreases haystack.len(),
{
    if haystack.len() == 0 {
        None
    } else if haystack[0] == needle {
        Some(0int)
    } else {
        match spec_find_byte(haystack.skip(1), needle) {
            Some(i) => Some(i + 1),
            None => None,
        }
    }
}

/// What [`spec_find_byte`] returns, said directly: the least index holding
/// `needle`, or `None` when no index does.
pub proof fn lemma_find_byte(haystack: Seq<u8>, needle: u8)
    ensures
        match spec_find_byte(haystack, needle) {
            Some(i) => {
                &&& 0 <= i < haystack.len()
                &&& haystack[i] == needle
                &&& forall|j: int| 0 <= j < i ==> haystack[j] != needle
            },
            None => forall|j: int| 0 <= j < haystack.len() ==> haystack[j] != needle,
        },
    decreases haystack.len(),
{
    if haystack.len() > 0 && haystack[0] != needle {
        let rest = haystack.skip(1);
        lemma_find_byte(rest, needle);
        assert(forall|j: int| 0 <= j < rest.len() ==> rest[j] == haystack[j + 1]);
        match spec_find_byte(rest, needle) {
            Some(i) => {
                assert(haystack[i + 1] == rest[i]);
                assert(forall|j: int| 1 <= j < i + 1 ==> haystack[j] == rest[j - 1]);
            },
            None => {
                assert(forall|j: int| 1 <= j < haystack.len() ==> haystack[j] == rest[j - 1]);
            },
        }
    }
}

/// Find the first occurrence of a byte in a slice.
pub fn find_byte(haystack: &[u8], needle: u8) -> (r: Option<usize>)
    ensures
        match r {
            Some(i) => spec_find_byte(haystack@, needle) == Some(i as int),
            None => spec_find_byte(haystack@, needle) is None,
        },
{
    proof {
        lemma_find_byte(haystack@, needle);
    }
    let mut i: usize = 0;
    while i < haystack.len()
        invariant
            i <= haystack.len(),
            forall|j: int| 0 <= j < i ==> haystack@[j] != needle,
        decreases haystack.len() - i,
    {
        if haystack[i] == needle {
            proof {
                lemma_find_byte_unique(haystack@, needle, i as int);
            }
            return Some(i);
        }
        i += 1;
    }
    None
}

/// An index that holds `needle`, with nothing before it that does, is the one
/// [`spec_find_byte`] returns.
pub proof fn lemma_find_byte_unique(haystack: Seq<u8>, needle: u8, i: int)
    requires
        0 <= i < haystack.len(),
        haystack[i] == needle,
        forall|j: int| 0 <= j < i ==> haystack[j] != needle,
    ensures
        spec_find_byte(haystack, needle) == Some(i),
    decreases i,
{
    if i > 0 {
        lemma_find_byte_unique(haystack.skip(1), needle, i - 1);
    }
}

/// `s` with trailing ASCII whitespace removed.
pub open spec fn spec_trim_end(s: Seq<u8>) -> Seq<u8>
    decreases s.len(),
{
    if s.len() == 0 {
        s
    } else if is_ascii_ws(s[s.len() - 1]) {
        spec_trim_end(s.take(s.len() - 1))
    } else {
        s
    }
}

/// `s` with leading ASCII whitespace removed.
pub open spec fn spec_trim_start(s: Seq<u8>) -> Seq<u8>
    decreases s.len(),
{
    if s.len() == 0 {
        s
    } else if is_ascii_ws(s[0]) {
        spec_trim_start(s.skip(1))
    } else {
        s
    }
}

/// `s` with whitespace removed at both ends.
pub open spec fn spec_trim(s: Seq<u8>) -> Seq<u8> {
    spec_trim_start(spec_trim_end(s))
}

/// The views of an owned header list: each entry's name and value bytes.
pub open spec fn hdr_views(hs: Seq<(Vec<u8>, Vec<u8>)>) -> Seq<(Seq<u8>, Seq<u8>)> {
    Seq::new(hs.len(), |i: int| (hs[i].0@, hs[i].1@))
}

/// Whether `p` is a prefix of `s`.
pub open spec fn spec_starts_with(s: Seq<u8>, p: Seq<u8>) -> bool {
    p.len() <= s.len() && s.subrange(0, p.len() as int) == p
}

/// Test whether `s` begins with the bytes of `p`.
pub fn starts_with(s: &[u8], p: &[u8]) -> (r: bool)
    ensures
        r == spec_starts_with(s@, p@),
{
    if p.len() > s.len() {
        return false;
    }
    let mut i: usize = 0;
    while i < p.len()
        invariant
            i <= p.len() <= s.len(),
            forall|j: int| 0 <= j < i ==> s@[j] == p@[j],
        decreases p.len() - i,
    {
        if s[i] != p[i] {
            assert(s@.subrange(0, p@.len() as int)[i as int] != p@[i as int]);
            return false;
        }
        i += 1;
    }
    assert(s@.subrange(0, p@.len() as int) =~= p@);
    true
}

/// Trimming a concatenation from the right either stops inside `b`, or
/// removes `b` entirely and goes on trimming `a`.
pub proof fn lemma_trim_end_concat(a: Seq<u8>, b: Seq<u8>)
    ensures
        spec_trim_end(a + b) == if spec_trim_end(b).len() > 0 {
            a + spec_trim_end(b)
        } else {
            spec_trim_end(a)
        },
    decreases b.len(),
{
    if b.len() == 0 {
        assert(a + b =~= a);
    } else if is_ascii_ws(b[b.len() - 1]) {
        assert((a + b).take((a + b).len() - 1) =~= a + b.take(b.len() - 1));
        lemma_trim_end_concat(a, b.take(b.len() - 1));
    } else {
        assert(spec_trim_end(b) == b);
    }
}

/// A right-trimmed sequence is empty or ends in a non-whitespace byte, so
/// trimming it again changes nothing.
pub proof fn lemma_trim_end_stable(s: Seq<u8>)
    ensures
        spec_trim_end(s).len() == 0 || !is_ascii_ws(spec_trim_end(s).last()),
        spec_trim_end(spec_trim_end(s)) == spec_trim_end(s),
    decreases s.len(),
{
    if s.len() > 0 && is_ascii_ws(s[s.len() - 1]) {
        lemma_trim_end_stable(s.take(s.len() - 1));
    }
}

/// Copy `slice[from..to]` into an owned vector.
pub fn sub_bytes(slice: &[u8], from: usize, to: usize) -> (r: Vec<u8>)
    requires
        from <= to <= slice@.len(),
    ensures
        r@ == slice@.subrange(from as int, to as int),
{
    let mut r: Vec<u8> = Vec::new();
    let mut i: usize = from;
    while i < to
        invariant
            from <= i <= to <= slice@.len(),
            r@ == slice@.subrange(from as int, i as int),
        decreases to - i,
    {
        r.push(slice[i]);
        proof {
            assert(r@ =~= slice@.subrange(from as int, i + 1 as int));
        }
        i += 1;
    }
    r
}

/// The index one past the last non-whitespace byte of `s[..len]`.
fn trimmed_end_index(s: &[u8], len: usize) -> (r: usize)
    requires
        len <= s@.len(),
    ensures
        r <= len,
        spec_trim_end(s@.take(len as int)) == s@.subrange(0, r as int),
{
    let mut end: usize = len;
    while end > 0 && ascii_ws(s[end - 1])
        invariant
            end <= len <= s@.len(),
            spec_trim_end(s@.take(len as int)) == spec_trim_end(s@.take(end as int)),
        decreases end,
    {
        proof {
            assert(s@.take(end as int).take(end - 1) =~= s@.take(end - 1));
        }
        end -= 1;
    }
    proof {
        if end > 0 {
            assert(!is_ascii_ws(s@.take(end as int)[end - 1]));
        }
        assert(spec_trim_end(s@.take(end as int)) =~= s@.subrange(0, end as int));
    }
    end
}

/// `s[..len]` with trailing ASCII whitespace removed, as owned bytes.
pub fn trim_end_bytes(s: &[u8], len: usize) -> (r: Vec<u8>)
    requires
        len <= s@.len(),
    ensures
        r@ == spec_trim_end(s@.take(len as int)),
{
    let end = trimmed_end_index(s, len);
    sub_bytes(s, 0, end)
}

/// `s` with ASCII whitespace removed at both ends, as owned bytes.
pub fn trim_bytes(s: &[u8]) -> (r: Vec<u8>)
    ensures
        r@ == spec_trim(s@),
{
    let end = trimmed_end_index(s, s.len());
    proof {
        assert(s@.take(s@.len() as int) =~= s@);
    }
    let mut start: usize = 0;
    while start < end && ascii_ws(s[start])
        invariant
            start <= end <= s@.len(),
            spec_trim_end(s@) == s@.subrange(0, end as int),
            spec_trim_start(s@.subrange(0, end as int)) == spec_trim_start(
                s@.subrange(start as int, end as int),
            ),
        decreases end - start,
    {
        proof {
            assert(s@.subrange(start as int, end as int).skip(1) =~= s@.subrange(
                start + 1 as int,
                end as int,
            ));
        }
        start += 1;
    }
    proof {
        let mid = s@.subrange(start as int, end as int);
        if start < end {
            assert(!is_ascii_ws(mid[0]));
        }
        assert(spec_trim_start(mid) =~= mid);
    }
    sub_bytes(s, start, end)
}

} // verus!
