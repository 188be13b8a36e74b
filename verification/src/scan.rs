//! Byte scanning: first occurrence of a delimiter inside a range, and
//! leading-whitespace skipping, each with a spec-level counterpart.

use vstd::prelude::*;

verus! {

/// Line feed.
pub const NL: u8 = 10;

/// Carriage return.
pub const CR: u8 = 13;

/// Space.
pub const SP: u8 = 32;

/// Horizontal tab.
pub const HTAB: u8 = 9;

/// Colon.
pub const COLON: u8 = 58;

/// Index of the first occurrence of `x` in `b[from..end]`, if any.
pub open spec fn spec_find_in(b: Seq<u8>, x: u8, from: int, end: int) -> Option<int>
    decreases end - from,
{
    if from < 0 || from >= end || end > b.len() {
        None
    } else if b[from] == x {
        Some(from)
    } else {
        spec_find_in(b, x, from + 1, end)
    }
}

/// What a found index means: it is the first occurrence in the range;
/// `None` means the byte does not occur in the range at all.
pub proof fn lemma_find_in_facts(b: Seq<u8>, x: u8, from: int, end: int)
    requires
        0 <= from,
        end <= b.len(),
    ensures
        match spec_find_in(b, x, from, end) {
            Some(i) => from <= i < end && b[i] == x && (forall|j: int|
                from <= j < i ==> b[j] != x),
            None => forall|j: int| from <= j < end ==> b[j] != x,
        },
    decreases end - from,
{
    if from < end && b[from] != x {
        lemma_find_in_facts(b, x, from + 1, end);
    }
}

/// A first occurrence pins the search down: if `b[i] == x` and nothing
/// before `i` in the range matches, the search returns exactly `i`.
pub proof fn lemma_find_in_witness(b: Seq<u8>, x: u8, from: int, i: int, end: int)
    requires
        0 <= from <= i < end <= b.len(),
        b[i] == x,
        forall|j: int| from <= j < i ==> b[j] != x,
    ensures
        spec_find_in(b, x, from, end) == Some(i),
    decreases i - from,
{
    if from < i {
        lemma_find_in_witness(b, x, from + 1, i, end);
    }
}

/// Appending bytes after `end` does not change what a bounded search finds.
pub proof fn lemma_find_in_append(b: Seq<u8>, s: Seq<u8>, x: u8, from: int, end: int)
    requires
        0 <= from,
        end <= b.len(),
    ensures
        spec_find_in(b + s, x, from, end) == spec_find_in(b, x, from, end),
    decreases end - from,
{
    if from < end {
        assert((b + s)[from] == b[from]);
        if b[from] != x {
            lemma_find_in_append(b, s, x, from + 1, end);
        }
    }
}

/// Widening the right bound past a successful search leaves it unchanged.
pub proof fn lemma_find_in_extend_end(b: Seq<u8>, x: u8, from: int, end1: int, end2: int)
    requires
        0 <= from,
        end1 <= end2 <= b.len(),
        spec_find_in(b, x, from, end1) is Some,
    ensures
        spec_find_in(b, x, from, end2) == spec_find_in(b, x, from, end1),
{
    lemma_find_in_facts(b, x, from, end1);
    match spec_find_in(b, x, from, end1) {
        Some(i) => lemma_find_in_witness(b, x, from, i, end2),
        None => (),
    }
}

/// First occurrence of `x` in `buf[from..end]`, scanning left to right.
pub fn find_in(buf: &Vec<u8>, x: u8, from: usize, end: usize) -> (r: Option<usize>)
    requires
        from <= end <= buf@.len(),
    ensures
        match r {
            Some(i) => spec_find_in(buf@, x, from as int, end as int) == Some(i as int),
            None => spec_find_in(buf@, x, from as int, end as int) is None,
        },
{
    let mut i = from;
    loop
        invariant
            from <= i <= end <= buf@.len(),
            spec_find_in(buf@, x, from as int, end as int) == spec_find_in(
                buf@,
                x,
                i as int,
                end as int,
            ),
        decreases end - i,
    {
        if i >= end {
            return None;
        }
        if buf[i] == x {
            return Some(i);
        }
        i = i + 1;
    }
}

/// First index in `[from, end)` that holds neither a space nor a tab;
/// `end` when the whole range is whitespace.
pub open spec fn spec_skip_ws(b: Seq<u8>, from: int, end: int) -> int
    decreases end - from,
{
    if from < 0 || from >= end || end > b.len() {
        from
    } else if b[from] == SP || b[from] == HTAB {
        spec_skip_ws(b, from + 1, end)
    } else {
        from
    }
}

/// The skipped-to index stays inside the range.
pub proof fn lemma_skip_ws_bounds(b: Seq<u8>, from: int, end: int)
    requires
        0 <= from <= end <= b.len(),
    ensures
        from <= spec_skip_ws(b, from, end) <= end,
    decreases end - from,
{
    if from < end && (b[from] == SP || b[from] == HTAB) {
        lemma_skip_ws_bounds(b, from + 1, end);
    }
}

/// Appending bytes after `end` does not change where whitespace ends.
pub proof fn lemma_skip_ws_append(b: Seq<u8>, s: Seq<u8>, from: int, end: int)
    requires
        0 <= from,
        end <= b.len(),
    ensures
        spec_skip_ws(b + s, from, end) == spec_skip_ws(b, from, end),
    decreases end - from,
{
    if from < end {
        assert((b + s)[from] == b[from]);
        if b[from] == SP || b[from] == HTAB {
            lemma_skip_ws_append(b, s, from + 1, end);
        }
    }
}

/// Skip leading spaces and tabs in `buf[from..end]`.
pub fn skip_ws(buf: &Vec<u8>, from: usize, end: usize) -> (r: usize)
    requires
        from <= end <= buf@.len(),
    ensures
        r as int == spec_skip_ws(buf@, from as int, end as int),
        from <= r <= end,
{
    let mut i = from;
    loop
        invariant
            from <= i <= end <= buf@.len(),
            spec_skip_ws(buf@, from as int, end as int) == spec_skip_ws(
                buf@,
                i as int,
                end as int,
            ),
        decreases end - i,
    {
        if i >= end {
            return i;
        }
        let c = buf[i];
        if c != SP && c != HTAB {
            return i;
        }
        i = i + 1;
    }
}

/// Byte-for-byte comparison of two ranges of the same buffer.
pub fn ranges_eq(buf: &Vec<u8>, a0: usize, a1: usize, b0: usize, b1: usize) -> (r: bool)
    requires
        a0 <= a1 <= buf@.len(),
        b0 <= b1 <= buf@.len(),
    ensures
        r == (buf@.subrange(a0 as int, a1 as int) == buf@.subrange(b0 as int, b1 as int)),
{
    let n = a1 - a0;
    if b1 - b0 != n {
        proof {
            assert(buf@.subrange(a0 as int, a1 as int).len() != buf@.subrange(
                b0 as int,
                b1 as int,
            ).len());
        }
        return false;
    }
    let mut k: usize = 0;
    while k < n
        invariant
            0 <= k <= n,
            n == a1 - a0 == b1 - b0,
            a0 <= a1 <= buf@.len(),
            b0 <= b1 <= buf@.len(),
            forall|j: int| 0 <= j < k ==> #[trigger] buf@[a0 + j] == buf@[b0 + j],
        decreases n - k,
    {
        if buf[a0 + k] != buf[b0 + k] {
            proof {
                assert(buf@.subrange(a0 as int, a1 as int)[k as int] != buf@.subrange(
                    b0 as int,
                    b1 as int,
                )[k as int]);
            }
            return false;
        }
        k = k + 1;
    }
    proof {
        assert forall|j: int|
            0 <= j < n implies buf@.subrange(a0 as int, a1 as int)[j] == buf@.subrange(
            b0 as int,
            b1 as int,
        )[j] by {
            assert(buf@[a0 + j] == buf@[b0 + j]);
        }
        assert(buf@.subrange(a0 as int, a1 as int) =~= buf@.subrange(b0 as int, b1 as int));
    }
    true
}

/// Byte-for-byte comparison of `buf[start..end]` against `other`.
pub fn range_eq(buf: &Vec<u8>, start: usize, end: usize, other: &[u8]) -> (r: bool)
    requires
        start <= end <= buf@.len(),
    ensures
        r == (buf@.subrange(start as int, end as int) == other@),
{
    let n = other.len();
    if end - start != n {
        proof {
            assert(buf@.subrange(start as int, end as int).len() != other@.len());
        }
        return false;
    }
    let mut k: usize = 0;
    while k < n
        invariant
            0 <= k <= n,
            n == end - start,
            start <= end <= buf@.len(),
            n == other@.len(),
            forall|j: int| 0 <= j < k ==> buf@[start + j] == other@[j],
        decreases n - k,
    {
        if buf[start + k] != other[k] {
            proof {
                assert(buf@.subrange(start as int, end as int)[k as int] != other@[k as int]);
            }
            return false;
        }
        k = k + 1;
    }
    proof {
        assert(buf@.subrange(start as int, end as int) =~= other@);
    }
    true
}

} // verus!
