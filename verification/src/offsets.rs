//! Byte-range views: half-open offset pairs into one owned byte buffer.

use vstd::prelude::*;

verus! {

/// A half-open range `(start, end)` into the byte buffer it travels with.
/// It never owns bytes; it is meaningless without that buffer.
pub type VecOffset = (usize, usize);

/// The recognized request line: method, path and http-version ranges,
/// all into the same buffer. Built once, immutable afterwards.
#[derive(Clone, Copy, PartialEq, Eq, Debug)]
pub struct RequestHead {
    pub method: VecOffset,
    pub path: VecOffset,
    pub http_version: VecOffset,
}

/// The ordered header list: one (name range, value range) pair per header
/// line, in wire order. Duplicates are kept here; the last one wins only
/// when the list is surfaced as a mapping.
pub type RequestHeaders = Vec<(VecOffset, VecOffset)>;

/// Mathematical view of a request head: the same three ranges over `int`.
pub struct SpecHead {
    pub method: (int, int),
    pub path: (int, int),
    pub version: (int, int),
}

impl View for RequestHead {
    type V = SpecHead;

    open spec fn view(&self) -> SpecHead {
        SpecHead {
            method: (self.method.0 as int, self.method.1 as int),
            path: (self.path.0 as int, self.path.1 as int),
            version: (self.http_version.0 as int, self.http_version.1 as int),
        }
    }
}

/// Mathematical view of one header entry: name and value ranges over `int`.
pub struct SpecHeader {
    pub name: (int, int),
    pub value: (int, int),
}

/// View of a header list as a sequence of spec header entries.
pub open spec fn hdrs_view(h: Seq<(VecOffset, VecOffset)>) -> Seq<SpecHeader> {
    h.map_values(
        |p: (VecOffset, VecOffset)|
            SpecHeader {
                name: (p.0.0 as int, p.0.1 as int),
                value: (p.1.0 as int, p.1.1 as int),
            },
    )
}

/// A spec range lies inside a buffer of length `len` and is well ordered.
pub open spec fn range_wf(r: (int, int), len: int) -> bool {
    0 <= r.0 <= r.1 <= len
}

/// All three head ranges lie inside a buffer of length `len`.
pub open spec fn head_wf(h: SpecHead, len: int) -> bool {
    &&& range_wf(h.method, len)
    &&& range_wf(h.path, len)
    &&& range_wf(h.version, len)
}

/// Every header entry's ranges lie inside a buffer of length `len`.
pub open spec fn headers_wf(hs: Seq<SpecHeader>, len: int) -> bool {
    forall|i: int|
        0 <= i < hs.len() ==> range_wf(#[trigger] hs[i].name, len) && range_wf(hs[i].value, len)
}

} // verus!
