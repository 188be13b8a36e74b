//! Request-line recognizer: consumes exactly the first line of the buffer
//! and validates the `<METHOD> <PATH> HTTP/1.1` shape.

use crate::offsets::{RequestHead, SpecHead};
use crate::scan::{
    find_in, lemma_find_in_append, lemma_find_in_extend_end, lemma_find_in_facts, spec_find_in,
    CR, NL, SP,
};
use vstd::prelude::*;

verus! {

/// The bytes of the only accepted version token, `HTTP/1.1`.
pub open spec fn http_version_literal() -> Seq<u8> {
    seq![72u8, 84u8, 84u8, 80u8, 47u8, 49u8, 46u8, 49u8]
}

/// Content end of the line `[start, nl)`: one trailing carriage return,
/// if present, is trimmed.
pub open spec fn spec_line_content_end(b: Seq<u8>, start: int, nl: int) -> int {
    if nl > start && b[nl - 1] == CR {
        nl - 1
    } else {
        nl
    }
}

/// Outcome of recognizing the request line.
pub enum HeadOutcome {
    /// No newline yet terminates the first line: wait for more bytes.
    Incomplete,
    /// The first line is fully present but does not split into exactly
    /// three space-separated tokens: fatal.
    Invalid,
    /// The first line is fully present and three-token shaped, but its
    /// third token is not exactly `HTTP/1.1`: fatal.
    UnsupportedVersion,
    /// Bytes consumed (terminator included) and the recognized head.
    Complete(int, SpecHead),
}

/// Recognize the first line of `b`: split on the first newline, trim one
/// trailing carriage return, demand exactly two spaces and the literal
/// `HTTP/1.1` after the second one.
pub open spec fn spec_request_line(b: Seq<u8>) -> HeadOutcome {
    match spec_find_in(b, NL, 0, b.len() as int) {
        Option::None => HeadOutcome::Incomplete,
        Option::Some(nl) => {
            let ce = spec_line_content_end(b, 0, nl);
            match spec_find_in(b, SP, 0, ce) {
                Option::None => HeadOutcome::Invalid,
                Option::Some(sp1) => match spec_find_in(b, SP, sp1 + 1, ce) {
                    Option::None => HeadOutcome::Invalid,
                    Option::Some(sp2) => {
                        if spec_find_in(b, SP, sp2 + 1, ce) is Some {
                            HeadOutcome::Invalid
                        } else if b.subrange(sp2 + 1, ce) == http_version_literal() {
                            HeadOutcome::Complete(
                                nl + 1,
                                SpecHead {
                                    method: (0, sp1),
                                    path: (sp1 + 1, sp2),
                                    version: (sp2 + 1, ce),
                                },
                            )
                        } else {
                            HeadOutcome::UnsupportedVersion
                        }
                    },
                },
            }
        },
    }
}

/// A complete request line sits inside the buffer with ordered offsets:
/// method, path and version ranges are well formed and the consumed count
/// never exceeds the buffer length.
pub proof fn lemma_request_line_offsets(b: Seq<u8>)
    requires
        spec_request_line(b) is Complete,
    ensures
        ({
            let n = spec_request_line(b)->Complete_0;
            let h = spec_request_line(b)->Complete_1;
            &&& 0 < n <= b.len()
            &&& 0 == h.method.0 <= h.method.1
            &&& h.method.1 < h.path.0 <= h.path.1
            &&& h.path.1 < h.version.0 <= h.version.1
            &&& h.version.1 < n
        }),
{
    lemma_find_in_facts(b, NL, 0, b.len() as int);
    let nl = spec_find_in(b, NL, 0, b.len() as int)->Some_0;
    let ce = spec_line_content_end(b, 0, nl);
    lemma_find_in_facts(b, SP, 0, ce);
    let sp1 = spec_find_in(b, SP, 0, ce)->Some_0;
    lemma_find_in_facts(b, SP, sp1 + 1, ce);
}

/// Once the request line is complete in a prefix, rescanning any
/// extension of that prefix recognizes the same head and the same
/// consumed count: resubmitting a growing buffer cannot change the
/// verdict on the already-complete first line.
pub proof fn lemma_head_stable_under_append(b: Seq<u8>, s: Seq<u8>)
    requires
        spec_request_line(b) is Complete,
    ensures
        spec_request_line(b + s) == spec_request_line(b),
{
    lemma_find_in_facts(b, NL, 0, b.len() as int);
    lemma_find_in_append(b, s, NL, 0, b.len() as int);
    lemma_find_in_extend_end(b + s, NL, 0, b.len() as int, (b + s).len() as int);
    let nl = spec_find_in(b, NL, 0, b.len() as int)->Some_0;
    if nl > 0 {
        assert((b + s)[nl - 1] == b[nl - 1]);
    }
    let ce = spec_line_content_end(b, 0, nl);
    lemma_find_in_facts(b, SP, 0, ce);
    lemma_find_in_append(b, s, SP, 0, ce);
    match spec_find_in(b, SP, 0, ce) {
        Option::Some(sp1) => {
            lemma_find_in_facts(b, SP, sp1 + 1, ce);
            lemma_find_in_append(b, s, SP, sp1 + 1, ce);
            match spec_find_in(b, SP, sp1 + 1, ce) {
                Option::Some(sp2) => {
                    lemma_find_in_append(b, s, SP, sp2 + 1, ce);
                    assert((b + s).subrange(sp2 + 1, ce) =~= b.subrange(sp2 + 1, ce));
                },
                Option::None => (),
            }
        },
        Option::None => (),
    }
}

/// Exec-side outcome of the request-line recognizer.
pub enum HeadStatus {
    /// The request line has not fully arrived yet.
    Incomplete,
    /// Wrong token count: fatal.
    Invalid,
    /// Version token other than `HTTP/1.1`: fatal.
    UnsupportedVersion,
    /// Bytes consumed (terminator included) and the recognized head.
    Complete(usize, RequestHead),
}

/// The exec status agrees with the spec outcome on the same bytes.
pub open spec fn head_status_matches(b: Seq<u8>, r: HeadStatus) -> bool {
    match spec_request_line(b) {
        HeadOutcome::Incomplete => r is Incomplete,
        HeadOutcome::Invalid => r is Invalid,
        HeadOutcome::UnsupportedVersion => r is UnsupportedVersion,
        HeadOutcome::Complete(n, sh) => r matches HeadStatus::Complete(m, h) && m as int == n
            && h@ == sh,
    }
}

/// Does `buf[vs..ve]` hold exactly the bytes `HTTP/1.1`?
fn is_http_version(buf: &Vec<u8>, vs: usize, ve: usize) -> (r: bool)
    requires
        vs <= ve <= buf@.len(),
    ensures
        r == (buf@.subrange(vs as int, ve as int) == http_version_literal()),
{
    if ve - vs != 8 {
        proof {
            assert(buf@.subrange(vs as int, ve as int).len() != http_version_literal().len());
        }
        return false;
    }
    let ok = buf[vs] == 72 && buf[vs + 1] == 84 && buf[vs + 2] == 84 && buf[vs + 3] == 80
        && buf[vs + 4] == 47 && buf[vs + 5] == 49 && buf[vs + 6] == 46 && buf[vs + 7] == 49;
    proof {
        let sub = buf@.subrange(vs as int, ve as int);
        if ok {
            assert(sub =~= http_version_literal()) by {
                assert forall|i: int| 0 <= i < 8 implies sub[i] == http_version_literal()[i] by {
                    assert(sub[i] == buf@[vs + i]);
                }
            }
        } else {
            assert(sub != http_version_literal()) by {
                if sub == http_version_literal() {
                    assert(buf@[vs as int] == sub[0]);
                    assert(buf@[vs + 1] == sub[1]);
                    assert(buf@[vs + 2] == sub[2]);
                    assert(buf@[vs + 3] == sub[3]);
                    assert(buf@[vs + 4] == sub[4]);
                    assert(buf@[vs + 5] == sub[5]);
                    assert(buf@[vs + 6] == sub[6]);
                    assert(buf@[vs + 7] == sub[7]);
                }
            }
        }
    }
    ok
}

/// Consume exactly the first line: trim a trailing carriage return, split
/// on single spaces into exactly three tokens, and gate on `HTTP/1.1`.
pub fn recognize_request_line(buf: &Vec<u8>) -> (r: HeadStatus)
    ensures
        head_status_matches(buf@, r),
{
    let len = buf.len();
    let nl = match find_in(buf, NL, 0, len) {
        Option::None => {
            return HeadStatus::Incomplete;
        },
        Option::Some(i) => i,
    };
    proof {
        lemma_find_in_facts(buf@, NL, 0, len as int);
    }
    let ce = if nl > 0 && buf[nl - 1] == CR {
        nl - 1
    } else {
        nl
    };
    let sp1 = match find_in(buf, SP, 0, ce) {
        Option::None => {
            return HeadStatus::Invalid;
        },
        Option::Some(i) => i,
    };
    proof {
        lemma_find_in_facts(buf@, SP, 0, ce as int);
    }
    let sp2 = match find_in(buf, SP, sp1 + 1, ce) {
        Option::None => {
            return HeadStatus::Invalid;
        },
        Option::Some(i) => i,
    };
    proof {
        lemma_find_in_facts(buf@, SP, (sp1 + 1) as int, ce as int);
    }
    if find_in(buf, SP, sp2 + 1, ce).is_some() {
        return HeadStatus::Invalid;
    }
    if !is_http_version(buf, sp2 + 1, ce) {
        return HeadStatus::UnsupportedVersion;
    }
    HeadStatus::Complete(
        nl + 1,
        RequestHead { method: (0, sp1), path: (sp1 + 1, sp2), http_version: (sp2 + 1, ce) },
    )
}

} // verus!
