//! Header-block recognizer: consumes `<NAME>:<VALUE>` lines up to and
//! including the blank terminator line.

use crate::offsets::{hdrs_view, RequestHeaders, SpecHeader};
use crate::request_line::spec_line_content_end;
use crate::scan::{
    find_in, lemma_find_in_facts, lemma_find_in_append, lemma_find_in_extend_end,
    lemma_skip_ws_append, lemma_skip_ws_bounds, skip_ws, spec_find_in, spec_skip_ws, COLON, CR,
    NL,
};
use vstd::prelude::*;

verus! {

/// Outcome of recognizing the header block from a cursor.
pub enum HeadersOutcome {
    /// The lines run out before a blank terminator line: headers are
    /// still arriving, wait for more bytes.
    Incomplete,
    /// A fully present header line has no colon separator: fatal.
    Invalid,
    /// End cursor just past the blank line, and the entries in wire order.
    Complete(int, Seq<SpecHeader>),
}

/// Recognize header lines from `cur` on: each complete non-blank line
/// must hold a colon; the name is the text before the first colon, the
/// value the text after it with leading blanks skipped; a blank line
/// (after trimming one carriage return) terminates the block and is
/// itself consumed. Absence of a terminator is never "no more headers".
pub open spec fn spec_header_block(b: Seq<u8>, cur: int) -> HeadersOutcome
    decreases b.len() - cur,
{
    if !(0 <= cur <= b.len()) {
        HeadersOutcome::Incomplete
    } else {
        match spec_find_in(b, NL, cur, b.len() as int) {
            Option::None => HeadersOutcome::Incomplete,
            Option::Some(nl) => {
                let ce = spec_line_content_end(b, cur, nl);
                if ce == cur {
                    HeadersOutcome::Complete(nl + 1, Seq::empty())
                } else {
                    match spec_find_in(b, COLON, cur, ce) {
                        Option::None => HeadersOutcome::Invalid,
                        Option::Some(colon) => {
                            let vs = spec_skip_ws(b, colon + 1, ce);
                            proof {
                                lemma_find_in_facts(b, NL, cur, b.len() as int);
                            }
                            match spec_header_block(b, nl + 1) {
                                HeadersOutcome::Complete(end, rest) => HeadersOutcome::Complete(
                                    end,
                                    seq![
                                        SpecHeader { name: (cur, colon), value: (vs, ce) },
                                    ] + rest,
                                ),
                                o => o,
                            }
                        },
                    }
                }
            },
        }
    }
}

/// A complete header block sits inside the buffer with ordered offsets:
/// the end cursor lies past `cur` and within the buffer, and each entry's
/// name precedes its value, both inside the consumed region.
pub proof fn lemma_header_block_offsets(b: Seq<u8>, cur: int)
    requires
        0 <= cur <= b.len(),
        spec_header_block(b, cur) is Complete,
    ensures
        ({
            let end = spec_header_block(b, cur)->Complete_0;
            let hs = spec_header_block(b, cur)->Complete_1;
            &&& cur < end <= b.len()
            &&& forall|i: int|
                0 <= i < hs.len() ==> cur <= (#[trigger] hs[i]).name.0 <= hs[i].name.1
                    < hs[i].value.0 <= hs[i].value.1 < end
        }),
    decreases b.len() - cur,
{
    lemma_find_in_facts(b, NL, cur, b.len() as int);
    match spec_find_in(b, NL, cur, b.len() as int) {
        Option::Some(nl) => {
            let ce = spec_line_content_end(b, cur, nl);
            if ce != cur {
                lemma_find_in_facts(b, COLON, cur, ce);
                match spec_find_in(b, COLON, cur, ce) {
                    Option::Some(colon) => {
                        lemma_skip_ws_bounds(b, colon + 1, ce);
                        lemma_header_block_offsets(b, nl + 1);
                    },
                    Option::None => (),
                }
            }
        },
        Option::None => (),
    }
}

/// Appending bytes after a complete header block changes nothing about
/// how the block is recognized.
pub proof fn lemma_header_block_append(b: Seq<u8>, s: Seq<u8>, cur: int)
    requires
        0 <= cur <= b.len(),
        spec_header_block(b, cur) is Complete,
    ensures
        spec_header_block(b + s, cur) == spec_header_block(b, cur),
    decreases b.len() - cur,
{
    lemma_find_in_facts(b, NL, cur, b.len() as int);
    match spec_find_in(b, NL, cur, b.len() as int) {
        Option::Some(nl) => {
            lemma_find_in_append(b, s, NL, cur, b.len() as int);
            lemma_find_in_extend_end(b + s, NL, cur, b.len() as int, (b + s).len() as int);
            if nl > cur {
                assert((b + s)[nl - 1] == b[nl - 1]);
            }
            let ce = spec_line_content_end(b, cur, nl);
            if ce != cur {
                lemma_find_in_facts(b, COLON, cur, ce);
                lemma_find_in_append(b, s, COLON, cur, ce);
                match spec_find_in(b, COLON, cur, ce) {
                    Option::Some(colon) => {
                        lemma_skip_ws_append(b, s, colon + 1, ce);
                        lemma_header_block_append(b, s, nl + 1);
                    },
                    Option::None => (),
                }
            }
        },
        Option::None => (),
    }
}

/// A buffer whose remaining bytes hold no newline at all — for instance
/// one ending immediately after a header line — leaves the header block
/// incomplete: absence of a terminator is never read as "no more
/// headers".
pub proof fn lemma_headers_await_terminator(b: Seq<u8>, cur: int)
    requires
        0 <= cur <= b.len(),
        spec_find_in(b, NL, cur, b.len() as int) is None,
    ensures
        spec_header_block(b, cur) == HeadersOutcome::Incomplete,
{
}

/// A fully present, non-blank header line without a colon separator is
/// fatal, however much data follows it.
pub proof fn lemma_header_line_missing_colon(b: Seq<u8>, cur: int, nl: int)
    requires
        0 <= cur <= b.len(),
        spec_find_in(b, NL, cur, b.len() as int) == Option::Some(nl),
        spec_line_content_end(b, cur, nl) != cur,
        spec_find_in(b, COLON, cur, spec_line_content_end(b, cur, nl)) is None,
    ensures
        spec_header_block(b, cur) == HeadersOutcome::Invalid,
{
}

/// Transient versus fatal failure of header recognition.
pub enum HeaderParseError {
    /// The terminator has not arrived yet: retry with more bytes.
    Incomplete,
    /// A header line without a colon is present: fatal.
    Invalid,
}

/// Prepend already-recognized entries to a block outcome.
pub open spec fn extend_header_block(pre: Seq<SpecHeader>, o: HeadersOutcome) -> HeadersOutcome {
    match o {
        HeadersOutcome::Complete(end, hs) => HeadersOutcome::Complete(end, pre + hs),
        _ => o,
    }
}

/// The exec result agrees with the spec outcome on the same bytes.
pub open spec fn headers_result_matches(
    b: Seq<u8>,
    start: int,
    r: Result<(usize, RequestHeaders), HeaderParseError>,
) -> bool {
    match spec_header_block(b, start) {
        HeadersOutcome::Incomplete => r == Result::<
            (usize, RequestHeaders),
            HeaderParseError,
        >::Err(HeaderParseError::Incomplete),
        HeadersOutcome::Invalid => r == Result::<
            (usize, RequestHeaders),
            HeaderParseError,
        >::Err(HeaderParseError::Invalid),
        HeadersOutcome::Complete(end, sh) => r matches Result::Ok((e, hs)) && e as int == end
            && hdrs_view(hs@) == sh,
    }
}

/// The header-block recognizer.
pub struct RequestHeaderParser;

impl RequestHeaderParser {
    /// Consume header lines from `start` until the blank terminator line,
    /// collecting one (name range, value range) pair per line, in wire
    /// order. Returns the end cursor just past the terminator.
    pub fn parse_headers(buf: &Vec<u8>, start: usize) -> (r: Result<
        (usize, RequestHeaders),
        HeaderParseError,
    >)
        requires
            start <= buf@.len(),
        ensures
            headers_result_matches(buf@, start as int, r),
    {
        let len = buf.len();
        let mut cur = start;
        let mut acc: RequestHeaders = Vec::new();
        proof {
            assert(hdrs_view(acc@) =~= Seq::<SpecHeader>::empty());
            match spec_header_block(buf@, start as int) {
                HeadersOutcome::Complete(e, hs) => {
                    assert(Seq::<SpecHeader>::empty() + hs =~= hs);
                },
                _ => (),
            }
        }
        loop
            invariant
                start <= cur <= len,
                len == buf@.len(),
                extend_header_block(hdrs_view(acc@), spec_header_block(buf@, cur as int))
                    == spec_header_block(buf@, start as int),
            decreases len - cur,
        {
            let nl = match find_in(buf, NL, cur, len) {
                Option::None => {
                    return Result::Err(HeaderParseError::Incomplete);
                },
                Option::Some(i) => i,
            };
            proof {
                lemma_find_in_facts(buf@, NL, cur as int, len as int);
            }
            let ce = if nl > cur && buf[nl - 1] == CR {
                nl - 1
            } else {
                nl
            };
            if ce == cur {
                proof {
                    match spec_header_block(buf@, cur as int) {
                        HeadersOutcome::Complete(e, hs) => {
                            assert(hdrs_view(acc@) + hs =~= hdrs_view(acc@));
                        },
                        _ => (),
                    }
                }
                return Result::Ok((nl + 1, acc));
            }
            let colon = match find_in(buf, COLON, cur, ce) {
                Option::None => {
                    return Result::Err(HeaderParseError::Invalid);
                },
                Option::Some(i) => i,
            };
            proof {
                lemma_find_in_facts(buf@, COLON, cur as int, ce as int);
            }
            let vs = skip_ws(buf, colon + 1, ce);
            proof {
                let h0 = SpecHeader {
                    name: (cur as int, colon as int),
                    value: (vs as int, ce as int),
                };
                let rest = spec_header_block(buf@, nl + 1);
                assert(spec_header_block(buf@, cur as int) == extend_header_block(
                    seq![h0],
                    rest,
                ));
                assert(hdrs_view(acc@.push(((cur, colon), (vs, ce)))) =~= hdrs_view(
                    acc@,
                ).push(h0));
                match rest {
                    HeadersOutcome::Complete(e2, hs2) => {
                        assert(hdrs_view(acc@) + (seq![h0] + hs2) =~= hdrs_view(acc@).push(h0)
                            + hs2);
                    },
                    _ => (),
                }
            }
            acc.push(((cur, colon), (vs, ce)));
            cur = nl + 1;
        }
    }
}

} // verus!
