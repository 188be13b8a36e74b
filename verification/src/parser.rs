//! Parser state machine: on every invocation it rescans the whole
//! accumulated buffer from byte zero, running the request-line recognizer
//! and then the header-block recognizer, and reports success, a resumable
//! incomplete state, or a fatal error.

use crate::header_block::{
    lemma_header_block_append, lemma_header_block_offsets, HeaderParseError, HeadersOutcome,
    RequestHeaderParser, spec_header_block,
};
use crate::offsets::{
    hdrs_view, head_wf, headers_wf, range_wf, RequestHead, RequestHeaders, SpecHead, SpecHeader,
    VecOffset,
};
use crate::request_line::{
    http_version_literal, lemma_head_stable_under_append, lemma_request_line_offsets,
    recognize_request_line, spec_line_content_end, spec_request_line, HeadOutcome, HeadStatus,
};
use crate::scan::{spec_find_in, NL, SP};
use vstd::prelude::*;

verus! {

/// A fatal, non-retryable parse failure: the already-buffered bytes
/// violate the grammar, and no further bytes can mend them.
#[derive(Clone, Copy, PartialEq, Eq, Structural, Debug)]
pub enum ParseError {
    /// The fully present request line does not split into exactly three
    /// space-separated tokens.
    InvalidRequestLine,
    /// The request line's version token is not exactly `HTTP/1.1`.
    InvalidHttpVersion,
    /// A fully present header line has no colon separator.
    InvalidHeaders,
}

/// Resumption point carried between parse attempts. Recognition always
/// restarts from byte zero; the cursor and `read_until` fields are
/// retained as progress markers for diagnostics, not consulted.
#[derive(Debug)]
#[allow(inconsistent_fields)]
pub enum ParserState {
    /// Nothing recognized yet.
    Start { read_until: Option<usize> },
    /// Request line recognized, headers pending.
    Head { cursor: usize, read_until: usize, head: RequestHead },
    /// Headers recognized, nothing else pending.
    Headers { cursor: usize, read_until: usize, head: RequestHead, headers: RequestHeaders },
    /// Fully recognized; transitional only.
    Body {
        cursor: usize,
        read_until: usize,
        head: RequestHead,
        headers: RequestHeaders,
        body: VecOffset,
    },
}

impl ParserState {
    /// The buffer length that the attempt producing this state had seen.
    pub open spec fn spec_read_until(&self) -> usize {
        match *self {
            ParserState::Start { read_until } => match read_until {
                Option::Some(n) => n,
                Option::None => 0,
            },
            ParserState::Head { read_until, .. } => read_until,
            ParserState::Headers { read_until, .. } => read_until,
            ParserState::Body { read_until, .. } => read_until,
        }
    }

    /// How many buffered bytes the previous attempt had already seen;
    /// zero for a fresh `Start` state.
    pub fn read_until(&self) -> (r: usize)
        ensures
            r == self.spec_read_until(),
    {
        match self {
            ParserState::Start { read_until } => match read_until {
                Option::Some(n) => *n,
                Option::None => 0,
            },
            ParserState::Head { read_until, .. } => *read_until,
            ParserState::Headers { read_until, .. } => *read_until,
            ParserState::Body { read_until, .. } => *read_until,
        }
    }
}

/// A fully recognized request message: the owned buffer together with
/// the derived head, header list and body range.
#[derive(Debug)]
pub struct RequestParser {
    /// The owned byte buffer that every range below indexes into.
    pub buf: Vec<u8>,
    /// Method, path and version ranges of the request line.
    pub head: RequestHead,
    /// Header (name, value) ranges in wire order, duplicates kept.
    pub headers: RequestHeaders,
    /// Provisional body: everything after the header terminator that is
    /// currently buffered, with no length validation.
    pub body: VecOffset,
}

/// Outcome of one parse attempt that is not a fatal error: either a
/// fully recognized message or the buffer handed back with a resumable
/// state.
#[derive(Debug)]
pub enum RequestParseResponse {
    /// A complete message, owning the buffer and all derived ranges.
    Success(RequestParser),
    /// Not enough bytes yet: the caller appends more and retries.
    Incomplete((Vec<u8>, ParserState)),
}

/// Outcome of recognizing the whole buffer from byte zero.
pub enum ParseOutcome {
    /// No newline yet terminates the request line.
    LineIncomplete,
    /// Wrong request-line token count: fatal.
    LineInvalid,
    /// Version token other than `HTTP/1.1`: fatal.
    UnsupportedVersion,
    /// Request line recognized (consumed count and head); header block
    /// still arriving.
    HeadersIncomplete(int, SpecHead),
    /// A header line without a colon: fatal.
    HeadersInvalid,
    /// Head, headers in wire order, and the body start offset; the body
    /// runs from there to the end of whatever is buffered.
    Complete(SpecHead, Seq<SpecHeader>, int),
}

/// Recognize the whole buffer: the request line first, then the header
/// block immediately after it.
pub open spec fn spec_parse(b: Seq<u8>) -> ParseOutcome {
    match spec_request_line(b) {
        HeadOutcome::Incomplete => ParseOutcome::LineIncomplete,
        HeadOutcome::Invalid => ParseOutcome::LineInvalid,
        HeadOutcome::UnsupportedVersion => ParseOutcome::UnsupportedVersion,
        HeadOutcome::Complete(n, head) => match spec_header_block(b, n) {
            HeadersOutcome::Incomplete => ParseOutcome::HeadersIncomplete(n, head),
            HeadersOutcome::Invalid => ParseOutcome::HeadersInvalid,
            HeadersOutcome::Complete(end, hs) => ParseOutcome::Complete(head, hs, end),
        },
    }
}

/// The returned value agrees with the spec outcome on the same bytes:
/// each verdict, its payload, and the exact state handed back.
pub open spec fn parse_result_matches(
    b: Seq<u8>,
    r: Result<RequestParseResponse, ParseError>,
) -> bool {
    match spec_parse(b) {
        ParseOutcome::LineIncomplete => {
            &&& r matches Result::Ok(RequestParseResponse::Incomplete(pair))
            &&& pair.0@ == b
            &&& pair.1 matches ParserState::Start { read_until: ru }
            &&& ru == Option::Some(b.len() as usize)
        },
        ParseOutcome::LineInvalid => r == Result::<RequestParseResponse, ParseError>::Err(
            ParseError::InvalidRequestLine,
        ),
        ParseOutcome::UnsupportedVersion => r == Result::<RequestParseResponse, ParseError>::Err(
            ParseError::InvalidHttpVersion,
        ),
        ParseOutcome::HeadersIncomplete(n, sh) => {
            &&& r matches Result::Ok(RequestParseResponse::Incomplete(pair))
            &&& pair.0@ == b
            &&& pair.1 matches ParserState::Head { cursor, read_until: ru, head }
            &&& cursor as int == n
            &&& ru as int == b.len()
            &&& head@ == sh
        },
        ParseOutcome::HeadersInvalid => r == Result::<RequestParseResponse, ParseError>::Err(
            ParseError::InvalidHeaders,
        ),
        ParseOutcome::Complete(sh, hs, end) => r matches Result::Ok(
            RequestParseResponse::Success(p),
        ) && p.buf@ == b && p.head@ == sh && hdrs_view(p.headers@) == hs && p.body.0 as int == end
            && p.body.1 as int == b.len(),
    }
}

impl RequestParser {
    /// One parse attempt: rescan the whole current buffer from byte zero
    /// and report success, a resumable incomplete state, or a fatal
    /// error. The incoming state is never consulted for recognition, so
    /// the verdict depends on the buffered bytes alone; the consumed
    /// offsets provably never exceed the buffer length (see
    /// `lemma_monotonic_offsets`), so no defensive check is needed.
    #[allow(unused_variables)]
    pub fn parse_request(buf: Vec<u8>, state: ParserState) -> (r: Result<
        RequestParseResponse,
        ParseError,
    >)
        ensures
            parse_result_matches(buf@, r),
    {
        let buf_len = buf.len();
        let (offset, head) = match recognize_request_line(&buf) {
            HeadStatus::Incomplete => {
                return Result::Ok(
                    RequestParseResponse::Incomplete(
                        (buf, ParserState::Start { read_until: Option::Some(buf_len) }),
                    ),
                );
            },
            HeadStatus::Invalid => {
                return Result::Err(ParseError::InvalidRequestLine);
            },
            HeadStatus::UnsupportedVersion => {
                return Result::Err(ParseError::InvalidHttpVersion);
            },
            HeadStatus::Complete(n, h) => (n, h),
        };
        proof {
            lemma_request_line_offsets(buf@);
        }
        let (end, headers) = match RequestHeaderParser::parse_headers(&buf, offset) {
            Result::Err(HeaderParseError::Incomplete) => {
                return Result::Ok(
                    RequestParseResponse::Incomplete(
                        (
                            buf,
                            ParserState::Head { cursor: offset, read_until: buf_len, head },
                        ),
                    ),
                );
            },
            Result::Err(HeaderParseError::Invalid) => {
                return Result::Err(ParseError::InvalidHeaders);
            },
            Result::Ok(x) => x,
        };
        proof {
            lemma_header_block_offsets(buf@, offset as int);
        }
        let body = (end, buf_len);
        Result::Ok(RequestParseResponse::Success(RequestParser { buf, head, headers, body }))
    }
}

/// Law (monotonic offsets): on a successful parse, the request-line byte
/// count and the header-block end cursor never run past the buffer:
/// `0 < n <= end <= |b|`, and the body spans `[end, |b|)`.
pub proof fn lemma_monotonic_offsets(b: Seq<u8>)
    requires
        spec_parse(b) is Complete,
    ensures
        ({
            let n = spec_request_line(b)->Complete_0;
            let end = spec_parse(b)->Complete_2;
            &&& spec_request_line(b) is Complete
            &&& 0 < n <= end <= b.len()
            &&& spec_header_block(b, n) is Complete
            &&& spec_header_block(b, n)->Complete_0 == end
        }),
{
    lemma_request_line_offsets(b);
    let n = spec_request_line(b)->Complete_0;
    lemma_header_block_offsets(b, n);
}

/// Every range a successful parse derives is well formed against the
/// buffer it indexes into.
pub proof fn lemma_parse_ranges_wf(b: Seq<u8>)
    requires
        spec_parse(b) is Complete,
    ensures
        head_wf(spec_parse(b)->Complete_0, b.len() as int),
        headers_wf(spec_parse(b)->Complete_1, b.len() as int),
        range_wf((spec_parse(b)->Complete_2, b.len() as int), b.len() as int),
{
    lemma_request_line_offsets(b);
    let n = spec_request_line(b)->Complete_0;
    lemma_header_block_offsets(b, n);
}

/// Law (idempotent restart): a completely parsed prefix keeps its head,
/// its headers and its body start under any extension of the buffer;
/// only the body end grows with the buffered bytes. Together with the
/// fact that recognition reads nothing but the buffer, the verdict on a
/// byte sequence is deterministic and independent of how many times it
/// was resubmitted.
pub proof fn lemma_parse_stable_under_append(b: Seq<u8>, s: Seq<u8>)
    requires
        spec_parse(b) is Complete,
    ensures
        spec_parse(b + s) is Complete,
        spec_parse(b + s)->Complete_0 == spec_parse(b)->Complete_0,
        spec_parse(b + s)->Complete_1 == spec_parse(b)->Complete_1,
        spec_parse(b + s)->Complete_2 == spec_parse(b)->Complete_2,
{
    lemma_head_stable_under_append(b, s);
    lemma_request_line_offsets(b);
    let n = spec_request_line(b)->Complete_0;
    lemma_header_block_append(b, s, n);
}

/// Law (version gate): when the first line is fully present, splits on
/// spaces into exactly three tokens, and the third token is not the
/// literal `HTTP/1.1`, the parse is a fatal error — never incomplete —
/// even if nothing follows the line.
pub proof fn lemma_version_gate(b: Seq<u8>, nl: int, sp1: int, sp2: int)
    requires
        spec_find_in(b, NL, 0, b.len() as int) == Option::Some(nl),
        spec_find_in(b, SP, 0, spec_line_content_end(b, 0, nl)) == Option::Some(sp1),
        spec_find_in(b, SP, sp1 + 1, spec_line_content_end(b, 0, nl)) == Option::Some(sp2),
        spec_find_in(b, SP, sp2 + 1, spec_line_content_end(b, 0, nl)) is None,
        b.subrange(sp2 + 1, spec_line_content_end(b, 0, nl)) != http_version_literal(),
    ensures
        spec_parse(b) == ParseOutcome::UnsupportedVersion,
{
}

} // verus!
