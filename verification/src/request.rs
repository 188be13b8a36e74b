//! Request view: a zero-copy accessor layer over a successfully parsed
//! message. Byte ranges are decoded to text with validation — malformed
//! UTF-8 surfaces as `None` instead of being trusted blindly — and the
//! header list is surfaced as a name→value mapping where the last
//! occurrence of a repeated name wins, compared byte for byte.

use crate::offsets::{
    hdrs_view, head_wf, headers_wf, range_wf, RequestHead, RequestHeaders, SpecHead, SpecHeader,
    VecOffset,
};
use crate::parser::{
    lemma_parse_ranges_wf, parse_result_matches, spec_parse, ParseOutcome, ParserState,
    RequestParseResponse, RequestParser,
};
use crate::scan::{range_eq, ranges_eq};
use std::collections::HashMap;
use vstd::prelude::*;
use vstd::string::StringSliceAdditionalSpecFns;

verus! {

/// serde_json's structured value, carried opaquely as the caller-mutable
/// per-request context that pipeline stages attach computed data to.
#[verifier::external_type_specification]
#[verifier::external_body]
pub struct ExValue(serde_json::Value);

/// Relies on serde_json::Value::Object over serde_json::Map::new: builds
/// the empty structured object that a fresh request context starts as.
#[verifier::external_body]
fn empty_context() -> serde_json::Value {
    serde_json::Value::Object(serde_json::Map::new())
}

/// Relies on core::str::from_utf8: it returns Ok exactly when the bytes
/// are valid UTF-8, and the returned str then views those same bytes.
#[verifier::external_body]
fn utf8_str(bytes: &[u8]) -> (r: Option<&str>)
    ensures
        r is Some <==> vstd::utf8::valid_utf8(bytes@),
        r matches Some(s) ==> s.spec_bytes() == bytes@,
{
    core::str::from_utf8(bytes).ok()
}

/// What decoding the byte range `b` to owned text must yield: the
/// decoded characters when `b` is valid UTF-8, `None` otherwise.
pub open spec fn decoded_text(b: Seq<u8>, r: Option<String>) -> bool {
    match r {
        Option::Some(s) => vstd::utf8::valid_utf8(b) && s@ == vstd::utf8::decode_utf8(b),
        Option::None => !vstd::utf8::valid_utf8(b),
    }
}

/// Copy `buf[start..end]` out into an owned vector.
fn copy_range(buf: &Vec<u8>, start: usize, end: usize) -> (r: Vec<u8>)
    requires
        start <= end <= buf@.len(),
    ensures
        r@ == buf@.subrange(start as int, end as int),
{
    vstd::slice::slice_to_vec(vstd::slice::slice_subrange(buf.as_slice(), start, end))
}

/// The name→value mapping over a header list: entries go in, in wire
/// order, so a repeated name keeps the later value (last one wins),
/// under exact byte-for-byte name comparison — no case folding.
pub open spec fn spec_header_map(b: Seq<u8>, hs: Seq<SpecHeader>) -> Map<Seq<u8>, Seq<u8>>
    decreases hs.len(),
{
    if hs.len() == 0 {
        Map::empty()
    } else {
        spec_header_map(b, hs.drop_last()).insert(
            b.subrange(hs.last().name.0, hs.last().name.1),
            b.subrange(hs.last().value.0, hs.last().value.1),
        )
    }
}

/// A name is in the surfaced mapping exactly when some entry bears it.
pub proof fn lemma_header_map_domain(b: Seq<u8>, hs: Seq<SpecHeader>, n: Seq<u8>)
    ensures
        spec_header_map(b, hs).contains_key(n) <==> exists|k: int|
            0 <= k < hs.len() && #[trigger] b.subrange(hs[k].name.0, hs[k].name.1) == n,
    decreases hs.len(),
{
    if hs.len() > 0 {
        let prior = hs.drop_last();
        lemma_header_map_domain(b, prior, n);
        let key = b.subrange(hs.last().name.0, hs.last().name.1);
        if spec_header_map(b, hs).contains_key(n) {
            if n == key {
                assert(b.subrange(hs[hs.len() - 1].name.0, hs[hs.len() - 1].name.1) == n);
            } else {
                let k = choose|k: int|
                    0 <= k < prior.len() && #[trigger] b.subrange(
                        prior[k].name.0,
                        prior[k].name.1,
                    ) == n;
                assert(prior[k] == hs[k]);
                assert(b.subrange(hs[k].name.0, hs[k].name.1) == n);
            }
        }
        if exists|k: int|
            0 <= k < hs.len() && #[trigger] b.subrange(hs[k].name.0, hs[k].name.1) == n {
            let k = choose|k: int|
                0 <= k < hs.len() && #[trigger] b.subrange(hs[k].name.0, hs[k].name.1) == n;
            if k < hs.len() - 1 {
                assert(prior[k] == hs[k]);
                assert(b.subrange(prior[k].name.0, prior[k].name.1) == n);
            }
        }
    }
}

/// Entry `j` is the last occurrence of its name in the header list,
/// under byte-for-byte name comparison.
pub open spec fn is_last_of_name(b: Seq<u8>, hs: Seq<SpecHeader>, j: int) -> bool {
    forall|l: int|
        j < l < hs.len() ==> #[trigger] b.subrange(hs[l].name.0, hs[l].name.1) != b.subrange(
            hs[j].name.0,
            hs[j].name.1,
        )
}

/// Every occurring name has a last occurrence.
pub proof fn lemma_exists_last_occurrence(b: Seq<u8>, hs: Seq<SpecHeader>, k0: int)
    requires
        0 <= k0 < hs.len(),
    ensures
        exists|j: int|
            k0 <= j < hs.len() && #[trigger] b.subrange(hs[j].name.0, hs[j].name.1)
                == b.subrange(hs[k0].name.0, hs[k0].name.1) && is_last_of_name(b, hs, j),
    decreases hs.len() - k0,
{
    if is_last_of_name(b, hs, k0) {
        assert(b.subrange(hs[k0].name.0, hs[k0].name.1) == b.subrange(
            hs[k0].name.0,
            hs[k0].name.1,
        ));
    } else {
        let l = choose|l: int|
            k0 < l < hs.len() && #[trigger] b.subrange(hs[l].name.0, hs[l].name.1)
                == b.subrange(hs[k0].name.0, hs[k0].name.1);
        lemma_exists_last_occurrence(b, hs, l);
    }
}

/// Law (duplicate header overwrite): if entry `j` bears name `n` and no
/// later entry does, the surfaced mapping holds exactly entry `j`'s
/// value under `n`. With two headers of identical name, the later one
/// wins.
pub proof fn lemma_last_header_wins(b: Seq<u8>, hs: Seq<SpecHeader>, n: Seq<u8>, j: int)
    requires
        0 <= j < hs.len(),
        b.subrange(hs[j].name.0, hs[j].name.1) == n,
        forall|k: int|
            j < k < hs.len() ==> #[trigger] b.subrange(hs[k].name.0, hs[k].name.1) != n,
    ensures
        spec_header_map(b, hs).contains_key(n),
        spec_header_map(b, hs)[n] == b.subrange(hs[j].value.0, hs[j].value.1),
    decreases hs.len(),
{
    if j < hs.len() - 1 {
        let prior = hs.drop_last();
        assert(prior[j] == hs[j]);
        assert forall|k: int|
            j < k < prior.len() implies #[trigger] b.subrange(
            prior[k].name.0,
            prior[k].name.1,
        ) != n by {
            assert(prior[k] == hs[k]);
        }
        lemma_last_header_wins(b, prior, n, j);
        assert(b.subrange(hs[hs.len() - 1].name.0, hs[hs.len() - 1].name.1) != n);
    }
}

/// Each produced pair is a binding of the surfaced mapping.
pub open spec fn dedup_sound(b: Seq<u8>, hs: Seq<SpecHeader>, out: Seq<(Vec<u8>, Vec<u8>)>) -> bool {
    forall|i: int|
        0 <= i < out.len() ==> spec_header_map(b, hs).contains_key((#[trigger] out[i]).0@)
            && spec_header_map(b, hs)[out[i].0@] == out[i].1@
}

/// Some entry before index `k`, itself the last occurrence of its name,
/// bears `name`.
pub open spec fn last_before(b: Seq<u8>, hs: Seq<SpecHeader>, name: Seq<u8>, k: int) -> bool {
    exists|j: int|
        0 <= j < k && #[trigger] is_last_of_name(b, hs, j) && b.subrange(
            hs[j].name.0,
            hs[j].name.1,
        ) == name
}

/// Some produced pair bears `name`.
pub open spec fn holds_name(out: Seq<(Vec<u8>, Vec<u8>)>, name: Seq<u8>) -> bool {
    exists|i: int| 0 <= i < out.len() && (#[trigger] out[i]).0@ == name
}

/// Each produced pair bears the name of a last occurrence before `k`.
pub open spec fn dedup_from_lasts(
    b: Seq<u8>,
    hs: Seq<SpecHeader>,
    out: Seq<(Vec<u8>, Vec<u8>)>,
    k: int,
) -> bool {
    forall|i: int| 0 <= i < out.len() ==> last_before(b, hs, (#[trigger] out[i]).0@, k)
}

/// Every last occurrence before index `k` has its name among the
/// produced pairs.
pub open spec fn dedup_covers_lasts(
    b: Seq<u8>,
    hs: Seq<SpecHeader>,
    out: Seq<(Vec<u8>, Vec<u8>)>,
    k: int,
) -> bool {
    forall|j: int|
        0 <= j < k && #[trigger] is_last_of_name(b, hs, j) ==> holds_name(
            out,
            b.subrange(hs[j].name.0, hs[j].name.1),
        )
}

/// No name repeats among the produced pairs.
pub open spec fn dedup_distinct(out: Seq<(Vec<u8>, Vec<u8>)>) -> bool {
    forall|i1: int, i2: int|
        0 <= i1 < i2 < out.len() ==> (#[trigger] out[i1]).0@ != (#[trigger] out[i2]).0@
}

/// Keeping entry `k` — the last occurrence of its name — preserves all
/// four facts of the dedup walk.
#[verifier::rlimit(50)]
proof fn lemma_dedup_keep_step(
    b: Seq<u8>,
    hs: Seq<SpecHeader>,
    out0: Seq<(Vec<u8>, Vec<u8>)>,
    out1: Seq<(Vec<u8>, Vec<u8>)>,
    k: int,
)
    requires
        0 <= k < hs.len(),
        is_last_of_name(b, hs, k),
        out1.len() == out0.len() + 1,
        forall|i: int| 0 <= i < out0.len() ==> #[trigger] out1[i] == out0[i],
        out1[out0.len() as int].0@ == b.subrange(hs[k].name.0, hs[k].name.1),
        out1[out0.len() as int].1@ == b.subrange(hs[k].value.0, hs[k].value.1),
        dedup_sound(b, hs, out0),
        dedup_from_lasts(b, hs, out0, k),
        dedup_covers_lasts(b, hs, out0, k),
        dedup_distinct(out0),
    ensures
        dedup_sound(b, hs, out1),
        dedup_from_lasts(b, hs, out1, k + 1),
        dedup_covers_lasts(b, hs, out1, k + 1),
        dedup_distinct(out1),
{
    let last = out0.len() as int;
    let name_k = b.subrange(hs[k].name.0, hs[k].name.1);
    lemma_last_header_wins(b, hs, name_k, k);
    assert forall|i: int| 0 <= i < last implies (#[trigger] out1[i]).0@ != name_k by {
        assert(out1[i] == out0[i]);
        assert(last_before(b, hs, out0[i].0@, k));
        let j = choose|j: int|
            0 <= j < k && #[trigger] is_last_of_name(b, hs, j) && b.subrange(
                hs[j].name.0,
                hs[j].name.1,
            ) == out0[i].0@;
        if out0[i].0@ == name_k {
            assert(b.subrange(hs[k].name.0, hs[k].name.1) == b.subrange(
                hs[j].name.0,
                hs[j].name.1,
            ));
            assert(!is_last_of_name(b, hs, j));
        }
    }
    assert forall|i: int|
        0 <= i < out1.len() implies spec_header_map(b, hs).contains_key(
        (#[trigger] out1[i]).0@,
    ) && spec_header_map(b, hs)[out1[i].0@] == out1[i].1@ by {
        if i < last {
            assert(out1[i] == out0[i]);
            assert(spec_header_map(b, hs).contains_key((#[trigger] out0[i]).0@)
                && spec_header_map(b, hs)[out0[i].0@] == out0[i].1@);
        }
    }
    assert forall|i: int| 0 <= i < out1.len() implies last_before(
        b,
        hs,
        (#[trigger] out1[i]).0@,
        k + 1,
    ) by {
        if i < last {
            assert(out1[i] == out0[i]);
            assert(last_before(b, hs, out0[i].0@, k));
            let j = choose|j: int|
                0 <= j < k && #[trigger] is_last_of_name(b, hs, j) && b.subrange(
                    hs[j].name.0,
                    hs[j].name.1,
                ) == out0[i].0@;
            assert(0 <= j < k + 1 && is_last_of_name(b, hs, j) && b.subrange(
                hs[j].name.0,
                hs[j].name.1,
            ) == out1[i].0@);
        } else {
            assert(0 <= k < k + 1 && is_last_of_name(b, hs, k) && b.subrange(
                hs[k].name.0,
                hs[k].name.1,
            ) == out1[i].0@);
        }
    }
    assert forall|j: int|
        0 <= j < k + 1 && #[trigger] is_last_of_name(b, hs, j) implies holds_name(
        out1,
        b.subrange(hs[j].name.0, hs[j].name.1),
    ) by {
        if j < k {
            assert(holds_name(out0, b.subrange(hs[j].name.0, hs[j].name.1)));
            let i = choose|i: int|
                0 <= i < out0.len() && (#[trigger] out0[i]).0@ == b.subrange(
                    hs[j].name.0,
                    hs[j].name.1,
                );
            assert(out1[i] == out0[i]);
            assert(0 <= i < out1.len() && out1[i].0@ == b.subrange(hs[j].name.0, hs[j].name.1));
        } else {
            assert(0 <= last < out1.len() && out1[last].0@ == b.subrange(
                hs[j].name.0,
                hs[j].name.1,
            ));
        }
    }
    assert forall|i1: int, i2: int| 0 <= i1 < i2 < out1.len() implies (
    #[trigger] out1[i1]).0@ != (#[trigger] out1[i2]).0@ by {
        if i2 < last {
            assert(out1[i1] == out0[i1] && out1[i2] == out0[i2]);
            assert(out0[i1].0@ != out0[i2].0@);
        } else {
            assert(out1[i1].0@ != name_k);
        }
    }
}

/// Skipping entry `k` — some later entry repeats its name — preserves
/// the walk facts that mention the cursor.
proof fn lemma_dedup_skip_step(
    b: Seq<u8>,
    hs: Seq<SpecHeader>,
    out: Seq<(Vec<u8>, Vec<u8>)>,
    k: int,
)
    requires
        0 <= k < hs.len(),
        !is_last_of_name(b, hs, k),
        dedup_from_lasts(b, hs, out, k),
        dedup_covers_lasts(b, hs, out, k),
    ensures
        dedup_from_lasts(b, hs, out, k + 1),
        dedup_covers_lasts(b, hs, out, k + 1),
{
    assert forall|i: int| 0 <= i < out.len() implies last_before(
        b,
        hs,
        (#[trigger] out[i]).0@,
        k + 1,
    ) by {
        assert(last_before(b, hs, out[i].0@, k));
        let j = choose|j: int|
            0 <= j < k && #[trigger] is_last_of_name(b, hs, j) && b.subrange(
                hs[j].name.0,
                hs[j].name.1,
            ) == out[i].0@;
        assert(0 <= j < k + 1 && is_last_of_name(b, hs, j) && b.subrange(
            hs[j].name.0,
            hs[j].name.1,
        ) == out[i].0@);
    }
    assert forall|j: int|
        0 <= j < k + 1 && #[trigger] is_last_of_name(b, hs, j) implies holds_name(
        out,
        b.subrange(hs[j].name.0, hs[j].name.1),
    ) by {
        if j == k {
            assert(false);
        }
    }
}

/// A walk that covered every last occurrence holds every name of the
/// surfaced mapping.
proof fn lemma_dedup_complete(
    b: Seq<u8>,
    hs: Seq<SpecHeader>,
    out: Seq<(Vec<u8>, Vec<u8>)>,
    n: Seq<u8>,
)
    requires
        dedup_covers_lasts(b, hs, out, hs.len() as int),
        spec_header_map(b, hs).contains_key(n),
    ensures
        holds_name(out, n),
{
    lemma_header_map_domain(b, hs, n);
    let k0 = choose|k0: int|
        0 <= k0 < hs.len() && #[trigger] b.subrange(hs[k0].name.0, hs[k0].name.1) == n;
    lemma_exists_last_occurrence(b, hs, k0);
    let j = choose|j: int|
        k0 <= j < hs.len() && #[trigger] b.subrange(hs[j].name.0, hs[j].name.1) == b.subrange(
            hs[k0].name.0,
            hs[k0].name.1,
        ) && is_last_of_name(b, hs, j);
    assert(is_last_of_name(b, hs, j));
    assert(holds_name(out, b.subrange(hs[j].name.0, hs[j].name.1)));
}

/// A successfully parsed message wrapped for the application pipeline:
/// the owned buffer with its derived ranges, plus the caller-attached
/// context value and parameter maps that collaborators populate after
/// construction.
pub struct Request {
    buf: Vec<u8>,
    head: RequestHead,
    headers: RequestHeaders,
    body: VecOffset,
    /// Caller-mutable structured context, initially an empty object.
    pub context: serde_json::Value,
    /// Route parameters, attached by a router after construction.
    pub params: HashMap<String, String>,
    /// Query parameters, attached by a query splitter after construction.
    pub query: HashMap<String, String>,
}

impl Request {
    /// The owned bytes this view indexes into.
    pub closed spec fn spec_buf(&self) -> Seq<u8> {
        self.buf@
    }

    /// The recognized method/path/version ranges.
    pub closed spec fn spec_head(&self) -> SpecHead {
        self.head@
    }

    /// The header entries in wire order, duplicates kept.
    pub closed spec fn spec_headers(&self) -> Seq<SpecHeader> {
        hdrs_view(self.headers@)
    }

    /// The provisional body range.
    pub closed spec fn spec_body(&self) -> (int, int) {
        (self.body.0 as int, self.body.1 as int)
    }

    /// View of the route-parameter map.
    pub closed spec fn spec_params(&self) -> Map<String, String> {
        self.params@
    }

    /// View of the query-parameter map.
    pub closed spec fn spec_query(&self) -> Map<String, String> {
        self.query@
    }

    /// Every derived range lies inside the owned buffer.
    pub open spec fn wf(&self) -> bool {
        &&& head_wf(self.spec_head(), self.spec_buf().len() as int)
        &&& headers_wf(self.spec_headers(), self.spec_buf().len() as int)
        &&& range_wf(self.spec_body(), self.spec_buf().len() as int)
    }

    /// Wrap an already-recognized message. The context starts as an
    /// empty structured object; the parameter maps are taken as given.
    pub fn new(
        buf: Vec<u8>,
        head: RequestHead,
        headers: RequestHeaders,
        body: VecOffset,
        query: HashMap<String, String>,
        params: HashMap<String, String>,
    ) -> (r: Request)
        requires
            head_wf(head@, buf@.len() as int),
            headers_wf(hdrs_view(headers@), buf@.len() as int),
            range_wf((body.0 as int, body.1 as int), buf@.len() as int),
        ensures
            r.wf(),
            r.spec_buf() == buf@,
            r.spec_head() == head@,
            r.spec_headers() == hdrs_view(headers@),
            r.spec_body() == (body.0 as int, body.1 as int),
            r.spec_params() == params@,
            r.spec_query() == query@,
    {
        Request { buf, head, headers, body, context: empty_context(), params, query }
    }

    /// Parse an in-memory string that holds one complete request; the
    /// message must already be fully present and grammatical.
    pub fn from_string(request: String) -> (r: Request)
        requires
            spec_parse(vstd::utf8::encode_utf8(request@)) is Complete,
        ensures
            r.wf(),
            r.spec_buf() == vstd::utf8::encode_utf8(request@),
            r.spec_head() == spec_parse(vstd::utf8::encode_utf8(request@))->Complete_0,
            r.spec_headers() == spec_parse(vstd::utf8::encode_utf8(request@))->Complete_1,
            r.spec_body() == (
                spec_parse(vstd::utf8::encode_utf8(request@))->Complete_2,
                vstd::utf8::encode_utf8(request@).len() as int,
            ),
            r.spec_params() == Map::<String, String>::empty(),
            r.spec_query() == Map::<String, String>::empty(),
    {
        let buf = vstd::slice::slice_to_vec(request.as_str().as_bytes());
        let parse = RequestParser::parse_request(
            buf,
            ParserState::Start { read_until: Option::None },
        );
        match parse {
            Result::Ok(RequestParseResponse::Success(p)) => {
                proof {
                    lemma_parse_ranges_wf(vstd::utf8::encode_utf8(request@));
                }
                p.into_request()
            },
            _ => vstd::pervasive::unreached(),
        }
    }

    /// Decode `buf[start..end]` to owned text, validating UTF-8.
    fn range_to_text(&self, start: usize, end: usize) -> (r: Option<String>)
        requires
            start <= end <= self.spec_buf().len(),
        ensures
            decoded_text(self.spec_buf().subrange(start as int, end as int), r),
    {
        let sub = vstd::slice::slice_subrange(self.buf.as_slice(), start, end);
        match utf8_str(sub) {
            Option::Some(t) => {
                proof {
                    vstd::utf8::encode_utf8_decode_utf8(t@);
                }
                Option::Some(t.to_owned())
            },
            Option::None => Option::None,
        }
    }

    /// The method token as text; `None` if its bytes are not valid UTF-8.
    pub fn method(&self) -> (r: Option<String>)
        requires
            self.wf(),
        ensures
            decoded_text(
                self.spec_buf().subrange(self.spec_head().method.0, self.spec_head().method.1),
                r,
            ),
    {
        self.range_to_text(self.head.method.0, self.head.method.1)
    }

    /// The path token as text; `None` if its bytes are not valid UTF-8.
    pub fn path(&self) -> (r: Option<String>)
        requires
            self.wf(),
        ensures
            decoded_text(
                self.spec_buf().subrange(self.spec_head().path.0, self.spec_head().path.1),
                r,
            ),
    {
        self.range_to_text(self.head.path.0, self.head.path.1)
    }

    /// The version token as text; `None` if its bytes are not valid UTF-8.
    pub fn http_version(&self) -> (r: Option<String>)
        requires
            self.wf(),
        ensures
            decoded_text(
                self.spec_buf().subrange(self.spec_head().version.0, self.spec_head().version.1),
                r,
            ),
    {
        self.range_to_text(self.head.http_version.0, self.head.http_version.1)
    }

    /// The provisional body as text: exactly the bytes after the header
    /// terminator through the end of the buffered data, unvalidated
    /// against any declared length; `None` if not valid UTF-8.
    pub fn body(&self) -> (r: Option<String>)
        requires
            self.wf(),
        ensures
            decoded_text(self.spec_buf().subrange(self.spec_body().0, self.spec_body().1), r),
    {
        self.range_to_text(self.body.0, self.body.1)
    }

    /// Is some later entry's name byte-identical to entry `k`'s name?
    fn has_later_same_name(&self, k: usize) -> (r: bool)
        requires
            self.wf(),
            k < self.spec_headers().len(),
        ensures
            r == !is_last_of_name(self.spec_buf(), self.spec_headers(), k as int),
    {
        let n = self.headers.len();
        let (nm, _) = self.headers[k];
        proof {
            assert(self.spec_headers()[k as int].name == (nm.0 as int, nm.1 as int));
        }
        let mut j = k + 1;
        while j < n
            invariant
                k < j <= n,
                n == self.headers@.len(),
                self.wf(),
                nm == self.headers@[k as int].0,
                forall|l: int|
                    k < l < j ==> #[trigger] self.spec_buf().subrange(
                        self.spec_headers()[l].name.0,
                        self.spec_headers()[l].name.1,
                    ) != self.spec_buf().subrange(
                        self.spec_headers()[k as int].name.0,
                        self.spec_headers()[k as int].name.1,
                    ),
            decreases n - j,
        {
            let (nm2, _) = self.headers[j];
            proof {
                assert(self.spec_headers()[j as int].name == (nm2.0 as int, nm2.1 as int));
                assert(range_wf(self.spec_headers()[j as int].name, self.spec_buf().len() as int));
                assert(self.spec_headers()[k as int].name == (nm.0 as int, nm.1 as int));
                assert(range_wf(self.spec_headers()[k as int].name, self.spec_buf().len() as int));
            }
            if ranges_eq(&self.buf, nm2.0, nm2.1, nm.0, nm.1) {
                return true;
            }
            j = j + 1;
        }
        false
    }

    /// The surfaced name→value mapping, materialized: one (name, value)
    /// pair per distinct name, bearing the last value written under that
    /// name, in the wire order of each name's last occurrence. Built on
    /// access, not during parsing.
    #[verifier::rlimit(30)]
    pub fn headers(&self) -> (r: Vec<(Vec<u8>, Vec<u8>)>)
        requires
            self.wf(),
        ensures
            dedup_sound(self.spec_buf(), self.spec_headers(), r@),
            dedup_distinct(r@),
            forall|n: Seq<u8>|
                #[trigger] spec_header_map(self.spec_buf(), self.spec_headers()).contains_key(n)
                    ==> holds_name(r@, n),
    {
        let ghost b = self.spec_buf();
        let ghost hs = self.spec_headers();
        let n = self.headers.len();
        let mut out: Vec<(Vec<u8>, Vec<u8>)> = Vec::new();
        let mut k: usize = 0;
        while k < n
            invariant
                k <= n,
                n == self.headers@.len(),
                self.wf(),
                b == self.spec_buf(),
                hs == self.spec_headers(),
                dedup_sound(b, hs, out@),
                dedup_from_lasts(b, hs, out@, k as int),
                dedup_covers_lasts(b, hs, out@, k as int),
                dedup_distinct(out@),
            decreases n - k,
        {
            let (nm, val) = self.headers[k];
            proof {
                assert(hs[k as int].name == (nm.0 as int, nm.1 as int));
                assert(hs[k as int].value == (val.0 as int, val.1 as int));
            }
            if !self.has_later_same_name(k) {
                let ghost out0 = out@;
                let name = copy_range(&self.buf, nm.0, nm.1);
                let value = copy_range(&self.buf, val.0, val.1);
                out.push((name, value));
                proof {
                    assert(out@[out0.len() as int].0@ == b.subrange(
                        hs[k as int].name.0,
                        hs[k as int].name.1,
                    ));
                    assert(out@[out0.len() as int].1@ == b.subrange(
                        hs[k as int].value.0,
                        hs[k as int].value.1,
                    ));
                    lemma_dedup_keep_step(b, hs, out0, out@, k as int);
                }
            } else {
                proof {
                    lemma_dedup_skip_step(b, hs, out@, k as int);
                }
            }
            k = k + 1;
        }
        proof {
            assert forall|nseq: Seq<u8>|
                #[trigger] spec_header_map(b, hs).contains_key(nseq) implies holds_name(
                out@,
                nseq,
            ) by {
                lemma_dedup_complete(b, hs, out@, nseq);
            }
        }
        out
    }

    /// The header entries in wire order, duplicates kept, as owned
    /// (name, value) byte pairs.
    pub fn header_pairs(&self) -> (r: Vec<(Vec<u8>, Vec<u8>)>)
        requires
            self.wf(),
        ensures
            r@.len() == self.spec_headers().len(),
            forall|i: int|
                0 <= i < r@.len() ==> (#[trigger] r@[i]).0@ == self.spec_buf().subrange(
                    self.spec_headers()[i].name.0,
                    self.spec_headers()[i].name.1,
                ) && r@[i].1@ == self.spec_buf().subrange(
                    self.spec_headers()[i].value.0,
                    self.spec_headers()[i].value.1,
                ),
    {
        let n = self.headers.len();
        let mut out: Vec<(Vec<u8>, Vec<u8>)> = Vec::new();
        let mut i: usize = 0;
        while i < n
            invariant
                i <= n,
                n == self.headers@.len(),
                self.wf(),
                out@.len() == i,
                forall|k: int|
                    0 <= k < i ==> (#[trigger] out@[k]).0@ == self.spec_buf().subrange(
                        self.spec_headers()[k].name.0,
                        self.spec_headers()[k].name.1,
                    ) && out@[k].1@ == self.spec_buf().subrange(
                        self.spec_headers()[k].value.0,
                        self.spec_headers()[k].value.1,
                    ),
            decreases n - i,
        {
            let (nm, val) = self.headers[i];
            proof {
                assert(self.spec_headers()[i as int].name == (nm.0 as int, nm.1 as int));
                assert(self.spec_headers()[i as int].value == (val.0 as int, val.1 as int));
            }
            let name = copy_range(&self.buf, nm.0, nm.1);
            let value = copy_range(&self.buf, val.0, val.1);
            out.push((name, value));
            i = i + 1;
        }
        out
    }

    /// The value under `name` in the surfaced name→value mapping: the
    /// last header of that exact name wins; names are compared byte for
    /// byte, with no case folding.
    pub fn header(&self, name: &[u8]) -> (r: Option<Vec<u8>>)
        requires
            self.wf(),
        ensures
            ({
                let m = spec_header_map(self.spec_buf(), self.spec_headers());
                match r {
                    Option::Some(v) => m.contains_key(name@) && v@ == m[name@],
                    Option::None => !m.contains_key(name@),
                }
            }),
    {
        let n = self.headers.len();
        let mut idx = n;
        while idx > 0
            invariant
                idx <= n,
                n == self.headers@.len(),
                self.wf(),
                forall|k: int|
                    idx <= k < n ==> #[trigger] self.spec_buf().subrange(
                        self.spec_headers()[k].name.0,
                        self.spec_headers()[k].name.1,
                    ) != name@,
            decreases idx,
        {
            let i = idx - 1;
            let (nm, val) = self.headers[i];
            proof {
                assert(self.spec_headers()[i as int].name == (nm.0 as int, nm.1 as int));
                assert(self.spec_headers()[i as int].value == (val.0 as int, val.1 as int));
            }
            if range_eq(&self.buf, nm.0, nm.1, name) {
                let out = copy_range(&self.buf, val.0, val.1);
                proof {
                    lemma_last_header_wins(
                        self.spec_buf(),
                        self.spec_headers(),
                        name@,
                        i as int,
                    );
                }
                return Option::Some(out);
            }
            idx = i;
        }
        proof {
            lemma_header_map_domain(self.spec_buf(), self.spec_headers(), name@);
        }
        Option::None
    }
}

impl RequestParser {
    /// Hand the recognized message to the accessor layer: the buffer and
    /// its ranges move into a Request whose context starts as an empty
    /// object and whose parameter maps start empty, for collaborators to
    /// populate.
    pub fn into_request(self) -> (r: Request)
        requires
            head_wf(self.head@, self.buf@.len() as int),
            headers_wf(hdrs_view(self.headers@), self.buf@.len() as int),
            range_wf((self.body.0 as int, self.body.1 as int), self.buf@.len() as int),
        ensures
            r.wf(),
            r.spec_buf() == self.buf@,
            r.spec_head() == self.head@,
            r.spec_headers() == hdrs_view(self.headers@),
            r.spec_body() == (self.body.0 as int, self.body.1 as int),
            r.spec_params() == Map::<String, String>::empty(),
            r.spec_query() == Map::<String, String>::empty(),
    {
        Request::new(self.buf, self.head, self.headers, self.body, HashMap::new(), HashMap::new())
    }
}

} // verus!
