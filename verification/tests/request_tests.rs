use aou_http::parser::{ParserState, RequestParseResponse, RequestParser};
use aou_http::request::Request;

fn parse_success(buf: &[u8]) -> Request {
    let parse = RequestParser::parse_request(
        buf.to_vec(),
        ParserState::Start { read_until: None },
    )
    .expect("expected a successful parse");
    match parse {
        RequestParseResponse::Success(p) => p.into_request(),
        RequestParseResponse::Incomplete(_) => panic!("expected Success"),
    }
}

#[test]
fn simple_request_decodes_every_field() {
    let req = parse_success(b"GET / HTTP/1.1\r\nHost: localhost:3000\r\n\r\n");
    assert_eq!(req.method().unwrap(), "GET");
    assert_eq!(req.path().unwrap(), "/");
    assert_eq!(req.http_version().unwrap(), "HTTP/1.1");
    assert_eq!(req.header(b"Host").unwrap(), b"localhost:3000".to_vec());
    assert_eq!(req.body().unwrap(), "");
}

#[test]
fn duplicate_header_keeps_the_later_value() {
    let req = parse_success(b"GET / HTTP/1.1\r\nHost: a\r\nHost: b\r\n\r\nBODY");
    assert_eq!(req.header(b"Host").unwrap(), b"b".to_vec());
    assert_eq!(req.body().unwrap(), "BODY");
    let pairs = req.header_pairs();
    assert_eq!(pairs.len(), 2);
    assert_eq!(pairs[0], (b"Host".to_vec(), b"a".to_vec()));
    assert_eq!(pairs[1], (b"Host".to_vec(), b"b".to_vec()));
}

#[test]
fn headers_mapping_is_deduplicated_last_wins() {
    let req = parse_success(b"GET / HTTP/1.1\r\nA: 1\r\nHost: a\r\nA: 2\r\nA: 3\r\n\r\n");
    let map = req.headers();
    assert_eq!(map.len(), 2);
    assert!(map.contains(&(b"Host".to_vec(), b"a".to_vec())));
    assert!(map.contains(&(b"A".to_vec(), b"3".to_vec())));
}

#[test]
fn header_names_are_not_case_folded() {
    let req = parse_success(b"GET / HTTP/1.1\r\nHost: a\r\n\r\n");
    assert_eq!(req.header(b"Host").unwrap(), b"a".to_vec());
    assert_eq!(req.header(b"host"), None);
    assert_eq!(req.header(b"HOST"), None);
}

#[test]
fn header_value_keeps_everything_after_the_first_colon() {
    let req = parse_success(b"GET / HTTP/1.1\r\nHost: localhost:3000\r\n\r\n");
    let pairs = req.header_pairs();
    assert_eq!(pairs.len(), 1);
    assert_eq!(pairs[0].0, b"Host".to_vec());
    assert_eq!(pairs[0].1, b"localhost:3000".to_vec());
}

#[test]
fn header_value_leading_blanks_are_skipped() {
    let req = parse_success(b"GET / HTTP/1.1\r\nX:   spaced out \r\n\r\n");
    assert_eq!(req.header(b"X").unwrap(), b"spaced out ".to_vec());
}

#[test]
fn empty_header_block_yields_no_entries() {
    let req = parse_success(b"GET / HTTP/1.1\n\n");
    assert_eq!(req.header_pairs().len(), 0);
    assert_eq!(req.header(b"Host"), None);
    assert_eq!(req.body().unwrap(), "");
}

#[test]
fn body_is_the_unvalidated_remainder() {
    let req = parse_success(b"GET / HTTP/1.1\r\nContent-Length: 100\r\n\r\nshort");
    assert_eq!(req.header(b"Content-Length").unwrap(), b"100".to_vec());
    assert_eq!(req.body().unwrap(), "short");
}

#[test]
fn non_utf8_body_is_reported_not_trusted() {
    let mut buf = b"GET / HTTP/1.1\r\n\r\n".to_vec();
    buf.push(0xff);
    let req = parse_success(&buf);
    assert_eq!(req.body(), None);
    assert_eq!(req.method().unwrap(), "GET");
}

#[test]
fn from_string_parses_a_complete_message() {
    let req = Request::from_string("GET /x HTTP/1.1\r\nHost: h\r\n\r\npayload".to_string());
    assert_eq!(req.method().unwrap(), "GET");
    assert_eq!(req.path().unwrap(), "/x");
    assert_eq!(req.header(b"Host").unwrap(), b"h".to_vec());
    assert_eq!(req.body().unwrap(), "payload");
    assert!(req.params.is_empty());
    assert!(req.query.is_empty());
}

#[test]
fn caller_attached_fields_start_empty_and_stay_mutable() {
    let mut req = parse_success(b"GET / HTTP/1.1\r\n\r\n");
    assert!(req.params.is_empty());
    assert!(req.query.is_empty());
    assert_eq!(req.context, serde_json::Value::Object(serde_json::Map::new()));
    req.params.insert("id".to_string(), "7".to_string());
    req.query.insert("q".to_string(), "verus".to_string());
    req.context = serde_json::Value::String("attached".to_string());
    assert_eq!(req.params.get("id").map(String::as_str), Some("7"));
    assert_eq!(req.query.get("q").map(String::as_str), Some("verus"));
    assert_eq!(req.context, serde_json::Value::String("attached".to_string()));
}

#[test]
fn new_takes_the_caller_maps_as_given() {
    let buf = b"GET / HTTP/1.1\r\nHost: a\r\n\r\n".to_vec();
    let parse = RequestParser::parse_request(buf, ParserState::Start { read_until: None })
        .expect("expected a successful parse");
    let parser = match parse {
        RequestParseResponse::Success(p) => p,
        RequestParseResponse::Incomplete(_) => panic!("expected Success"),
    };
    let mut query = std::collections::HashMap::new();
    query.insert("page".to_string(), "2".to_string());
    let params = std::collections::HashMap::new();
    let req = Request::new(
        parser.buf,
        parser.head,
        parser.headers,
        parser.body,
        query,
        params,
    );
    assert_eq!(req.query.get("page").map(String::as_str), Some("2"));
    assert!(req.params.is_empty());
    assert_eq!(req.header(b"Host").unwrap(), b"a".to_vec());
}
