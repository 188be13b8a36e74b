use aou_http::parser::{ParseError, ParserState, RequestParseResponse, RequestParser};

fn start() -> ParserState {
    ParserState::Start { read_until: None }
}

#[test]
fn invalid_http_version() {
    let buf = b"GET / HTTP/1.0\r\nHost: localhost:3000\r\nThe empty line before the body is missing";

    let parse = RequestParser::parse_request(buf.to_vec(), start());

    assert!(
        parse.is_err(),
        "Parse should return a Invalid HTTP Version Error Result"
    );
}

#[test]
fn invalid_header_termination() {
    let buf = b"GET / HTTP/1.1\r\nHost: localhost:3000\r\nThe empty line before the body is missing";

    let parse = RequestParser::parse_request(buf.to_vec(), start());

    assert!(
        parse.is_ok(),
        "Parse should not error since it's not sure it's the end of the headers."
    );

    let parse = parse.unwrap();

    let is_incomplete = match parse {
        RequestParseResponse::Incomplete(_) => true,
        RequestParseResponse::Success(_) => false,
    };

    assert!(is_incomplete, "Parser should return a Incomplete result");
}

#[test]
fn unsupported_version_is_fatal_not_incomplete() {
    let buf = b"GET / HTTP/1.0\r\nHost: localhost:3000\r\nmissing blank line";
    let parse = RequestParser::parse_request(buf.to_vec(), start());
    assert_eq!(parse.unwrap_err(), ParseError::InvalidHttpVersion);
}

#[test]
fn unsupported_version_with_nothing_after_line() {
    let buf = b"POST /x HTTP/2\r\n";
    let parse = RequestParser::parse_request(buf.to_vec(), start());
    assert_eq!(parse.unwrap_err(), ParseError::InvalidHttpVersion);
}

#[test]
fn wrong_token_count_too_few() {
    let buf = b"GET /missing-version\r\n\r\n";
    let parse = RequestParser::parse_request(buf.to_vec(), start());
    assert_eq!(parse.unwrap_err(), ParseError::InvalidRequestLine);
}

#[test]
fn wrong_token_count_too_many() {
    let buf = b"GET / extra HTTP/1.1\r\n\r\n";
    let parse = RequestParser::parse_request(buf.to_vec(), start());
    assert_eq!(parse.unwrap_err(), ParseError::InvalidRequestLine);
}

#[test]
fn header_line_without_colon_is_fatal() {
    let buf = b"GET / HTTP/1.1\r\nNoColonHere\r\n\r\n";
    let parse = RequestParser::parse_request(buf.to_vec(), start());
    assert_eq!(parse.unwrap_err(), ParseError::InvalidHeaders);
}

#[test]
fn no_newline_at_all_is_incomplete() {
    let buf = b"GET / HTTP";
    let parse = RequestParser::parse_request(buf.to_vec(), start()).unwrap();
    match parse {
        RequestParseResponse::Incomplete((returned, state)) => {
            assert_eq!(returned, buf.to_vec());
            match state {
                ParserState::Start { read_until } => assert_eq!(read_until, Some(10)),
                _ => panic!("expected a Start state"),
            }
        }
        RequestParseResponse::Success(_) => panic!("expected Incomplete"),
    }
}

#[test]
fn empty_buffer_is_incomplete() {
    let parse = RequestParser::parse_request(Vec::new(), start()).unwrap();
    match parse {
        RequestParseResponse::Incomplete((returned, state)) => {
            assert!(returned.is_empty());
            assert_eq!(state.read_until(), 0);
        }
        RequestParseResponse::Success(_) => panic!("expected Incomplete"),
    }
}

#[test]
fn incomplete_headers_retain_recognized_head() {
    let buf = b"GET / HTTP/1.1\r\nHost: localhost:3000\r\nmissing blank line";
    let parse = RequestParser::parse_request(buf.to_vec(), start()).unwrap();
    match parse {
        RequestParseResponse::Incomplete((returned, state)) => {
            assert_eq!(returned.len(), buf.len());
            match state {
                ParserState::Head {
                    cursor,
                    read_until,
                    head,
                } => {
                    assert_eq!(cursor, 16);
                    assert_eq!(read_until, buf.len());
                    assert_eq!(head.method, (0, 3));
                    assert_eq!(head.path, (4, 5));
                    assert_eq!(head.http_version, (6, 14));
                }
                _ => panic!("expected a Head state"),
            }
        }
        RequestParseResponse::Success(_) => panic!("expected Incomplete"),
    }
}

#[test]
fn success_offsets_are_monotonic() {
    let buf = b"GET / HTTP/1.1\r\nHost: localhost:3000\r\n\r\ntail";
    let parse = RequestParser::parse_request(buf.to_vec(), start()).unwrap();
    match parse {
        RequestParseResponse::Success(p) => {
            assert!(p.body.0 <= p.body.1);
            assert_eq!(p.body.1, buf.len());
            assert_eq!(p.body.0, 40);
            assert_eq!(p.headers.len(), 1);
        }
        RequestParseResponse::Incomplete(_) => panic!("expected Success"),
    }
}

#[test]
fn growing_buffer_keeps_the_same_head() {
    let full = b"GET /route HTTP/1.1\r\nHost: a\r\n\r\nBODY";
    let mut recognized: Option<(usize, usize)> = None;
    for cut in 0..=full.len() {
        let parse = RequestParser::parse_request(full[..cut].to_vec(), start());
        match parse.expect("prefixes of a valid message never turn fatal") {
            RequestParseResponse::Incomplete((_, state)) => {
                if let ParserState::Head { head, .. } = state {
                    assert_eq!(head.method, (0, 3));
                    assert_eq!(head.path, (4, 10));
                    assert_eq!(head.http_version, (11, 19));
                }
            }
            RequestParseResponse::Success(p) => {
                assert_eq!(p.head.method, (0, 3));
                assert_eq!(p.head.path, (4, 10));
                assert_eq!(p.head.http_version, (11, 19));
                match recognized {
                    None => recognized = Some((p.body.0, p.head.path.1)),
                    Some((first_body, path_end)) => {
                        assert_eq!(p.body.0, first_body);
                        assert_eq!(p.head.path.1, path_end);
                    }
                }
            }
        }
    }
    assert!(recognized.is_some());
}

#[test]
fn resubmitting_the_same_bytes_is_deterministic() {
    let buf = b"GET / HTTP/1.1\r\nHost: x\r\n";
    let once = RequestParser::parse_request(buf.to_vec(), start()).unwrap();
    let state = match once {
        RequestParseResponse::Incomplete((_, state)) => state,
        RequestParseResponse::Success(_) => panic!("expected Incomplete"),
    };
    let twice = RequestParser::parse_request(buf.to_vec(), state).unwrap();
    match twice {
        RequestParseResponse::Incomplete((_, state)) => match state {
            ParserState::Head { cursor, head, .. } => {
                assert_eq!(cursor, 16);
                assert_eq!(head.method, (0, 3));
            }
            _ => panic!("expected a Head state"),
        },
        RequestParseResponse::Success(_) => panic!("expected Incomplete"),
    }
}

#[test]
fn read_until_reports_progress_marker() {
    assert_eq!(ParserState::Start { read_until: None }.read_until(), 0);
    assert_eq!(ParserState::Start { read_until: Some(7) }.read_until(), 7);
    let buf = b"GET / HTTP/1.1\r\nHost: x\r\n";
    match RequestParser::parse_request(buf.to_vec(), start()).unwrap() {
        RequestParseResponse::Incomplete((_, state)) => {
            assert_eq!(state.read_until(), buf.len());
        }
        RequestParseResponse::Success(_) => panic!("expected Incomplete"),
    }
}

#[test]
fn bare_lf_line_endings_are_accepted() {
    let buf = b"GET / HTTP/1.1\nHost: x\n\nrest";
    match RequestParser::parse_request(buf.to_vec(), start()).unwrap() {
        RequestParseResponse::Success(p) => {
            assert_eq!(p.head.http_version, (6, 14));
            assert_eq!(p.body.0, 24);
        }
        RequestParseResponse::Incomplete(_) => panic!("expected Success"),
    }
}

#[test]
fn request_line_alone_is_not_a_complete_message() {
    let buf = b"GET / HTTP/1.1\r\n";
    match RequestParser::parse_request(buf.to_vec(), start()).unwrap() {
        RequestParseResponse::Incomplete((_, state)) => {
            assert!(matches!(state, ParserState::Head { .. }));
        }
        RequestParseResponse::Success(_) => panic!("expected Incomplete"),
    }
}
