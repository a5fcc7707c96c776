use std::collections::HashMap;

use openshell_inspect::chunked::{parse_chunk_size, ChunkedBody, ChunkProgress};
use openshell_inspect::framing::{find_crlf, find_header_end};
use openshell_inspect::http::{
    finish_content_length_body, normalize_chunked_request_to_content_length,
    read_body_for_inspection, resume_chunked_body, BodyRead,
};
use openshell_inspect::http_error::HttpError;
use openshell_inspect::l7::{BodyLength, L7Request};

fn request(raw: &[u8], body_length: BodyLength) -> L7Request {
    L7Request {
        action: "POST".to_string(),
        target: "/rpc".to_string(),
        query_params: HashMap::new(),
        raw_header: raw.to_vec(),
        body_length,
    }
}

fn done(read: BodyRead) -> Vec<u8> {
    match read {
        BodyRead::Done(body) => body,
        other => panic!("unexpected {other:?}"),
    }
}

fn failed(read: BodyRead) -> HttpError {
    match read {
        BodyRead::Failed(error) => error,
        other => panic!("unexpected {other:?}"),
    }
}

/// Feeds `body` in pieces of `step` bytes until the request is settled.
fn feed(request: &mut L7Request, body: &[u8], step: usize, max: usize) -> BodyRead {
    let mut read = read_body_for_inspection(request, max);
    let mut pieces = body.chunks(step);
    loop {
        read = match read {
            BodyRead::NeedMore(state) => {
                resume_chunked_body(request, state, pieces.next().unwrap_or(&[]))
            }
            other => return other,
        };
    }
}

const HEAD: &[u8] =
    b"POST /rpc HTTP/1.1\r\nHost: h\r\nTransfer-Encoding: chunked\r\nTrailer: X\r\n\r\n";
const BODY: &[u8] = b"5;ext=1\r\nhello\r\n 6 \r\n, wor\n\r\n2\r\nld\r\n0\r\nX: y\r\n\r\n";

#[test]
fn request_without_body_has_an_empty_one() {
    let mut r = request(b"GET / HTTP/1.1\r\n\r\nextra", BodyLength::Absent);
    assert!(done(read_body_for_inspection(&mut r, 10)).is_empty());
    assert_eq!(r.raw_header, b"GET / HTTP/1.1\r\n\r\nextra");
}

#[test]
fn content_length_body_that_came_with_the_header() {
    let mut r = request(b"POST / HTTP/1.1\r\n\r\nhello", BodyLength::ContentLength(5));
    assert_eq!(done(read_body_for_inspection(&mut r, 5)), b"hello");
    assert_eq!(r.raw_header, b"POST / HTTP/1.1\r\n\r\nhello");
}

#[test]
fn content_length_body_is_completed_and_found_again() {
    let mut r = request(b"POST / HTTP/1.1\r\n\r\nhe", BodyLength::ContentLength(5));
    assert!(matches!(read_body_for_inspection(&mut r, 64), BodyRead::NeedExact(3)));
    assert_eq!(finish_content_length_body(&mut r, b"llo"), b"hello");
    assert_eq!(r.raw_header, b"POST / HTTP/1.1\r\n\r\nhello");
    assert_eq!(done(read_body_for_inspection(&mut r, 64)), b"hello");
}

#[test]
fn content_length_errors() {
    let mut r = request(b"POST / HTTP/1.1\r\n\r\n", BodyLength::ContentLength(6));
    let e = failed(read_body_for_inspection(&mut r, 5));
    assert_eq!(e, HttpError::BodyExceedsLimit { max_body_bytes: 5 });
    assert_eq!(e.message(), "HTTP request body exceeds 5 byte inspection limit");

    let mut r = request(b"POST / HTTP/1.1\r\n\r\nhello!", BodyLength::ContentLength(5));
    let e = failed(read_body_for_inspection(&mut r, 64));
    assert_eq!(e, HttpError::MoreThanContentLength);
    assert_eq!(e.message(), "HTTP request contains more body bytes than Content-Length");
    assert_eq!(
        HttpError::LengthExceedsPlatform.message(),
        "HTTP request body length exceeds platform limit"
    );
}

#[test]
fn chunked_body_is_decoded_and_reframed() {
    let raw = [HEAD, BODY, b"left over"].concat();
    let mut r = request(&raw, BodyLength::Chunked);
    assert_eq!(done(read_body_for_inspection(&mut r, 64)), b"hello, wor\nld");
    assert_eq!(
        r.raw_header,
        b"POST /rpc HTTP/1.1\r\nHost: h\r\nContent-Length: 13\r\n\r\nhello, wor\nld"
    );
    assert_eq!(r.body_length, BodyLength::ContentLength(13));
    assert_eq!(r.action, "POST");
    assert_eq!(done(read_body_for_inspection(&mut r, 64)), b"hello, wor\nld");
}

#[test]
fn chunked_body_reads_the_same_in_any_pieces() {
    for step in 1..=BODY.len() {
        let mut r = request(HEAD, BodyLength::Chunked);
        assert_eq!(done(feed(&mut r, BODY, step, 64)), b"hello, wor\nld", "step {step}");
        assert_eq!(
            r.raw_header,
            b"POST /rpc HTTP/1.1\r\nHost: h\r\nContent-Length: 13\r\n\r\nhello, wor\nld"
        );
    }
}

#[test]
fn chunked_round_trip_of_many_sizes() {
    for size in [1usize, 2, 15, 16, 17, 255, 256, 4097] {
        let data: Vec<u8> = (0..size).map(|i| (i % 251) as u8).collect();
        let mut framed = Vec::new();
        for part in data.chunks(300) {
            framed.extend_from_slice(format!("{:x}\r\n", part.len()).as_bytes());
            framed.extend_from_slice(part);
            framed.extend_from_slice(b"\r\n");
        }
        framed.extend_from_slice(b"0\r\n\r\n");
        let raw = [HEAD, &framed[..]].concat();
        let mut r = request(&raw, BodyLength::Chunked);
        assert_eq!(done(read_body_for_inspection(&mut r, size)), data);
        assert!(r.raw_header.ends_with(&data));
    }
}

#[test]
fn chunked_errors() {
    let cases: [(&[u8], usize, HttpError, &str); 6] = [
        (
            b"xyz\r\n",
            64,
            HttpError::InvalidChunkSize { token: "xyz".to_string() },
            "Invalid HTTP chunk size token: \"xyz\"",
        ),
        (
            b" \"\r\n",
            64,
            HttpError::InvalidChunkSize { token: "\"".to_string() },
            "Invalid HTTP chunk size token: \"\\\"\"",
        ),
        (
            b"\xff\r\n",
            64,
            HttpError::ChunkLineNotUtf8,
            "Invalid UTF-8 in HTTP chunk-size line",
        ),
        (
            b"3\r\nabc\r\n3\r\n",
            5,
            HttpError::BodyExceedsLimit { max_body_bytes: 5 },
            "HTTP request body exceeds 5 byte inspection limit",
        ),
        (
            b"3\r\nabcde",
            64,
            HttpError::ChunkNotTerminated,
            "HTTP chunk payload missing terminating CRLF",
        ),
        (
            b"ffffffffffffffff\r\n",
            usize::MAX,
            HttpError::ChunkSizeOverflow,
            "HTTP chunk size overflow",
        ),
    ];
    for (body, max, error, message) in cases {
        let raw = [HEAD, body].concat();
        let mut r = request(&raw, BodyLength::Chunked);
        let e = failed(read_body_for_inspection(&mut r, max));
        assert_eq!(e, error);
        assert_eq!(e.message(), message);
        assert_eq!(r.raw_header, raw);
    }
}

#[test]
fn chunked_body_that_ends_early() {
    let mut r = request(HEAD, BodyLength::Chunked);
    let e = failed(feed(&mut r, b"5\r\nhel", 4, 64));
    assert_eq!(e, HttpError::EndedBeforeTerminator);
    assert_eq!(e.message(), "HTTP chunked body ended before terminator");
    assert_eq!(r.raw_header, HEAD);
}

#[test]
fn chunked_framing_is_limited() {
    let mut r = request(HEAD, BodyLength::Chunked);
    let e = failed(feed(&mut r, &[b'0'; 40], 3, 8));
    assert_eq!(e, HttpError::FramingExceedsLimit);
    assert_eq!(e.message(), "HTTP chunked request body exceeds inspection framing limit");
    let mut r = request(HEAD, BodyLength::Chunked);
    assert!(matches!(
        failed(feed(&mut r, &[b'0'; 16], 16, 8)),
        HttpError::EndedBeforeTerminator
    ));
}

#[test]
fn header_that_cannot_be_reframed() {
    let raw = [b"POST /\xff HTTP/1.1\r\n\r\n".as_slice(), b"0\r\n\r\n"].concat();
    let mut r = request(&raw, BodyLength::Chunked);
    let e = failed(read_body_for_inspection(&mut r, 64));
    assert_eq!(e, HttpError::HeaderNotUtf8);
    assert_eq!(e.message(), "HTTP headers contain invalid UTF-8");
    assert_eq!(r.raw_header, raw);

    let mut r = request(b"POST / HTTP/1.1\r\n", BodyLength::Chunked);
    let e = failed(feed(&mut r, b"0\r\n\r\n", 64, 64));
    assert_eq!(e, HttpError::HeaderNotTerminated);
    assert_eq!(e.message(), "HTTP headers missing terminator");
    assert_eq!(r.raw_header, b"POST / HTTP/1.1\r\n0\r\n\r\n");
}

#[test]
fn framing_headers_go_in_any_spelling() {
    let head = b"content-length: 1\r\ncontent-Length : 7\r\nA: b\r\nTRANSFER-ENCODING:chunked\r\n\
        trailer\r\nX-Trailer: z\r\n Trailer\t: q\r\n\r\n";
    let mut r = request(head, BodyLength::Chunked);
    normalize_chunked_request_to_content_length(&mut r, head.len(), b"ab").unwrap();
    assert_eq!(
        r.raw_header,
        b"content-length: 1\r\nA: b\r\ntrailer\r\nX-Trailer: z\r\nContent-Length: 2\r\n\r\nab"
    );
}

#[test]
fn chunk_sizes_agree_with_std() {
    let tokens = [
        "", "0", "00", "a", "A", "fF", "+1", "+", "-1", "-0", "1g", " 1", "1 ", "++1", "10", "+0f",
        "0x1", "7fffffffffffffff", "ffffffffffffffff", "10000000000000000",
        "000000000000000000000001", "\u{661}",
    ];
    for token in tokens {
        assert_eq!(parse_chunk_size(token), usize::from_str_radix(token, 16).ok(), "{token:?}");
    }
}

#[test]
fn line_ends_and_header_ends() {
    assert_eq!(find_crlf(b"ab\r\nc\r\n", 0), Some(2));
    assert_eq!(find_crlf(b"ab\r\nc\r\n", 3), Some(5));
    assert_eq!(find_crlf(b"ab\r\nc\r\n", 6), None);
    assert_eq!(find_crlf(b"ab\r\n", 9), None);
    assert_eq!(find_crlf(b"\r\r\n", 0), Some(1));
    assert_eq!(find_header_end(b"a\r\n\r\nb\r\n\r\n"), 5);
    assert_eq!(find_header_end(b"a\r\nb"), 4);
    assert_eq!(find_header_end(b""), 0);
}

#[test]
fn chunked_reader_keeps_its_place() {
    let mut state = ChunkedBody::new(b"3\r\nab".to_vec(), 9);
    assert!(matches!(state.advance(), ChunkProgress::NeedMore));
    state.receive(b"c\r\n0\r\n");
    assert!(matches!(state.advance(), ChunkProgress::NeedMore));
    state.receive(b"\r\nrest");
    assert!(matches!(state.advance(), ChunkProgress::Complete));
    assert_eq!(state.max_body_bytes(), 9);
    assert_eq!(state.received_len(), 17);
    let (framed, body) = state.into_parts();
    assert_eq!(framed, b"3\r\nabc\r\n0\r\n\r\n");
    assert_eq!(body, b"abc");
}

#[test]
fn reframing_twice_changes_nothing() {
    let raw = [HEAD, BODY].concat();
    let mut r = request(&raw, BodyLength::Chunked);
    let body = done(read_body_for_inspection(&mut r, 64));
    let once = r.raw_header.clone();
    let end = find_header_end(&once);
    assert_eq!(&once[end..], &body[..]);
    normalize_chunked_request_to_content_length(&mut r, end, &body).unwrap();
    assert_eq!(r.raw_header, once);
}

#[test]
fn no_part_of_a_chunked_body_is_taken_for_the_whole() {
    for n in 0..BODY.len() {
        let mut state = ChunkedBody::new(BODY[..n].to_vec(), 13);
        assert!(matches!(state.advance(), ChunkProgress::NeedMore), "{n} bytes");
    }
    let mut state = ChunkedBody::new(BODY.to_vec(), 13);
    assert!(matches!(state.advance(), ChunkProgress::Complete));
}
