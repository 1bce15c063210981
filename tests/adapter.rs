use rusoto_http_adapter::body::{buffered_chunks, read_buffer, read_from, ChunkState, CHUNK_SIZE};
use rusoto_http_adapter::dispatch::{settle, SendOutcome};
use rusoto_http_adapter::error::{DispatchError, ErrorKind};
use rusoto_http_adapter::headers::{request_headers, response_headers};
use rusoto_http_adapter::request::{
    request_body, request_url, translate_request, Payload, RequestParts, TargetBody,
};
use rusoto_http_adapter::response::translate_response;
use rusoto_http_adapter::HttpClient;

fn parts(method: &str, headers: Vec<(String, Vec<Vec<u8>>)>, payload: Payload<u32>) -> RequestParts<u32> {
    RequestParts {
        method: method.to_string(),
        scheme: "https".to_string(),
        hostname: "s3.us-east-1.amazonaws.com".to_string(),
        path: "/bucket/key".to_string(),
        query: "list-type=2".to_string(),
        headers,
        payload,
    }
}

fn kind_of<T>(r: Result<T, DispatchError>) -> ErrorKind {
    match r {
        Ok(_) => panic!("expected an error"),
        Err(e) => e.kind,
    }
}

#[test]
fn every_known_method_translates_to_itself() {
    for m in ["GET", "PUT", "POST", "DELETE", "HEAD", "PATCH", "OPTIONS", "VERSION-CONTROL"] {
        let t = translate_request(parts(m, vec![], Payload::Absent)).ok().unwrap();
        assert_eq!(t.method_name, m);
    }
}

#[test]
fn lower_case_method_is_upper_cased() {
    let t = translate_request(parts("get", vec![], Payload::Absent)).ok().unwrap();
    assert_eq!(t.method_name, "GET");
}

#[test]
fn unknown_method_fails() {
    assert_eq!(kind_of(translate_request(parts("FETCH", vec![], Payload::Absent))), ErrorKind::Method);
}

#[test]
fn url_with_query() {
    assert_eq!(request_url("https", "example.com", "/a/b", "x=1&y=2"), "https://example.com/a/b?x=1&y=2");
    let t = translate_request(parts("GET", vec![], Payload::Absent)).ok().unwrap();
    assert_eq!(t.url_text, "https://s3.us-east-1.amazonaws.com/bucket/key?list-type=2");
}

#[test]
fn url_without_query_has_no_question_mark() {
    assert_eq!(request_url("http", "localhost:9000", "/", ""), "http://localhost:9000/");
}

#[test]
fn unparsable_url_fails() {
    let mut p = parts("GET", vec![], Payload::Absent);
    p.scheme = String::new();
    p.hostname = String::new();
    assert_eq!(kind_of(translate_request(p)), ErrorKind::Url);
}

#[test]
fn multi_value_headers_keep_count_and_order() {
    let h = vec![
        ("X-Amz-Meta".to_string(), vec![b"1".to_vec(), b"2".to_vec(), b"3".to_vec()]),
        ("host".to_string(), vec![b"example.com".to_vec()]),
    ];
    let out = request_headers(&h).ok().unwrap();
    let expect = vec![
        ("x-amz-meta".to_string(), "1".to_string()),
        ("x-amz-meta".to_string(), "2".to_string()),
        ("x-amz-meta".to_string(), "3".to_string()),
        ("host".to_string(), "example.com".to_string()),
    ];
    assert_eq!(out, expect);
    let t = translate_request(parts("GET", h, Payload::Absent)).ok().unwrap();
    assert_eq!(t.headers, expect);
}

#[test]
fn invalid_utf8_header_value_fails() {
    let h = vec![("x-ok".to_string(), vec![b"fine".to_vec(), vec![0x66, 0xff, 0xfe]])];
    let e = request_headers(&h).err().unwrap();
    assert_eq!(e.kind, ErrorKind::HeaderUtf8);
    assert!(!e.message().is_empty());
    let r = translate_request(parts("PUT", h, Payload::Absent));
    assert_eq!(kind_of(r), ErrorKind::HeaderUtf8);
}

#[test]
fn non_ascii_header_value_fails() {
    let h = vec![("x-name".to_string(), vec!["caf\u{e9}".as_bytes().to_vec()])];
    assert_eq!(kind_of(request_headers(&h)), ErrorKind::HeaderAscii);
}

#[test]
fn payload_becomes_body() {
    assert!(matches!(request_body::<u32>(Payload::Absent), TargetBody::Empty));
    match request_body::<u32>(Payload::Buffer(vec![1, 2, 3])) {
        TargetBody::Buffered(b) => assert_eq!(b, vec![1, 2, 3]),
        _ => panic!("expected a buffered body"),
    }
    match request_body::<u32>(Payload::Stream(7)) {
        TargetBody::Streamed(s) => assert_eq!(s, 7),
        _ => panic!("expected a streamed body"),
    }
    let t = translate_request(parts("PUT", vec![], Payload::Buffer(vec![9; 5]))).ok().unwrap();
    match t.body {
        TargetBody::Buffered(b) => assert_eq!(b, vec![9; 5]),
        _ => panic!("expected a buffered body"),
    }
}

#[test]
fn response_with_repeated_header() {
    let h = vec![
        ("X-A".to_string(), vec!["1".to_string(), "2".to_string()]),
        ("X-B".to_string(), vec!["3".to_string()]),
    ];
    let p = translate_response(200, &h).ok().unwrap();
    assert_eq!(p.code, 200);
    let expect = vec![
        ("x-a".to_string(), "1".to_string()),
        ("x-a".to_string(), "2".to_string()),
        ("x-b".to_string(), "3".to_string()),
    ];
    assert_eq!(p.headers, expect);
}

#[test]
fn invalid_status_fails() {
    assert_eq!(kind_of(translate_response(99, &vec![])), ErrorKind::Status);
    assert_eq!(kind_of(translate_response(1000, &vec![])), ErrorKind::Status);
    assert!(translate_response(999, &vec![]).is_ok());
}

#[test]
fn invalid_response_header_name_fails() {
    let h = vec![("bad name".to_string(), vec!["v".to_string()])];
    assert_eq!(kind_of(translate_response(200, &h)), ErrorKind::HeaderName);
    let e = vec![(String::new(), vec![])];
    assert_eq!(kind_of(response_headers(&e)), ErrorKind::HeaderName);
}

fn joined(chunks: &[Vec<u8>]) -> Vec<u8> {
    chunks.iter().flatten().copied().collect()
}

#[test]
fn empty_body_has_no_chunks() {
    let c = buffered_chunks(&vec![]);
    assert!(c.is_empty());
}

#[test]
fn body_of_one_full_chunk() {
    let data: Vec<u8> = (0..16384u32).map(|i| (i % 251) as u8).collect();
    let c = buffered_chunks(&data);
    assert_eq!(c.len(), 1);
    assert_eq!(joined(&c), data);
}

#[test]
fn body_one_past_chunk_boundary() {
    let data: Vec<u8> = (0..16385u32).map(|i| (i % 253) as u8).collect();
    let c = buffered_chunks(&data);
    assert_eq!(c.len(), 2);
    assert_eq!(c[0].len(), 16384);
    assert_eq!(c[1].len(), 1);
    assert_eq!(joined(&c), data);
}

#[test]
fn short_read_yields_its_bytes_only() {
    let mut s = ChunkState::new();
    let mut buf = read_buffer();
    assert_eq!(buf.len(), CHUNK_SIZE);
    let n = read_from(&vec![5, 6, 7], 0, &mut buf);
    assert_eq!(n, 3);
    assert_eq!(s.on_read(buf, n), Some(vec![5, 6, 7]));
    assert!(!s.is_finished());
}

#[test]
fn ended_sequence_yields_nothing_more() {
    let mut s = ChunkState::new();
    assert_eq!(s.on_read(read_buffer(), 0), None);
    assert!(s.is_finished());
    assert_eq!(s.on_read(vec![1, 2, 3], 3), None);
    assert!(s.is_finished());
    assert_eq!(s.on_read(vec![4], 9), None);
    assert!(s.is_finished());
}

#[test]
fn timed_out_send_yields_no_response() {
    let r = settle::<u32>(SendOutcome::TimedOut("future has timed out".to_string()));
    let e = r.err().unwrap();
    assert_eq!(e.kind, ErrorKind::Timeout);
    assert_eq!(e.message(), "future has timed out");
}

#[test]
fn failed_and_completed_sends() {
    let e = settle::<u32>(SendOutcome::Failed("connection refused".to_string())).err().unwrap();
    assert_eq!(e.kind, ErrorKind::Send);
    assert_eq!(e.message, "connection refused");
    assert_eq!(settle(SendOutcome::Completed(42u32)).ok(), Some(42));
}

#[test]
fn client_handle_is_shared() {
    let c = HttpClient::new(17u32);
    assert_eq!(**c.shared(), 17);
}

#[test]
fn overlong_read_yields_at_most_the_buffer() {
    let mut s = ChunkState::new();
    assert_eq!(s.on_read(vec![1, 2], 5), Some(vec![1, 2]));
    assert!(!s.is_finished());
}
