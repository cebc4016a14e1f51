use isuscope::discovery_capture::{
    body_evidence, body_rule, chunked_complete, decode_chunked, find_header_end, forward_request,
    hmac_sha256_hex, message_body, parse_headers, parse_pairs, parse_upstream, percent_decode,
    read_request_line, read_status, session_hash, CaptureOptions, Omission,
};
use isuscope::json::Json;
use isuscope::labels::Labels;

fn member<'a>(json: &'a Json, name: &str) -> &'a Json {
    json.get(name).unwrap()
}

#[test]
fn preserves_json_and_omits_large_or_binary_bodies() {
    let json = body_evidence(br#"{"id":7}"#, Some("application/json".into()), 100);
    assert_eq!(json.body.unwrap().get_integer("id"), Some(7));
    assert_eq!(
        body_evidence(b"long", Some("text/plain".into()), 2).omitted.map(Omission::as_str),
        Some("too_large")
    );
    assert_eq!(
        body_evidence(b"jpeg", Some("image/jpeg".into()), 100).omitted.map(Omission::as_str),
        Some("unsupported_content_type")
    );
}

#[test]
fn bytes_after_a_complete_body_change_nothing() {
    let body = b"3\r\nabc\r\n0\r\n\r\n";
    let mut longer = body.to_vec();
    longer.extend_from_slice(b"5\r\nmore");
    assert!(chunked_complete(body) && chunked_complete(&longer));
    assert_eq!(decode_chunked(body), Some(b"abc".to_vec()));
    assert_eq!(decode_chunked(&longer), decode_chunked(body));
}

fn options() -> CaptureOptions {
    CaptureOptions {
        listen: "127.0.0.1:0".into(),
        upstream: "http://127.0.0.1:1".into(),
        max_body_bytes: 10,
        session_cookie: Some("session".into()),
        session_key: b"run-key".to_vec(),
    }
}

#[test]
fn hashes_configured_session_cookie() {
    let mut headers = Labels::new();
    headers.insert("cookie".into(), "foo=x; session=secret".into());
    let value = session_hash(&headers, &options()).unwrap();
    assert!(value.starts_with("hmac-sha256:"));
    assert!(!value.contains("secret"));
}

#[test]
fn decodes_chunked_body() {
    assert_eq!(decode_chunked(b"4\r\ntest\r\n0\r\n\r\n").unwrap(), b"test");
    assert!(chunked_complete(b"4\r\ntest\r\n0\r\n\r\n"));
}

#[test]
fn parses_query_and_form_values() {
    let values = parse_pairs("name=hello+world&tag=a&tag=b%20c");
    let find = |key: &str| values.iter().find(|entry| entry.key == key).unwrap().values.clone();
    assert_eq!(find("name"), ["hello world"]);
    assert_eq!(find("tag"), ["a", "b c"]);
    let form = body_evidence(
        b"amount=10&name=alice",
        Some("application/x-www-form-urlencoded".into()),
        100,
    );
    let body = form.body.unwrap();
    match member(&body, "amount") {
        Json::List(items) => assert_eq!(items[0].as_str(), Some("10")),
        other => panic!("{other:?}"),
    }
}

#[test]
fn keyed_digests_are_those_of_the_standard() {
    // The second example of RFC 4231.
    assert_eq!(
        hmac_sha256_hex(b"Jefe", b"what do ya want for nothing?"),
        "5bdcc146bf60754e6a042426089575c75a003f089d2739839dec58b964ec3843"
    );
}

#[test]
fn unfinished_chunks_are_told() {
    assert!(!chunked_complete(b"4\r\nte"));
    assert!(decode_chunked(b"zz\r\n").is_none());
    assert_eq!(decode_chunked(b"2\r\nab\r\n3\r\ncde\r\n0\r\n\r\n").unwrap(), b"abcde");
}

#[test]
fn requests_and_responses_are_read() {
    let raw = b"POST /items/7?x=1 HTTP/1.1\r\nHost: a\r\nContent-Length: 3\r\n\r\nabcd";
    let end = find_header_end(raw).unwrap();
    let head = std::str::from_utf8(&raw[..end]).unwrap();
    let line = read_request_line(head).unwrap();
    assert_eq!(line.method, "POST");
    let headers = parse_headers(head);
    assert_eq!(headers.get("content-length").map(String::as_str), Some("3"));
    let rule = body_rule(&headers, false);
    assert_eq!(message_body(raw, end, rule), b"abcd");
    assert_eq!(read_status("HTTP/1.1 404 Not Found\r\n"), Ok(404));
    assert!(read_status("nonsense").is_err());
    assert!(read_request_line("").is_err());
    assert_eq!(percent_decode("a%2Fb+c"), "a/b c");
    let forwarded = forward_request(head, raw, end, "127.0.0.1:8080");
    let text = String::from_utf8(forwarded).unwrap();
    assert!(text.starts_with("POST /items/7?x=1 HTTP/1.1\r\n"));
    assert!(text.ends_with("abcd"));
}

#[test]
fn upstreams_are_hosts_with_a_port() {
    assert_eq!(parse_upstream("http://app:8080/").as_deref(), Ok("app:8080"));
    assert_eq!(parse_upstream("http://app").as_deref(), Ok("app:80"));
    assert!(parse_upstream("https://app").is_err());
    assert!(parse_upstream("http://app/path").is_err());
    assert!(parse_upstream("http://").is_err());
}

#[test]
fn broken_json_leaves_its_error() {
    let evidence = body_evidence(b"{", Some("application/json".into()), 100);
    assert!(evidence.parse_error.is_some());
    assert_eq!(evidence.bytes, 1);
    // The digest of one brace.
    assert_eq!(
        evidence.sha256,
        "021fb596db81e6d02bf3d2586ee3981fe519f275c0ac9ca76bbcf2ebb4097d96"
    );
}
