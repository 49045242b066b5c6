use simple_http::{HttpHeader, HttpRequest, Method, RequestError, Resource, Version};

#[test]
fn identify_known_methods() {
    assert_eq!(Method::identify("GET"), Method::Get);
    assert_eq!(Method::identify("POST"), Method::Post);
}

#[test]
fn identify_other_tokens_unrecognized() {
    assert_eq!(Method::identify(""), Method::Unrecognized);
    assert_eq!(Method::identify("get"), Method::Unrecognized);
    assert_eq!(Method::identify("PUT"), Method::Unrecognized);
    assert_eq!(Method::identify("DELETE"), Method::Unrecognized);
    assert_eq!(Method::identify("GET "), Method::Unrecognized);
}

#[test]
fn method_from_request_line() {
    assert_eq!(Method::new("POST /x HTTP/1.1\r\n\r\n"), Method::Post);
    assert_eq!(Method::new("GET / HTTP/1.1\r\n"), Method::Get);
    assert_eq!(Method::new("PUT / HTTP/1.1\r\n"), Method::Unrecognized);
    assert_eq!(Method::new("GET / HTTP/1.1"), Method::Unrecognized);
    assert_eq!(Method::new("\r\n"), Method::Unrecognized);
}

#[test]
fn version_any_position() {
    assert_eq!(Version::new("GET / HTTP/1.1\r\n").unwrap(), Version::V1_1);
    assert_eq!(Version::new("HTTP/2.0 GET /\r\n").unwrap(), Version::V2_0);
    assert_eq!(Version::new("GET HTTP/2.0 /\r\n").unwrap(), Version::V2_0);
    assert_eq!(Version::new("GET\t/  HTTP/1.1 \r\nX: y\r\n").unwrap(), Version::V1_1);
}

#[test]
fn version_leftmost_wins() {
    assert_eq!(Version::new("GET HTTP/2.0 HTTP/1.1\r\n").unwrap(), Version::V2_0);
}

#[test]
fn version_missing_fails_with_input() {
    let input = "GET / FTP/1.0\r\n\r\n";
    let err = Version::new(input).unwrap_err();
    assert_eq!(err.msg, format!("Unknown protocol version in {}", input));
    assert!(err.msg.contains(input));
}

#[test]
fn version_needs_request_line() {
    let input = "GET / HTTP/1.1";
    let err = Version::new(input).unwrap_err();
    assert!(err.msg.contains(input));
}

#[test]
fn version_token_must_stand_alone() {
    assert!(Version::new("GET / XHTTP/1.1\r\n").is_err());
    assert!(Version::new("GET / http/1.1\r\n").is_err());
}

#[test]
fn headers_well_formed_block() {
    let h = HttpHeader::new("GET / HTTP/1.1\r\nHost: x\r\n  Accept :  text/html  \r\nA: b:c\r\n\r\nbody")
        .unwrap();
    assert_eq!(h.len(), 3);
    assert_eq!(h.get("Host"), Some("x".to_string()));
    assert_eq!(h.get("Accept"), Some("text/html".to_string()));
    assert_eq!(h.get("A"), Some("b:c".to_string()));
    assert_eq!(h.get("host"), None);
}

#[test]
fn headers_duplicate_last_wins() {
    let h = HttpHeader::new("GET / HTTP/1.1\r\nK: one\r\nK: two\r\n\r\n").unwrap();
    assert_eq!(h.len(), 1);
    assert_eq!(h.get("K"), Some("two".to_string()));
}

#[test]
fn headers_missing_colon_fails() {
    assert!(HttpHeader::new("GET / HTTP/1.1\r\nHost: x\r\nbroken\r\n\r\n").is_none());
}

#[test]
fn headers_stop_at_blank_line() {
    let h = HttpHeader::new("GET / HTTP/1.1\r\nHost: x\r\n\r\nnot a header\r\n").unwrap();
    assert_eq!(h.len(), 1);
}

#[test]
fn headers_empty_block() {
    assert_eq!(HttpHeader::new("GET / HTTP/1.1\r\n").unwrap().len(), 0);
    assert_eq!(HttpHeader::new("GET / HTTP/1.1\r\n\r\n").unwrap().len(), 0);
    assert!(HttpHeader::new("GET / HTTP/1.1").is_none());
}

#[test]
fn headers_without_final_terminator() {
    let h = HttpHeader::new("GET / HTTP/1.1\r\nA: 1\r\nB: 2").unwrap();
    assert_eq!(h.len(), 2);
    assert_eq!(h.get("B"), Some("2".to_string()));
}

#[test]
fn header_insert_replaces() {
    let mut h = HttpHeader::empty();
    h.insert("a".to_string(), "1".to_string());
    h.insert("b".to_string(), "2".to_string());
    h.insert("a".to_string(), "3".to_string());
    assert_eq!(h.len(), 2);
    assert_eq!(h.get("a"), Some("3".to_string()));
    assert_eq!(h.get("b"), Some("2".to_string()));
}

#[test]
fn resource_paths() {
    assert_eq!(Resource::new("GET /foo/bar HTTP/1.1\r\nHost: x\r\n\r\n").unwrap().path, "foo/bar");
    assert_eq!(Resource::new("GET / HTTP/1.1\r\n\r\n").unwrap().path, "");
    assert_eq!(Resource::new("POST //a HTTP/1.1\r\n").unwrap().path, "/a");
    assert_eq!(Resource::new("GET x HTTP/1.1\r\n").unwrap().path, "x");
}

#[test]
fn resource_failures() {
    assert!(Resource::new("FOO /x HTTP/1.1\r\n\r\n").is_none());
    assert!(Resource::new("GET /x\r\n").is_none());
    assert!(Resource::new("GET\r\n").is_none());
    assert!(Resource::new("GET /x HTTP/1.1").is_none());
}

#[test]
fn request_unrecognized_method_gets_empty_path() {
    let r = HttpRequest::new("FOO /x HTTP/1.1\r\n\r\n").unwrap();
    assert_eq!(r.method(), Method::Unrecognized);
    assert_eq!(r.path(), "");
}

#[test]
fn request_body_after_blank_line() {
    let r = HttpRequest::new("GET / HTTP/1.1\r\nHost: x\r\n\r\nHELLO").unwrap();
    assert_eq!(r.body(), "HELLO");
    assert_eq!(r.request_body, "HELLO");
}

#[test]
fn request_body_without_separator() {
    let r = HttpRequest::new("GET / HTTP/1.1\r\nHost: x\r\n").unwrap();
    assert_eq!(r.body(), "");
}

#[test]
fn request_body_kept_verbatim() {
    let r = HttpRequest::new("GET / HTTP/1.1\r\n\r\na\r\n\r\nb").unwrap();
    assert_eq!(r.body(), "a\r\n\r\nb");
}

#[test]
fn request_end_to_end() {
    let r = HttpRequest::new("POST /submit HTTP/1.1\r\nContent-Type: text/plain\r\n\r\nabc").unwrap();
    assert_eq!(r.method(), Method::Post);
    assert_eq!(r.path(), "submit");
    assert_eq!(r.resource.path, "submit");
    assert_eq!(r.version(), Version::V1_1);
    assert_eq!(r.header_count(), 1);
    assert_eq!(r.header("Content-Type"), Some("text/plain".to_string()));
    assert_eq!(r.body(), "abc");
}

#[test]
fn request_fails_without_version() {
    let input = "GET / FTP/1.0\r\n\r\n";
    match HttpRequest::new(input) {
        Err(RequestError::InvalidData(msg)) => {
            assert_eq!(msg, format!("Unknown protocol version in {}", input))
        }
        Ok(_) => panic!("a request without a version must fail"),
    }
    assert!(HttpRequest::new("POST /a HTTP/3\r\nHost: x\r\n\r\nbody").is_err());
    assert!(HttpRequest::new("").is_err());
}

#[test]
fn request_bad_headers_become_empty() {
    let r = HttpRequest::new("GET /p HTTP/2.0\r\nHost x\r\n\r\nz").unwrap();
    assert_eq!(r.version(), Version::V2_0);
    assert_eq!(r.header_count(), 0);
    assert_eq!(r.header("Host"), None);
    assert_eq!(r.path(), "p");
    assert_eq!(r.body(), "z");
}

#[test]
fn version_from_str() {
    let v: Version = "GET / HTTP/2.0\r\n".parse().unwrap();
    assert_eq!(v, Version::V2_0);
    assert!("GET /\r\n".parse::<Version>().is_err());
}

#[test]
fn headers_trim_unicode_space() {
    let h = HttpHeader::new("GET / HTTP/1.1\r\n\u{3000}Name\t:\u{a0}v a\u{2003}\r\n\r\n").unwrap();
    assert_eq!(h.get("Name"), Some("v a".to_string()));
}
