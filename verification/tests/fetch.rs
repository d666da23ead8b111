use tundra::address::{parse_address, Address};
use tundra::http::{parse_response, request_for, split_lines, trim, FetchError};
use tundra::text::chars_of;

fn address(host: &str, port: &str, path: &str, fragment: &str) -> Option<Address> {
    Some(Address {
        host: host.to_string(),
        port: port.to_string(),
        path: path.to_string(),
        fragment: fragment.to_string(),
    })
}

#[test]
fn address_with_path() {
    assert_eq!(
        parse_address("http://example.org/index.html"),
        address("example.org", "80", "/index.html", "")
    );
}

#[test]
fn address_with_port_and_fragment() {
    assert_eq!(
        parse_address("http://localhost:8080/a/b.html#part"),
        address("localhost", "8080", "/a/b.html", "#part")
    );
}

#[test]
fn address_without_path_gets_two_slashes() {
    assert_eq!(parse_address("http://example.org"), address("example.org", "80", "//", ""));
    assert_eq!(parse_address("http://example.org/"), address("example.org", "80", "/", ""));
}

#[test]
fn address_splits_at_last_colon_and_last_hash() {
    assert_eq!(
        parse_address("http://a:b:81/x#y#z"),
        address("a:b", "81", "/x#y", "#z")
    );
}

#[test]
fn address_ends_at_second_scheme_separator() {
    assert_eq!(
        parse_address("http://a/b?u=http://c/d"),
        address("a", "80", "/b?u=http", "")
    );
}

#[test]
fn address_of_other_scheme_is_refused() {
    assert_eq!(parse_address("https://example.org/"), None);
    assert_eq!(parse_address("example.org"), None);
    assert_eq!(parse_address(""), None);
    assert_eq!(parse_address("HTTP://example.org/"), None);
}

#[test]
fn request_text_is_exact() {
    assert_eq!(
        request_for("example.org", "/index.html"),
        "GET /index.html HTTP/1.1\r\nHost: example.org\r\n\
         User-Agent: HeliosPanoptes\r\nConnection: close\r\n\r\n"
    );
}

#[test]
fn trim_removes_whitespace_at_both_ends() {
    assert_eq!(trim(&chars_of("  a b \t\r\n")), chars_of("a b"));
    assert_eq!(trim(&chars_of("ab")), chars_of("ab"));
    assert_eq!(trim(&chars_of(" \n ")), chars_of(""));
    assert_eq!(trim(&chars_of("")), chars_of(""));
}

#[test]
fn trim_agrees_with_std() {
    for s in ["", " ", "a", " a", "a ", "\u{3000}a b\u{00A0}", "\r\n x \r\n", "a\tb"] {
        assert_eq!(trim(&chars_of(s)), chars_of(s.trim()), "{:?}", s);
    }
}

#[test]
fn split_lines_agrees_with_std() {
    for s in ["", "a", "a\r\nb", "a\r\n", "\r\na", "a\nb\rc", "a\r\n\r\nb", "\r\r\n\n"] {
        let expected: Vec<Vec<char>> = s.split("\r\n").map(|line| chars_of(line)).collect();
        assert_eq!(split_lines(&chars_of(s)), expected, "{:?}", s);
    }
}

#[test]
fn response_with_headers_and_body() {
    let response = parse_response(
        "HTTP/1.1 200 OK\r\nContent-Type: Text/HTML \r\nX-Thing:a:b\r\n\r\n<p>a</p>",
    )
    .unwrap();
    assert_eq!(response.body, "<p>a</p>");
    assert_eq!(response.headers.len(), 2);
    assert_eq!(response.headers.get("content-type"), Some(&"text/html".to_string()));
    assert_eq!(response.headers.get("x-thing"), Some(&"a:b".to_string()));
}

#[test]
fn response_without_headers() {
    let response = parse_response("HTTP/1.0 200 OK\r\n\r\nbody").unwrap();
    assert_eq!(response.body, "body");
    assert_eq!(response.headers.len(), 0);
}

#[test]
fn response_body_ends_at_next_empty_line() {
    let response = parse_response("HTTP/1.1 200 OK\r\n\r\nfirst\r\n\r\nsecond").unwrap();
    assert_eq!(response.body, "first");
}

#[test]
fn response_with_other_status_is_an_error() {
    match parse_response("HTTP/1.1 404 Not Found\r\nA: b\r\n\r\nnothing") {
        Err(e) => assert_eq!(
            e,
            FetchError::Status {
                status: "404".to_string(),
                explanation: "Not Found".to_string()
            }
        ),
        Ok(_) => panic!("accepted"),
    }
}

#[test]
fn response_status_is_checked_before_headers() {
    match parse_response("HTTP/1.1 500 Oops\r\nno colon here\r\n\r\n") {
        Err(e) => assert_eq!(
            e,
            FetchError::Status { status: "500".to_string(), explanation: "Oops".to_string() }
        ),
        Ok(_) => panic!("accepted"),
    }
}

#[test]
fn malformed_responses() {
    for text in [
        "",
        "HTTP/1.1 200 OK\r\nA: b\r\n",
        "HTTP/1.1 200\r\n\r\nbody",
        "HTTP/1.1\r\n\r\nbody",
        "HTTP/1.1 200 OK\r\nno colon here\r\n\r\nbody",
        "HTTP/1.1 200 OK\r\nA: b\r\n\r\nC: d\r\nbroken\r\n\r\nbody",
    ] {
        match parse_response(text) {
            Err(e) => assert_eq!(e, FetchError::Malformed, "{:?}", text),
            Ok(_) => {
                // The last one is well formed: its header ends at the first
                // empty line.
                assert!(text.contains("broken"), "{:?}", text);
            }
        }
    }
}

#[test]
fn status_line_with_two_spaces_has_empty_status() {
    match parse_response("HTTP/1.1  200 OK\r\n\r\n") {
        Err(e) => assert_eq!(
            e,
            FetchError::Status { status: "".to_string(), explanation: "200 OK".to_string() }
        ),
        Ok(_) => panic!("accepted"),
    }
}
