use ferrix::http::headers::set_field;
use ferrix::http::request::{HttpRequest, ParseError};
use ferrix::http::response::HttpResponse;
use ferrix::http::server::{FileServer, FoundFile};
use ferrix::text::{
    char_is_space, chars_of, decimal_string, find, join_lines, push_all, push_decimal, same_text,
    split_lines, split_words, string_of, trim,
};

const SAMPLES: [&str; 24] = [
    "",
    "\n",
    "\r\n",
    "\r",
    "a",
    "a\n",
    "a\r\n",
    "a\r",
    "a\r\r\n",
    "a\n\nb",
    "a\n\n",
    "\n\na",
    "  leading and trailing  ",
    "\t tabs \u{b}\u{c} and \u{85} more\u{a0}",
    "\u{1680}x\u{2000}y\u{200a}z\u{2028}\u{2029}\u{202f}\u{205f}\u{3000}",
    "\u{200b}zero width is no space\u{feff}",
    "GET /index.html HTTP/1.1\r\nHost: example.org\r\n\r\nbody",
    "one\rtwo\nthree\r\nfour",
    "Grüße, Ünïcödé\r\nwörld",
    "   ",
    "\r\n\r\n",
    "x\n\r\ny",
    "key: value: more",
    "a b\u{3000}c",
];

fn text(chars: Vec<char>) -> String {
    chars.into_iter().collect()
}

fn texts(rows: Vec<Vec<char>>) -> Vec<String> {
    rows.into_iter().map(text).collect()
}

fn field(key: &str, value: &str) -> (String, String) {
    (key.to_string(), value.to_string())
}

#[test]
fn chars_and_strings_convert_both_ways() {
    for sample in SAMPLES {
        let chars = chars_of(sample);
        assert_eq!(chars, sample.chars().collect::<Vec<char>>());
        assert_eq!(string_of(&chars), sample);
    }
}

#[test]
fn white_space_is_the_unicode_property() {
    for n in 0..=0x10FFFFu32 {
        if let Some(c) = char::from_u32(n) {
            assert_eq!(char_is_space(c), c.is_whitespace(), "U+{:04X}", n);
        }
    }
}

#[test]
fn lines_are_those_of_the_standard_library() {
    for sample in SAMPLES {
        let expected: Vec<String> = sample.lines().map(str::to_string).collect();
        assert_eq!(texts(split_lines(&chars_of(sample))), expected, "{:?}", sample);
    }
}

#[test]
fn lines_lose_their_endings() {
    assert_eq!(texts(split_lines(&chars_of("a\r\nb\n\nc"))), vec!["a", "b", "", "c"]);
    assert_eq!(texts(split_lines(&chars_of("a\r"))), vec!["a\r"]);
    assert_eq!(texts(split_lines(&chars_of(""))), Vec::<String>::new());
    assert_eq!(texts(split_lines(&chars_of("\n"))), vec![""]);
}

#[test]
fn words_are_those_of_the_standard_library() {
    for sample in SAMPLES {
        let expected: Vec<String> = sample.split_whitespace().map(str::to_string).collect();
        assert_eq!(texts(split_words(&chars_of(sample))), expected, "{:?}", sample);
    }
}

#[test]
fn trim_is_that_of_the_standard_library() {
    for sample in SAMPLES {
        assert_eq!(text(trim(&chars_of(sample))), sample.trim(), "{:?}", sample);
    }
    assert_eq!(text(trim(&chars_of("  a b  "))), "a b");
    assert_eq!(text(trim(&chars_of(" \t\r\n"))), "");
}

#[test]
fn find_gives_the_first_position() {
    for sample in SAMPLES {
        for c in [':', '\n', 'a', ' ', 'ü'] {
            let chars = chars_of(sample);
            assert_eq!(find(&chars, c), chars.iter().position(|x| *x == c), "{:?}", sample);
        }
    }
    assert_eq!(find(&chars_of("a:b:c"), ':'), Some(1));
    assert_eq!(find(&chars_of("abc"), ':'), None);
}

#[test]
fn join_puts_a_line_feed_between_rows() {
    let rows: Vec<Vec<char>> = ["a", "", "bc", "d"].iter().map(|r| chars_of(r)).collect();
    assert_eq!(text(join_lines(&rows, 0)), "a\n\nbc\nd");
    assert_eq!(text(join_lines(&rows, 1)), "\nbc\nd");
    assert_eq!(text(join_lines(&rows, 3)), "d");
    assert_eq!(text(join_lines(&rows, 4)), "");
    let mut all = chars_of("x");
    push_all(&mut all, &chars_of("yz"));
    assert_eq!(text(all), "xyz");
}

#[test]
fn decimal_is_that_of_the_standard_library() {
    for n in [0usize, 1, 9, 10, 11, 99, 100, 404, 65535, 1_000_000, usize::MAX] {
        assert_eq!(decimal_string(n), n.to_string());
    }
    let mut digits = chars_of("n=");
    push_decimal(&mut digits, 1350);
    assert_eq!(text(digits), "n=1350");
}

#[test]
fn same_text_compares_characters() {
    assert!(same_text("GET", "GET"));
    assert!(same_text("", ""));
    assert!(!same_text("GET", "get"));
    assert!(!same_text("GET", "GET "));
    assert!(!same_text("htm", "html"));
}

#[test]
fn set_field_replaces_or_appends() {
    let mut fields = Vec::new();
    set_field(&mut fields, "a".to_string(), "1".to_string());
    set_field(&mut fields, "b".to_string(), "2".to_string());
    set_field(&mut fields, "a".to_string(), "3".to_string());
    assert_eq!(fields, vec![field("a", "3"), field("b", "2")]);
}

#[test]
fn parse_reads_a_whole_request() {
    let raw = "POST /submit?x=1 HTTP/1.1\r\nHost: example.org\r\nContent-Type:text/plain\r\n  X-Odd  :  spaced value  \r\nno colon here\r\n\r\nline one\r\nline two";
    let request = HttpRequest::parse(raw).unwrap();
    assert_eq!(request.method, "POST");
    assert_eq!(request.path, "/submit?x=1");
    assert_eq!(request.version, "HTTP/1.1");
    assert_eq!(
        request.headers,
        vec![
            field("host", "example.org"),
            field("content-type", "text/plain"),
            field("x-odd", "spaced value"),
        ]
    );
    assert_eq!(request.body, "line one\nline two");
    assert_eq!(request.get_path(), "/submit");
}

#[test]
fn parse_refuses_what_is_no_request() {
    assert_eq!(HttpRequest::parse("").err(), Some(ParseError::EmptyRequest));
    assert_eq!(HttpRequest::parse("\n").err(), Some(ParseError::InvalidRequestLine));
    assert_eq!(HttpRequest::parse("GET /").err(), Some(ParseError::InvalidRequestLine));
    assert_eq!(
        HttpRequest::parse("GET / HTTP/1.1 extra\r\n").err(),
        Some(ParseError::InvalidRequestLine)
    );
    assert_eq!(ParseError::EmptyRequest.message(), "Empty request");
    assert_eq!(ParseError::InvalidRequestLine.message(), "Invalid request line");
}

#[test]
fn parse_keeps_the_last_value_of_a_repeated_field() {
    let request = HttpRequest::parse("GET / HTTP/1.1\nA: 1\nB: 2\na: 3\n\n").unwrap();
    assert_eq!(request.headers, vec![field("a", "3"), field("b", "2")]);
    assert_eq!(request.body, "");
}

#[test]
fn parse_lowers_the_case_of_field_names() {
    let request = HttpRequest::parse("GET / HTTP/1.1\nÄCCEPT-Ünicode: Value\n\n").unwrap();
    assert_eq!(request.headers, vec![field("äccept-ünicode", "Value")]);
}

#[test]
fn parse_without_an_empty_line_takes_the_header_lines_as_body() {
    let request = HttpRequest::parse("GET / HTTP/1.1\r\nHost: h\r\nAccept: */*").unwrap();
    assert_eq!(request.headers, vec![field("host", "h"), field("accept", "*/*")]);
    assert_eq!(request.body, "Host: h\nAccept: */*");
    let alone = HttpRequest::parse("  GET\t/   HTTP/1.0  ").unwrap();
    assert_eq!((alone.method.as_str(), alone.path.as_str(), alone.version.as_str()), ("GET", "/", "HTTP/1.0"));
    assert!(alone.headers.is_empty());
    assert_eq!(alone.body, "");
}

#[test]
fn parse_stops_the_headers_at_the_first_empty_line() {
    let request = HttpRequest::parse("GET / HTTP/1.1\n\nA: 1\n\nrest").unwrap();
    assert!(request.headers.is_empty());
    assert_eq!(request.body, "A: 1\n\nrest");
}

#[test]
fn get_path_drops_the_query() {
    let with = |path: &str| {
        let mut request = HttpRequest::parse("GET / HTTP/1.1").unwrap();
        request.path = path.to_string();
        request.get_path()
    };
    assert_eq!(with("/a/b?x=1&y=2"), "/a/b");
    assert_eq!(with("/a/b"), "/a/b");
    assert_eq!(with("?"), "");
    assert_eq!(with("/a?b?c"), "/a");
    assert_eq!(with(""), "");
}

#[test]
fn response_bytes() {
    let mut response = HttpResponse::ok();
    response.set_body_text("hello");
    response.set_header("Content-Type", "text/plain");
    assert_eq!(
        String::from_utf8(response.to_bytes()).unwrap(),
        "HTTP/1.1 200 OK\r\nContent-Length: 5\r\nContent-Type: text/plain\r\nConnection: close\r\n\r\nhello"
    );
    assert_eq!(
        String::from_utf8(HttpResponse::new(204, "No Content").to_bytes()).unwrap(),
        "HTTP/1.1 204 No Content\r\nConnection: close\r\n\r\n"
    );
}

#[test]
fn response_builders() {
    let ok = HttpResponse::ok();
    assert_eq!((ok.status_code, ok.status_text.as_str()), (200, "OK"));
    assert!(ok.headers.is_empty() && ok.body.is_empty());
    let missing = HttpResponse::not_found();
    assert_eq!((missing.status_code, missing.status_text.as_str()), (404, "Not Found"));
    assert_eq!(missing.body, b"404 Not Found");
    assert_eq!(
        missing.headers,
        vec![field("Content-Length", "13"), field("Content-Type", "text/plain")]
    );
    let broken = HttpResponse::internal_server_error();
    assert_eq!(broken.status_code, 500);
    assert_eq!(broken.status_text, "Internal Server Error");
    assert_eq!(broken.body, b"500 Internal Server Error");
    assert_eq!(
        broken.headers,
        vec![field("Content-Length", "25"), field("Content-Type", "text/plain")]
    );
}

#[test]
fn response_setters_replace_earlier_values() {
    let mut response = HttpResponse::new(200, "OK");
    response.set_header("X-A", "1");
    response.set_body_bytes(vec![0, 159, 146, 150]);
    response.set_header("X-A", "2");
    response.set_body_text("Grüße");
    assert_eq!(response.body, "Grüße".as_bytes());
    assert_eq!(response.headers, vec![field("X-A", "2"), field("Content-Length", "7")]);
    response.set_body_bytes(Vec::new());
    assert_eq!(response.headers, vec![field("X-A", "2"), field("Content-Length", "0")]);
    let mut bytes = b"HTTP/1.1 200 OK\r\nX-A: 2\r\nContent-Length: 4\r\nConnection: close\r\n\r\n".to_vec();
    bytes.extend_from_slice(&[0, 159, 146, 150]);
    response.set_body_bytes(vec![0, 159, 146, 150]);
    assert_eq!(response.to_bytes(), bytes);
}

#[test]
fn content_types() {
    let of = |extension: &str| FileServer::get_content_type(Some(extension));
    assert_eq!(of("html"), "text/html; charset=utf-8");
    assert_eq!(of("htm"), "text/html; charset=utf-8");
    assert_eq!(of("css"), "text/css");
    assert_eq!(of("js"), "application/javascript");
    assert_eq!(of("json"), "application/json");
    assert_eq!(of("png"), "image/png");
    assert_eq!(of("jpg"), "image/jpeg");
    assert_eq!(of("jpeg"), "image/jpeg");
    assert_eq!(of("gif"), "image/gif");
    assert_eq!(of("svg"), "image/svg+xml");
    assert_eq!(of("txt"), "text/plain; charset=utf-8");
    assert_eq!(of("HTML"), "application/octet-stream");
    assert_eq!(of(""), "application/octet-stream");
    assert_eq!(of("bin"), "application/octet-stream");
    assert_eq!(FileServer::get_content_type(None), "application/octet-stream");
}

#[test]
fn request_paths_name_files_under_the_root() {
    let server = FileServer::new("/srv/www");
    assert_eq!(server.root_dir(), "/srv/www");
    assert_eq!(server.resolve_path("/"), "index.html");
    assert_eq!(server.resolve_path(""), "index.html");
    assert_eq!(server.resolve_path("/a/b.css"), "a/b.css");
    assert_eq!(server.resolve_path("a/b.css"), "a/b.css");
    assert_eq!(server.resolve_path("//a"), "/a");
    assert_eq!(server.resolve_path("/../etc/passwd"), "../etc/passwd");
}

#[test]
fn only_get_asks_for_a_file() {
    let server = FileServer::new("root");
    let get = HttpRequest::parse("GET /img/logo.png?v=2 HTTP/1.1\r\n\r\n").unwrap();
    assert_eq!(server.wanted_file(&get), Some("img/logo.png".to_string()));
    let root = HttpRequest::parse("GET /?q HTTP/1.1\r\n\r\n").unwrap();
    assert_eq!(server.wanted_file(&root), Some("index.html".to_string()));
    for method in ["POST", "get", "HEAD", "GETS"] {
        let other = HttpRequest::parse(&format!("{} /x HTTP/1.1\r\n\r\n", method)).unwrap();
        assert_eq!(server.wanted_file(&other), None);
        let refused = server.handle_request(&other, None);
        assert_eq!(refused.status_code, 405);
        assert_eq!(refused.status_text, "Method Not Allowed");
        assert_eq!(refused.body, b"405 Method Not Allowed");
        assert_eq!(
            refused.headers,
            vec![field("Content-Length", "22"), field("Content-Type", "text/plain")]
        );
        let file = FoundFile { contents: vec![1], extension: None };
        assert_eq!(server.handle_request(&other, Some(file)).status_code, 405);
    }
}

#[test]
fn a_found_file_is_served_with_its_type() {
    let server = FileServer::new("root");
    let get = HttpRequest::parse("GET /page.html HTTP/1.1\r\n\r\n").unwrap();
    let file = FoundFile { contents: b"<p>hi</p>".to_vec(), extension: Some("html".to_string()) };
    let served = server.handle_request(&get, Some(file));
    assert_eq!((served.status_code, served.status_text.as_str()), (200, "OK"));
    assert_eq!(served.body, b"<p>hi</p>");
    assert_eq!(
        served.headers,
        vec![field("Content-Length", "9"), field("Content-Type", "text/html; charset=utf-8")]
    );
    let plain = FoundFile { contents: Vec::new(), extension: None };
    assert_eq!(
        server.handle_request(&get, Some(plain)).headers,
        vec![field("Content-Length", "0"), field("Content-Type", "application/octet-stream")]
    );
    let missing = server.handle_request(&get, None);
    assert_eq!(missing.status_code, 404);
    assert_eq!(missing.to_bytes(), HttpResponse::not_found().to_bytes());
}
