use http_server::request::ParseError;
use http_server::response::RouteOutcome;
use http_server::{byte_length, dec_string, split_lines, split_whitespace, Request, Response, ResponseHeader};

fn request(method: &str, path: &str) -> Request {
    Request {
        method: method.to_string(),
        path: path.to_string(),
        version: "HTTP/1.1".to_string(),
        user_agent: String::new(),
        body: String::new(),
    }
}

fn done(out: RouteOutcome) -> Response {
    match out {
        RouteOutcome::Done(resp) => resp,
        _ => panic!("expected a finished response"),
    }
}

#[test]
fn status_texts() {
    assert_eq!(ResponseHeader::get(ResponseHeader::HttpOk), "200 OK");
    assert_eq!(ResponseHeader::get(ResponseHeader::HttpNotFound), "404 Not Found");
    assert_eq!(ResponseHeader::get(ResponseHeader::HttpBad), "500 Bad");
    assert_eq!(
        ResponseHeader::get(ResponseHeader::HttpMethodNotAllowed),
        "405 Method Not Allowed"
    );
    assert_eq!(ResponseHeader::get(ResponseHeader::HttpCreated), "201 Created");
}

#[test]
fn parse_full_request() {
    let raw = b"GET /index.html HTTP/1.1\r\nHost: localhost:4221\r\nUser-Agent: curl/7.64.1\r\nAccept: */*\r\n\r\n";
    let req = Request::parse(raw).unwrap();
    assert_eq!(req.method, "GET");
    assert_eq!(req.path, "/index.html");
    assert_eq!(req.version, "HTTP/1.1");
    assert_eq!(req.user_agent, "curl/7.64.1");
    assert_eq!(req.body, "");
}

#[test]
fn parse_request_with_body() {
    let raw = b"POST /files/hello HTTP/1.1\r\nHost: h\r\nUser-Agent: u\r\nAccept: */*\r\nContent-Length: 5\r\n\r\nhello";
    let req = Request::parse(raw).unwrap();
    assert_eq!(req.method, "POST");
    assert_eq!(req.path, "/files/hello");
    assert_eq!(req.user_agent, "u");
    assert_eq!(req.body, "hello");
}

#[test]
fn parse_short_buffer_defaults() {
    let req = Request::parse(b"GET / HTTP/1.1").unwrap();
    assert_eq!(req.method, "GET");
    assert_eq!(req.path, "/");
    assert_eq!(req.user_agent, "");
    assert_eq!(req.body, "");
}

#[test]
fn parse_short_header_line_defaults() {
    let raw = b"GET /user-agent HTTP/1.1\r\nHost: h\r\nUser-Agent:\r\n\r\n";
    let req = Request::parse(raw).unwrap();
    assert_eq!(req.user_agent, "");
}

#[test]
fn parse_malformed_request_line() {
    let r = Request::parse(b"GET /\r\nHost: h\r\n\r\n");
    assert_eq!(r.unwrap_err(), ParseError::MalformedRequestLine);
}

#[test]
fn parse_invalid_encoding() {
    let r = Request::parse(&[0xff, 0xfe, 0x47]);
    assert_eq!(r.unwrap_err(), ParseError::InvalidEncoding);
}

#[test]
fn route_get_root() {
    let resp = done(Response::new(request("GET", "/")));
    assert_eq!(resp.header, "200 OK");
    assert_eq!(resp.content_type, "");
    assert_eq!(resp.content_length, 0);
    assert_eq!(resp.body, "");
    assert_eq!(resp.version, "HTTP/1.1");
}

#[test]
fn route_echo() {
    let resp = done(Response::new(request("GET", "/echo/abc")));
    assert_eq!(resp.header, "200 OK");
    assert_eq!(resp.content_type, "text/plain");
    assert_eq!(resp.content_length, 3);
    assert_eq!(resp.body, "abc");
}

#[test]
fn route_echo_keeps_later_slashes() {
    let resp = done(Response::new(request("GET", "/echo/a/b")));
    assert_eq!(resp.body, "a/b");
    assert_eq!(resp.content_length, 3);
}

#[test]
fn route_echo_empty() {
    let resp = done(Response::new(request("GET", "/echo/")));
    assert_eq!(resp.header, "200 OK");
    assert_eq!(resp.body, "");
    assert_eq!(resp.content_length, 0);
}

#[test]
fn route_echo_counts_bytes_not_chars() {
    let resp = done(Response::new(request("GET", "/echo/caf\u{e9}")));
    assert_eq!(resp.body, "caf\u{e9}");
    assert_eq!(resp.content_length, 5);
}

#[test]
fn route_user_agent_from_parse() {
    let raw = b"GET /user-agent HTTP/1.1\r\nHost: h\r\nUser-Agent: foobar/1.2.3\r\n\r\n";
    let req = Request::parse(raw).unwrap();
    let resp = done(Response::new(req));
    assert_eq!(resp.header, "200 OK");
    assert_eq!(resp.content_type, "text/plain");
    assert_eq!(resp.body, "foobar/1.2.3");
    assert_eq!(resp.content_length, 12);
}

#[test]
fn route_unknown_path() {
    let resp = done(Response::new(request("GET", "/nothing-here")));
    assert_eq!(resp.header, "404 Not Found");
    assert_eq!(resp.body, "");
    assert_eq!(resp.content_type, "");
}

#[test]
fn route_files_read_missing() {
    let out = Response::new(request("GET", "/files/never_written"));
    match out {
        RouteOutcome::ReadFile { version, file_name } => {
            assert_eq!(file_name, "never_written");
            let resp = Response::after_file_read(version, None);
            assert_eq!(resp.header, "404 Not Found");
            assert_eq!(resp.body, "");
            assert_eq!(resp.content_length, 0);
        }
        _ => panic!("expected a file read"),
    }
}

#[test]
fn files_write_then_read_round_trip() {
    let mut post = request("POST", "/files/notes.txt");
    post.body = "line one\nline two".to_string();
    let (name, stored) = match Response::new(post) {
        RouteOutcome::WriteFile { version, file_name, contents } => {
            let resp = Response::after_file_write(version);
            assert_eq!(resp.header, "201 Created");
            assert_eq!(resp.body, "");
            (file_name, contents)
        }
        _ => panic!("expected a file write"),
    };
    assert_eq!(name, "notes.txt");
    let out = Response::new(request("GET", "/files/notes.txt"));
    match out {
        RouteOutcome::ReadFile { version, file_name } => {
            assert_eq!(file_name, name);
            let resp = Response::after_file_read(version, Some(stored.clone()));
            assert_eq!(resp.header, "200 OK");
            assert_eq!(resp.content_type, "application/octet-stream");
            assert_eq!(resp.body, stored);
            assert_eq!(resp.content_length, stored.len());
        }
        _ => panic!("expected a file read"),
    }
}

#[test]
fn route_post_elsewhere_is_not_found() {
    let resp = done(Response::new(request("POST", "/echo/x")));
    assert_eq!(resp.header, "404 Not Found");
}

#[test]
fn route_other_method_not_allowed() {
    let resp = done(Response::new(request("DELETE", "/")));
    assert_eq!(resp.header, "405 Method Not Allowed");
    assert_eq!(resp.body, "");
    let resp = done(Response::new(request("PUT", "/echo/abc")));
    assert_eq!(resp.header, "405 Method Not Allowed");
}

#[test]
fn format_response_exact() {
    let resp = Response {
        version: "HTTP/1.1".to_string(),
        header: "200 OK".to_string(),
        content_type: "text/plain".to_string(),
        content_length: 3,
        body: "abc".to_string(),
    };
    assert_eq!(
        resp.format_response(),
        "HTTP/1.1 200 OK\r\nContent-Type: text/plain\r\nContent-Length: 3\r\n\r\nabc"
    );
}

#[test]
fn format_empty_response_exact() {
    let resp = done(Response::new(request("GET", "/")));
    assert_eq!(
        resp.format_response(),
        "HTTP/1.1 200 OK\r\nContent-Type: \r\nContent-Length: 0\r\n\r\n"
    );
}

#[test]
fn format_then_split_recovers_fields() {
    let resp = Response {
        version: "HTTP/1.1".to_string(),
        header: "201 Created".to_string(),
        content_type: "text/plain".to_string(),
        content_length: 4,
        body: "body".to_string(),
    };
    let wire = resp.format_response();
    let lines = split_lines(&wire);
    assert_eq!(lines.len(), 5);
    assert_eq!(lines[0], "HTTP/1.1 201 Created");
    assert_eq!(lines[1], "Content-Type: text/plain");
    assert_eq!(lines[2], "Content-Length: 4");
    assert_eq!(lines[3], "");
    assert_eq!(lines[4], "body");
}

#[test]
fn content_length_equals_body_bytes_end_to_end() {
    let raw = b"GET /echo/pineapple HTTP/1.1\r\nHost: h\r\nUser-Agent: u\r\n\r\n";
    let req = Request::parse(raw).unwrap();
    let resp = done(Response::new(req));
    let wire = resp.format_response();
    let lines = split_lines(&wire);
    assert_eq!(lines[2], format!("Content-Length: {}", "pineapple".len()));
    assert_eq!(lines[4], "pineapple");
}

#[test]
fn split_lines_cases() {
    assert_eq!(split_lines(""), vec![""]);
    assert_eq!(split_lines("a\r\nb"), vec!["a", "b"]);
    assert_eq!(split_lines("a\r\nb\r\n"), vec!["a", "b", ""]);
    assert_eq!(split_lines("\r\n\r\n"), vec!["", "", ""]);
    assert_eq!(split_lines("a\rb\nc"), vec!["a\rb\nc"]);
    assert_eq!(split_lines("x\r\r\ny"), vec!["x\r", "y"]);
}

#[test]
fn split_whitespace_cases() {
    assert_eq!(split_whitespace("  GET   /  HTTP/1.1 "), vec!["GET", "/", "HTTP/1.1"]);
    assert_eq!(split_whitespace(""), Vec::<String>::new());
    assert_eq!(split_whitespace(" \t "), Vec::<String>::new());
    assert_eq!(split_whitespace("one"), vec!["one"]);
    assert_eq!(split_whitespace("a\tb\r\nc"), vec!["a", "b", "c"]);
}

#[test]
fn dec_string_cases() {
    assert_eq!(dec_string(0), "0");
    assert_eq!(dec_string(7), "7");
    assert_eq!(dec_string(10), "10");
    assert_eq!(dec_string(10230), "10230");
}

#[test]
fn byte_length_counts_utf8_bytes() {
    assert_eq!(byte_length("abc"), 3);
    assert_eq!(byte_length("caf\u{e9}"), 5);
    assert_eq!(byte_length(""), 0);
}
