use http_rs::http::HTTPRequest;
use http_rs::http::HTTPResponse;
use http_rs::http::HTTPResponseStatus;
use http_rs::request::Protocol;
use http_rs::request::Request;
use http_rs::request::Version;
use http_rs::response::Response;
use http_rs::response::Status;
use http_rs::routing::handle_routing;
use http_rs::text::dec_u64;
use http_rs::text::split_str;

/// A request buffer the way the transport reads one: the text at the
/// front, zero bytes behind it.
fn buf(text: &str) -> [u8; 1024] {
    let mut b = [0u8; 1024];
    for (i, &byte) in text.as_bytes().iter().enumerate() {
        b[i] = byte;
    }
    b
}

#[test]
fn parses_request_line() {
    let r = Request::from_buffer(buf("GET /about HTTP/1.1\r\nHost: localhost:7878\r\n\r\n"));
    assert_eq!(r.protocol, Protocol::Get);
    assert_eq!(r.path.as_deref(), Some("/about"));
    assert_eq!(r.version, Version::Http1_1);
    assert_eq!(r.host.as_deref(), Some("localhost:7878"));
    assert_eq!(r.user_agent, None);
    assert_eq!(r.accept, None);
}

#[test]
fn parses_known_headers() {
    let r = Request::from_buffer(buf(
        "GET / HTTP/1.1\r\nHost: h\r\nUser-Agent: ua\r\nAccept: */*\r\nAccept-Language: en\r\nAccept-Encoding: gzip\r\nDNT: 1\r\nConnection: keep-alive\r\nUpgrade-Insecure-Requests: 1\r\nSec-Fetch-Dest: document\r\nSec-Fetch-Mode: navigate\r\nSec-Fetch-Site: none\r\nSec-Fetch-User: ?1\r\nX-Unknown: dropped\r\n\r\n",
    ));
    assert_eq!(r.host.as_deref(), Some("h"));
    assert_eq!(r.user_agent.as_deref(), Some("ua"));
    assert_eq!(r.accept.as_deref(), Some("*/*"));
    assert_eq!(r.accept_language.as_deref(), Some("en"));
    assert_eq!(r.accept_encoding.as_deref(), Some("gzip"));
    assert_eq!(r.dnt.as_deref(), Some("1"));
    assert_eq!(r.connection.as_deref(), Some("keep-alive"));
    assert_eq!(r.upgrade_insecure_requests.as_deref(), Some("1"));
    assert_eq!(r.sec_fetch_dest.as_deref(), Some("document"));
    assert_eq!(r.sec_fetch_mode.as_deref(), Some("navigate"));
    assert_eq!(r.sec_fetch_site.as_deref(), Some("none"));
    assert_eq!(r.sec_fetch_user.as_deref(), Some("?1"));
}

#[test]
fn later_header_occurrence_wins() {
    let r = Request::from_buffer(buf("GET / HTTP/1.1\r\nHost: a\r\nHost: b\r\n"));
    assert_eq!(r.host.as_deref(), Some("b"));
}

#[test]
fn header_without_separator_keeps_empty_value() {
    let r = Request::from_buffer(buf("GET / HTTP/1.1\r\nDNT\r\n"));
    assert_eq!(r.dnt.as_deref(), Some(""));
}

#[test]
fn short_request_line_leaves_empty_tokens() {
    let r = Request::from_buffer(buf("GET"));
    assert_eq!(r.protocol, Protocol::Invalid);
    assert_eq!(r.version, Version::Invalid);
    assert_eq!(r.host, None);
}

#[test]
fn method_and_version_tokens() {
    assert_eq!(Protocol::from_str("GET"), Protocol::Get);
    assert_eq!(Protocol::from_str("POST"), Protocol::Invalid);
    assert_eq!(Version::from_str("HTTP/1.1"), Version::Http1_1);
    assert_eq!(Version::from_str("HTTP/1.0"), Version::Invalid);
}

#[test]
fn routes_root_to_index() {
    let r = Request::from_buffer(buf("GET / HTTP/1.1\r\n"));
    let resp = Response::from_request(r);
    assert_eq!(resp.status, Status::Okay);
    assert_eq!(resp.html_path.as_deref(), Some("html/index.html"));
    assert_eq!(resp.file_path(), "html/index.html");
}

#[test]
fn routes_icon_to_missing_page() {
    let r = Request::from_buffer(buf("GET /favicon.ico HTTP/1.1\r\n"));
    let resp = Response::from_request(r);
    assert_eq!(resp.status, Status::NotFound);
    assert_eq!(resp.html_path.as_deref(), Some("html/404.html"));
    assert_eq!(resp.file_path(), "html/404.html");
}

#[test]
fn routes_name_to_html_file() {
    let r = Request::from_buffer(buf("GET /about HTTP/1.1\r\n"));
    let resp = Response::from_request(r);
    assert_eq!(resp.status, Status::Okay);
    assert_eq!(resp.html_path.as_deref(), Some("html/about.html"));
}

#[test]
fn error_response_has_no_file() {
    let resp = Response::from_error();
    assert_eq!(resp.status, Status::NotFound);
    assert!(resp.html_path.is_none());
    assert_eq!(resp.file_path(), "html/404.html");
}

#[test]
fn renders_head_with_byte_length() {
    let resp = Response { html_path: Some(String::from("html/index.html")), status: Status::Okay };
    let text = resp.text("<html>hi</html>");
    assert_eq!(text, "HTTP/1.1 200 OK\r\nContent-Length: 15\r\n\r\n<html>hi</html>");
}

#[test]
fn renders_missing_page_head() {
    let resp = Response::from_error();
    let text = resp.text("gone");
    assert_eq!(text, "HTTP/1.1 404 NOT FOUND\r\nContent-Length: 4\r\n\r\ngone");
}

#[test]
fn status_lines() {
    assert_eq!(Status::Okay.to_string(), "HTTP/1.1 200 OK");
    assert_eq!(Status::NotFound.to_string(), "HTTP/1.1 404 NOT FOUND");
    assert_eq!(HTTPResponseStatus::Okay.text(), "HTTP/1.1 200 OK");
    assert_eq!(HTTPResponseStatus::NotFound.text(), "HTTP/1.1 404 NOT FOUND");
}

#[test]
fn routing_builds_paths() {
    assert_eq!(handle_routing(String::from("/")), "html/index.html");
    assert_eq!(handle_routing(String::from("/about")), "html/about.html");
    assert_eq!(handle_routing(String::from("/a/b")), "html/a/b.html");
}

#[test]
fn get_path_extracts_second_token() {
    let req = HTTPRequest::new(buf("GET /hello HTTP/1.1\r\n"));
    assert_eq!(req.get_path(), "/hello");
}

#[test]
fn hello_page_for_root() {
    let resp = HTTPResponse::new(HTTPRequest::new(buf("GET / HTTP/1.1\r\n")));
    assert_eq!(resp.status, HTTPResponseStatus::Okay);
    assert_eq!(resp.html_path.as_deref(), Some("html/hello.html"));
    assert_eq!(resp.file_path(), "html/hello.html");
}

#[test]
fn missing_page_for_other_paths() {
    let resp = HTTPResponse::new(HTTPRequest::new(buf("GET /x HTTP/1.1\r\n")));
    assert_eq!(resp.status, HTTPResponseStatus::NotFound);
    assert_eq!(resp.html_path.as_deref(), Some("html/404.html"));
    let text = resp.text("nope");
    assert_eq!(text, "HTTP/1.1 404 NOT FOUND\r\nContent-Length: 4\r\n\r\nnope");
}

#[test]
fn decimal_rendering() {
    assert_eq!(dec_u64(0), "0");
    assert_eq!(dec_u64(7), "7");
    assert_eq!(dec_u64(10), "10");
    assert_eq!(dec_u64(90210), "90210");
    assert_eq!(dec_u64(u64::MAX), "18446744073709551615");
}

#[test]
fn splitting_on_separators() {
    let parts = split_str("a, b,, c", ", ");
    let views: Vec<&str> = parts.iter().map(|s| s.as_str()).collect();
    assert_eq!(views, vec!["a", "b,", "c"]);

    let parts = split_str("xx", "x");
    let views: Vec<&str> = parts.iter().map(|s| s.as_str()).collect();
    assert_eq!(views, vec!["", "", ""]);

    let parts = split_str("plain", "\r\n");
    let views: Vec<&str> = parts.iter().map(|s| s.as_str()).collect();
    assert_eq!(views, vec!["plain"]);
}
