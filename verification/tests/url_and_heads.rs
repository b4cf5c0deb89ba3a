use chat_proxy::chunked::{chunk_frame, chunk_size, last_chunk, next_chunk, ChunkStep};
use chat_proxy::request::{blank_line, parse_request_line, route, RequestHead, Route};
use chat_proxy::response::{
    is_success, simple_response, status_line_ok, stream_head, upstream_request_head, ReplyHead,
};
use chat_proxy::url::parse_url;

#[test]
fn url_with_scheme_port_and_path() {
    let u = parse_url("http://localhost:9090/v1/chat/completions");
    assert_eq!(u.host, "localhost");
    assert_eq!(u.port, 9090);
    assert_eq!(u.path, "/v1/chat/completions");
}

#[test]
fn url_defaults_to_port_80_and_root_path() {
    let u = parse_url("example.com");
    assert_eq!((u.host.as_str(), u.port, u.path.as_str()), ("example.com", 80, "/"));
    let u = parse_url("http://stub");
    assert_eq!((u.host.as_str(), u.port, u.path.as_str()), ("stub", 80, "/"));
}

#[test]
fn url_with_a_bad_port_uses_80() {
    let u = parse_url("http://stub:abc/x");
    assert_eq!((u.host.as_str(), u.port, u.path.as_str()), ("stub", 80, "/x"));
    let u = parse_url("stub:70000/");
    assert_eq!((u.host.as_str(), u.port, u.path.as_str()), ("stub", 80, "/"));
    let u = parse_url("stub:+81");
    assert_eq!((u.host.as_str(), u.port, u.path.as_str()), ("stub", 81, "/"));
}

#[test]
fn url_host_ends_at_last_colon_and_scheme_is_stripped_once() {
    let u = parse_url("http://[::1]:8080/p:q");
    assert_eq!((u.host.as_str(), u.port, u.path.as_str()), ("[::1]", 8080, "/p:q"));
    let u = parse_url("http://http://h:1/");
    assert_eq!((u.host.as_str(), u.port, u.path.as_str()), ("http", 80, "//h:1/"));
}

#[test]
fn url_composed_from_parts_splits_back() {
    for (host, port, path) in [("a.b", 1u16, "/"), ("x:y", 65535, "/q?z=1"), ("", 0, "/p")] {
        let u = parse_url(&format!("http://{}:{}{}", host, port, path));
        assert_eq!((u.host.as_str(), u.port, u.path.as_str()), (host, port, path));
    }
}

#[test]
fn request_line_words() {
    assert_eq!(
        parse_request_line("POST /chat HTTP/1.1\r\n"),
        ("POST".to_string(), "/chat".to_string())
    );
    assert_eq!(parse_request_line("GET\r\n"), ("GET".to_string(), String::new()));
    assert_eq!(parse_request_line("\r\n"), (String::new(), String::new()));
}

#[test]
fn header_lines_set_length_and_keep_alive() {
    let mut h = RequestHead::new();
    assert_eq!((h.content_length, h.keep_alive), (0, true));
    assert!(!h.header_line("Host: x\r\n"));
    assert!(!h.header_line("Content-Length: 42\r\n"));
    assert_eq!(h.content_length, 42);
    assert!(!h.header_line("CONTENT-LENGTH:   7 \r\n"));
    assert_eq!(h.content_length, 7);
    assert!(!h.header_line("content-length: abc\r\n"));
    assert_eq!(h.content_length, 0);
    assert!(!h.header_line("Connection: keep-alive\r\n"));
    assert!(h.keep_alive);
    assert!(!h.header_line("Connection:  Close \r\n"));
    assert!(!h.keep_alive);
    assert!(!h.header_line("Connection: keep-alive\r\n"));
    assert!(!h.keep_alive);
    assert!(h.header_line("\r\n"));
    assert!(h.header_line("\n"));
    assert!(blank_line("\n"));
    assert!(!blank_line(" \n"));
}

#[test]
fn routes() {
    assert_eq!(route("POST", "/chat"), Route::Chat);
    assert_eq!(route("GET", "/chat"), Route::NotFound);
    assert_eq!(route("POST", "/chat/"), Route::NotFound);
    assert_eq!(route("post", "/chat"), Route::NotFound);
}

#[test]
fn reply_heads() {
    assert_eq!(simple_response(404, "Not Found"), "HTTP/1.1 404 Not Found\r\nContent-Length: 0\r\n\r\n");
    assert_eq!(simple_response(502, "Bad Gateway"), "HTTP/1.1 502 Bad Gateway\r\nContent-Length: 0\r\n\r\n");
    assert_eq!(
        stream_head(None),
        "HTTP/1.1 200 OK\r\nContent-Type: text/event-stream\r\nCache-Control: no-cache\r\nTransfer-Encoding: chunked\r\n\r\n"
    );
    assert_eq!(
        stream_head(Some("t-1")),
        "HTTP/1.1 200 OK\r\nContent-Type: text/event-stream\r\nCache-Control: no-cache\r\nTransfer-Encoding: chunked\r\nX-Thread-Id: t-1\r\n\r\n"
    );
}

#[test]
fn upstream_request_head_names_host_port_and_length() {
    let up = parse_url("http://localhost:9090/v1/chat/completions");
    assert_eq!(
        upstream_request_head(&up, 57),
        "POST /v1/chat/completions HTTP/1.1\r\nHost: localhost:9090\r\nContent-Type: application/json\r\nContent-Length: 57\r\nConnection: close\r\n\r\n"
    );
}

#[test]
fn upstream_status_and_head() {
    assert!(status_line_ok("HTTP/1.1 200 OK\r\n"));
    assert!(!status_line_ok("HTTP/1.1 201 Created\r\n"));
    assert!(!status_line_ok("HTTP/1.1 200\r\n"));
    assert!(is_success(200) && is_success(299));
    assert!(!is_success(199) && !is_success(300) && !is_success(502));
    let mut h = ReplyHead::new();
    assert!(!h.header_line("Content-Type: text/event-stream\r\n"));
    assert!(!h.chunked);
    assert!(!h.header_line("X-Transfer-Encoding: chunked\r\n"));
    assert!(!h.chunked);
    assert!(!h.header_line("Transfer-Encoding: gzip, Chunked\r\n"));
    assert!(h.chunked);
    assert!(h.header_line("\r\n"));
    assert!(h.chunked);
}

#[test]
fn chunk_frames() {
    assert_eq!(chunk_frame(b"hello"), b"5\r\nhello\r\n".to_vec());
    assert_eq!(chunk_frame(&[7u8; 26])[..4], *b"1a\r\n");
    assert_eq!(chunk_frame(&[7u8; 26]).len(), 4 + 26 + 2);
    assert_eq!(chunk_frame(b""), b"0\r\n\r\n".to_vec());
    assert_eq!(last_chunk(), b"0\r\n\r\n".to_vec());
}

#[test]
fn chunk_size_lines() {
    assert_eq!(chunk_size("1a;ext=1\r\n"), 26);
    assert_eq!(chunk_size("  FF \r\n"), 255);
    assert_eq!(chunk_size("0\r\n"), 0);
    assert_eq!(chunk_size("zz\r\n"), 0);
    assert_eq!(chunk_size(""), 0);
    assert_eq!(next_chunk(None), ChunkStep::Stop);
    assert_eq!(next_chunk(Some("0\r\n")), ChunkStep::ReadTrailerThenStop);
    assert_eq!(next_chunk(Some("junk\r\n")), ChunkStep::ReadTrailerThenStop);
    assert_eq!(next_chunk(Some("A\r\n")), ChunkStep::ReadChunk(10));
}

#[test]
fn chunk_frame_is_read_back() {
    for data in [&b"x"[..], &[0u8; 300][..], &b"data: {\"a\":1}\n\n"[..]] {
        let f = chunk_frame(data);
        let end = f.iter().position(|b| *b == b'\n').unwrap() + 1;
        let line = std::str::from_utf8(&f[..end]).unwrap();
        assert_eq!(next_chunk(Some(line)), ChunkStep::ReadChunk(data.len()));
        assert_eq!(&f[end..end + data.len()], data);
        assert_eq!(&f[end + data.len()..], b"\r\n");
    }
}

#[test]
fn upstream_head_is_read_back_by_the_request_logic() {
    let up = parse_url("http://stub:9090/v1/chat/completions");
    let head = upstream_request_head(&up, 1234);
    let mut lines = head.split_inclusive('\n');
    let (method, path) = parse_request_line(lines.next().unwrap());
    assert_eq!((method.as_str(), path.as_str()), ("POST", "/v1/chat/completions"));
    let mut h = RequestHead::new();
    for line in lines {
        if h.header_line(line) {
            break;
        }
    }
    assert_eq!((h.content_length, h.keep_alive), (1234, false));
}

#[test]
fn stream_head_is_read_back_as_a_chunked_success() {
    let head = stream_head(Some("t"));
    let mut lines = head.split_inclusive('\n');
    assert!(status_line_ok(lines.next().unwrap()));
    let mut h = ReplyHead::new();
    let mut ended = false;
    for line in lines {
        if h.header_line(line) {
            ended = true;
            break;
        }
    }
    assert!(ended && h.chunked);
}
