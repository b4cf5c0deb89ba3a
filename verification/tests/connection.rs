use chat_proxy::chunked::{chunk_frame, last_chunk, next_chunk, ChunkStep};
use chat_proxy::connection::{ConnAction, ConnEvent, ConnStage, Connection};
use chat_proxy::request::Route;
use chat_proxy::response::{reason_phrase, simple_response};

fn line(conn: &mut Connection, l: &str) -> ConnAction {
    let e = ConnEvent::LineRead(Some(l.to_string()));
    assert!(conn.accepts(&e));
    conn.step(e)
}

#[test]
fn a_request_is_read_dispatched_and_the_next_one_awaited() {
    let (mut conn, a) = Connection::new();
    assert_eq!(a, ConnAction::ReadLine);
    assert_eq!(line(&mut conn, "POST /chat HTTP/1.1\r\n"), ConnAction::ReadLine);
    assert_eq!(line(&mut conn, "Content-Length: 3\r\n"), ConnAction::ReadLine);
    assert_eq!(line(&mut conn, "\r\n"), ConnAction::ReadBody(3));
    assert!(!conn.accepts(&ConnEvent::BodyRead(vec![1, 2])));
    assert!(conn.accepts(&ConnEvent::BodyRead(vec![1, 2, 3])));
    assert_eq!(conn.step(ConnEvent::BodyRead(vec![1, 2, 3])), ConnAction::Dispatch(Route::Chat));
    assert_eq!(conn.stage(), ConnStage::AwaitReply);
    assert!(!conn.accepts(&ConnEvent::LineRead(None)));
    assert_eq!(conn.step(ConnEvent::Replied), ConnAction::ReadLine);
    assert_eq!(line(&mut conn, "GET /other HTTP/1.1\n"), ConnAction::ReadLine);
    assert_eq!(line(&mut conn, "\n"), ConnAction::ReadBody(0));
    assert_eq!(conn.step(ConnEvent::BodyRead(vec![])), ConnAction::Dispatch(Route::NotFound));
    assert_eq!(conn.step(ConnEvent::Replied), ConnAction::ReadLine);
    assert_eq!(conn.step(ConnEvent::LineRead(None)), ConnAction::Close);
    assert_eq!(conn.stage(), ConnStage::Closed);
}

#[test]
fn connection_close_closes_after_the_reply() {
    let (mut conn, _) = Connection::new();
    line(&mut conn, "POST /chat HTTP/1.1\r\n");
    line(&mut conn, "Connection: close\r\n");
    line(&mut conn, "Connection: keep-alive\r\n");
    assert_eq!(line(&mut conn, "\r\n"), ConnAction::ReadBody(0));
    conn.step(ConnEvent::BodyRead(vec![]));
    assert_eq!(conn.step(ConnEvent::Replied), ConnAction::Close);
}

#[test]
fn input_ending_inside_a_head_closes() {
    let (mut conn, _) = Connection::new();
    line(&mut conn, "POST /chat HTTP/1.1\r\n");
    assert_eq!(conn.step(ConnEvent::LineRead(None)), ConnAction::Close);
    assert!(!conn.accepts(&ConnEvent::Replied));
}

/// Reads a chunked body as the server does, step by step.
fn dechunk(mut x: &[u8]) -> Vec<Vec<u8>> {
    let mut out = Vec::new();
    loop {
        let line_len = match x.iter().position(|b| *b == b'\n') {
            Some(i) => i + 1,
            None => x.len(),
        };
        let line = if line_len == 0 { None } else { Some(std::str::from_utf8(&x[..line_len]).unwrap()) };
        x = &x[line_len..];
        match next_chunk(line) {
            ChunkStep::Stop | ChunkStep::ReadTrailerThenStop => return out,
            ChunkStep::ReadChunk(n) => {
                out.push(x[..n].to_vec());
                x = &x[n + 2..];
            }
        }
    }
}

#[test]
fn framed_pieces_are_read_back_in_order() {
    let ds: Vec<Vec<u8>> = vec![b"data: a\n\n".to_vec(), vec![b'\n'; 17], b"x".to_vec()];
    let mut x = Vec::new();
    for d in &ds {
        x.extend(chunk_frame(d));
    }
    x.extend(last_chunk());
    assert_eq!(dechunk(&x), ds);
}

#[test]
fn requests_on_one_connection_are_answered_in_order() {
    // Three requests, then the end of the input: one 404 per request, in order.
    let input = "GET /a HTTP/1.1\r\n\r\nPOST /b HTTP/1.1\r\nContent-Length: 2\r\n\r\nxyGET /chat HTTP/1.1\r\n\r\n";
    let mut rest: &str = input;
    let (mut conn, mut action) = Connection::new();
    let mut replies: Vec<Route> = Vec::new();
    loop {
        let event = match action {
            ConnAction::ReadLine => {
                if rest.is_empty() {
                    ConnEvent::LineRead(None)
                } else {
                    let end = rest.find('\n').map(|i| i + 1).unwrap_or(rest.len());
                    let l = rest[..end].to_string();
                    rest = &rest[end..];
                    ConnEvent::LineRead(Some(l))
                }
            }
            ConnAction::ReadBody(n) => {
                let b = rest.as_bytes()[..n].to_vec();
                rest = &rest[n..];
                ConnEvent::BodyRead(b)
            }
            ConnAction::Dispatch(route) => {
                replies.push(route);
                ConnEvent::Replied
            }
            ConnAction::Close => break,
        };
        assert!(conn.accepts(&event));
        action = conn.step(event);
    }
    assert_eq!(replies, vec![Route::NotFound, Route::NotFound, Route::NotFound]);
    let written: String = replies.iter().map(|_| simple_response(404, reason_phrase(404))).collect();
    assert_eq!(written, "HTTP/1.1 404 Not Found\r\nContent-Length: 0\r\n\r\n".repeat(3));
    assert_eq!(conn.stage(), ConnStage::Closed);
}
