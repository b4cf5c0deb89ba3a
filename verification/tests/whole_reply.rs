use chat_proxy::chat::{ChatAction, ChatEvent, ChatFlow, ChatRequest};
use chat_proxy::chunked::{chunk_frame, last_chunk, next_chunk, ChunkStep};
use chat_proxy::response::{is_success, reason_phrase, simple_response, status_line_ok, stream_head};

/// Drives a flow through a successful upstream reply made of `pieces` and
/// returns what the client is sent, written as the server writes it.
fn serve(request: ChatRequest, db: bool, thread: &str, pieces: &[&[u8]]) -> Vec<u8> {
    let (mut flow, mut action) = ChatFlow::start(Some(request), db);
    let mut out: Vec<u8> = Vec::new();
    loop {
        let event = match action {
            ChatAction::Reply(code) => {
                out.extend_from_slice(simple_response(code, reason_phrase(code)).as_bytes());
                return out;
            }
            ChatAction::CreateThread => ChatEvent::ThreadCreated(thread.to_string()),
            ChatAction::StoreUserMessage { .. } => ChatEvent::UserMessageStored,
            ChatAction::LoadHistory { .. } => ChatEvent::HistoryLoaded(vec![]),
            ChatAction::SendUpstream { .. } => ChatEvent::UpstreamAnswered(true),
            ChatAction::OpenStream { thread } => {
                out.extend_from_slice(stream_head(thread.as_deref()).as_bytes());
                for p in pieces {
                    let frame = chunk_frame(p);
                    assert!(flow.accepts(&ChatEvent::Chunk(p.to_vec())));
                    match flow.step(ChatEvent::Chunk(p.to_vec())) {
                        ChatAction::Forward => out.extend_from_slice(&frame),
                        _ => panic!("a piece is always forwarded"),
                    }
                }
                out.extend_from_slice(&last_chunk());
                ChatEvent::StreamEnded
            }
            ChatAction::Forward => panic!("pieces are forwarded while streaming"),
            ChatAction::StoreAssistantMessage { .. } => ChatEvent::AssistantMessageStored,
            ChatAction::Finish => return out,
        };
        assert!(flow.accepts(&event));
        action = flow.step(event);
    }
}

/// Reads a chunked body as the server reads the upstream's.
fn read_chunked(mut x: &[u8]) -> Vec<Vec<u8>> {
    let mut pieces = Vec::new();
    loop {
        let end = match x.iter().position(|&b| b == b'\n') {
            Some(i) => i + 1,
            None => x.len(),
        };
        let line = if end == 0 { None } else { Some(std::str::from_utf8(&x[..end]).unwrap()) };
        match next_chunk(line) {
            ChunkStep::Stop | ChunkStep::ReadTrailerThenStop => return pieces,
            ChunkStep::ReadChunk(n) => {
                pieces.push(x[end..end + n].to_vec());
                x = &x[end + n + 2..];
            }
        }
    }
}

#[test]
fn whole_reply_without_database() {
    let request = ChatRequest { message: "hi".to_string(), thread_id: None };
    let out = serve(request, false, "", &[b"Hel", b"lo, world!!!!!!!"]);
    let expected: &[u8] = b"HTTP/1.1 200 OK\r\nContent-Type: text/event-stream\r\nCache-Control: no-cache\r\nTransfer-Encoding: chunked\r\n\r\n3\r\nHel\r\n10\r\nlo, world!!!!!!!\r\n0\r\n\r\n";
    assert_eq!(out, expected);
}

#[test]
fn whole_reply_names_the_new_thread() {
    let request = ChatRequest { message: "hi".to_string(), thread_id: None };
    let out = serve(request, true, "t-1", &[b"ok"]);
    let expected: &[u8] = b"HTTP/1.1 200 OK\r\nContent-Type: text/event-stream\r\nCache-Control: no-cache\r\nTransfer-Encoding: chunked\r\nX-Thread-Id: t-1\r\n\r\n2\r\nok\r\n0\r\n\r\n";
    assert_eq!(out, expected);
}

#[test]
fn whole_reply_names_the_given_thread() {
    let request = ChatRequest { message: "hi".to_string(), thread_id: Some("abc".to_string()) };
    let out = serve(request, true, "unused", &[]);
    let expected: &[u8] = b"HTTP/1.1 200 OK\r\nContent-Type: text/event-stream\r\nCache-Control: no-cache\r\nTransfer-Encoding: chunked\r\nX-Thread-Id: abc\r\n\r\n0\r\n\r\n";
    assert_eq!(out, expected);
}

#[test]
fn whole_reply_reads_back_as_its_pieces() {
    let pieces: [&[u8]; 3] = [b"a", b"0123456789abcdefXYZ", "é\n\r\n".as_bytes()];
    let request = ChatRequest { message: "m".to_string(), thread_id: None };
    let out = serve(request, false, "", &pieces);
    let head = stream_head(None);
    assert!(out.starts_with(head.as_bytes()));
    let back = read_chunked(&out[head.len()..]);
    let expected: Vec<Vec<u8>> = pieces.iter().map(|p| p.to_vec()).collect();
    assert_eq!(back, expected);
}

#[test]
fn relayed_chunked_body_reads_back() {
    let upstream: &[u8] = b"4;ext=1\r\nabcd\r\nA\r\n0123456789\r\n0\r\n\r\n";
    let pieces = read_chunked(upstream);
    assert_eq!(pieces, vec![b"abcd".to_vec(), b"0123456789".to_vec()]);
    let refs: Vec<&[u8]> = pieces.iter().map(|p| p.as_slice()).collect();
    let request = ChatRequest { message: "m".to_string(), thread_id: None };
    let out = serve(request, false, "", &refs);
    let head = stream_head(None);
    assert_eq!(read_chunked(&out[head.len()..]), pieces);
}

#[test]
fn success_tests_agree_on_200_and_outside_2xx() {
    assert!(status_line_ok("HTTP/1.1 200 OK\r\n") && is_success(200));
    assert!(!status_line_ok("HTTP/1.1 502 Bad Gateway\r\n") && !is_success(502));
    assert!(!status_line_ok("HTTP/1.1 404 Not Found\r\n") && !is_success(404));
    assert!(!status_line_ok("HTTP/1.1 500 Internal Server Error\r\n") && !is_success(500));
    // Inside 2xx but not 200 the tests part: only the code test passes.
    assert!(!status_line_ok("HTTP/1.1 201 Created\r\n") && is_success(201));
}

#[test]
fn failed_upstream_sends_bare_bad_gateway() {
    let request = ChatRequest { message: "hi".to_string(), thread_id: None };
    let (mut flow, action) = ChatFlow::start(Some(request), false);
    assert!(matches!(action, ChatAction::SendUpstream { .. }));
    let e = ChatEvent::UpstreamAnswered(false);
    assert!(flow.accepts(&e));
    match flow.step(e) {
        ChatAction::Reply(code) => {
            assert_eq!(code, 502);
            assert_eq!(
                simple_response(code, reason_phrase(code)),
                "HTTP/1.1 502 Bad Gateway\r\nContent-Length: 0\r\n\r\n"
            );
        }
        _ => panic!("a failed upstream is answered 502"),
    }
}
