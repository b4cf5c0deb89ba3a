use chat_proxy::chat::{ChatAction, ChatEvent, ChatFlow, ChatRequest, Stage};
use chat_proxy::json::{chat_payload, payload_from_json_strings, ChatMessage};
use serde_json::Value;

fn msg(role: &str, content: &str) -> ChatMessage {
    ChatMessage { role: role.to_string(), content: content.to_string() }
}

fn serde_payload(ms: &[(&str, &str)]) -> String {
    let items: Vec<Value> = ms
        .iter()
        .map(|(r, c)| {
            let mut m = serde_json::Map::new();
            m.insert("role".to_string(), Value::String(r.to_string()));
            m.insert("content".to_string(), Value::String(c.to_string()));
            Value::Object(m)
        })
        .collect();
    let mut top = serde_json::Map::new();
    top.insert("messages".to_string(), Value::Array(items));
    top.insert("stream".to_string(), Value::Bool(true));
    serde_json::to_string(&Value::Object(top)).unwrap()
}

fn request(message: &str, thread_id: Option<&str>) -> Option<ChatRequest> {
    Some(ChatRequest { message: message.to_string(), thread_id: thread_id.map(|t| t.to_string()) })
}

#[test]
fn payload_is_what_serde_json_writes() {
    let ms = vec![msg("user", "hi")];
    assert_eq!(chat_payload(&ms), "{\"messages\":[{\"content\":\"hi\",\"role\":\"user\"}],\"stream\":true}");
    assert_eq!(chat_payload(&ms), serde_payload(&[("user", "hi")]));
    let ms = vec![msg("user", "say \"x\"\n"), msg("assistant", "ok\\é"), msg("user", "")];
    assert_eq!(
        chat_payload(&ms),
        serde_payload(&[("user", "say \"x\"\n"), ("assistant", "ok\\é"), ("user", "")])
    );
    assert_eq!(chat_payload(&vec![]), "{\"messages\":[],\"stream\":true}");
    let ms = vec![msg("user", "\u{1}\u{8}\t\u{c}\r\u{1f}\u{7f}/")];
    assert_eq!(
        chat_payload(&ms),
        "{\"messages\":[{\"content\":\"\\u0001\\b\\t\\f\\r\\u001f\u{7f}/\",\"role\":\"user\"}],\"stream\":true}"
    );
    assert_eq!(chat_payload(&ms), serde_payload(&[("user", "\u{1}\u{8}\t\u{c}\r\u{1f}\u{7f}/")]));
}

#[test]
fn unparsable_request_is_bad_request() {
    let (f, a) = ChatFlow::start(None, true);
    assert!(matches!(a, ChatAction::Reply(400)));
    assert_eq!(f.stage(), Stage::Done);
    let (_, a) = ChatFlow::start(None, false);
    assert!(matches!(a, ChatAction::Reply(400)));
}

#[test]
fn without_database_only_the_message_goes_upstream() {
    let (mut f, a) = ChatFlow::start(request("hello", Some("ignored")), false);
    match a {
        ChatAction::SendUpstream { payload } => {
            assert_eq!(payload, serde_payload(&[("user", "hello")]))
        }
        _ => panic!("expected the upstream request"),
    }
    assert_eq!(f.stage(), Stage::AwaitUpstream);
    assert!(f.accepts(&ChatEvent::UpstreamAnswered(true)));
    assert!(!f.accepts(&ChatEvent::StreamEnded));
    match f.step(ChatEvent::UpstreamAnswered(true)) {
        ChatAction::OpenStream { thread } => assert_eq!(thread, None),
        _ => panic!("expected the stream to open"),
    }
    assert!(matches!(f.step(ChatEvent::Chunk(b"data: a\n\n".to_vec())), ChatAction::Forward));
    assert!(matches!(f.step(ChatEvent::Chunk(b"data: b\n\n".to_vec())), ChatAction::Forward));
    assert_eq!(f.collected(), "data: a\n\ndata: b\n\n");
    assert!(matches!(f.step(ChatEvent::StreamEnded), ChatAction::Finish));
    assert_eq!(f.stage(), Stage::Done);
    assert!(!f.accepts(&ChatEvent::AssistantMessageStored));
}

#[test]
fn with_database_a_new_thread_is_created_and_kept() {
    let (mut f, a) = ChatFlow::start(request("hello", None), true);
    assert!(matches!(a, ChatAction::CreateThread));
    match f.step(ChatEvent::ThreadCreated("t-9".to_string())) {
        ChatAction::StoreUserMessage { thread_id, content } => {
            assert_eq!((thread_id.as_str(), content.as_str()), ("t-9", "hello"))
        }
        _ => panic!("expected the user message to be stored"),
    }
    match f.step(ChatEvent::UserMessageStored) {
        ChatAction::LoadHistory { thread_id } => assert_eq!(thread_id, "t-9"),
        _ => panic!("expected the history to be loaded"),
    }
    let history = vec![msg("user", "earlier"), msg("assistant", "answer"), msg("user", "hello")];
    match f.step(ChatEvent::HistoryLoaded(history)) {
        ChatAction::SendUpstream { payload } => assert_eq!(
            payload,
            serde_payload(&[("user", "earlier"), ("assistant", "answer"), ("user", "hello")])
        ),
        _ => panic!("expected the upstream request"),
    }
    match f.step(ChatEvent::UpstreamAnswered(true)) {
        ChatAction::OpenStream { thread } => assert_eq!(thread.as_deref(), Some("t-9")),
        _ => panic!("expected the stream to open"),
    }
    f.step(ChatEvent::Chunk(vec![b'o', 0xff, b'k']));
    f.step(ChatEvent::Chunk("é".as_bytes().to_vec()));
    match f.step(ChatEvent::StreamEnded) {
        ChatAction::StoreAssistantMessage { thread_id, content } => {
            assert_eq!(thread_id, "t-9");
            assert_eq!(content, "o\u{fffd}ké");
        }
        _ => panic!("expected the reply to be stored"),
    }
    assert!(matches!(f.step(ChatEvent::AssistantMessageStored), ChatAction::Finish));
    assert_eq!(f.stage(), Stage::Done);
    assert_eq!(f.thread_id().as_deref(), Some("t-9"));
}

#[test]
fn with_database_a_named_thread_is_used() {
    let (mut f, a) = ChatFlow::start(request("again", Some("abc")), true);
    match a {
        ChatAction::StoreUserMessage { thread_id, content } => {
            assert_eq!((thread_id.as_str(), content.as_str()), ("abc", "again"))
        }
        _ => panic!("expected the user message to be stored"),
    }
    assert_eq!(f.stage(), Stage::AwaitUserStored);
    assert!(!f.accepts(&ChatEvent::ThreadCreated("x".to_string())));
    assert!(matches!(f.step(ChatEvent::UserMessageStored), ChatAction::LoadHistory { .. }));
}

#[test]
fn failed_upstream_is_bad_gateway_and_nothing_is_stored() {
    let (mut f, _) = ChatFlow::start(request("hello", Some("abc")), true);
    f.step(ChatEvent::UserMessageStored);
    f.step(ChatEvent::HistoryLoaded(vec![msg("user", "hello")]));
    assert!(matches!(f.step(ChatEvent::UpstreamAnswered(false)), ChatAction::Reply(502)));
    assert_eq!(f.stage(), Stage::Done);
    assert_eq!(f.collected(), "");
}

#[test]
fn payload_assembly_from_json_strings() {
    let items = vec![("\"user\"".to_string(), "\"hi\"".to_string())];
    assert_eq!(
        payload_from_json_strings(&items),
        "{\"messages\":[{\"content\":\"hi\",\"role\":\"user\"}],\"stream\":true}"
    );
}
