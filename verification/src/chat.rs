//! The chat exchange as a state machine. The server hands each outcome of
//! its outside work (the parsed request, the database, the upstream, the
//! streamed reply) to the flow as an event, and the flow answers with the
//! next thing to do.
//!
//! With a database the conversation is kept under a thread: the thread is
//! created unless the request names one, the user's message is stored, the
//! whole thread is sent upstream, its id is returned in `X-Thread-Id`, and
//! the streamed answer is stored once the stream ends. Without a database
//! only the user's message is sent and nothing is stored.
use vstd::prelude::*;
use vstd::utf8::{valid_utf8, decode_utf8, encode_utf8};
use crate::chunked::{chunk_frame_bytes, last_chunk_bytes, frames, stream_reply_bytes, dechunk, law_stream_reply_read_back};
use crate::response::{stream_head_text, simple_response_text, reason_text};
use crate::json::{chat_payload, payload_text, messages_model, ChatMessage};

verus! {

/// What `String::from_utf8_lossy` makes of `bytes`.
pub uninterp spec fn lossy_text(bytes: Seq<u8>) -> Seq<char>;

/// `String::from_utf8_lossy`, made owned. The contract names the result and
/// states what the documentation promises: valid UTF-8 is decoded as it is.
/// How invalid sequences are replaced is left unsaid.
#[verifier::external_body]
fn utf8_lossy(bytes: &[u8]) -> (s: String)
    ensures
        s@ == lossy_text(bytes@),
        valid_utf8(bytes@) ==> s@ == decode_utf8(bytes@),
{
    String::from_utf8_lossy(bytes).into_owned()
}

/// The text of the streamed reply: each piece decoded on its own, in order.
pub open spec fn collected_text(chunks: Seq<Seq<u8>>) -> Seq<char>
    decreases chunks.len(),
{
    if chunks.len() == 0 {
        Seq::<char>::empty()
    } else {
        collected_text(chunks.drop_last()) + lossy_text(chunks.last())
    }
}

/// A chat request as the client sent it.
pub struct ChatRequest {
    pub message: String,
    pub thread_id: Option<String>,
}

/// A chat request as values.
pub struct ChatRequestModel {
    pub message: Seq<char>,
    pub thread_id: Option<Seq<char>>,
}

/// An optional string as an optional character sequence.
pub open spec fn opt_model(s: Option<String>) -> Option<Seq<char>> {
    match s {
        Some(t) => Some(t@),
        None => None,
    }
}

impl View for ChatRequest {
    type V = ChatRequestModel;

    open spec fn view(&self) -> ChatRequestModel {
        ChatRequestModel { message: self.message@, thread_id: opt_model(self.thread_id) }
    }
}

/// Where the exchange stands.
#[derive(PartialEq, Eq, Structural, Debug, Clone, Copy)]
pub enum Stage {
    /// Waiting for a new thread's id.
    AwaitThread,
    /// Waiting for the user's message to be stored.
    AwaitUserStored,
    /// Waiting for the thread's messages.
    AwaitHistory,
    /// Waiting for the upstream's answer.
    AwaitUpstream,
    /// Forwarding the upstream's reply.
    Streaming,
    /// Waiting for the reply to be stored.
    AwaitAssistantStored,
    /// The exchange is over.
    Done,
}

/// What the server is to do next.
pub enum ChatAction {
    /// Answer with this status and an empty body; the exchange is over.
    Reply(u16),
    /// Create a thread and report its id.
    CreateThread,
    /// Store the user's message in the thread.
    StoreUserMessage { thread_id: String, content: String },
    /// Load the thread's messages, oldest first.
    LoadHistory { thread_id: String },
    /// Send this body to the upstream and report whether it answered with success.
    SendUpstream { payload: String },
    /// Answer 200 with an event stream, naming the thread when there is one,
    /// then report the pieces of the upstream's reply.
    OpenStream { thread: Option<String> },
    /// Forward the piece just reported to the client.
    Forward,
    /// Store the upstream's reply in the thread.
    StoreAssistantMessage { thread_id: String, content: String },
    /// The exchange is over.
    Finish,
}

/// A next step as values.
pub enum ChatActionModel {
    Reply(u16),
    CreateThread,
    StoreUserMessage { thread_id: Seq<char>, content: Seq<char> },
    LoadHistory { thread_id: Seq<char> },
    SendUpstream { payload: Seq<char> },
    OpenStream { thread: Option<Seq<char>> },
    Forward,
    StoreAssistantMessage { thread_id: Seq<char>, content: Seq<char> },
    Finish,
}

impl View for ChatAction {
    type V = ChatActionModel;

    open spec fn view(&self) -> ChatActionModel {
        match self {
            ChatAction::Reply(c) => ChatActionModel::Reply(*c),
            ChatAction::CreateThread => ChatActionModel::CreateThread,
            ChatAction::StoreUserMessage { thread_id, content } => ChatActionModel::StoreUserMessage {
                thread_id: thread_id@,
                content: content@,
            },
            ChatAction::LoadHistory { thread_id } => ChatActionModel::LoadHistory {
                thread_id: thread_id@,
            },
            ChatAction::SendUpstream { payload } => ChatActionModel::SendUpstream {
                payload: payload@,
            },
            ChatAction::OpenStream { thread } => ChatActionModel::OpenStream {
                thread: opt_model(*thread),
            },
            ChatAction::Forward => ChatActionModel::Forward,
            ChatAction::StoreAssistantMessage { thread_id, content } =>
                ChatActionModel::StoreAssistantMessage { thread_id: thread_id@, content: content@ },
            ChatAction::Finish => ChatActionModel::Finish,
        }
    }
}

/// The outcome of the outside work that the flow asked for.
pub enum ChatEvent {
    /// A thread was created with this id.
    ThreadCreated(String),
    /// The user's message was stored.
    UserMessageStored,
    /// The thread holds these messages, oldest first.
    HistoryLoaded(Vec<ChatMessage>),
    /// The upstream answered: with success or not (a failed send counts as not).
    UpstreamAnswered(bool),
    /// A piece of the upstream's reply arrived.
    Chunk(Vec<u8>),
    /// The upstream's reply ended.
    StreamEnded,
    /// The reply was stored (or storing it failed, which changes nothing).
    AssistantMessageStored,
}

/// An outcome as values.
pub enum ChatEventModel {
    ThreadCreated(Seq<char>),
    UserMessageStored,
    HistoryLoaded(Seq<(Seq<char>, Seq<char>)>),
    UpstreamAnswered(bool),
    Chunk(Seq<u8>),
    StreamEnded,
    AssistantMessageStored,
}

impl View for ChatEvent {
    type V = ChatEventModel;

    open spec fn view(&self) -> ChatEventModel {
        match self {
            ChatEvent::ThreadCreated(t) => ChatEventModel::ThreadCreated(t@),
            ChatEvent::UserMessageStored => ChatEventModel::UserMessageStored,
            ChatEvent::HistoryLoaded(ms) => ChatEventModel::HistoryLoaded(messages_model(ms@)),
            ChatEvent::UpstreamAnswered(ok) => ChatEventModel::UpstreamAnswered(*ok),
            ChatEvent::Chunk(d) => ChatEventModel::Chunk(d@),
            ChatEvent::StreamEnded => ChatEventModel::StreamEnded,
            ChatEvent::AssistantMessageStored => ChatEventModel::AssistantMessageStored,
        }
    }
}

/// The state of an exchange as values.
pub struct ChatFlowModel {
    pub stage: Stage,
    /// Whether the conversation is kept in a database.
    pub db: bool,
    /// The user's message.
    pub message: Seq<char>,
    /// The thread of the conversation, once known.
    pub thread_id: Option<Seq<char>>,
    /// The pieces of the upstream's reply forwarded so far.
    pub chunks: Seq<Seq<u8>>,
    /// The text of those pieces.
    pub collected: Seq<char>,
}

/// What holds of every state that the flow reaches: the collected text is
/// the text of the forwarded pieces, and a thread is known exactly when the
/// conversation is kept and the thread has been created or named.
pub open spec fn flow_inv(f: ChatFlowModel) -> bool {
    &&& f.collected == collected_text(f.chunks)
    &&& f.stage == Stage::AwaitThread ==> f.db && f.thread_id is None
    &&& (f.stage == Stage::AwaitUserStored || f.stage == Stage::AwaitHistory || f.stage
        == Stage::AwaitAssistantStored) ==> f.db && f.thread_id is Some
    &&& (f.stage == Stage::AwaitUpstream || f.stage == Stage::Streaming) ==> (f.db
        <==> f.thread_id is Some)
}

/// The user's message as the only message of a conversation.
pub open spec fn user_only(message: Seq<char>) -> Seq<(Seq<char>, Seq<char>)> {
    seq![("user"@, message)]
}

/// How an exchange begins: a request that could not be parsed is answered
/// 400; with a database the named thread is used, or a new one created;
/// without, the user's message alone goes upstream.
pub open spec fn start_model(request: Option<ChatRequestModel>, db: bool) -> (
    ChatFlowModel,
    ChatActionModel,
) {
    match request {
        None => (
            ChatFlowModel {
                stage: Stage::Done,
                db,
                message: Seq::<char>::empty(),
                thread_id: None,
                chunks: Seq::<Seq<u8>>::empty(),
                collected: Seq::<char>::empty(),
            },
            ChatActionModel::Reply(400),
        ),
        Some(r) => {
            let f = ChatFlowModel {
                stage: Stage::Done,
                db,
                message: r.message,
                thread_id: None,
                chunks: Seq::<Seq<u8>>::empty(),
                collected: Seq::<char>::empty(),
            };
            if db {
                match r.thread_id {
                    Some(t) => (
                        ChatFlowModel { stage: Stage::AwaitUserStored, thread_id: Some(t), ..f },
                        ChatActionModel::StoreUserMessage { thread_id: t, content: r.message },
                    ),
                    None => (
                        ChatFlowModel { stage: Stage::AwaitThread, ..f },
                        ChatActionModel::CreateThread,
                    ),
                }
            } else {
                (
                    ChatFlowModel { stage: Stage::AwaitUpstream, ..f },
                    ChatActionModel::SendUpstream { payload: payload_text(user_only(r.message)) },
                )
            }
        },
    }
}

/// Whether the flow, in its present stage, takes this event.
pub open spec fn accepts_model(f: ChatFlowModel, e: ChatEventModel) -> bool {
    match e {
        ChatEventModel::ThreadCreated(_) => f.stage == Stage::AwaitThread,
        ChatEventModel::UserMessageStored => f.stage == Stage::AwaitUserStored,
        ChatEventModel::HistoryLoaded(_) => f.stage == Stage::AwaitHistory,
        ChatEventModel::UpstreamAnswered(_) => f.stage == Stage::AwaitUpstream,
        ChatEventModel::Chunk(_) => f.stage == Stage::Streaming,
        ChatEventModel::StreamEnded => f.stage == Stage::Streaming,
        ChatEventModel::AssistantMessageStored => f.stage == Stage::AwaitAssistantStored,
    }
}

/// One step of the exchange.
pub open spec fn step_model(f: ChatFlowModel, e: ChatEventModel) -> (
    ChatFlowModel,
    ChatActionModel,
) {
    match e {
        ChatEventModel::ThreadCreated(t) => (
            ChatFlowModel { stage: Stage::AwaitUserStored, thread_id: Some(t), ..f },
            ChatActionModel::StoreUserMessage { thread_id: t, content: f.message },
        ),
        ChatEventModel::UserMessageStored => (
            ChatFlowModel { stage: Stage::AwaitHistory, ..f },
            ChatActionModel::LoadHistory { thread_id: f.thread_id->0 },
        ),
        ChatEventModel::HistoryLoaded(ms) => (
            ChatFlowModel { stage: Stage::AwaitUpstream, ..f },
            ChatActionModel::SendUpstream { payload: payload_text(ms) },
        ),
        ChatEventModel::UpstreamAnswered(ok) => if ok {
            (
                ChatFlowModel { stage: Stage::Streaming, ..f },
                ChatActionModel::OpenStream { thread: f.thread_id },
            )
        } else {
            (ChatFlowModel { stage: Stage::Done, ..f }, ChatActionModel::Reply(502))
        },
        ChatEventModel::Chunk(d) => (
            ChatFlowModel {
                chunks: f.chunks.push(d),
                collected: f.collected + lossy_text(d),
                ..f
            },
            ChatActionModel::Forward,
        ),
        ChatEventModel::StreamEnded => if f.db {
            (
                ChatFlowModel { stage: Stage::AwaitAssistantStored, ..f },
                ChatActionModel::StoreAssistantMessage {
                    thread_id: f.thread_id->0,
                    content: f.collected,
                },
            )
        } else {
            (ChatFlowModel { stage: Stage::Done, ..f }, ChatActionModel::Finish)
        },
        ChatEventModel::AssistantMessageStored => (
            ChatFlowModel { stage: Stage::Done, ..f },
            ChatActionModel::Finish,
        ),
    }
}

/// Every exchange begins in a state that satisfies the flow's invariant.
pub proof fn law_start_establishes_invariant(request: Option<ChatRequestModel>, db: bool)
    ensures
        flow_inv(start_model(request, db).0),
{
}

/// Every step taken from a state that satisfies the invariant leads to a
/// state that satisfies it: the collected text stays the text of the
/// forwarded pieces, and a thread is known exactly when it should be.
pub proof fn law_step_keeps_invariant(f: ChatFlowModel, e: ChatEventModel)
    requires
        flow_inv(f),
        accepts_model(f, e),
    ensures
        flow_inv(step_model(f, e).0),
{
    if let ChatEventModel::Chunk(d) = e {
        assert(f.chunks.push(d).drop_last() == f.chunks);
    }
}

/// A request whose body could not be parsed is answered 400 and nothing
/// else is done; a parsed request is never answered at once.
pub proof fn law_unparsable_request_is_bad_request(request: Option<ChatRequestModel>, db: bool)
    ensures
        request is None <==> start_model(request, db).1 == ChatActionModel::Reply(400),
        request is None ==> start_model(request, db).0.stage == Stage::Done,
        request is Some ==> !(start_model(request, db).1 is Reply),
{
}

/// Whether an action touches the database.
pub open spec fn uses_database(a: ChatActionModel) -> bool {
    ||| a is CreateThread
    ||| a is StoreUserMessage
    ||| a is LoadHistory
    ||| a is StoreAssistantMessage
}

/// Without a database no step of the exchange touches one, and the reply
/// stream names no thread.
pub proof fn law_no_database_no_storage(
    request: Option<ChatRequestModel>,
    f: ChatFlowModel,
    e: ChatEventModel,
)
    requires
        flow_inv(f),
        !f.db,
        accepts_model(f, e),
    ensures
        !uses_database(start_model(request, false).1),
        !uses_database(step_model(f, e).1),
        step_model(f, e).1 matches ChatActionModel::OpenStream { thread } ==> thread is None,
{
}

/// With a database, the reply stream names the thread of the conversation.
pub proof fn law_stream_names_thread(f: ChatFlowModel, e: ChatEventModel)
    requires
        flow_inv(f),
        f.db,
        accepts_model(f, e),
    ensures
        step_model(f, e).1 matches ChatActionModel::OpenStream { thread } ==> thread
            == f.thread_id && thread is Some,
{
}

/// The reply that is stored is the text of exactly the pieces that were
/// forwarded, stored in the conversation's own thread.
pub proof fn law_stored_reply_is_forwarded_text(f: ChatFlowModel, e: ChatEventModel)
    requires
        flow_inv(f),
        accepts_model(f, e),
    ensures
        step_model(f, e).1 matches ChatActionModel::StoreAssistantMessage { thread_id, content }
            ==> content == collected_text(f.chunks) && f.thread_id == Some(thread_id),
{
}

/// Once the thread is known it does not change: every step but the one that
/// reports the new thread keeps it.
pub proof fn law_thread_is_kept(f: ChatFlowModel, e: ChatEventModel)
    requires
        flow_inv(f),
        accepts_model(f, e),
        !(e is ThreadCreated),
    ensures
        step_model(f, e).0.thread_id == f.thread_id,
        step_model(f, e).0.db == f.db,
        step_model(f, e).0.message == f.message,
{
}

/// What goes upstream is the conversation: without a database the user's
/// message alone, with one the thread's messages as loaded, in order.
pub proof fn law_upstream_gets_conversation(
    request: ChatRequestModel,
    f: ChatFlowModel,
    ms: Seq<(Seq<char>, Seq<char>)>,
)
    requires
        f.stage == Stage::AwaitHistory,
    ensures
        start_model(Some(request), false).1 == (ChatActionModel::SendUpstream {
            payload: payload_text(user_only(request.message)),
        }),
        step_model(f, ChatEventModel::HistoryLoaded(ms)).1 == (ChatActionModel::SendUpstream {
            payload: payload_text(ms),
        }),
{
}

/// While streaming, every piece of the upstream's reply is forwarded, and
/// the stream goes on until it ends.
pub proof fn law_every_piece_is_forwarded(f: ChatFlowModel, d: Seq<u8>)
    requires
        f.stage == Stage::Streaming,
    ensures
        step_model(f, ChatEventModel::Chunk(d)).1 == ChatActionModel::Forward,
        step_model(f, ChatEventModel::Chunk(d)).0.stage == Stage::Streaming,
        step_model(f, ChatEventModel::Chunk(d)).0.chunks == f.chunks.push(d),
{
}

/// An upstream that does not answer with success is answered 502 and ends
/// the exchange without storing anything.
pub proof fn law_failed_upstream_is_bad_gateway(f: ChatFlowModel)
    requires
        f.stage == Stage::AwaitUpstream,
    ensures
        step_model(f, ChatEventModel::UpstreamAnswered(false)).1 == ChatActionModel::Reply(502),
        step_model(f, ChatEventModel::UpstreamAnswered(false)).0.stage == Stage::Done,
{
}

/// An exchange that is over takes no further event.
pub proof fn law_done_is_final(f: ChatFlowModel, e: ChatEventModel)
    requires
        f.stage == Stage::Done,
    ensures
        !accepts_model(f, e),
{
}

/// The actions that a run of outcomes draws from the flow, and the state it
/// ends in; the run stops at the first outcome that the flow does not take.
pub open spec fn run_flow(f: ChatFlowModel, es: Seq<ChatEventModel>) -> (
    ChatFlowModel,
    Seq<ChatActionModel>,
)
    decreases es.len(),
{
    if es.len() == 0 || !accepts_model(f, es[0]) {
        (f, Seq::<ChatActionModel>::empty())
    } else {
        let (g, a) = step_model(f, es[0]);
        let (h, rest) = run_flow(g, es.drop_first());
        (h, seq![a] + rest)
    }
}

/// The outcomes that report these pieces of the upstream's reply, in order.
pub open spec fn chunk_events(ds: Seq<Seq<u8>>) -> Seq<ChatEventModel> {
    ds.map_values(|d: Seq<u8>| ChatEventModel::Chunk(d))
}

/// `k` forwards.
pub open spec fn forwards(k: nat) -> Seq<ChatActionModel> {
    Seq::new(k, |i: int| ChatActionModel::Forward)
}

/// Streaming through the pieces `ds`: each is forwarded, and the flow goes
/// on with the pieces and their text added.
proof fn lemma_run_streaming(f: ChatFlowModel, ds: Seq<Seq<u8>>, rest: Seq<ChatEventModel>)
    requires
        f.stage == Stage::Streaming,
        flow_inv(f),
    ensures
        run_flow(f, chunk_events(ds) + rest).1 == forwards(ds.len()) + run_flow(
            ChatFlowModel {
                chunks: f.chunks + ds,
                collected: collected_text(f.chunks + ds),
                ..f
            },
            rest,
        ).1,
        run_flow(f, chunk_events(ds) + rest).0 == run_flow(
            ChatFlowModel {
                chunks: f.chunks + ds,
                collected: collected_text(f.chunks + ds),
                ..f
            },
            rest,
        ).0,
    decreases ds.len(),
{
    let es = chunk_events(ds) + rest;
    if ds.len() == 0 {
        assert(es =~= rest);
        assert(f.chunks + ds =~= f.chunks);
        assert(forwards(0) + run_flow(f, rest).1 =~= run_flow(f, rest).1);
        assert((ChatFlowModel { chunks: f.chunks + ds, collected: collected_text(f.chunks + ds), ..f })
            == f);
    } else {
        let d = ds[0];
        assert(es[0] == ChatEventModel::Chunk(d));
        let g = step_model(f, ChatEventModel::Chunk(d)).0;
        assert(g.chunks.drop_last() =~= f.chunks);
        assert(flow_inv(g));
        assert(es.drop_first() =~= chunk_events(ds.drop_first()) + rest);
        lemma_run_streaming(g, ds.drop_first(), rest);
        assert(g.chunks + ds.drop_first() =~= f.chunks + ds);
        assert(seq![ChatActionModel::Forward] + forwards((ds.len() - 1) as nat) =~= forwards(
            ds.len(),
        ));
        assert(forwards(ds.len()) + run_flow(
            ChatFlowModel {
                chunks: f.chunks + ds,
                collected: collected_text(f.chunks + ds),
                ..f
            },
            rest,
        ).1 =~= seq![ChatActionModel::Forward] + (forwards((ds.len() - 1) as nat) + run_flow(
            ChatFlowModel {
                chunks: f.chunks + ds,
                collected: collected_text(f.chunks + ds),
                ..f
            },
            rest,
        ).1));
    }
}

proof fn lemma_run_cons(f: ChatFlowModel, e: ChatEventModel, es: Seq<ChatEventModel>)
    requires
        accepts_model(f, e),
    ensures
        run_flow(f, seq![e] + es).1 == seq![step_model(f, e).1] + run_flow(
            step_model(f, e).0,
            es,
        ).1,
        run_flow(f, seq![e] + es).0 == run_flow(step_model(f, e).0, es).0,
{
    let xs = seq![e] + es;
    assert(xs[0] == e);
    assert(xs.drop_first() =~= es);
}

proof fn lemma_run_nil(f: ChatFlowModel)
    ensures
        run_flow(f, Seq::<ChatEventModel>::empty()).1 == Seq::<ChatActionModel>::empty(),
        run_flow(f, Seq::<ChatEventModel>::empty()).0 == f,
{
}

/// Without a database the whole exchange is: the user's message alone goes
/// upstream, the stream opens without a thread, every piece of the reply is
/// forwarded in order, and the exchange ends with nothing stored; the
/// collected text is the text of those pieces.
pub proof fn law_exchange_without_database(request: ChatRequestModel, ds: Seq<Seq<u8>>)
    ensures
        ({
            let (f, a) = start_model(Some(request), false);
            let es = seq![ChatEventModel::UpstreamAnswered(true)] + chunk_events(ds) + seq![
                ChatEventModel::StreamEnded,
            ];
            let (g, actions) = run_flow(f, es);
            &&& a == ChatActionModel::SendUpstream { payload: payload_text(user_only(request.message)) }
            &&& actions == seq![ChatActionModel::OpenStream { thread: None }] + forwards(ds.len())
                + seq![ChatActionModel::Finish]
            &&& g.stage == Stage::Done
            &&& g.collected == collected_text(ds)
        }),
{
    let (f, a) = start_model(Some(request), false);
    let empty = Seq::<ChatEventModel>::empty();
    let tail = seq![ChatEventModel::StreamEnded] + empty;
    let up = ChatEventModel::UpstreamAnswered(true);
    let es = seq![up] + chunk_events(ds) + seq![ChatEventModel::StreamEnded];
    assert(es =~= seq![up] + (chunk_events(ds) + tail));
    lemma_run_cons(f, up, chunk_events(ds) + tail);
    let g = step_model(f, up).0;
    lemma_run_streaming(g, ds, tail);
    assert(g.chunks + ds =~= ds);
    let h = ChatFlowModel { chunks: g.chunks + ds, collected: collected_text(g.chunks + ds), ..g };
    lemma_run_cons(h, ChatEventModel::StreamEnded, empty);
    lemma_run_nil(step_model(h, ChatEventModel::StreamEnded).0);
    assert(run_flow(h, tail).1 =~= seq![ChatActionModel::Finish]);
    assert(run_flow(f, es).1 =~= seq![ChatActionModel::OpenStream { thread: None }] + forwards(
        ds.len(),
    ) + seq![ChatActionModel::Finish]);
}

/// The streaming part of a kept conversation: the stream opens naming the
/// thread, every piece is forwarded in order, and the reply is stored once,
/// at the end, as the text of exactly those pieces.
proof fn lemma_kept_streaming(g: ChatFlowModel, t: Seq<char>, ds: Seq<Seq<u8>>)
    requires
        g.stage == Stage::AwaitUpstream,
        g.db,
        g.thread_id == Some(t),
        g.chunks.len() == 0,
        flow_inv(g),
    ensures
        run_flow(g, streaming_events(ds)).1 == seq![ChatActionModel::OpenStream { thread: Some(t) }]
            + forwards(ds.len()) + seq![
            ChatActionModel::StoreAssistantMessage { thread_id: t, content: collected_text(ds) },
            ChatActionModel::Finish,
        ],
        run_flow(g, streaming_events(ds)).0.stage == Stage::Done,
{
    let empty = Seq::<ChatEventModel>::empty();
    let stored = seq![ChatEventModel::AssistantMessageStored] + empty;
    let tail = seq![ChatEventModel::StreamEnded] + stored;
    let up = ChatEventModel::UpstreamAnswered(true);
    let es = streaming_events(ds);
    assert(es =~= seq![up] + (chunk_events(ds) + tail));
    lemma_run_cons(g, up, chunk_events(ds) + tail);
    let s = step_model(g, up).0;
    lemma_run_streaming(s, ds, tail);
    assert(s.chunks + ds =~= ds);
    let h = ChatFlowModel { chunks: s.chunks + ds, collected: collected_text(s.chunks + ds), ..s };
    lemma_run_cons(h, ChatEventModel::StreamEnded, stored);
    let h2 = step_model(h, ChatEventModel::StreamEnded).0;
    lemma_run_cons(h2, ChatEventModel::AssistantMessageStored, empty);
    lemma_run_nil(step_model(h2, ChatEventModel::AssistantMessageStored).0);
    assert(run_flow(h, tail).1 =~= seq![
        ChatActionModel::StoreAssistantMessage { thread_id: t, content: collected_text(ds) },
        ChatActionModel::Finish,
    ]);
    assert(run_flow(g, es).1 =~= seq![ChatActionModel::OpenStream { thread: Some(t) }] + forwards(
        ds.len(),
    ) + seq![
        ChatActionModel::StoreAssistantMessage { thread_id: t, content: collected_text(ds) },
        ChatActionModel::Finish,
    ]);
}

/// The outcomes of a kept conversation from the upstream's success on: the
/// pieces of the reply, its end, and its storing.
pub open spec fn streaming_events(ds: Seq<Seq<u8>>) -> Seq<ChatEventModel> {
    seq![ChatEventModel::UpstreamAnswered(true)] + chunk_events(ds) + seq![
        ChatEventModel::StreamEnded,
        ChatEventModel::AssistantMessageStored,
    ]
}

/// The actions of a kept conversation from the upstream's success on.
pub open spec fn streaming_actions(t: Seq<char>, ds: Seq<Seq<u8>>) -> Seq<ChatActionModel> {
    seq![ChatActionModel::OpenStream { thread: Some(t) }] + forwards(ds.len()) + seq![
        ChatActionModel::StoreAssistantMessage { thread_id: t, content: collected_text(ds) },
        ChatActionModel::Finish,
    ]
}

/// With a database and no thread named, the whole exchange is: one thread is
/// created; the user's message is stored in it before anything goes
/// upstream; the thread's messages as loaded are sent; the stream names the
/// thread; every piece is forwarded in order; and the reply is stored once,
/// in that thread, after the stream, as the text of exactly those pieces.
pub proof fn law_exchange_with_new_thread(
    request: ChatRequestModel,
    t: Seq<char>,
    history: Seq<(Seq<char>, Seq<char>)>,
    ds: Seq<Seq<u8>>,
)
    requires
        request.thread_id is None,
    ensures
        start_model(Some(request), true).1 == ChatActionModel::CreateThread,
        run_flow(
            start_model(Some(request), true).0,
            seq![
                ChatEventModel::ThreadCreated(t),
                ChatEventModel::UserMessageStored,
                ChatEventModel::HistoryLoaded(history),
            ] + streaming_events(ds),
        ).1 == seq![
            ChatActionModel::StoreUserMessage { thread_id: t, content: request.message },
            ChatActionModel::LoadHistory { thread_id: t },
            ChatActionModel::SendUpstream { payload: payload_text(history) },
        ] + streaming_actions(t, ds),
        run_flow(
            start_model(Some(request), true).0,
            seq![
                ChatEventModel::ThreadCreated(t),
                ChatEventModel::UserMessageStored,
                ChatEventModel::HistoryLoaded(history),
            ] + streaming_events(ds),
        ).0.stage == Stage::Done,
{
    let f = start_model(Some(request), true).0;
    let st = streaming_events(ds);
    let e1 = ChatEventModel::ThreadCreated(t);
    let e2 = ChatEventModel::UserMessageStored;
    let e3 = ChatEventModel::HistoryLoaded(history);
    assert(seq![e1, e2, e3] + st =~= seq![e1] + (seq![e2] + (seq![e3] + st)));
    lemma_run_cons(f, e1, seq![e2] + (seq![e3] + st));
    let f1 = step_model(f, e1).0;
    lemma_run_cons(f1, e2, seq![e3] + st);
    let f2 = step_model(f1, e2).0;
    lemma_run_cons(f2, e3, st);
    let f3 = step_model(f2, e3).0;
    lemma_kept_streaming(f3, t, ds);
    assert(run_flow(f, seq![e1, e2, e3] + st).1 =~= seq![
        ChatActionModel::StoreUserMessage { thread_id: t, content: request.message },
        ChatActionModel::LoadHistory { thread_id: t },
        ChatActionModel::SendUpstream { payload: payload_text(history) },
    ] + streaming_actions(t, ds));
}

/// With a database and a thread named in the request, the exchange is the
/// same as for a new thread, in the named thread and without creating one.
pub proof fn law_exchange_with_named_thread(
    request: ChatRequestModel,
    history: Seq<(Seq<char>, Seq<char>)>,
    ds: Seq<Seq<u8>>,
)
    requires
        request.thread_id is Some,
    ensures
        start_model(Some(request), true).1 == (ChatActionModel::StoreUserMessage {
            thread_id: request.thread_id->0,
            content: request.message,
        }),
        run_flow(
            start_model(Some(request), true).0,
            seq![ChatEventModel::UserMessageStored, ChatEventModel::HistoryLoaded(history)]
                + streaming_events(ds),
        ).1 == seq![
            ChatActionModel::LoadHistory { thread_id: request.thread_id->0 },
            ChatActionModel::SendUpstream { payload: payload_text(history) },
        ] + streaming_actions(request.thread_id->0, ds),
        run_flow(
            start_model(Some(request), true).0,
            seq![ChatEventModel::UserMessageStored, ChatEventModel::HistoryLoaded(history)]
                + streaming_events(ds),
        ).0.stage == Stage::Done,
{
    let t = request.thread_id->0;
    let f = start_model(Some(request), true).0;
    let st = streaming_events(ds);
    let e2 = ChatEventModel::UserMessageStored;
    let e3 = ChatEventModel::HistoryLoaded(history);
    assert(seq![e2, e3] + st =~= seq![e2] + (seq![e3] + st));
    lemma_run_cons(f, e2, seq![e3] + st);
    let f2 = step_model(f, e2).0;
    lemma_run_cons(f2, e3, st);
    let f3 = step_model(f2, e3).0;
    lemma_kept_streaming(f3, t, ds);
    assert(run_flow(f, seq![e2, e3] + st).1 =~= seq![
        ChatActionModel::LoadHistory { thread_id: t },
        ChatActionModel::SendUpstream { payload: payload_text(history) },
    ] + streaming_actions(t, ds));
}

/// The streamed reply so far: its text and, as ghost state, its pieces.
struct Transcript {
    text: String,
    pieces: Ghost<Seq<Seq<u8>>>,
}

impl Transcript {
    fn empty() -> (t: Transcript)
        ensures
            t.text@ == Seq::<char>::empty(),
            t.pieces@ == Seq::<Seq<u8>>::empty(),
    {
        Transcript { text: String::new(), pieces: Ghost(Seq::empty()) }
    }
}

/// One chat exchange in progress.
pub struct ChatFlow {
    stage: Stage,
    db: bool,
    message: String,
    thread_id: Option<String>,
    transcript: Transcript,
}

impl View for ChatFlow {
    type V = ChatFlowModel;

    closed spec fn view(&self) -> ChatFlowModel {
        ChatFlowModel {
            stage: self.stage,
            db: self.db,
            message: self.message@,
            thread_id: opt_model(self.thread_id),
            chunks: self.transcript.pieces@,
            collected: self.transcript.text@,
        }
    }
}

fn clone_opt(s: &Option<String>) -> (r: Option<String>)
    ensures
        opt_model(r) == opt_model(*s),
{
    match s {
        Some(t) => Some(t.clone()),
        None => None,
    }
}

impl ChatFlow {
    #[verifier::type_invariant]
    closed spec fn inv(self) -> bool {
        flow_inv(self@)
    }

    /// Begins the exchange for a request (`None` when its body could not be
    /// parsed), with or without a database.
    pub fn start(request: Option<ChatRequest>, db: bool) -> (r: (ChatFlow, ChatAction))
        ensures
            (r.0@, r.1@) == start_model(
                match request {
                    Some(q) => Some(q@),
                    None => None,
                },
                db,
            ),
            flow_inv(r.0@),
    {
        match request {
            None => {
                let f = ChatFlow {
                    stage: Stage::Done,
                    db,
                    message: String::new(),
                    thread_id: None,
                    transcript: Transcript::empty(),
                };
                (f, ChatAction::Reply(400))
            },
            Some(q) => {
                if db {
                    match q.thread_id {
                        Some(t) => {
                            let action = ChatAction::StoreUserMessage {
                                thread_id: t.clone(),
                                content: q.message.clone(),
                            };
                            let f = ChatFlow {
                                stage: Stage::AwaitUserStored,
                                db,
                                message: q.message,
                                thread_id: Some(t),
                                transcript: Transcript::empty(),
                            };
                            (f, action)
                        },
                        None => {
                            let f = ChatFlow {
                                stage: Stage::AwaitThread,
                                db,
                                message: q.message,
                                thread_id: None,
                                transcript: Transcript::empty(),
                            };
                            (f, ChatAction::CreateThread)
                        },
                    }
                } else {
                    let mut ms: Vec<ChatMessage> = Vec::new();
                    ms.push(
                        ChatMessage { role: String::from_str("user"), content: q.message.clone() },
                    );
                    assert(messages_model(ms@) =~= user_only(q.message@));
                    let payload = chat_payload(&ms);
                    let f = ChatFlow {
                        stage: Stage::AwaitUpstream,
                        db,
                        message: q.message,
                        thread_id: None,
                        transcript: Transcript::empty(),
                    };
                    (f, ChatAction::SendUpstream { payload })
                }
            },
        }
    }

    /// Where the exchange stands.
    pub fn stage(&self) -> (s: Stage)
        ensures
            s == self@.stage,
            flow_inv(self@),
    {
        proof {
            use_type_invariant(self);
        }
        self.stage
    }

    /// The thread of the conversation, once known.
    pub fn thread_id(&self) -> (t: Option<String>)
        ensures
            opt_model(t) == self@.thread_id,
            flow_inv(self@),
    {
        proof {
            use_type_invariant(self);
        }
        clone_opt(&self.thread_id)
    }

    /// The text of the upstream's reply forwarded so far.
    pub fn collected(&self) -> (s: String)
        ensures
            s@ == self@.collected,
            flow_inv(self@),
    {
        proof {
            use_type_invariant(self);
        }
        self.transcript.text.clone()
    }

    /// Whether the flow, in its present stage, takes this event.
    pub fn accepts(&self, event: &ChatEvent) -> (b: bool)
        ensures
            b == accepts_model(self@, event@),
            flow_inv(self@),
    {
        proof {
            use_type_invariant(self);
        }
        match event {
            ChatEvent::ThreadCreated(_) => self.stage == Stage::AwaitThread,
            ChatEvent::UserMessageStored => self.stage == Stage::AwaitUserStored,
            ChatEvent::HistoryLoaded(_) => self.stage == Stage::AwaitHistory,
            ChatEvent::UpstreamAnswered(_) => self.stage == Stage::AwaitUpstream,
            ChatEvent::Chunk(_) => self.stage == Stage::Streaming,
            ChatEvent::StreamEnded => self.stage == Stage::Streaming,
            ChatEvent::AssistantMessageStored => self.stage == Stage::AwaitAssistantStored,
        }
    }

    /// Takes the outcome of the work last asked for and tells what to do next.
    pub fn step(&mut self, event: ChatEvent) -> (a: ChatAction)
        requires
            accepts_model(old(self)@, event@),
        ensures
            (final(self)@, a@) == step_model(old(self)@, event@),
            flow_inv(final(self)@),
            event@ matches ChatEventModel::Chunk(d) ==> (valid_utf8(d) ==> final(self)@.collected
                == old(self)@.collected + decode_utf8(d)),
    {
        proof {
            use_type_invariant(&*self);
        }
        if let ChatEvent::Chunk(d) = event {
            let mut t = Transcript::empty();
            std::mem::swap(&mut self.transcript, &mut t);
            let piece = utf8_lossy(d.as_slice());
            t.text.append(piece.as_str());
            let ghost pieces = t.pieces@.push(d@);
            assert(pieces.drop_last() =~= t.pieces@);
            self.transcript = Transcript { text: t.text, pieces: Ghost(pieces) };
            return ChatAction::Forward;
        }
        let db = self.db;
        let thread_id = clone_opt(&self.thread_id);
        let mut message = String::new();
        std::mem::swap(&mut self.message, &mut message);
        let mut transcript = Transcript::empty();
        std::mem::swap(&mut self.transcript, &mut transcript);
        let (stage, thread_id, action) = match event {
            ChatEvent::ThreadCreated(t) => {
                let action = ChatAction::StoreUserMessage {
                    thread_id: t.clone(),
                    content: message.clone(),
                };
                (Stage::AwaitUserStored, Some(t), action)
            },
            ChatEvent::UserMessageStored => {
                let t = match &thread_id {
                    Some(t) => t.clone(),
                    None => String::new(),
                };
                (Stage::AwaitHistory, thread_id, ChatAction::LoadHistory { thread_id: t })
            },
            ChatEvent::HistoryLoaded(ms) => {
                let payload = chat_payload(&ms);
                (Stage::AwaitUpstream, thread_id, ChatAction::SendUpstream { payload })
            },
            ChatEvent::UpstreamAnswered(ok) => {
                if ok {
                    let open = clone_opt(&thread_id);
                    (Stage::Streaming, thread_id, ChatAction::OpenStream { thread: open })
                } else {
                    (Stage::Done, thread_id, ChatAction::Reply(502))
                }
            },
            ChatEvent::StreamEnded => {
                if db {
                    let t = match &thread_id {
                        Some(t) => t.clone(),
                        None => String::new(),
                    };
                    let content = transcript.text.clone();
                    (
                        Stage::AwaitAssistantStored,
                        thread_id,
                        ChatAction::StoreAssistantMessage { thread_id: t, content },
                    )
                } else {
                    (Stage::Done, thread_id, ChatAction::Finish)
                }
            },
            ChatEvent::AssistantMessageStored => (Stage::Done, thread_id, ChatAction::Finish),
            ChatEvent::Chunk(_) => (Stage::Streaming, thread_id, ChatAction::Forward),
        };
        *self = ChatFlow { stage, db, message, thread_id, transcript };
        action
    }
}

/// What the client is sent as the flow takes the outcome `e` and answers
/// `a`: the head as the stream opens, the frame of each forwarded piece, the
/// last chunk as the stream ends, and a bare reply when the exchange is
/// refused; nothing for the other steps.
pub open spec fn sent_on(e: ChatEventModel, a: ChatActionModel) -> Seq<u8> {
    match a {
        ChatActionModel::OpenStream { thread } => encode_utf8(stream_head_text(thread)),
        ChatActionModel::Forward => match e {
            ChatEventModel::Chunk(d) => chunk_frame_bytes(d),
            _ => Seq::<u8>::empty(),
        },
        ChatActionModel::Reply(code) => encode_utf8(simple_response_text(code, reason_text(code))),
        _ => if e is StreamEnded {
            last_chunk_bytes()
        } else {
            Seq::<u8>::empty()
        },
    }
}

/// What the client is sent over a run of outcomes, in order; the run stops
/// at the first outcome that the flow does not take.
pub open spec fn sent_in_run(f: ChatFlowModel, es: Seq<ChatEventModel>) -> Seq<u8>
    decreases es.len(),
{
    if es.len() == 0 || !accepts_model(f, es[0]) {
        Seq::<u8>::empty()
    } else {
        let (g, a) = step_model(f, es[0]);
        sent_on(es[0], a) + sent_in_run(g, es.drop_first())
    }
}

proof fn lemma_sent_cons(f: ChatFlowModel, e: ChatEventModel, es: Seq<ChatEventModel>)
    requires
        accepts_model(f, e),
    ensures
        sent_in_run(f, seq![e] + es) == sent_on(e, step_model(f, e).1) + sent_in_run(
            step_model(f, e).0,
            es,
        ),
{
    let xs = seq![e] + es;
    assert(xs[0] == e);
    assert(xs.drop_first() =~= es);
}

/// Streaming through the pieces `ds` sends their frames, in order.
proof fn lemma_sent_streaming(f: ChatFlowModel, ds: Seq<Seq<u8>>, rest: Seq<ChatEventModel>)
    requires
        f.stage == Stage::Streaming,
        flow_inv(f),
    ensures
        sent_in_run(f, chunk_events(ds) + rest) == frames(ds) + sent_in_run(
            ChatFlowModel {
                chunks: f.chunks + ds,
                collected: collected_text(f.chunks + ds),
                ..f
            },
            rest,
        ),
    decreases ds.len(),
{
    let es = chunk_events(ds) + rest;
    let after = ChatFlowModel { chunks: f.chunks + ds, collected: collected_text(f.chunks + ds), ..f };
    if ds.len() == 0 {
        assert(es =~= rest);
        assert(f.chunks + ds =~= f.chunks);
        assert(after == f);
        assert(frames(ds) + sent_in_run(f, rest) =~= sent_in_run(f, rest));
    } else {
        let d = ds[0];
        assert(es[0] == ChatEventModel::Chunk(d));
        let g = step_model(f, ChatEventModel::Chunk(d)).0;
        assert(g.chunks.drop_last() =~= f.chunks);
        assert(flow_inv(g));
        assert(es.drop_first() =~= chunk_events(ds.drop_first()) + rest);
        lemma_sent_streaming(g, ds.drop_first(), rest);
        assert(g.chunks + ds.drop_first() =~= f.chunks + ds);
        assert(frames(ds) + sent_in_run(after, rest) =~= chunk_frame_bytes(d) + (frames(
            ds.drop_first(),
        ) + sent_in_run(after, rest)));
    }
}

/// From the upstream's success to the end of its reply, the client is sent
/// the whole streamed reply: the head naming the flow's thread, a frame for
/// each piece in order, and the last chunk.
proof fn lemma_sent_stream(g: ChatFlowModel, ds: Seq<Seq<u8>>, rest: Seq<ChatEventModel>)
    requires
        g.stage == Stage::AwaitUpstream,
        flow_inv(g),
        g.chunks.len() == 0,
        rest.len() == 0 || rest == seq![ChatEventModel::AssistantMessageStored],
    ensures
        sent_in_run(
            g,
            seq![ChatEventModel::UpstreamAnswered(true)] + chunk_events(ds) + seq![
                ChatEventModel::StreamEnded,
            ] + rest,
        ) == stream_reply_bytes(g.thread_id, ds),
{
    let empty = Seq::<ChatEventModel>::empty();
    let up = ChatEventModel::UpstreamAnswered(true);
    let tail = seq![ChatEventModel::StreamEnded] + rest;
    let es = seq![up] + chunk_events(ds) + seq![ChatEventModel::StreamEnded] + rest;
    assert(es =~= seq![up] + (chunk_events(ds) + tail));
    lemma_sent_cons(g, up, chunk_events(ds) + tail);
    let s = step_model(g, up).0;
    lemma_sent_streaming(s, ds, tail);
    assert(s.chunks + ds =~= ds);
    let h = ChatFlowModel { chunks: s.chunks + ds, collected: collected_text(s.chunks + ds), ..s };
    lemma_sent_cons(h, ChatEventModel::StreamEnded, rest);
    let h2 = step_model(h, ChatEventModel::StreamEnded).0;
    if rest.len() == 0 {
        assert(sent_in_run(h2, rest) =~= Seq::<u8>::empty());
    } else {
        assert(rest =~= seq![ChatEventModel::AssistantMessageStored] + empty);
        assert(rest[0] == ChatEventModel::AssistantMessageStored);
        if accepts_model(h2, ChatEventModel::AssistantMessageStored) {
            lemma_sent_cons(h2, ChatEventModel::AssistantMessageStored, empty);
        }
        assert(sent_in_run(h2, rest) =~= Seq::<u8>::empty());
    }
    assert(sent_in_run(h, tail) =~= last_chunk_bytes());
    assert(sent_in_run(g, es) =~= stream_reply_bytes(g.thread_id, ds));
}

/// Without a database, the client is sent the whole streamed reply: the
/// head without a thread, a frame for each piece of the upstream's reply in
/// order, and the last chunk; read back, its body gives exactly those
/// pieces when none is empty.
pub proof fn law_reply_without_database(request: ChatRequestModel, ds: Seq<Seq<u8>>)
    ensures
        sent_in_run(
            start_model(Some(request), false).0,
            seq![ChatEventModel::UpstreamAnswered(true)] + chunk_events(ds) + seq![
                ChatEventModel::StreamEnded,
            ],
        ) == stream_reply_bytes(None, ds),
        (forall|i: int| 0 <= i < ds.len() ==> 0 < #[trigger] ds[i].len() <= usize::MAX) ==> dechunk(
            stream_reply_bytes(None, ds).skip(encode_utf8(stream_head_text(None)).len() as int),
        ) == ds,
{
    let f = start_model(Some(request), false).0;
    let es = seq![ChatEventModel::UpstreamAnswered(true)] + chunk_events(ds) + seq![
        ChatEventModel::StreamEnded,
    ];
    let empty = Seq::<ChatEventModel>::empty();
    assert(es =~= es + empty);
    lemma_sent_stream(f, ds, empty);
    if forall|i: int| 0 <= i < ds.len() ==> 0 < #[trigger] ds[i].len() <= usize::MAX {
        law_stream_reply_read_back(None, ds);
    }
}

/// With a database, the client is sent the whole streamed reply with the
/// thread's id in its head, whether the thread was created or named: a
/// frame for each piece in order, and the last chunk; read back, its body
/// gives exactly those pieces when none is empty.
pub proof fn law_reply_with_database(
    request: ChatRequestModel,
    t: Seq<char>,
    history: Seq<(Seq<char>, Seq<char>)>,
    ds: Seq<Seq<u8>>,
)
    ensures
        request.thread_id is None ==> sent_in_run(
            start_model(Some(request), true).0,
            seq![
                ChatEventModel::ThreadCreated(t),
                ChatEventModel::UserMessageStored,
                ChatEventModel::HistoryLoaded(history),
            ] + streaming_events(ds),
        ) == stream_reply_bytes(Some(t), ds),
        request.thread_id == Some(t) ==> sent_in_run(
            start_model(Some(request), true).0,
            seq![ChatEventModel::UserMessageStored, ChatEventModel::HistoryLoaded(history)]
                + streaming_events(ds),
        ) == stream_reply_bytes(Some(t), ds),
        (forall|i: int| 0 <= i < ds.len() ==> 0 < #[trigger] ds[i].len() <= usize::MAX) ==> dechunk(
            stream_reply_bytes(Some(t), ds).skip(
                encode_utf8(stream_head_text(Some(t))).len() as int,
            ),
        ) == ds,
{
    let f = start_model(Some(request), true).0;
    let st = streaming_events(ds);
    let stored = seq![ChatEventModel::AssistantMessageStored];
    assert(st =~= seq![ChatEventModel::UpstreamAnswered(true)] + chunk_events(ds) + seq![
        ChatEventModel::StreamEnded,
    ] + stored);
    let e1 = ChatEventModel::ThreadCreated(t);
    let e2 = ChatEventModel::UserMessageStored;
    let e3 = ChatEventModel::HistoryLoaded(history);
    if request.thread_id is None {
        assert(seq![e1, e2, e3] + st =~= seq![e1] + (seq![e2] + (seq![e3] + st)));
        lemma_sent_cons(f, e1, seq![e2] + (seq![e3] + st));
        let f1 = step_model(f, e1).0;
        lemma_sent_cons(f1, e2, seq![e3] + st);
        let f2 = step_model(f1, e2).0;
        lemma_sent_cons(f2, e3, st);
        let f3 = step_model(f2, e3).0;
        lemma_sent_stream(f3, ds, stored);
        assert(sent_in_run(f, seq![e1, e2, e3] + st) =~= stream_reply_bytes(Some(t), ds));
    }
    if request.thread_id == Some(t) {
        assert(seq![e2, e3] + st =~= seq![e2] + (seq![e3] + st));
        lemma_sent_cons(f, e2, seq![e3] + st);
        let f2 = step_model(f, e2).0;
        lemma_sent_cons(f2, e3, st);
        let f3 = step_model(f2, e3).0;
        lemma_sent_stream(f3, ds, stored);
        assert(sent_in_run(f, seq![e2, e3] + st) =~= stream_reply_bytes(Some(t), ds));
    }
    if forall|i: int| 0 <= i < ds.len() ==> 0 < #[trigger] ds[i].len() <= usize::MAX {
        law_stream_reply_read_back(Some(t), ds);
    }
}

/// An upstream that does not answer with success gets the client a bare
/// 502 reply and nothing else.
pub proof fn law_failed_upstream_sends_bad_gateway(g: ChatFlowModel)
    requires
        g.stage == Stage::AwaitUpstream,
    ensures
        sent_in_run(g, seq![ChatEventModel::UpstreamAnswered(false)]) == encode_utf8(
            simple_response_text(502, "Bad Gateway"@),
        ),
{
    let e = ChatEventModel::UpstreamAnswered(false);
    let empty = Seq::<ChatEventModel>::empty();
    assert(seq![e] =~= seq![e] + empty);
    lemma_sent_cons(g, e, empty);
    assert(sent_in_run(step_model(g, e).0, empty) =~= Seq::<u8>::empty());
    assert(sent_on(e, ChatActionModel::Reply(502)) + Seq::<u8>::empty() =~= sent_on(
        e,
        ChatActionModel::Reply(502),
    ));
}

/// A stream that has not ended stores nothing: however many pieces have
/// come, each was forwarded and no other action was asked for, and the flow
/// is still streaming.
pub proof fn law_unended_stream_stores_nothing(f: ChatFlowModel, ds: Seq<Seq<u8>>)
    requires
        f.stage == Stage::Streaming,
        flow_inv(f),
    ensures
        run_flow(f, chunk_events(ds)).1 == forwards(ds.len()),
        run_flow(f, chunk_events(ds)).0.stage == Stage::Streaming,
{
    let empty = Seq::<ChatEventModel>::empty();
    assert(chunk_events(ds) =~= chunk_events(ds) + empty);
    lemma_run_streaming(f, ds, empty);
    let after = ChatFlowModel { chunks: f.chunks + ds, collected: collected_text(f.chunks + ds), ..f };
    lemma_run_nil(after);
    assert(forwards(ds.len()) + Seq::<ChatActionModel>::empty() =~= forwards(ds.len()));
}

} // verus!
