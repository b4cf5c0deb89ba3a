//! One client connection as a state machine: read a request line, read
//! header lines up to the empty line, read exactly `Content-Length` body
//! bytes, dispatch the request, and after its reply either wait for the next
//! request or close (after `Connection: close`, or when the input ends).
use vstd::prelude::*;
use crate::request::{
    apply_header, is_blank_line, parse_request_line, route, route_of, RequestHead,
    RequestHeadModel, Route,
};
use crate::text::{after_first_word, first_word};
use crate::response::{reason_text, simple_response_text, upstream_head_text};
use crate::request::{law_connection_close_in_any_case, law_content_length_read_back};
use crate::text::{is_one_line, lemma_split_line, lower, split_lines, trim, trim_end, trim_start};
use crate::numeral::{all_digits, decimal, digit_value, lemma_radix_digits_value};
use vstd::utf8::encode_utf8;

verus! {

/// Where a connection stands.
#[derive(PartialEq, Eq, Structural, Debug, Clone, Copy)]
pub enum ConnStage {
    /// Waiting for the request line of the next request.
    AwaitRequestLine,
    /// Waiting for the next header line.
    AwaitHeader,
    /// Waiting for the body.
    AwaitBody,
    /// Waiting for the request's reply to be written.
    AwaitReply,
    /// The connection is over.
    Closed,
}

/// What the server is to do next on a connection.
#[derive(PartialEq, Eq, Structural, Debug, Clone, Copy)]
pub enum ConnAction {
    /// Read one line, with its line ending, and report it (`None` at the end of the input).
    ReadLine,
    /// Read exactly this many bytes of body and report them.
    ReadBody(usize),
    /// Answer the request by this route, then report that the reply is written.
    Dispatch(Route),
    /// Close the connection.
    Close,
}

/// The outcome of the reading or writing that the connection asked for.
pub enum ConnEvent {
    /// A line was read (`None`: the input had ended).
    LineRead(Option<String>),
    /// The body was read.
    BodyRead(Vec<u8>),
    /// The reply to the request was written.
    Replied,
}

/// An outcome as values.
pub enum ConnEventModel {
    LineRead(Option<Seq<char>>),
    BodyRead(Seq<u8>),
    Replied,
}

impl View for ConnEvent {
    type V = ConnEventModel;

    open spec fn view(&self) -> ConnEventModel {
        match self {
            ConnEvent::LineRead(l) => ConnEventModel::LineRead(
                match l {
                    Some(t) => Some(t@),
                    None => None,
                },
            ),
            ConnEvent::BodyRead(b) => ConnEventModel::BodyRead(b@),
            ConnEvent::Replied => ConnEventModel::Replied,
        }
    }
}

/// The state of a connection as values.
pub struct ConnectionModel {
    pub stage: ConnStage,
    /// The method of the request being read.
    pub method: Seq<char>,
    /// The target of the request being read.
    pub path: Seq<char>,
    /// What its header lines said so far.
    pub head: RequestHeadModel,
}

/// A connection before its first request.
pub open spec fn fresh_connection() -> ConnectionModel {
    ConnectionModel {
        stage: ConnStage::AwaitRequestLine,
        method: Seq::<char>::empty(),
        path: Seq::<char>::empty(),
        head: RequestHeadModel { content_length: 0, keep_alive: true },
    }
}

/// Whether the connection, in its present stage, takes this outcome: lines
/// while reading the head, a body of exactly the announced length, and the
/// end of a reply while one is being written.
pub open spec fn conn_accepts(c: ConnectionModel, e: ConnEventModel) -> bool {
    match e {
        ConnEventModel::LineRead(_) => c.stage == ConnStage::AwaitRequestLine || c.stage
            == ConnStage::AwaitHeader,
        ConnEventModel::BodyRead(b) => c.stage == ConnStage::AwaitBody && b.len()
            == c.head.content_length,
        ConnEventModel::Replied => c.stage == ConnStage::AwaitReply,
    }
}

/// One step of a connection.
pub open spec fn conn_step(c: ConnectionModel, e: ConnEventModel) -> (ConnectionModel, ConnAction) {
    match e {
        ConnEventModel::LineRead(None) => (
            ConnectionModel { stage: ConnStage::Closed, ..c },
            ConnAction::Close,
        ),
        ConnEventModel::LineRead(Some(l)) => if c.stage == ConnStage::AwaitRequestLine {
            (
                ConnectionModel {
                    stage: ConnStage::AwaitHeader,
                    method: first_word(l),
                    path: first_word(after_first_word(l)),
                    head: RequestHeadModel { content_length: 0, keep_alive: true },
                },
                ConnAction::ReadLine,
            )
        } else if is_blank_line(l) {
            (
                ConnectionModel { stage: ConnStage::AwaitBody, ..c },
                ConnAction::ReadBody(c.head.content_length as usize),
            )
        } else {
            (ConnectionModel { head: apply_header(c.head, l), ..c }, ConnAction::ReadLine)
        },
        ConnEventModel::BodyRead(_) => (
            ConnectionModel { stage: ConnStage::AwaitReply, ..c },
            ConnAction::Dispatch(route_of(c.method, c.path)),
        ),
        ConnEventModel::Replied => if c.head.keep_alive {
            (ConnectionModel { stage: ConnStage::AwaitRequestLine, ..c }, ConnAction::ReadLine)
        } else {
            (ConnectionModel { stage: ConnStage::Closed, ..c }, ConnAction::Close)
        },
    }
}

/// A client connection being served.
pub struct Connection {
    stage: ConnStage,
    method: String,
    path: String,
    head: RequestHead,
}

impl View for Connection {
    type V = ConnectionModel;

    closed spec fn view(&self) -> ConnectionModel {
        ConnectionModel {
            stage: self.stage,
            method: self.method@,
            path: self.path@,
            head: self.head@,
        }
    }
}

impl Connection {
    /// A new connection, which first reads a request line.
    pub fn new() -> (r: (Connection, ConnAction))
        ensures
            r.0@ == fresh_connection(),
            r.1 == ConnAction::ReadLine,
    {
        (
            Connection {
                stage: ConnStage::AwaitRequestLine,
                method: String::new(),
                path: String::new(),
                head: RequestHead::new(),
            },
            ConnAction::ReadLine,
        )
    }

    /// Where the connection stands.
    pub fn stage(&self) -> (s: ConnStage)
        ensures
            s == self@.stage,
    {
        self.stage
    }

    /// Whether the connection, in its present stage, takes this outcome.
    pub fn accepts(&self, event: &ConnEvent) -> (b: bool)
        ensures
            b == conn_accepts(self@, event@),
    {
        match event {
            ConnEvent::LineRead(_) => self.stage == ConnStage::AwaitRequestLine || self.stage
                == ConnStage::AwaitHeader,
            ConnEvent::BodyRead(b) => self.stage == ConnStage::AwaitBody && b.len()
                == self.head.content_length,
            ConnEvent::Replied => self.stage == ConnStage::AwaitReply,
        }
    }

    /// Takes the outcome of the work last asked for and tells what to do next.
    pub fn step(&mut self, event: ConnEvent) -> (a: ConnAction)
        requires
            conn_accepts(old(self)@, event@),
        ensures
            (final(self)@, a) == conn_step(old(self)@, event@),
    {
        match event {
            ConnEvent::LineRead(None) => {
                self.stage = ConnStage::Closed;
                ConnAction::Close
            },
            ConnEvent::LineRead(Some(l)) => {
                if self.stage == ConnStage::AwaitRequestLine {
                    let (method, path) = parse_request_line(l.as_str());
                    self.method = method;
                    self.path = path;
                    self.head = RequestHead::new();
                    self.stage = ConnStage::AwaitHeader;
                    ConnAction::ReadLine
                } else if self.head.header_line(l.as_str()) {
                    self.stage = ConnStage::AwaitBody;
                    ConnAction::ReadBody(self.head.content_length)
                } else {
                    ConnAction::ReadLine
                }
            },
            ConnEvent::BodyRead(_) => {
                self.stage = ConnStage::AwaitReply;
                ConnAction::Dispatch(route(self.method.as_str(), self.path.as_str()))
            },
            ConnEvent::Replied => {
                if self.head.keep_alive {
                    self.stage = ConnStage::AwaitRequestLine;
                    ConnAction::ReadLine
                } else {
                    self.stage = ConnStage::Closed;
                    ConnAction::Close
                }
            },
        }
    }
}

/// After the empty line that ends a head, the connection reads exactly the
/// number of body bytes that the head announced.
pub proof fn law_reads_announced_body(c: ConnectionModel, l: Seq<char>)
    requires
        c.stage == ConnStage::AwaitHeader,
        is_blank_line(l),
        c.head.content_length <= usize::MAX,
    ensures
        conn_step(c, ConnEventModel::LineRead(Some(l))).1 == ConnAction::ReadBody(
            c.head.content_length as usize,
        ),
        conn_step(c, ConnEventModel::LineRead(Some(l))).0.stage == ConnStage::AwaitBody,
{
}

/// Each request is dispatched once, by the route of its method and target,
/// and the connection then waits for that reply before anything else.
pub proof fn law_one_reply_per_request(c: ConnectionModel, b: Seq<u8>, e: ConnEventModel)
    requires
        conn_accepts(c, ConnEventModel::BodyRead(b)),
    ensures
        conn_step(c, ConnEventModel::BodyRead(b)).1 == ConnAction::Dispatch(
            route_of(c.method, c.path),
        ),
        conn_accepts(conn_step(c, ConnEventModel::BodyRead(b)).0, e) <==> e is Replied,
{
}

/// A `Connection: close` in a head is kept until the reply: no later line,
/// body or step before the reply turns keep-alive back on.
pub proof fn law_close_is_kept(c: ConnectionModel, e: ConnEventModel)
    requires
        c.stage == ConnStage::AwaitHeader || c.stage == ConnStage::AwaitBody,
        !c.head.keep_alive,
        conn_accepts(c, e),
    ensures
        !conn_step(c, e).0.head.keep_alive,
{
}

/// After the reply to a request whose head said `Connection: close`, the
/// connection closes; otherwise it reads the next request line.
pub proof fn law_close_after_reply(c: ConnectionModel)
    requires
        c.stage == ConnStage::AwaitReply,
    ensures
        !c.head.keep_alive ==> conn_step(c, ConnEventModel::Replied).1 == ConnAction::Close,
        c.head.keep_alive ==> conn_step(c, ConnEventModel::Replied).1 == ConnAction::ReadLine,
{
}

/// When the input ends the connection closes, and a closed connection takes nothing more.
pub proof fn law_end_of_input_closes(c: ConnectionModel, e: ConnEventModel)
    requires
        conn_accepts(c, ConnEventModel::LineRead(None)),
    ensures
        conn_step(c, ConnEventModel::LineRead(None)).1 == ConnAction::Close,
        !conn_accepts(conn_step(c, ConnEventModel::LineRead(None)).0, e),
{
}

/// The actions that a run of outcomes draws from a connection, and the state
/// it ends in; the run stops at the first outcome that is not taken.
pub open spec fn run_conn(c: ConnectionModel, es: Seq<ConnEventModel>) -> (
    ConnectionModel,
    Seq<ConnAction>,
)
    decreases es.len(),
{
    if es.len() == 0 || !conn_accepts(c, es[0]) {
        (c, Seq::<ConnAction>::empty())
    } else {
        let (g, a) = conn_step(c, es[0]);
        let (h, rest) = run_conn(g, es.drop_first());
        (h, seq![a] + rest)
    }
}

/// One request as the client sends it: the request line, the header lines
/// (each with its line ending), and the body after the empty line.
pub struct RequestText {
    pub line: Seq<char>,
    pub headers: Seq<Seq<char>>,
    pub body: Seq<u8>,
}

/// The state of a head after these header lines, in order.
pub open spec fn head_after(h: RequestHeadModel, hs: Seq<Seq<char>>) -> RequestHeadModel
    decreases hs.len(),
{
    if hs.len() == 0 {
        h
    } else {
        head_after(apply_header(h, hs[0]), hs.drop_first())
    }
}

/// What the header lines of a request say.
pub open spec fn request_head(r: RequestText) -> RequestHeadModel {
    head_after(RequestHeadModel { content_length: 0, keep_alive: true }, r.headers)
}

/// A request whose header lines are not empty and whose body has the length
/// that they announce.
pub open spec fn well_formed_request(r: RequestText) -> bool {
    &&& forall|i: int| 0 <= i < r.headers.len() ==> !is_blank_line(#[trigger] r.headers[i])
    &&& request_head(r).content_length <= usize::MAX
    &&& r.body.len() == request_head(r).content_length
}

/// The outcomes that serving the request reports: its lines as read, the
/// empty line, its body, and the end of its reply.
pub open spec fn request_events(r: RequestText) -> Seq<ConnEventModel> {
    seq![ConnEventModel::LineRead(Some(r.line))] + r.headers.map_values(
        |h: Seq<char>| ConnEventModel::LineRead(Some(h)),
    ) + seq![
        ConnEventModel::LineRead(Some("\r\n"@)),
        ConnEventModel::BodyRead(r.body),
        ConnEventModel::Replied,
    ]
}

/// `k` line reads.
pub open spec fn read_lines(k: nat) -> Seq<ConnAction> {
    Seq::new(k, |i: int| ConnAction::ReadLine)
}

/// What the connection asks for while serving the request: its lines, its
/// body of the announced length, its dispatch by route, and then the next
/// request line, or the close after `Connection: close`.
pub open spec fn request_actions(r: RequestText) -> Seq<ConnAction> {
    seq![ConnAction::ReadLine] + read_lines(r.headers.len()) + seq![
        ConnAction::ReadBody(request_head(r).content_length as usize),
        ConnAction::Dispatch(route_of(first_word(r.line), first_word(after_first_word(r.line)))),
        if request_head(r).keep_alive {
            ConnAction::ReadLine
        } else {
            ConnAction::Close
        },
    ]
}

/// The outcomes of serving the requests one after the other.
pub open spec fn requests_events(rs: Seq<RequestText>) -> Seq<ConnEventModel>
    decreases rs.len(),
{
    if rs.len() == 0 {
        Seq::<ConnEventModel>::empty()
    } else {
        request_events(rs[0]) + requests_events(rs.drop_first())
    }
}

/// The actions of serving the requests one after the other.
pub open spec fn requests_actions(rs: Seq<RequestText>) -> Seq<ConnAction>
    decreases rs.len(),
{
    if rs.len() == 0 {
        Seq::<ConnAction>::empty()
    } else {
        request_actions(rs[0]) + requests_actions(rs.drop_first())
    }
}

/// The state after serving a request that keeps the connection.
pub open spec fn after_request(r: RequestText) -> ConnectionModel {
    ConnectionModel {
        stage: ConnStage::AwaitRequestLine,
        method: first_word(r.line),
        path: first_word(after_first_word(r.line)),
        head: request_head(r),
    }
}

proof fn lemma_run_conn_cons(c: ConnectionModel, e: ConnEventModel, es: Seq<ConnEventModel>)
    requires
        conn_accepts(c, e),
    ensures
        run_conn(c, seq![e] + es).1 == seq![conn_step(c, e).1] + run_conn(conn_step(c, e).0, es).1,
        run_conn(c, seq![e] + es).0 == run_conn(conn_step(c, e).0, es).0,
{
    let xs = seq![e] + es;
    assert(xs[0] == e);
    assert(xs.drop_first() =~= es);
}

proof fn lemma_run_closed(c: ConnectionModel, es: Seq<ConnEventModel>)
    requires
        c.stage == ConnStage::Closed,
    ensures
        run_conn(c, es).1 == Seq::<ConnAction>::empty(),
{
}

proof fn lemma_run_headers(c: ConnectionModel, hs: Seq<Seq<char>>, rest: Seq<ConnEventModel>)
    requires
        c.stage == ConnStage::AwaitHeader,
        forall|i: int| 0 <= i < hs.len() ==> !is_blank_line(#[trigger] hs[i]),
    ensures
        run_conn(c, hs.map_values(|h: Seq<char>| ConnEventModel::LineRead(Some(h))) + rest).1
            == read_lines(hs.len()) + run_conn(
            ConnectionModel { head: head_after(c.head, hs), ..c },
            rest,
        ).1,
    decreases hs.len(),
{
    let evs = hs.map_values(|h: Seq<char>| ConnEventModel::LineRead(Some(h)));
    if hs.len() == 0 {
        assert(evs + rest =~= rest);
        assert((ConnectionModel { head: head_after(c.head, hs), ..c }) == c);
        assert(read_lines(0) + run_conn(c, rest).1 =~= run_conn(c, rest).1);
    } else {
        let e = ConnEventModel::LineRead(Some(hs[0]));
        let tl = hs.drop_first();
        assert(evs + rest =~= seq![e] + (tl.map_values(
            |h: Seq<char>| ConnEventModel::LineRead(Some(h)),
        ) + rest));
        lemma_run_conn_cons(c, e, tl.map_values(|h: Seq<char>| ConnEventModel::LineRead(Some(h))) + rest);
        let c1 = conn_step(c, e).0;
        assert forall|i: int| 0 <= i < tl.len() implies !is_blank_line(#[trigger] tl[i]) by {
            assert(tl[i] == hs[i + 1]);
        }
        assert(!is_blank_line(hs[0]));
        lemma_run_headers(c1, tl, rest);
        assert(seq![ConnAction::ReadLine] + read_lines(tl.len()) =~= read_lines(hs.len()));
        assert(run_conn(c, evs + rest).1 =~= read_lines(hs.len()) + run_conn(
            ConnectionModel { head: head_after(c.head, hs), ..c },
            rest,
        ).1);
    }
}

proof fn lemma_run_request(c: ConnectionModel, r: RequestText, rest: Seq<ConnEventModel>)
    requires
        c.stage == ConnStage::AwaitRequestLine,
        well_formed_request(r),
    ensures
        run_conn(c, request_events(r) + rest).1 == request_actions(r) + if request_head(
            r,
        ).keep_alive {
            run_conn(after_request(r), rest).1
        } else {
            Seq::<ConnAction>::empty()
        },
{
    reveal_strlit("\r\n");
    let hs = r.headers;
    let hevs = hs.map_values(|h: Seq<char>| ConnEventModel::LineRead(Some(h)));
    let e0 = ConnEventModel::LineRead(Some(r.line));
    let blank = ConnEventModel::LineRead(Some("\r\n"@));
    let body = ConnEventModel::BodyRead(r.body);
    let done = ConnEventModel::Replied;
    let tail = seq![blank] + (seq![body] + (seq![done] + rest));
    assert(request_events(r) + rest =~= seq![e0] + (hevs + tail));
    lemma_run_conn_cons(c, e0, hevs + tail);
    let c1 = conn_step(c, e0).0;
    lemma_run_headers(c1, hs, tail);
    let c2 = ConnectionModel { head: head_after(c1.head, hs), ..c1 };
    assert(c2.head == request_head(r));
    assert(is_blank_line("\r\n"@));
    lemma_run_conn_cons(c2, blank, seq![body] + (seq![done] + rest));
    let c3 = conn_step(c2, blank).0;
    lemma_run_conn_cons(c3, body, seq![done] + rest);
    let c4 = conn_step(c3, body).0;
    lemma_run_conn_cons(c4, done, rest);
    let c5 = conn_step(c4, done).0;
    if request_head(r).keep_alive {
        assert(c5 == after_request(r));
    } else {
        lemma_run_closed(c5, rest);
    }
    let last = if request_head(r).keep_alive {
        run_conn(after_request(r), rest).1
    } else {
        Seq::<ConnAction>::empty()
    };
    assert(run_conn(c, request_events(r) + rest).1 =~= request_actions(r) + last);
}

/// Requests sent one after another on a connection are served one at a
/// time, in order: each is read to its empty line, exactly its announced body
/// is read, it is dispatched once by its own route, and the next request is
/// read only after its reply. When every request but the last keeps the
/// connection, the end of the input (or the last request's
/// `Connection: close`) closes it.
pub proof fn law_requests_served_in_order(rs: Seq<RequestText>)
    requires
        forall|i: int| 0 <= i < rs.len() ==> well_formed_request(#[trigger] rs[i]),
        forall|i: int| 0 <= i < rs.len() - 1 ==> request_head(#[trigger] rs[i]).keep_alive,
    ensures
        run_conn(fresh_connection(), requests_events(rs) + seq![ConnEventModel::LineRead(None)]).1
            == requests_actions(rs) + if rs.len() == 0 || request_head(rs.last()).keep_alive {
            seq![ConnAction::Close]
        } else {
            Seq::<ConnAction>::empty()
        },
{
    lemma_serve_from(fresh_connection(), rs);
}

proof fn lemma_serve_from(c: ConnectionModel, rs: Seq<RequestText>)
    requires
        c.stage == ConnStage::AwaitRequestLine,
        forall|i: int| 0 <= i < rs.len() ==> well_formed_request(#[trigger] rs[i]),
        forall|i: int| 0 <= i < rs.len() - 1 ==> request_head(#[trigger] rs[i]).keep_alive,
    ensures
        run_conn(c, requests_events(rs) + seq![ConnEventModel::LineRead(None)]).1
            == requests_actions(rs) + if rs.len() == 0 || request_head(rs.last()).keep_alive {
            seq![ConnAction::Close]
        } else {
            Seq::<ConnAction>::empty()
        },
    decreases rs.len(),
{
    let eof = seq![ConnEventModel::LineRead(None)];
    if rs.len() == 0 {
        assert(requests_events(rs) + eof =~= seq![ConnEventModel::LineRead(None)] + Seq::<
            ConnEventModel,
        >::empty());
        lemma_run_conn_cons(c, ConnEventModel::LineRead(None), Seq::<ConnEventModel>::empty());
        assert(requests_actions(rs) + seq![ConnAction::Close] =~= seq![ConnAction::Close]);
        assert(run_conn(c, requests_events(rs) + eof).1 =~= seq![ConnAction::Close]);
    } else {
        let r = rs[0];
        let tl = rs.drop_first();
        let rest = requests_events(tl) + eof;
        assert(requests_events(rs) + eof =~= request_events(r) + rest);
        lemma_run_request(c, r, rest);
        let close_tail = if rs.len() == 0 || request_head(rs.last()).keep_alive {
            seq![ConnAction::Close]
        } else {
            Seq::<ConnAction>::empty()
        };
        if tl.len() == 0 {
            assert(requests_actions(tl) =~= Seq::<ConnAction>::empty());
            assert(rs.last() == r);
            if request_head(r).keep_alive {
                assert(rest =~= seq![ConnEventModel::LineRead(None)] + Seq::<ConnEventModel>::empty());
                lemma_run_conn_cons(
                    after_request(r),
                    ConnEventModel::LineRead(None),
                    Seq::<ConnEventModel>::empty(),
                );
                assert(run_conn(after_request(r), rest).1 =~= seq![ConnAction::Close]);
            }
            assert(requests_actions(rs) =~= request_actions(r) + requests_actions(tl));
            assert(run_conn(c, requests_events(rs) + eof).1 =~= requests_actions(rs) + close_tail);
        } else {
            assert(request_head(rs[0]).keep_alive);
            assert forall|i: int| 0 <= i < tl.len() implies well_formed_request(#[trigger] tl[i]) by {
                assert(tl[i] == rs[i + 1]);
            }
            assert forall|i: int| 0 <= i < tl.len() - 1 implies request_head(
                #[trigger] tl[i],
            ).keep_alive by {
                assert(tl[i] == rs[i + 1]);
            }
            lemma_serve_from(after_request(r), tl);
            assert(tl.last() == rs.last());
            assert(requests_actions(rs) =~= request_actions(r) + requests_actions(tl));
            assert(run_conn(c, requests_events(rs) + eof).1 =~= requests_actions(rs) + close_tail);
        }
    }
}

/// The bare 404 reply, as the bytes written.
pub open spec fn not_found_bytes() -> Seq<u8> {
    encode_utf8(simple_response_text(404, reason_text(404)))
}

/// What is written for the dispatches among `actions`, in order: the bare
/// 404 reply for each request that no route takes, and `chat` for each chat
/// exchange, which writes its own reply.
pub open spec fn replies_written(actions: Seq<ConnAction>, chat: Seq<u8>) -> Seq<u8>
    decreases actions.len(),
{
    if actions.len() == 0 {
        Seq::<u8>::empty()
    } else {
        let here = match actions[0] {
            ConnAction::Dispatch(Route::NotFound) => not_found_bytes(),
            ConnAction::Dispatch(Route::Chat) => chat,
            _ => Seq::<u8>::empty(),
        };
        here + replies_written(actions.drop_first(), chat)
    }
}

/// `n` copies of `b`, one after the other.
pub open spec fn repeated(b: Seq<u8>, n: nat) -> Seq<u8>
    decreases n,
{
    if n == 0 {
        Seq::<u8>::empty()
    } else {
        b + repeated(b, (n - 1) as nat)
    }
}

proof fn lemma_replies_append(a: Seq<ConnAction>, b: Seq<ConnAction>, chat: Seq<u8>)
    ensures
        replies_written(a + b, chat) == replies_written(a, chat) + replies_written(b, chat),
    decreases a.len(),
{
    if a.len() == 0 {
        assert(a + b =~= b);
    } else {
        lemma_replies_append(a.drop_first(), b, chat);
        assert((a + b).drop_first() =~= a.drop_first() + b);
        assert((a + b)[0] == a[0]);
    }
}

proof fn lemma_replies_of_reads(k: nat, chat: Seq<u8>)
    ensures
        replies_written(read_lines(k), chat) == Seq::<u8>::empty(),
    decreases k,
{
    if k > 0 {
        lemma_replies_of_reads((k - 1) as nat, chat);
        assert(read_lines(k).drop_first() =~= read_lines((k - 1) as nat));
    }
}

/// Serving a request that no route takes writes exactly one bare 404 reply.
proof fn lemma_replies_of_request(r: RequestText, chat: Seq<u8>)
    requires
        route_of(first_word(r.line), first_word(after_first_word(r.line))) == Route::NotFound,
    ensures
        replies_written(request_actions(r), chat) == not_found_bytes(),
{
    let k = r.headers.len();
    let last = if request_head(r).keep_alive {
        ConnAction::ReadLine
    } else {
        ConnAction::Close
    };
    let tail = seq![
        ConnAction::ReadBody(request_head(r).content_length as usize),
        ConnAction::Dispatch(Route::NotFound),
        last,
    ];
    assert(request_actions(r) =~= seq![ConnAction::ReadLine] + (read_lines(k) + tail));
    lemma_replies_append(seq![ConnAction::ReadLine], read_lines(k) + tail, chat);
    lemma_replies_append(read_lines(k), tail, chat);
    lemma_replies_of_reads(k, chat);
    let one = seq![ConnAction::ReadLine];
    assert(one.drop_first() =~= Seq::<ConnAction>::empty());
    assert(replies_written(Seq::<ConnAction>::empty(), chat) == Seq::<u8>::empty());
    assert(replies_written(one, chat) =~= Seq::<u8>::empty());
    assert(tail.drop_first().drop_first().drop_first() =~= Seq::<ConnAction>::empty());
    assert(replies_written(tail.drop_first().drop_first(), chat) =~= Seq::<u8>::empty());
    assert(replies_written(tail.drop_first(), chat) =~= not_found_bytes());
    assert(replies_written(tail, chat) =~= not_found_bytes());
}

proof fn lemma_replies_of_requests(rs: Seq<RequestText>, chat: Seq<u8>)
    requires
        forall|i: int|
            0 <= i < rs.len() ==> route_of(
                first_word(#[trigger] rs[i].line),
                first_word(after_first_word(rs[i].line)),
            ) == Route::NotFound,
    ensures
        replies_written(requests_actions(rs), chat) == repeated(not_found_bytes(), rs.len()),
    decreases rs.len(),
{
    if rs.len() > 0 {
        let tail = rs.drop_first();
        assert forall|i: int| 0 <= i < tail.len() implies route_of(
            first_word(#[trigger] tail[i].line),
            first_word(after_first_word(tail[i].line)),
        ) == Route::NotFound by {
            assert(tail[i] == rs[i + 1]);
        }
        lemma_replies_of_requests(tail, chat);
        lemma_replies_of_request(rs[0], chat);
        lemma_replies_append(request_actions(rs[0]), requests_actions(tail), chat);
    }
}

/// Requests that no route takes, sent one after another on a connection
/// that each of them but the last keeps, are answered with one bare 404
/// reply each, in order, and with nothing else, however the input ends.
pub proof fn law_unrouted_requests_get_one_404_each(rs: Seq<RequestText>, chat: Seq<u8>)
    requires
        forall|i: int| 0 <= i < rs.len() ==> well_formed_request(#[trigger] rs[i]),
        forall|i: int| 0 <= i < rs.len() - 1 ==> request_head(#[trigger] rs[i]).keep_alive,
        forall|i: int|
            0 <= i < rs.len() ==> route_of(
                first_word(#[trigger] rs[i].line),
                first_word(after_first_word(rs[i].line)),
            ) == Route::NotFound,
    ensures
        replies_written(
            run_conn(
                fresh_connection(),
                requests_events(rs) + seq![ConnEventModel::LineRead(None)],
            ).1,
            chat,
        ) == repeated(not_found_bytes(), rs.len()),
{
    law_requests_served_in_order(rs);
    let end = if rs.len() == 0 || request_head(rs.last()).keep_alive {
        seq![ConnAction::Close]
    } else {
        Seq::<ConnAction>::empty()
    };
    lemma_replies_append(requests_actions(rs), end, chat);
    lemma_replies_of_requests(rs, chat);
    if end.len() > 0 {
        assert(end.drop_first() =~= Seq::<ConnAction>::empty());
        assert(replies_written(Seq::<ConnAction>::empty(), chat) == Seq::<u8>::empty());
    }
    assert(replies_written(end, chat) =~= Seq::<u8>::empty());
    assert(repeated(not_found_bytes(), rs.len()) + Seq::<u8>::empty() =~= repeated(
        not_found_bytes(),
        rs.len(),
    ));
}

/// Whether `s` holds no line feed.
pub open spec fn no_line_feed(s: Seq<char>) -> bool {
    forall|k: int| 0 <= k < s.len() ==> #[trigger] s[k] != '\n'
}

proof fn lemma_no_lf_append(a: Seq<char>, b: Seq<char>)
    requires
        no_line_feed(a),
        no_line_feed(b),
    ensures
        no_line_feed(a + b),
{
    assert forall|k: int| 0 <= k < (a + b).len() implies #[trigger] (a + b)[k] != '\n' by {
        if k < a.len() {
            assert((a + b)[k] == a[k]);
        } else {
            assert((a + b)[k] == b[k - a.len()]);
        }
    }
}

proof fn lemma_one_line_after(a: Seq<char>, b: Seq<char>)
    requires
        no_line_feed(a),
        is_one_line(b),
    ensures
        is_one_line(a + b),
{
    assert((a + b).last() == b.last());
    assert forall|k: int| 0 <= k < (a + b).len() - 1 implies #[trigger] (a + b)[k] != '\n' by {
        if k < a.len() {
            assert((a + b)[k] == a[k]);
        } else {
            assert((a + b)[k] == b[k - a.len()]);
        }
    }
}

proof fn lemma_decimal_no_lf(n: nat)
    ensures
        no_line_feed(decimal(n)),
{
    lemma_radix_digits_value(n, 10);
    let d = decimal(n);
    assert forall|k: int| 0 <= k < d.len() implies #[trigger] d[k] != '\n' by {
        assert(all_digits(d, 10));
        assert(digit_value(d[k], 10) is Some);
    }
}

/// Whether lower-casing `l` gives a line that starts with neither
/// `content-length:` nor `connection:`, shown by its character at `i` and `j`.
proof fn lemma_other_header(h: RequestHeadModel, l: Seq<char>, i: int, j: int)
    requires
        0 <= i < 15,
        0 <= j < 11,
        i < l.len(),
        j < l.len(),
        lower(l)[i] != "content-length:"@[i],
        lower(l)[j] != "connection:"@[j],
    ensures
        apply_header(h, l) == h,
{
    reveal_strlit("content-length:");
    reveal_strlit("connection:");
    let m = lower(l);
    if "content-length:"@.is_prefix_of(m) {
        assert(m.subrange(0, 15)[i] == m[i]);
    }
    if "connection:"@.is_prefix_of(m) {
        assert(m.subrange(0, 11)[j] == m[j]);
    }
}

/// The lines of the head sent upstream, one by one.
spec fn upstream_head_lines(host: Seq<char>, port: u16, path: Seq<char>, body_len: nat) -> Seq<
    Seq<char>,
> {
    seq![
        "POST "@ + path + " HTTP/1.1\r\n"@,
        "Host: "@ + host + ":"@ + decimal(port as nat) + "\r\n"@,
        "Content-Type: application/json\r\n"@,
        "Content-Length: "@ + decimal(body_len) + "\r\n"@,
        "Connection: close\r\n"@,
        "\r\n"@,
    ]
}

proof fn lemma_upstream_head_is_its_lines(host: Seq<char>, port: u16, path: Seq<char>, body_len: nat)
    ensures
        ({
            let ls = upstream_head_lines(host, port, path, body_len);
            upstream_head_text(host, port, path, body_len) == ls[0] + (ls[1] + (ls[2] + (ls[3] + (
            ls[4] + (ls[5] + Seq::<char>::empty())))))
        }),
{
    reveal_strlit("POST ");
    reveal_strlit(" HTTP/1.1\r\nHost: ");
    reveal_strlit(":");
    reveal_strlit("\r\nContent-Type: application/json\r\nContent-Length: ");
    reveal_strlit("\r\nConnection: close\r\n\r\n");
    reveal_strlit(" HTTP/1.1\r\n");
    reveal_strlit("Host: ");
    reveal_strlit("\r\n");
    reveal_strlit("Content-Type: application/json\r\n");
    reveal_strlit("Content-Length: ");
    reveal_strlit("Connection: close\r\n");
    let ls = upstream_head_lines(host, port, path, body_len);
    assert(upstream_head_text(host, port, path, body_len) =~= ls[0] + (ls[1] + (ls[2] + (ls[3] + (
    ls[4] + (ls[5] + Seq::<char>::empty()))))));
}

proof fn lemma_upstream_lines_are_lines(host: Seq<char>, port: u16, path: Seq<char>, body_len: nat)
    requires
        no_line_feed(host),
        no_line_feed(path),
    ensures
        forall|i: int|
            0 <= i < 6 ==> is_one_line(#[trigger] upstream_head_lines(host, port, path, body_len)[i]),
{
    reveal_strlit("POST ");
    reveal_strlit(" HTTP/1.1\r\n");
    reveal_strlit("Host: ");
    reveal_strlit(":");
    reveal_strlit("\r\n");
    reveal_strlit("Content-Type: application/json\r\n");
    reveal_strlit("Content-Length: ");
    reveal_strlit("Connection: close\r\n");
    assert(no_line_feed("POST "@));
    assert(no_line_feed("Host: "@));
    assert(no_line_feed(":"@));
    assert(no_line_feed("Content-Length: "@));
    assert(is_one_line(" HTTP/1.1\r\n"@));
    assert(is_one_line("\r\n"@));
    assert(is_one_line("Content-Type: application/json\r\n"@));
    assert(is_one_line("Connection: close\r\n"@));
    lemma_decimal_no_lf(port as nat);
    lemma_decimal_no_lf(body_len);
    lemma_no_lf_append("POST "@, path);
    lemma_one_line_after("POST "@ + path, " HTTP/1.1\r\n"@);
    lemma_no_lf_append("Host: "@, host);
    lemma_no_lf_append("Host: "@ + host, ":"@);
    lemma_no_lf_append("Host: "@ + host + ":"@, decimal(port as nat));
    lemma_one_line_after("Host: "@ + host + ":"@ + decimal(port as nat), "\r\n"@);
    lemma_no_lf_append("Content-Length: "@, decimal(body_len));
    lemma_one_line_after("Content-Length: "@ + decimal(body_len), "\r\n"@);
}

proof fn lemma_upstream_headers_apply(host: Seq<char>, port: u16, path: Seq<char>, body_len: nat)
    requires
        body_len <= usize::MAX,
    ensures
        head_after(
            RequestHeadModel { content_length: 0, keep_alive: true },
            upstream_head_lines(host, port, path, body_len).subrange(1, 5),
        ) == (RequestHeadModel { content_length: body_len, keep_alive: false }),
{
    reveal_strlit("Host: ");
    reveal_strlit("Content-Type: application/json\r\n");
    reveal_strlit("Connection: close\r\n");
    reveal_strlit("Connection:");
    reveal_strlit("connection:");
    reveal_strlit("content-length:");
    reveal_strlit(" close\r\n");
    reveal_strlit("close\r\n");
    reveal_strlit("close\r");
    reveal_strlit("close");
    let ls = upstream_head_lines(host, port, path, body_len);
    let l1 = ls[1];
    let l2 = ls[2];
    let l3 = ls[3];
    let l4 = ls[4];
    let h0 = RequestHeadModel { content_length: 0, keep_alive: true };
    assert(l1[0] == 'H');
    assert(lower(l1)[0] == 'h');
    lemma_other_header(h0, l1, 0, 0);
    assert(lower(l2)[8] == 't');
    assert(lower(l2)[3] == 't');
    lemma_other_header(h0, l2, 8, 3);
    law_content_length_read_back(h0, body_len);
    let h3 = RequestHeadModel { content_length: body_len, keep_alive: true };
    let v = " close\r\n"@;
    assert(lower("Connection:"@) =~= "connection:"@);
    assert(lower(v) =~= v);
    reveal_with_fuel(trim_start, 2);
    reveal_with_fuel(trim_end, 3);
    assert(v.drop_first() =~= "close\r\n"@);
    assert(trim_start(v) == "close\r\n"@);
    assert("close\r\n"@.drop_last() =~= "close\r"@);
    assert("close\r"@.drop_last() =~= "close"@);
    assert(trim_end("close\r\n"@) == trim_end("close"@));
    assert(trim(lower(v)) == "close"@);
    assert("Connection:"@ + v =~= l4);
    law_connection_close_in_any_case(h3, "Connection:"@, v);
    let hs = ls.subrange(1, 5);
    assert(hs =~= seq![l1, l2, l3, l4]);
    assert(hs.drop_first() =~= seq![l2, l3, l4]);
    assert(seq![l2, l3, l4].drop_first() =~= seq![l3, l4]);
    assert(seq![l3, l4].drop_first() =~= seq![l4]);
    assert(seq![l4].drop_first() =~= Seq::<Seq<char>>::empty());
    let fin = RequestHeadModel { content_length: body_len, keep_alive: false };
    assert(head_after(fin, Seq::<Seq<char>>::empty()) == fin);
    assert(head_after(h3, seq![l4]) == fin);
    assert(head_after(h0, seq![l3, l4]) == fin);
    assert(head_after(h0, seq![l2, l3, l4]) == fin);
    assert(head_after(h0, hs) == fin);
}

/// The head sent upstream reads back, line by line, as a request that
/// announces exactly its body length and closes the connection: split into
/// lines as they are read, it is a request line, four header lines, and the
/// empty line, and the request logic takes the header lines to announce
/// `body_len` bytes without keep-alive.
pub proof fn law_upstream_head_read_back(
    host: Seq<char>,
    port: u16,
    path: Seq<char>,
    body_len: nat,
)
    requires
        no_line_feed(host),
        no_line_feed(path),
        body_len <= usize::MAX,
    ensures
        ({
            let ls = split_lines(upstream_head_text(host, port, path, body_len));
            &&& ls.len() == 6
            &&& forall|i: int| 0 <= i < 5 ==> !is_blank_line(#[trigger] ls[i])
            &&& is_blank_line(ls[5])
            &&& head_after(
                RequestHeadModel { content_length: 0, keep_alive: true },
                ls.subrange(1, 5),
            ) == (RequestHeadModel { content_length: body_len, keep_alive: false })
        }),
{
    let xs = upstream_head_lines(host, port, path, body_len);
    lemma_upstream_head_is_its_lines(host, port, path, body_len);
    lemma_upstream_lines_are_lines(host, port, path, body_len);
    lemma_upstream_headers_apply(host, port, path, body_len);
    let e = Seq::<char>::empty();
    assert(is_one_line(xs[5]));
    assert(is_one_line(xs[4]));
    assert(is_one_line(xs[3]));
    assert(is_one_line(xs[2]));
    assert(is_one_line(xs[1]));
    assert(is_one_line(xs[0]));
    lemma_split_line(xs[5], e);
    lemma_split_line(xs[4], xs[5] + e);
    lemma_split_line(xs[3], xs[4] + (xs[5] + e));
    lemma_split_line(xs[2], xs[3] + (xs[4] + (xs[5] + e)));
    lemma_split_line(xs[1], xs[2] + (xs[3] + (xs[4] + (xs[5] + e))));
    lemma_split_line(xs[0], xs[1] + (xs[2] + (xs[3] + (xs[4] + (xs[5] + e)))));
    assert(split_lines(e) =~= Seq::<Seq<char>>::empty());
    let ls = split_lines(upstream_head_text(host, port, path, body_len));
    assert(ls =~= xs);
    reveal_strlit("\r\n");
    reveal_strlit("POST ");
    reveal_strlit(" HTTP/1.1\r\n");
    reveal_strlit("Host: ");
    reveal_strlit("Content-Length: ");
    reveal_strlit("Content-Type: application/json\r\n");
    reveal_strlit("Connection: close\r\n");
    assert(xs[0].len() > 2 && xs[1].len() > 2 && xs[2].len() > 2 && xs[3].len() > 2 && xs[4].len()
        > 2);
    assert(is_blank_line(xs[5]));
    reveal_strlit("\n");
    assert forall|i: int| 0 <= i < 5 implies !is_blank_line(#[trigger] ls[i]) by {
        assert(ls[i].len() > 2);
    }
    assert(ls.subrange(1, 5) == xs.subrange(1, 5));
}

} // verus!
