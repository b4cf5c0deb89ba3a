//! The heads that the server writes (a bare status reply, the event-stream
//! reply, the request to the upstream) and the reading of the upstream's
//! reply head.
use vstd::prelude::*;
use crate::numeral::{decimal, digit_char, push_radix, radix_digits};
use crate::request::is_blank_line;
use crate::request::blank_line;
use crate::text::{
    after_first_word, chars_of, contains, contains_seq, occurs_at, first_word, is_ws, lower, lower_chars,
    starts_with, trim_start, word_len, lemma_lower_idempotent, lemma_lower_append,
};
use crate::url::Upstream;

verus! {

/// `HTTP/1.1 {code} {reason}` with an empty body.
pub open spec fn simple_response_text(code: u16, reason: Seq<char>) -> Seq<char> {
    "HTTP/1.1 "@ + decimal(code as nat) + " "@ + reason + "\r\nContent-Length: 0\r\n\r\n"@
}

/// The head of a reply with a status, a reason and no body.
pub fn simple_response(code: u16, reason: &str) -> (s: String)
    ensures
        s@ == simple_response_text(code, reason@),
{
    let mut s = String::from_str("HTTP/1.1 ");
    push_radix(&mut s, code as u64, 10);
    s.append(" ");
    s.append(reason);
    s.append("\r\nContent-Length: 0\r\n\r\n");
    s
}

/// The reason phrase for the statuses that the server answers with a bare
/// reply, empty for any other code.
pub open spec fn reason_text(code: u16) -> Seq<char> {
    if code == 400 {
        "Bad Request"@
    } else if code == 404 {
        "Not Found"@
    } else if code == 502 {
        "Bad Gateway"@
    } else {
        ""@
    }
}

/// The reason phrase that goes with a bare reply of status `code`.
pub fn reason_phrase(code: u16) -> (r: &'static str)
    ensures
        r@ == reason_text(code),
{
    if code == 400 {
        "Bad Request"
    } else if code == 404 {
        "Not Found"
    } else if code == 502 {
        "Bad Gateway"
    } else {
        ""
    }
}

/// The head of the event-stream reply, with the thread's id when there is one.
pub open spec fn stream_head_text(thread_id: Option<Seq<char>>) -> Seq<char> {
    "HTTP/1.1 200 OK\r\nContent-Type: text/event-stream\r\nCache-Control: no-cache\r\nTransfer-Encoding: chunked\r\n"@
        + match thread_id {
        Some(t) => "X-Thread-Id: "@ + t + "\r\n"@,
        None => Seq::<char>::empty(),
    } + "\r\n"@
}

/// The head of the streamed reply to a chat request.
pub fn stream_head(thread_id: Option<&str>) -> (s: String)
    ensures
        s@ == stream_head_text(
            match thread_id {
                Some(t) => Some(t@),
                None => None,
            },
        ),
{
    let mut s = String::from_str(
        "HTTP/1.1 200 OK\r\nContent-Type: text/event-stream\r\nCache-Control: no-cache\r\nTransfer-Encoding: chunked\r\n",
    );
    match thread_id {
        Some(t) => {
            s.append("X-Thread-Id: ");
            s.append(t);
            s.append("\r\n");
        },
        None => {},
    }
    s.append("\r\n");
    s
}

/// The head of the request that carries a payload of `body_len` bytes to the upstream.
pub open spec fn upstream_head_text(
    host: Seq<char>,
    port: u16,
    path: Seq<char>,
    body_len: nat,
) -> Seq<char> {
    "POST "@ + path + " HTTP/1.1\r\nHost: "@ + host + ":"@ + decimal(port as nat)
        + "\r\nContent-Type: application/json\r\nContent-Length: "@ + decimal(body_len)
        + "\r\nConnection: close\r\n\r\n"@
}

/// The head of the `POST` that forwards a chat to the upstream.
pub fn upstream_request_head(up: &Upstream, body_len: usize) -> (s: String)
    ensures
        s@ == upstream_head_text(up.host@, up.port, up.path@, body_len as nat),
{
    let mut s = String::from_str("POST ");
    s.append(up.path.as_str());
    s.append(" HTTP/1.1\r\nHost: ");
    s.append(up.host.as_str());
    s.append(":");
    push_radix(&mut s, up.port as u64, 10);
    s.append("\r\nContent-Type: application/json\r\nContent-Length: ");
    push_radix(&mut s, body_len as u64, 10);
    s.append("\r\nConnection: close\r\n\r\n");
    s
}

proof fn lemma_word_then_space(w: Seq<char>, rest: Seq<char>)
    requires
        forall|k: int| 0 <= k < w.len() ==> !is_ws(#[trigger] w[k]),
        rest.len() > 0,
        is_ws(rest[0]),
    ensures
        word_len(w + rest) == w.len(),
    decreases w.len(),
{
    if w.len() == 0 {
        assert(w + rest == rest);
    } else {
        assert((w + rest).drop_first() == w.drop_first() + rest);
        assert forall|k: int| 0 <= k < w.drop_first().len() implies !is_ws(
            #[trigger] w.drop_first()[k],
        ) by {
            assert(w.drop_first()[k] == w[k + 1]);
        }
        lemma_word_then_space(w.drop_first(), rest);
    }
}

/// The request line that the server writes upstream is read by the server's
/// own request-line logic as a `POST` to the same path, whenever the path is
/// a single word.
pub proof fn law_upstream_request_line_read_back(
    host: Seq<char>,
    port: u16,
    path: Seq<char>,
    body_len: nat,
)
    requires
        path.len() > 0,
        forall|k: int| 0 <= k < path.len() ==> !is_ws(#[trigger] path[k]),
    ensures
        first_word(upstream_head_text(host, port, path, body_len)) == "POST"@,
        first_word(after_first_word(upstream_head_text(host, port, path, body_len))) == path,
{
    reveal_strlit("POST ");
    reveal_strlit("POST");
    reveal_strlit(" HTTP/1.1\r\nHost: ");
    let tail = " HTTP/1.1\r\nHost: "@ + host + ":"@ + decimal(port as nat)
        + "\r\nContent-Type: application/json\r\nContent-Length: "@ + decimal(body_len)
        + "\r\nConnection: close\r\n\r\n"@;
    let head = upstream_head_text(host, port, path, body_len);
    assert(head =~= "POST "@ + path + tail);
    let post = "POST"@;
    assert(tail[0] == ' ');
    // the first word is POST
    assert(head[0] == 'P');
    assert(trim_start(head) == head);
    let after_post = seq![' '] + path + tail;
    assert(head =~= post + after_post);
    assert forall|k: int| 0 <= k < post.len() implies !is_ws(#[trigger] post[k]) by {}
    lemma_word_then_space(post, after_post);
    assert(head.take(4) =~= post);
    // then comes the path
    assert(head.skip(4) =~= after_post);
    assert(after_post.drop_first() =~= path + tail);
    assert(trim_start(after_post) == trim_start(path + tail));
    assert((path + tail)[0] == path[0]);
    assert(trim_start(path + tail) == path + tail);
    lemma_word_then_space(path, tail);
    assert((path + tail).take(path.len() as int) =~= path);
}

/// Whether the upstream's status line reports success: it holds ` 200 `.
pub fn status_line_ok(line: &str) -> (ok: bool)
    ensures
        ok == contains_seq(line@, " 200 "@),
{
    contains(&chars_of(line), &chars_of(" 200 "))
}

/// Whether a status code is a success (2xx), as `StatusCode::is_success` decides it.
pub fn is_success(code: u16) -> (ok: bool)
    ensures
        ok == (200 <= code < 300),
{
    200 <= code && code < 300
}

/// Whether a header line of the upstream's reply announces a chunked body:
/// it starts with `transfer-encoding:` and holds `chunked`, without regard to ASCII case.
pub open spec fn announces_chunked(line: Seq<char>) -> bool {
    "transfer-encoding:"@.is_prefix_of(lower(line)) && contains_seq(lower(line), "chunked"@)
}

/// What the server keeps from the head of the upstream's reply.
pub struct ReplyHead {
    /// Whether the body comes in chunked transfer coding.
    pub chunked: bool,
}

impl ReplyHead {
    /// The state before any header line.
    pub fn new() -> (h: ReplyHead)
        ensures
            !h.chunked,
    {
        ReplyHead { chunked: false }
    }

    /// Takes the next header line of the upstream's reply, as read with its
    /// line ending. Returns `true` when the line ends the head and leaves the
    /// state as it was; otherwise notes a chunked transfer coding.
    pub fn header_line(&mut self, line: &str) -> (end: bool)
        ensures
            end == is_blank_line(line@),
            end ==> final(self).chunked == old(self).chunked,
            !end ==> final(self).chunked == (old(self).chunked || announces_chunked(line@)),
    {
        if blank_line(line) {
            return true;
        }
        let l = lower_chars(&chars_of(line));
        if starts_with(&l, &chars_of("transfer-encoding:")) && contains(&l, &chars_of("chunked")) {
            self.chunked = true;
        }
        false
    }
}

/// The status line of a reply with `code` and `reason`, as a server writes it.
pub open spec fn status_line_text(code: u16, reason: Seq<char>) -> Seq<char> {
    "HTTP/1.1 "@ + decimal(code as nat) + " "@ + reason + "\r\n"@
}

/// Whether `c` is an ASCII digit.
pub open spec fn is_ascii_digit(c: char) -> bool {
    '0' <= c <= '9'
}

/// The digits of a three-digit code.
proof fn lemma_three_digits(code: nat)
    requires
        100 <= code <= 999,
    ensures
        decimal(code) == seq![
            digit_char(code / 100),
            digit_char((code / 10) % 10),
            digit_char(code % 10),
        ],
        decimal(code) == "200"@ <==> code == 200,
{
    reveal_with_fuel(radix_digits, 3);
    reveal_strlit("200");
    assert((code / 10) / 10 == code / 100);
    assert(decimal(code) =~= seq![
        digit_char(code / 100),
        digit_char((code / 10) % 10),
        digit_char(code % 10),
    ]);
    if decimal(code) == "200"@ {
        assert(decimal(code)[0] == '2');
        assert(decimal(code)[1] == '0');
        assert(decimal(code)[2] == '0');
        assert(code / 100 == 2);
        assert((code / 10) % 10 == 0);
        assert(code % 10 == 0);
        assert(code == 100 * (code / 100) + 10 * ((code / 10) % 10) + code % 10) by (nonlinear_arith);
    }
    if code == 200 {
        assert(decimal(code) =~= "200"@);
    }
}

/// The two tests by which the servers decide that the upstream answered with
/// success agree on a three-digit status whose reason holds no digit: the
/// line holds ` 200 ` exactly when the code is 200, so a 200 passes both
/// tests and a code outside 2xx fails both.
pub proof fn law_success_tests_agree(code: u16, reason: Seq<char>)
    requires
        100 <= code <= 999,
        forall|k: int| 0 <= k < reason.len() ==> !is_ascii_digit(#[trigger] reason[k]),
    ensures
        contains_seq(status_line_text(code, reason), " 200 "@) <==> code == 200,
        code == 200 || !(200 <= code < 300) ==> (contains_seq(
            status_line_text(code, reason),
            " 200 "@,
        ) <==> 200 <= code < 300),
{
    reveal_strlit("HTTP/1.1 ");
    reveal_strlit(" ");
    reveal_strlit("\r\n");
    reveal_strlit(" 200 ");
    reveal_strlit("200");
    lemma_three_digits(code as nat);
    let d = decimal(code as nat);
    let line = status_line_text(code, reason);
    let p = " 200 "@;
    assert(line.len() == 15 + reason.len());
    assert forall|k: int| 0 <= k < line.len() && is_ascii_digit(#[trigger] line[k]) implies k == 5
        || k == 7 || (9 <= k <= 11) by {
        if 12 < k < 13 + reason.len() {
            assert(line[k] == reason[k - 13]);
        }
    }
    if code == 200 {
        assert(line.subrange(8, 13) =~= p);
        assert(occurs_at(line, p, 8));
    }
    if contains_seq(line, p) {
        let i = choose|i: int| occurs_at(line, p, i);
        assert(occurs_at(line, p, i));
        assert(line.subrange(i, i + 5) == p);
        assert(line[i + 1] == p[1]);
        assert(line[i + 2] == p[2]);
        assert(line[i + 3] == p[3]);
        assert(is_ascii_digit(line[i + 1]));
        assert(is_ascii_digit(line[i + 2]));
        assert(is_ascii_digit(line[i + 3]));
        assert(i == 8);
        assert(d =~= line.subrange(9, 12));
        assert(line.subrange(9, 12) =~= "200"@);
    }
}

/// Whether a header line of the upstream's reply announces a chunked body
/// does not depend on the ASCII case of the line.
pub proof fn law_chunked_ignores_case(line: Seq<char>)
    ensures
        announces_chunked(line) == announces_chunked(lower(line)),
{
    lemma_lower_idempotent(line);
}

/// A `Transfer-Encoding:` header in any case, whose value holds `chunked` in
/// any case, announces a chunked body; and a line announces one only when,
/// in lower case, it starts with `transfer-encoding:` and holds `chunked`.
pub proof fn law_chunked_header_in_any_case(name: Seq<char>, value: Seq<char>, line: Seq<char>)
    requires
        lower(name) == "transfer-encoding:"@,
        contains_seq(lower(value), "chunked"@),
    ensures
        announces_chunked(name + value),
        announces_chunked(line) ==> "transfer-encoding:"@.is_prefix_of(lower(line))
            && contains_seq(lower(line), "chunked"@),
{
    reveal_strlit("transfer-encoding:");
    let pre = "transfer-encoding:"@;
    let p = "chunked"@;
    lemma_lower_append(name, value);
    let l = lower(name + value);
    assert(l == pre + lower(value));
    assert(l.subrange(0, pre.len() as int) =~= pre);
    let i = choose|i: int| occurs_at(lower(value), p, i);
    assert(occurs_at(lower(value), p, i));
    assert(l.subrange(i + pre.len(), i + pre.len() + p.len()) =~= lower(value).subrange(
        i,
        i + p.len(),
    ));
    assert(occurs_at(l, p, i + pre.len()));
}

/// The head of the event-stream reply for a thread is the head without one,
/// with the line `X-Thread-Id: {thread}` added before the empty line that
/// ends it.
pub proof fn law_stream_head_names_thread(thread: Seq<char>)
    ensures
        stream_head_text(Some(thread)) == stream_head_text(None).drop_last().drop_last()
            + "X-Thread-Id: "@ + thread + "\r\n\r\n"@,
{
    reveal_strlit("\r\n");
    reveal_strlit("\r\n\r\n");
    let fixed = "HTTP/1.1 200 OK\r\nContent-Type: text/event-stream\r\nCache-Control: no-cache\r\nTransfer-Encoding: chunked\r\n"@;
    assert(stream_head_text(None) =~= fixed + "\r\n"@);
    assert(stream_head_text(None).drop_last().drop_last() =~= fixed);
    assert(stream_head_text(Some(thread)) =~= fixed + "X-Thread-Id: "@ + thread + "\r\n\r\n"@);
}

} // verus!
