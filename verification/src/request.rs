//! Reading an HTTP/1.1 request head line by line: the request line, the
//! header lines that the server heeds (`Content-Length`, `Connection`), and
//! where the request is routed.
use vstd::prelude::*;
use crate::numeral::{parse_unsigned, parse_unsigned_chars, decimal, lemma_radix_digits_value, all_digits, digit_value};
use crate::text::{
    after_first_word, chars_of, first_word, lower, lower_chars, next_word,
    same_chars, starts_with, string_of, sub_chars, trim, trim_chars, trim_end, trim_start,
    lemma_lower_idempotent, lemma_lower_append,
};

verus! {

/// Whether `line`, as read with its line ending, is the empty line that ends a head.
pub open spec fn is_blank_line(line: Seq<char>) -> bool {
    line == "\r\n"@ || line == "\n"@
}

/// Whether the line is the empty line that ends a head.
pub fn blank_line(line: &str) -> (b: bool)
    ensures
        b == is_blank_line(line@),
{
    let cs = chars_of(line);
    same_chars(&cs, &chars_of("\r\n")) || same_chars(&cs, &chars_of("\n"))
}

/// The method and the target of a request line: its first and second
/// whitespace-separated words, each empty when missing.
pub fn parse_request_line(line: &str) -> (r: (String, String))
    ensures
        r.0@ == first_word(line@),
        r.1@ == first_word(after_first_word(line@)),
{
    let cs = chars_of(line);
    assert(cs@.skip(0) == cs@);
    let (a, b) = next_word(&cs, 0);
    let (c, d) = next_word(&cs, b);
    (string_of(&sub_chars(&cs, a, b)), string_of(&sub_chars(&cs, c, d)))
}

/// What the server keeps from the header lines of a request.
pub struct RequestHead {
    /// The number of body bytes to read after the head.
    pub content_length: usize,
    /// Whether the connection stays open for the next request.
    pub keep_alive: bool,
}

/// A request head as values.
pub struct RequestHeadModel {
    pub content_length: nat,
    pub keep_alive: bool,
}

impl View for RequestHead {
    type V = RequestHeadModel;

    open spec fn view(&self) -> RequestHeadModel {
        RequestHeadModel { content_length: self.content_length as nat, keep_alive: self.keep_alive }
    }
}

/// The length that a `Content-Length` value names: the trimmed decimal number
/// when it fits in `usize`, else 0.
pub open spec fn content_length_of(value: Seq<char>) -> nat {
    match parse_unsigned(trim(value), 10, usize::MAX as nat) {
        Some(n) => n,
        None => 0,
    }
}

/// The effect of one (non-empty) header line, matched without regard to
/// ASCII case: `content-length:` sets the body length, `connection:` with the
/// value `close` ends keep-alive; every other line changes nothing.
pub open spec fn apply_header(h: RequestHeadModel, line: Seq<char>) -> RequestHeadModel {
    let l = lower(line);
    if "content-length:"@.is_prefix_of(l) {
        RequestHeadModel {
            content_length: content_length_of(l.skip("content-length:"@.len() as int)),
            ..h
        }
    } else if "connection:"@.is_prefix_of(l) {
        if trim(l.skip("connection:"@.len() as int)) == "close"@ {
            RequestHeadModel { keep_alive: false, ..h }
        } else {
            h
        }
    } else {
        h
    }
}

impl RequestHead {
    /// The state before any header line: no body, keep-alive.
    pub fn new() -> (h: RequestHead)
        ensures
            h.content_length == 0,
            h.keep_alive,
    {
        RequestHead { content_length: 0, keep_alive: true }
    }

    /// Takes the next line of the head, as read with its line ending.
    /// Returns `true` when the line is the empty line that ends the head,
    /// and leaves the state as it was; otherwise applies the header line.
    pub fn header_line(&mut self, line: &str) -> (end: bool)
        ensures
            end == is_blank_line(line@),
            end ==> final(self)@ == old(self)@,
            !end ==> final(self)@ == apply_header(old(self)@, line@),
            !old(self).keep_alive ==> !final(self).keep_alive,
    {
        if blank_line(line) {
            return true;
        }
        let l = lower_chars(&chars_of(line));
        let cl = chars_of("content-length:");
        let conn = chars_of("connection:");
        if starts_with(&l, &cl) {
            let value = trim_chars(&sub_chars(&l, cl.len(), l.len()));
            self.content_length =
                match parse_unsigned_chars(&value, 10, usize::MAX as u64) {
                    Some(n) => n as usize,
                    None => 0,
                };
        } else if starts_with(&l, &conn) {
            let value = trim_chars(&sub_chars(&l, conn.len(), l.len()));
            if same_chars(&value, &chars_of("close")) {
                self.keep_alive = false;
            }
        }
        false
    }
}

/// The `Content-Length` header line that announces `n` body bytes, as the
/// server writes it, is read back as `n` by the header logic.
pub proof fn law_content_length_read_back(h: RequestHeadModel, n: nat)
    requires
        n <= usize::MAX,
    ensures
        apply_header(h, "Content-Length: "@ + decimal(n) + "\r\n"@) == (RequestHeadModel {
            content_length: n,
            ..h
        }),
{
    reveal_strlit("Content-Length: ");
    reveal_strlit("content-length: ");
    reveal_strlit("content-length:");
    reveal_strlit("\r\n");
    let digits = decimal(n);
    lemma_radix_digits_value(n, 10);
    assert forall|k: int| 0 <= k < digits.len() implies 48 <= #[trigger] digits[k] as u32 <= 57 by {
        assert(all_digits(digits, 10));
        assert(digit_value(digits[k], 10) is Some);
    }
    let line = "Content-Length: "@ + digits + "\r\n"@;
    let l = lower(line);
    assert(lower("Content-Length: "@) =~= "content-length: "@);
    assert(lower(digits) =~= digits);
    assert(lower("\r\n"@) =~= "\r\n"@);
    assert(l =~= "content-length: "@ + digits + "\r\n"@);
    assert("content-length:"@.is_prefix_of(l));
    let v = l.skip(15);
    let core = digits;
    assert(v =~= seq![' '] + core + "\r\n"@);
    assert(v.drop_first() =~= core + "\r\n"@);
    assert(trim_start(v) == trim_start(v.drop_first()));
    let w = core + "\r\n"@;
    assert(w[0] == core[0]);
    assert(trim_start(w) == w);
    assert(w.drop_last().drop_last() =~= core);
    assert(trim_end(w) == trim_end(w.drop_last()));
    assert(trim_end(w.drop_last()) == trim_end(core));
    assert(core.last() == core[core.len() - 1]);
    assert(trim_end(core) == core);
    assert(trim(v) == core);
    assert(core[0] != '+');
}

/// A header line is taken without regard to the ASCII case of its letters.
pub proof fn law_header_ignores_case(h: RequestHeadModel, line: Seq<char>)
    ensures
        apply_header(h, line) == apply_header(h, lower(line)),
{
    lemma_lower_idempotent(line);
}

/// A `Connection:` header in any case whose value trims to `close` in any
/// case ends keep-alive and changes nothing else.
pub proof fn law_connection_close_in_any_case(h: RequestHeadModel, name: Seq<char>, value: Seq<char>)
    requires
        lower(name) == "connection:"@,
        trim(lower(value)) == "close"@,
    ensures
        apply_header(h, name + value) == (RequestHeadModel { keep_alive: false, ..h }),
{
    reveal_strlit("connection:");
    reveal_strlit("content-length:");
    lemma_lower_append(name, value);
    let l = lower(name + value);
    let pre = "connection:"@;
    assert(l == pre + lower(value));
    assert(l[3] == 'n');
    assert(!"content-length:"@.is_prefix_of(l)) by {
        if "content-length:"@.is_prefix_of(l) {
            assert(l.subrange(0, 15)[3] == "content-length:"@[3]);
        }
    }
    assert(l.subrange(0, pre.len() as int) =~= pre);
    assert(l.skip(pre.len() as int) =~= lower(value));
}

/// A `Content-Length:` header in any case sets the body length to the number
/// its value names and changes nothing else.
pub proof fn law_content_length_in_any_case(h: RequestHeadModel, name: Seq<char>, value: Seq<char>)
    requires
        lower(name) == "content-length:"@,
    ensures
        apply_header(h, name + value) == (RequestHeadModel {
            content_length: content_length_of(lower(value)),
            ..h
        }),
{
    reveal_strlit("content-length:");
    lemma_lower_append(name, value);
    let l = lower(name + value);
    let pre = "content-length:"@;
    assert(l == pre + lower(value));
    assert(l.subrange(0, pre.len() as int) =~= pre);
    assert(l.skip(pre.len() as int) =~= lower(value));
}

/// Where a request goes.
#[derive(PartialEq, Eq, Structural, Debug, Clone, Copy)]
pub enum Route {
    /// `POST /chat`: the chat exchange.
    Chat,
    /// Anything else: answered 404.
    NotFound,
}

/// Where a request with this method and target goes.
pub open spec fn route_of(method: Seq<char>, path: Seq<char>) -> Route {
    if method == "POST"@ && path == "/chat"@ {
        Route::Chat
    } else {
        Route::NotFound
    }
}

/// Routes a request by its method and target.
pub fn route(method: &str, path: &str) -> (r: Route)
    ensures
        r == route_of(method@, path@),
{
    if same_chars(&chars_of(method), &chars_of("POST")) && same_chars(
        &chars_of(path),
        &chars_of("/chat"),
    ) {
        Route::Chat
    } else {
        Route::NotFound
    }
}

} // verus!
