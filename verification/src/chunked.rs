//! Chunked transfer coding: the frame written around each piece of the
//! streamed reply, and the reading of the upstream's chunk-size lines.
use vstd::prelude::*;
use crate::numeral::{hex, hex_string, parse_unsigned, parse_unsigned_chars, lemma_radix_digits_value, all_digits, digit_value};
use crate::response::stream_head_text;
use crate::text::{chars_of, find_first, sub_chars, trim, trim_chars, trim_start, trim_end, is_ws};
use vstd::utf8::{decode_utf8, encode_utf8, valid_utf8, is_ascii_chars, is_ascii_chars_encode_utf8, encode_utf8_valid_utf8, encode_utf8_decode_utf8};

verus! {

/// The bytes of an ASCII text.
pub open spec fn ascii_bytes(s: Seq<char>) -> Seq<u8> {
    s.map_values(|c: char| c as u8)
}

/// The line that opens a chunk of `n` bytes: its size in lower-case hex and CRLF.
pub open spec fn size_line(n: nat) -> Seq<char> {
    hex(n) + "\r\n"@
}

/// The frame of one chunk: its size line, the data, CRLF.
pub open spec fn chunk_frame_bytes(data: Seq<u8>) -> Seq<u8> {
    ascii_bytes(size_line(data.len())) + data + seq![13u8, 10u8]
}

/// The bytes that close a chunked body: the zero-size chunk and the empty trailer.
pub open spec fn last_chunk_bytes() -> Seq<u8> {
    seq![48u8, 13u8, 10u8, 13u8, 10u8]
}

/// Frames `data` as one chunk of a chunked body.
pub fn chunk_frame(data: &[u8]) -> (f: Vec<u8>)
    ensures
        f@ == chunk_frame_bytes(data@),
{
    let mut line = chars_of(hex_string(data.len() as u64).as_str());
    line.push('\r');
    line.push('\n');
    proof {
        reveal_strlit("\r\n");
        assert(line@ == size_line(data@.len()));
    }
    let mut f: Vec<u8> = Vec::new();
    let mut i: usize = 0;
    while i < line.len()
        invariant
            i <= line.len(),
            f@ == ascii_bytes(line@.take(i as int)),
        decreases line.len() - i,
    {
        f.push(line[i] as u8);
        assert(line@.take(i + 1) == line@.take(i as int).push(line@[i as int]));
        i = i + 1;
    }
    assert(line@.take(line.len() as int) == line@);
    let mut j: usize = 0;
    while j < data.len()
        invariant
            j <= data.len(),
            f@ == ascii_bytes(line@) + data@.take(j as int),
        decreases data.len() - j,
    {
        f.push(data[j]);
        assert(data@.take(j + 1) == data@.take(j as int).push(data@[j as int]));
        j = j + 1;
    }
    assert(data@.take(data.len() as int) == data@);
    f.push(13u8);
    f.push(10u8);
    f
}

/// The bytes that close a chunked body.
pub fn last_chunk() -> (f: Vec<u8>)
    ensures
        f@ == last_chunk_bytes(),
{
    let mut f: Vec<u8> = Vec::new();
    f.push(48u8);
    f.push(13u8);
    f.push(10u8);
    f.push(13u8);
    f.push(10u8);
    f
}

/// `line` up to its first `;`, which starts the chunk extensions.
pub open spec fn before_extensions(line: Seq<char>) -> Seq<char> {
    match line.index_of_first(';') {
        Some(i) => line.take(i),
        None => line,
    }
}

/// The size that a chunk-size line names: the hex number before any
/// extension, trimmed, when it fits in `usize`; 0 otherwise.
pub open spec fn chunk_size_of(line: Seq<char>) -> nat {
    match parse_unsigned(trim(before_extensions(line)), 16, usize::MAX as nat) {
        Some(n) => n,
        None => 0,
    }
}

/// The size that a chunk-size line of the upstream's reply names.
pub fn chunk_size(line: &str) -> (n: usize)
    ensures
        n as nat == chunk_size_of(line@),
{
    let cs = chars_of(line);
    let head = match find_first(&cs, ';') {
        Some(i) => sub_chars(&cs, 0, i),
        None => cs,
    };
    let digits = trim_chars(&head);
    match parse_unsigned_chars(&digits, 16, usize::MAX as u64) {
        Some(n) => n as usize,
        None => 0,
    }
}

/// What to do after reading a chunk-size line.
#[derive(PartialEq, Eq, Structural, Debug, Clone, Copy)]
pub enum ChunkStep {
    /// The upstream closed the connection: the body is over.
    Stop,
    /// The last chunk: read the trailer line, then the body is over.
    ReadTrailerThenStop,
    /// Read this many bytes of data and then the CRLF that follows them,
    /// and forward the data.
    ReadChunk(usize),
}

/// The step that follows a chunk-size line (`None` at the end of the input).
pub open spec fn chunk_step_of(line: Option<Seq<char>>) -> ChunkStep {
    match line {
        None => ChunkStep::Stop,
        Some(l) => if chunk_size_of(l) == 0 {
            ChunkStep::ReadTrailerThenStop
        } else {
            ChunkStep::ReadChunk(chunk_size_of(l) as usize)
        },
    }
}

/// Decides the next step of reading a chunked body from the size line just
/// read, or from `None` when the input has ended.
pub fn next_chunk(line: Option<&str>) -> (s: ChunkStep)
    ensures
        s == chunk_step_of(
            match line {
                Some(l) => Some(l@),
                None => None,
            },
        ),
{
    match line {
        None => ChunkStep::Stop,
        Some(l) => {
            let n = chunk_size(l);
            if n == 0 {
                ChunkStep::ReadTrailerThenStop
            } else {
                ChunkStep::ReadChunk(n)
            }
        },
    }
}

proof fn lemma_hex_digits_plain(n: nat)
    ensures
        forall|k: int|
            0 <= k < hex(n).len() ==> #[trigger] hex(n)[k] != ';' && !is_ws(hex(n)[k]),
        hex(n).len() > 0,
{
    lemma_radix_digits_value(n, 16);
    assert forall|k: int| 0 <= k < hex(n).len() implies #[trigger] hex(n)[k] != ';' && !is_ws(
        hex(n)[k],
    ) by {
        assert(all_digits(hex(n), 16));
        assert(digit_value(hex(n)[k], 16) is Some);
    }
}

/// What `chunk_frame` writes, reading a chunked body takes back: the frame of
/// `data` is its size line, the data and CRLF, and that size line makes the
/// reader read exactly `data.len()` bytes (or, for empty data, end the body).
pub proof fn law_chunk_frame_read_back(data: Seq<u8>)
    requires
        data.len() <= usize::MAX,
    ensures
        chunk_frame_bytes(data) == ascii_bytes(size_line(data.len())) + data + seq![13u8, 10u8],
        chunk_size_of(size_line(data.len())) == data.len(),
        chunk_step_of(Some(size_line(data.len()))) == (if data.len() == 0 {
            ChunkStep::ReadTrailerThenStop
        } else {
            ChunkStep::ReadChunk(data.len() as usize)
        }),
{
    law_size_line_read_back(data.len());
}

/// The size line written for `n` is read back as `n`.
pub proof fn law_size_line_read_back(n: nat)
    requires
        n <= usize::MAX,
    ensures
        chunk_size_of(size_line(n)) == n,
{
    reveal_strlit("\r\n");
    let h = hex(n);
    let l = size_line(n);
    lemma_hex_digits_plain(n);
    lemma_radix_digits_value(n, 16);
    // no ';' in the line
    l.index_of_first_ensures(';');
    assert(!l.contains(';')) by {
        if l.contains(';') {
            let k = choose|k: int| 0 <= k < l.len() && l[k] == ';';
            if k < h.len() {
                assert(l[k] == h[k]);
            }
        }
    }
    assert(before_extensions(l) == l);
    // trimming removes the CRLF and nothing else
    assert(l[0] == h[0]);
    assert(trim_start(l) == l);
    assert(l.drop_last().drop_last() =~= h);
    assert(is_ws(l.last()));
    assert(is_ws(l.drop_last().last()));
    assert(trim_end(l) == trim_end(l.drop_last()));
    assert(trim_end(l.drop_last()) == trim_end(h));
    assert(h.last() == h[h.len() - 1]);
    assert(trim_end(h) == h);
    assert(trim(l) == h);
    assert(h[0] != '+');
}

/// The length of the line that `read_line` takes from the front of `x`: up
/// to and including the first line feed, or all of `x` when there is none.
pub open spec fn next_line_len(x: Seq<u8>) -> int {
    match x.index_of_first(10u8) {
        Some(i) => i + 1,
        None => x.len() as int,
    }
}

/// The pieces that reading a chunked body from the bytes `x` forwards when
/// each step is the one `next_chunk` decides: read a line (its text, when it
/// is UTF-8), then read the chunk's data and its CRLF. Reading stops at the
/// end of the input, at a line that is not UTF-8, at the last chunk, and when
/// the input ends inside a chunk.
pub open spec fn dechunk(x: Seq<u8>) -> Seq<Seq<u8>>
    decreases x.len(),
{
    if x.len() == 0 {
        Seq::<Seq<u8>>::empty()
    } else {
        let k = next_line_len(x);
        let line = x.take(k);
        let rest = x.skip(k);
        if !valid_utf8(line) {
            Seq::<Seq<u8>>::empty()
        } else {
            match chunk_step_of(Some(decode_utf8(line))) {
                ChunkStep::ReadChunk(n) => if rest.len() < n + 2 {
                    Seq::<Seq<u8>>::empty()
                } else {
                    proof {
                        x.index_of_first_ensures(10u8);
                    }
                    seq![rest.take(n as int)] + dechunk(rest.skip(n + 2))
                },
                _ => Seq::<Seq<u8>>::empty(),
            }
        }
    }
}

/// The frames of the pieces `ds`, one after the other.
pub open spec fn frames(ds: Seq<Seq<u8>>) -> Seq<u8>
    decreases ds.len(),
{
    if ds.len() == 0 {
        Seq::<u8>::empty()
    } else {
        chunk_frame_bytes(ds[0]) + frames(ds.drop_first())
    }
}

proof fn lemma_char_ascii(c: char)
    requires
        (c as u32) < 128,
    ensures
        '\0' <= c <= '\u{7f}',
{
}

proof fn lemma_size_line_ascii(n: nat)
    ensures
        is_ascii_chars(size_line(n)),
        forall|k: int| 0 <= k < size_line(n).len() - 1 ==> #[trigger] size_line(n)[k] != '\n',
        size_line(n).last() == '\n',
{
    reveal_strlit("\r\n");
    lemma_radix_digits_value(n, 16);
    let h = hex(n);
    let l = size_line(n);
    assert forall|k: int| 0 <= k < l.len() implies '\0' <= #[trigger] l[k] <= '\u{7f}' && (k < l.len()
        - 1 ==> l[k] != '\n') by {
        if k < h.len() {
            assert(l[k] == h[k]);
            assert(all_digits(h, 16));
            assert(digit_value(h[k], 16) is Some);
            let c = h[k];
            let u = c as u32;
            assert(48 <= u <= 122);
            lemma_char_ascii(c);
            assert(c <= '\u{7f}');
            assert(c != '\n');
        } else if k == h.len() {
            assert(l[k] == '\r');
            assert('\0' <= l[k] <= '\u{7f}');
        } else {
            assert(l[k] == '\n');
            assert('\0' <= l[k] <= '\u{7f}');
        }
    }
}

proof fn lemma_ascii_bytes_decode(s: Seq<char>)
    requires
        is_ascii_chars(s),
    ensures
        ascii_bytes(s) == encode_utf8(s),
        valid_utf8(ascii_bytes(s)),
        decode_utf8(ascii_bytes(s)) == s,
{
    is_ascii_chars_encode_utf8(s);
    assert(ascii_bytes(s) =~= encode_utf8(s));
    encode_utf8_valid_utf8(s);
    encode_utf8_decode_utf8(s);
}

/// Reading starts a frame by taking its size line whole.
proof fn lemma_frame_first_line(d: Seq<u8>, rest: Seq<u8>)
    requires
        d.len() <= usize::MAX,
    ensures
        ({
            let x = chunk_frame_bytes(d) + rest;
            let l = ascii_bytes(size_line(d.len()));
            &&& next_line_len(x) == l.len()
            &&& x.take(l.len() as int) == l
            &&& x.skip(l.len() as int) == d + seq![13u8, 10u8] + rest
            &&& valid_utf8(l)
            &&& decode_utf8(l) == size_line(d.len())
        }),
{
    let n = d.len();
    let sl = size_line(n);
    let l = ascii_bytes(sl);
    let x = chunk_frame_bytes(d) + rest;
    lemma_size_line_ascii(n);
    lemma_ascii_bytes_decode(sl);
    assert(x =~= l + (d + seq![13u8, 10u8] + rest));
    x.index_of_first_ensures(10u8);
    let last = l.len() - 1;
    assert(x[last] == 10u8);
    assert(x.contains(10u8));
    let i = x.index_of_first(10u8)->0;
    assert forall|k: int| 0 <= k < last implies x[k] != 10u8 by {
        assert(x[k] == l[k]);
        assert(sl[k] != '\n');
        assert(sl[k] as u32 != 10);
    }
    assert(i == last);
    assert(x.take(l.len() as int) =~= l);
    assert(x.skip(l.len() as int) =~= d + seq![13u8, 10u8] + rest);
}

/// Reading a non-empty frame forwards its data and goes on after it.
proof fn lemma_dechunk_frame(d: Seq<u8>, rest: Seq<u8>)
    requires
        0 < d.len() <= usize::MAX,
    ensures
        dechunk(chunk_frame_bytes(d) + rest) == seq![d] + dechunk(rest),
{
    let x = chunk_frame_bytes(d) + rest;
    lemma_frame_first_line(d, rest);
    law_chunk_frame_read_back(d);
    let l = ascii_bytes(size_line(d.len()));
    let r = x.skip(l.len() as int);
    assert(r.take(d.len() as int) =~= d);
    assert(r.skip(d.len() + 2 as int) =~= rest);
}

/// What the frames of non-empty pieces and the last chunk carry, reading
/// gives back: exactly those pieces, in order.
pub proof fn law_chunked_body_read_back(ds: Seq<Seq<u8>>)
    requires
        forall|i: int| 0 <= i < ds.len() ==> 0 < #[trigger] ds[i].len() <= usize::MAX,
    ensures
        dechunk(frames(ds) + last_chunk_bytes()) == ds,
    decreases ds.len(),
{
    if ds.len() == 0 {
        let x = frames(ds) + last_chunk_bytes();
        assert(chunk_frame_bytes(Seq::<u8>::empty()) =~= last_chunk_bytes()) by {
            reveal_strlit("\r\n");
            lemma_radix_digits_value(0, 16);
            assert(hex(0) =~= seq!['0']);
        }
        assert(x =~= chunk_frame_bytes(Seq::<u8>::empty()) + Seq::<u8>::empty());
        lemma_frame_first_line(Seq::<u8>::empty(), Seq::<u8>::empty());
        law_size_line_read_back(0);
        assert(dechunk(x) =~= Seq::<Seq<u8>>::empty());
    } else {
        let tail = ds.drop_first();
        assert forall|i: int| 0 <= i < tail.len() implies 0 < #[trigger] tail[i].len() <= usize::MAX by {
            assert(tail[i] == ds[i + 1]);
        }
        law_chunked_body_read_back(tail);
        let rest = frames(tail) + last_chunk_bytes();
        assert(frames(ds) + last_chunk_bytes() =~= chunk_frame_bytes(ds[0]) + rest);
        lemma_dechunk_frame(ds[0], rest);
        assert(seq![ds[0]] + tail =~= ds);
    }
}

/// Reading never forwards an empty piece, whatever the input: the size line
/// of an empty chunk ends the body.
pub proof fn law_dechunk_pieces_non_empty(x: Seq<u8>)
    ensures
        forall|i: int|
            0 <= i < dechunk(x).len() ==> 0 < #[trigger] dechunk(x)[i].len() <= usize::MAX,
    decreases x.len(),
{
    if x.len() > 0 {
        let k = next_line_len(x);
        let line = x.take(k);
        let rest = x.skip(k);
        if valid_utf8(line) {
            if let ChunkStep::ReadChunk(n) = chunk_step_of(Some(decode_utf8(line))) {
                if rest.len() >= n + 2 {
                    x.index_of_first_ensures(10u8);
                    law_dechunk_pieces_non_empty(rest.skip(n + 2));
                    let ys = dechunk(rest.skip(n + 2));
                    assert(dechunk(x) == seq![rest.take(n as int)] + ys);
                    assert forall|i: int| 0 <= i < dechunk(x).len() implies 0 < #[trigger] dechunk(
                        x,
                    )[i].len() <= usize::MAX by {
                        if i > 0 {
                            assert(dechunk(x)[i] == ys[i - 1]);
                        }
                    }
                }
            }
        }
    }
}

/// Forwarding keeps what the upstream sent: the pieces read from any input,
/// framed again and closed with the last chunk, are read back as the same
/// pieces.
pub proof fn law_forwarding_preserves_pieces(x: Seq<u8>)
    ensures
        dechunk(frames(dechunk(x)) + last_chunk_bytes()) == dechunk(x),
{
    law_dechunk_pieces_non_empty(x);
    law_chunked_body_read_back(dechunk(x));
}

/// The whole streamed reply: its head, a frame for each piece in order, and
/// the last chunk.
pub open spec fn stream_reply_bytes(thread: Option<Seq<char>>, ds: Seq<Seq<u8>>) -> Seq<u8> {
    encode_utf8(stream_head_text(thread)) + frames(ds) + last_chunk_bytes()
}

/// The streamed reply reads back as its head followed by a chunked body that
/// carries exactly its pieces, in order, when none of them is empty.
pub proof fn law_stream_reply_read_back(thread: Option<Seq<char>>, ds: Seq<Seq<u8>>)
    requires
        forall|i: int| 0 <= i < ds.len() ==> 0 < #[trigger] ds[i].len() <= usize::MAX,
    ensures
        ({
            let head = encode_utf8(stream_head_text(thread));
            let w = stream_reply_bytes(thread, ds);
            &&& w.take(head.len() as int) == head
            &&& dechunk(w.skip(head.len() as int)) == ds
        }),
{
    let head = encode_utf8(stream_head_text(thread));
    let w = stream_reply_bytes(thread, ds);
    assert(w.take(head.len() as int) =~= head);
    assert(w.skip(head.len() as int) =~= frames(ds) + last_chunk_bytes());
    law_chunked_body_read_back(ds);
}

/// Relaying a chunked body: the reply that forwards the pieces read from the
/// upstream's body `x` carries no empty piece, and reads back as its head
/// followed by exactly the pieces of `x`, in order.
pub proof fn law_relayed_body_read_back(thread: Option<Seq<char>>, x: Seq<u8>)
    ensures
        forall|i: int|
            0 <= i < dechunk(x).len() ==> 0 < #[trigger] dechunk(x)[i].len() <= usize::MAX,
        ({
            let head = encode_utf8(stream_head_text(thread));
            let w = stream_reply_bytes(thread, dechunk(x));
            &&& w.take(head.len() as int) == head
            &&& dechunk(w.skip(head.len() as int)) == dechunk(x)
        }),
{
    law_dechunk_pieces_non_empty(x);
    law_stream_reply_read_back(thread, dechunk(x));
}

} // verus!
