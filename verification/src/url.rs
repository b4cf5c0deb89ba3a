//! The upstream address: host, port and path taken from a URL such as
//! `http://localhost:9090/v1/chat/completions`.
use vstd::prelude::*;
use crate::numeral::{decimal, parse_unsigned, parse_unsigned_chars, lemma_radix_digits_value, all_digits, digit_value};
use crate::text::{chars_of, find_first, find_last, starts_with, string_of, sub_chars};

verus! {

/// Where the chat completions are forwarded to.
pub struct Upstream {
    pub host: String,
    pub port: u16,
    pub path: String,
}

/// An upstream address as values.
pub struct UpstreamModel {
    pub host: Seq<char>,
    pub port: u16,
    pub path: Seq<char>,
}

impl View for Upstream {
    type V = UpstreamModel;

    open spec fn view(&self) -> UpstreamModel {
        UpstreamModel { host: self.host@, port: self.port, path: self.path@ }
    }
}

/// `u` without a leading `http://`.
pub open spec fn strip_scheme(u: Seq<char>) -> Seq<char> {
    if "http://"@.is_prefix_of(u) {
        u.skip("http://"@.len() as int)
    } else {
        u
    }
}

/// The port named after the last `:` of `host:port`: the decimal number
/// there when it fits in sixteen bits, else 80; 80 when there is no `:`.
pub open spec fn port_of(digits: Seq<char>) -> u16 {
    match parse_unsigned(digits, 10, 65535) {
        Some(p) => p as u16,
        None => 80,
    }
}

/// How a URL splits into host, port and path: after an optional `http://`,
/// the path starts at the first `/` (`/` when there is none), and the host
/// ends at the last `:` before it.
pub open spec fn url_model(u: Seq<char>) -> UpstreamModel {
    let s = strip_scheme(u);
    let (hostport, path) = match s.index_of_first('/') {
        Some(i) => (s.take(i), s.skip(i)),
        None => (s, "/"@),
    };
    match hostport.index_of_last(':') {
        Some(j) => UpstreamModel {
            host: hostport.take(j),
            port: port_of(hostport.skip(j + 1)),
            path,
        },
        None => UpstreamModel { host: hostport, port: 80, path },
    }
}

/// Splits the upstream URL into host, port and path.
pub fn parse_url(u: &str) -> (r: Upstream)
    ensures
        r@ == url_model(u@),
{
    let cs = chars_of(u);
    let scheme = chars_of("http://");
    let s = if starts_with(&cs, &scheme) {
        sub_chars(&cs, scheme.len(), cs.len())
    } else {
        cs
    };
    assert(s@ == strip_scheme(u@));
    let (hostport, path) = match find_first(&s, '/') {
        Some(i) => (sub_chars(&s, 0, i), sub_chars(&s, i, s.len())),
        None => (s, chars_of("/")),
    };
    match find_last(&hostport, ':') {
        Some(j) => {
            let digits = sub_chars(&hostport, j + 1, hostport.len());
            let port: u16 = match parse_unsigned_chars(&digits, 10, 65535) {
                Some(p) => p as u16,
                None => 80,
            };
            Upstream { host: string_of(&sub_chars(&hostport, 0, j)), port, path: string_of(&path) }
        },
        None => Upstream { host: string_of(&hostport), port: 80, path: string_of(&path) },
    }
}

/// `parse_url` undoes the composition of a URL: for a host without `/` and
/// a path that starts with `/`, `http://{host}:{port}{path}` splits back
/// into that host, port and path.
pub proof fn law_parse_url_of_composed(host: Seq<char>, port: u16, path: Seq<char>)
    requires
        !host.contains('/'),
        path.len() > 0,
        path[0] == '/',
    ensures
        url_model("http://"@ + host + seq![':'] + decimal(port as nat) + path)
            == (UpstreamModel { host, port, path }),
{
    reveal_strlit("http://");
    let digits = decimal(port as nat);
    lemma_radix_digits_value(port as nat, 10);
    assert forall|k: int| 0 <= k < digits.len() implies digits[k] != '/' && digits[k] != ':' by {
        assert(all_digits(digits, 10));
        assert(digit_value(digits[k], 10) is Some);
    }
    let hp = host + seq![':'] + digits;
    let u = "http://"@ + hp + path;
    let s = hp + path;
    assert("http://"@ + host + seq![':'] + digits + path =~= u);
    assert(u.skip(7) =~= s);
    assert("http://"@.is_prefix_of(u));
    assert(strip_scheme(u) == s);
    // the path starts at the first '/'
    s.index_of_first_ensures('/');
    let n = hp.len() as int;
    assert(s[n] == '/');
    assert(s.contains('/'));
    let i = s.index_of_first('/')->0;
    assert forall|k: int| 0 <= k < n implies s[k] != '/' by {
        if k < host.len() {
            assert(s[k] == host[k]);
            assert(host.contains(host[k]));
        } else if k > host.len() {
            assert(s[k] == digits[k - host.len() - 1]);
        }
    }
    assert(i == n);
    assert(s.take(i) == hp);
    assert(s.skip(i) == path);
    // the host ends at the last ':'
    hp.index_of_last_ensures(':');
    let h = host.len() as int;
    assert(hp[h] == ':');
    assert(hp.contains(':'));
    let j = hp.index_of_last(':')->0;
    assert forall|k: int| h < k < hp.len() implies hp[k] != ':' by {
        assert(hp[k] == digits[k - h - 1]);
    }
    assert(j == h);
    assert(hp.take(j) == host);
    assert(hp.skip(j + 1) == digits);
    assert(parse_unsigned(digits, 10, 65535) == Some(port as nat));
}

} // verus!
