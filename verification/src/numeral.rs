//! Unsigned numerals in base ten and base sixteen: the digits that
//! `format!("{}")` and `format!("{:x}")` write, and the values that
//! `str::parse` and `from_str_radix` read back.
use vstd::prelude::*;
use vstd::arithmetic::div_mod::{lemma_div_decreases, lemma_fundamental_div_mod};
use crate::text::push_char;

verus! {

/// The lower-case digit character for a digit value below sixteen.
pub open spec fn digit_char(d: nat) -> char {
    if d < 10 {
        (48 + d) as char
    } else {
        (87 + d) as char
    }
}

/// The digits of `n` in base `radix`, most significant first, without
/// leading zeros (a single `0` for zero), letters in lower case.
pub open spec fn radix_digits(n: nat, radix: nat) -> Seq<char>
    decreases n,
{
    if radix < 2 || n < radix {
        seq![digit_char(n)]
    } else {
        proof {
            lemma_div_decreases(n as int, radix as int);
        }
        radix_digits(n / radix, radix).push(digit_char(n % radix))
    }
}

/// `format!("{}", n)`.
pub open spec fn decimal(n: nat) -> Seq<char> {
    radix_digits(n, 10)
}

/// `format!("{:x}", n)`.
pub open spec fn hex(n: nat) -> Seq<char> {
    radix_digits(n, 16)
}

/// The value of `c` as a digit in base `radix` (at most 36), as `char::to_digit`
/// gives it: `0`-`9`, then letters of either case from ten on.
pub open spec fn digit_value(c: char, radix: nat) -> Option<nat> {
    let u = c as u32;
    let v: int = if 48 <= u <= 57 {
        u - 48
    } else if 97 <= u <= 122 {
        u - 87
    } else if 65 <= u <= 90 {
        u - 55
    } else {
        36
    };
    if 0 <= v < radix {
        Some(v as nat)
    } else {
        None
    }
}

/// Whether every character of `s` is a digit in base `radix`.
pub open spec fn all_digits(s: Seq<char>, radix: nat) -> bool {
    forall|i: int| 0 <= i < s.len() ==> (#[trigger] digit_value(s[i], radix)) is Some
}

/// The number that the digits `s` denote in base `radix`.
pub open spec fn digits_value(s: Seq<char>, radix: nat) -> nat
    decreases s.len(),
{
    if s.len() == 0 {
        0
    } else {
        digits_value(s.drop_last(), radix) * radix + match digit_value(s.last(), radix) {
            Some(d) => d,
            None => 0,
        }
    }
}

/// What `from_str_radix(s, radix)` gives for an unsigned type whose largest
/// value is `max`: an optional `+`, then at least one digit, and a value that
/// fits; `None` for every error.
pub open spec fn parse_unsigned(s: Seq<char>, radix: nat, max: nat) -> Option<nat> {
    let d = if s.len() > 0 && s[0] == '+' {
        s.drop_first()
    } else {
        s
    };
    if d.len() > 0 && all_digits(d, radix) && digits_value(d, radix) <= max {
        Some(digits_value(d, radix))
    } else {
        None
    }
}

proof fn lemma_digits_value_monotone(s: Seq<char>, k: int, radix: nat)
    requires
        0 <= k <= s.len(),
        radix >= 1,
    ensures
        digits_value(s.take(k), radix) <= digits_value(s, radix),
    decreases s.len() - k,
{
    if k < s.len() {
        lemma_digits_value_monotone(s, k + 1, radix);
        let t = s.take(k + 1);
        assert(t.drop_last() == s.take(k));
        let a = digits_value(s.take(k), radix);
        assert(a * radix >= a) by (nonlinear_arith)
            requires
                radix >= 1,
        ;
    } else {
        assert(s.take(k) == s);
    }
}

proof fn lemma_digit_char_value(d: nat, radix: nat)
    requires
        d < radix,
        radix == 10 || radix == 16,
    ensures
        digit_value(digit_char(d), radix) == Some(d),
{
}

/// The digits that `radix_digits` writes are digits of that base and denote
/// the number written.
pub proof fn lemma_radix_digits_value(n: nat, radix: nat)
    requires
        radix == 10 || radix == 16,
    ensures
        radix_digits(n, radix).len() > 0,
        all_digits(radix_digits(n, radix), radix),
        digits_value(radix_digits(n, radix), radix) == n,
        radix_digits(n, radix)[0] != '+',
    decreases n,
{
    if n < radix {
        lemma_digit_char_value(n, radix);
        let s = radix_digits(n, radix);
        assert(s.drop_last() =~= Seq::<char>::empty());
        assert(s.last() == digit_char(n));
        assert(digits_value(s.drop_last(), radix) == 0);
        assert(digits_value(s, radix) == 0 * radix + n);
    } else {
        lemma_div_decreases(n as int, radix as int);
        lemma_radix_digits_value(n / radix, radix);
        lemma_fundamental_div_mod(n as int, radix as int);
        lemma_digit_char_value(n % radix, radix);
        let p = radix_digits(n / radix, radix);
        let s = radix_digits(n, radix);
        assert(s.drop_last() == p);
        assert(s[0] == p[0]);
        assert forall|i: int| 0 <= i < s.len() implies (#[trigger] digit_value(s[i], radix)) is Some by {
            if i < p.len() {
                assert(s[i] == p[i]);
            }
        }
        assert(digits_value(s, radix) == n) by (nonlinear_arith)
            requires
                digits_value(s, radix) == digits_value(p, radix) * radix + n % radix,
                digits_value(p, radix) == n / radix,
                n == radix * (n / radix) + n % radix,
        ;
    }
}

/// Reading back the digits that are written for a number gives the number:
/// `parse_unsigned(radix_digits(n))` is `n` whenever `n` fits.
pub proof fn law_parse_of_written_digits(n: nat, radix: nat, max: nat)
    requires
        radix == 10 || radix == 16,
        n <= max,
    ensures
        parse_unsigned(radix_digits(n, radix), radix, max) == Some(n),
{
    lemma_radix_digits_value(n, radix);
}

fn digit_char_exec(d: u64) -> (c: char)
    requires
        d < 16,
    ensures
        c == digit_char(d as nat),
{
    let b: u8 = if d < 10 {
        48 + (d as u8)
    } else {
        87 + (d as u8)
    };
    b as char
}

/// Appends the base-`radix` digits of `n` (ten or sixteen) to `out`.
pub fn push_radix(out: &mut String, n: u64, radix: u64)
    requires
        radix == 10 || radix == 16,
    ensures
        final(out)@ == old(out)@ + radix_digits(n as nat, radix as nat),
    decreases n,
{
    if n >= radix {
        proof {
            lemma_div_decreases(n as int, radix as int);
        }
        push_radix(out, n / radix, radix);
        push_char(out, digit_char_exec(n % radix));
    } else {
        push_char(out, digit_char_exec(n));
    }
}

/// `format!("{:x}", n)`.
pub fn hex_string(n: u64) -> (s: String)
    ensures
        s@ == hex(n as nat),
{
    let mut s = String::new();
    push_radix(&mut s, n, 16);
    s
}

fn digit_value_exec(c: char, radix: u32) -> (r: Option<u32>)
    requires
        radix == 10 || radix == 16,
    ensures
        r matches Some(v) ==> digit_value(c, radix as nat) == Some(v as nat),
        r is None ==> digit_value(c, radix as nat) is None,
{
    let u = c as u32;
    let v: u32 = if 48 <= u && u <= 57 {
        u - 48
    } else if 97 <= u && u <= 122 {
        u - 87
    } else if 65 <= u && u <= 90 {
        u - 55
    } else {
        36
    };
    if v < radix {
        Some(v)
    } else {
        None
    }
}

/// `from_str_radix(s, radix)` for an unsigned type whose largest value is
/// `max`, with `None` for every error.
pub fn parse_unsigned_chars(s: &[char], radix: u32, max: u64) -> (r: Option<u64>)
    requires
        radix == 10 || radix == 16,
    ensures
        r matches Some(v) ==> parse_unsigned(s@, radix as nat, max as nat) == Some(v as nat),
        r is None ==> parse_unsigned(s@, radix as nat, max as nat) is None,
{
    let start: usize = if s.len() > 0 && s[0] == '+' {
        1
    } else {
        0
    };
    let ghost d = s@.subrange(start as int, s@.len() as int);
    assert(d == (if s@.len() > 0 && s@[0] == '+' {
        s@.drop_first()
    } else {
        s@
    }));
    if start >= s.len() {
        return None;
    }
    let mut acc: u128 = 0;
    let mut i: usize = start;
    while i < s.len()
        invariant
            start <= i <= s.len(),
            d == s@.subrange(start as int, s@.len() as int),
            d == (if s@.len() > 0 && s@[0] == '+' {
                s@.drop_first()
            } else {
                s@
            }),
            d.len() > 0,
            radix == 10 || radix == 16,
            all_digits(d.take(i - start), radix as nat),
            acc == digits_value(d.take(i - start), radix as nat),
            acc <= max,
        decreases s.len() - i,
    {
        let ghost k: int = i - start;
        match digit_value_exec(s[i], radix) {
            None => {
                assert(d[k] == s@[i as int]);
                assert(!all_digits(d, radix as nat));
                return None;
            },
            Some(v) => {
                assert(acc * (radix as u128) <= 0xffff_ffff_ffff_ffffu128 * 16) by (nonlinear_arith)
                    requires
                        acc <= 0xffff_ffff_ffff_ffffu128,
                        radix <= 16,
                ;
                let next: u128 = acc * (radix as u128) + (v as u128);
                assert(d.take(k + 1).drop_last() == d.take(k));
                assert(d.take(k + 1).last() == s@[i as int]);
                assert(next == digits_value(d.take(k + 1), radix as nat));
                assert forall|j: int| 0 <= j < k + 1 implies (#[trigger] digit_value(
                    d.take(k + 1)[j],
                    radix as nat,
                )) is Some by {
                    if j < k {
                        assert(d.take(k + 1)[j] == d.take(k)[j]);
                    }
                }
                if next > max as u128 {
                    proof {
                        lemma_digits_value_monotone(d, k + 1, radix as nat);
                    }
                    return None;
                }
                acc = next;
                i = i + 1;
            },
        }
    }
    assert(d.take(i - start) == d);
    Some(acc as u64)
}

} // verus!
