//! JSON text construction for the daemon's line-delimited wire protocol.
//!
//! Requests are built directly as bytes: string content is escaped as JSON
//! requires (quote, backslash and control characters), numbers are written
//! in decimal. Each piece is specified exactly, so a request line's full
//! byte content follows from the contracts.

use vstd::prelude::*;
use vstd::string::StringSliceAdditionalSpecFns;

verus! {

/// The hexadecimal digit for a value below 16, lower case.
pub open spec fn hex_digit(n: u8) -> u8 {
    if n < 10 {
        (48 + n) as u8
    } else {
        (87 + n) as u8
    }
}

/// The escape sequence a byte of string content becomes inside a JSON
/// string literal: quote and backslash are escaped, the named control
/// characters use their short forms, other control bytes use `\u00XX`, and
/// everything else (including multi-byte UTF-8 content) passes through.
pub open spec fn escape_byte(b: u8) -> Seq<u8> {
    if b == 34 {
        seq![92u8, 34u8]
    } else if b == 92 {
        seq![92u8, 92u8]
    } else if b == 8 {
        seq![92u8, 98u8]
    } else if b == 9 {
        seq![92u8, 116u8]
    } else if b == 10 {
        seq![92u8, 110u8]
    } else if b == 12 {
        seq![92u8, 102u8]
    } else if b == 13 {
        seq![92u8, 114u8]
    } else if b < 32 {
        seq![92u8, 117u8, 48u8, 48u8, hex_digit(b / 16), hex_digit(b % 16)]
    } else {
        seq![b]
    }
}

/// JSON escaping of a whole byte sequence of string content.
pub open spec fn json_escaped(s: Seq<u8>) -> Seq<u8>
    decreases s.len(),
{
    if s.len() == 0 {
        Seq::empty()
    } else {
        escape_byte(s[0]) + json_escaped(s.skip(1))
    }
}

proof fn lemma_json_escaped_push(s: Seq<u8>, b: u8)
    ensures
        json_escaped(s.push(b)) == json_escaped(s) + escape_byte(b),
    decreases s.len(),
{
    if s.len() == 0 {
        assert(s.push(b)[0] == b);
        assert(s.push(b).skip(1) =~= Seq::<u8>::empty());
        assert(json_escaped(s.push(b)) == escape_byte(b) + json_escaped(Seq::<u8>::empty()));
        assert(escape_byte(b) + Seq::<u8>::empty() =~= escape_byte(b));
        assert(json_escaped(s) + escape_byte(b) =~= escape_byte(b));
    } else {
        assert(s.push(b).skip(1) =~= s.skip(1).push(b));
        lemma_json_escaped_push(s.skip(1), b);
        assert(s.push(b)[0] == s[0]);
        assert(json_escaped(s.push(b)) == escape_byte(s[0]) + json_escaped(s.skip(1).push(b)));
        assert(escape_byte(s[0]) + (json_escaped(s.skip(1)) + escape_byte(b)) =~= (escape_byte(
            s[0],
        ) + json_escaped(s.skip(1))) + escape_byte(b));
    }
}

/// A JSON string literal: quote, escaped content, quote.
pub open spec fn json_string(s: Seq<u8>) -> Seq<u8> {
    seq![34u8] + json_escaped(s) + seq![34u8]
}

/// The decimal digits of a non-negative number.
pub open spec fn dec_digits(n: int) -> Seq<u8>
    recommends
        n >= 0,
    decreases n,
{
    if n < 10 {
        seq![(48 + if n >= 0 { n } else { 0 }) as u8]
    } else {
        dec_digits(n / 10) + seq![(48 + n % 10) as u8]
    }
}

/// The decimal form of an integer: a minus sign for negative values, then
/// the digits of the magnitude.
pub open spec fn dec_int(n: int) -> Seq<u8> {
    if n < 0 {
        seq![45u8] + dec_digits(-n)
    } else {
        dec_digits(n)
    }
}

/// The JSON form of a boolean.
pub open spec fn json_bool(b: bool) -> Seq<u8> {
    if b {
        "true".spec_bytes()
    } else {
        "false".spec_bytes()
    }
}

/// Append the bytes of a literal piece of JSON syntax.
pub fn push_literal(out: &mut Vec<u8>, lit: &str)
    ensures
        final(out)@ == old(out)@ + lit.spec_bytes(),
{
    let bs = lit.as_bytes();
    let n = bs.len();
    let mut i: usize = 0;
    while i < n
        invariant
            i <= n,
            n == bs@.len(),
            bs@ == lit.spec_bytes(),
            out@ == old(out)@ + bs@.take(i as int),
        decreases n - i,
    {
        out.push(bs[i]);
        proof {
            assert(old(out)@ + bs@.take(i as int) + seq![bs@[i as int]] =~= old(out)@ + bs@.take(
                i as int + 1,
            ));
        }
        i = i + 1;
    }
    proof {
        assert(old(out)@ + bs@.take(n as int) =~= old(out)@ + bs@);
    }
}

/// Append raw bytes, most often an already-encoded JSON value.
pub fn push_bytes(out: &mut Vec<u8>, bs: &[u8])
    ensures
        final(out)@ == old(out)@ + bs@,
{
    let n = bs.len();
    let mut i: usize = 0;
    while i < n
        invariant
            i <= n,
            n == bs@.len(),
            out@ == old(out)@ + bs@.take(i as int),
        decreases n - i,
    {
        out.push(bs[i]);
        proof {
            assert(old(out)@ + bs@.take(i as int) + seq![bs@[i as int]] =~= old(out)@ + bs@.take(
                i as int + 1,
            ));
        }
        i = i + 1;
    }
    proof {
        assert(old(out)@ + bs@.take(n as int) =~= old(out)@ + bs@);
    }
}

/// Append one escaped byte of string content.
fn push_escaped_byte(out: &mut Vec<u8>, b: u8)
    ensures
        final(out)@ == old(out)@ + escape_byte(b),
{
    if b == 34 {
        out.push(92);
        out.push(34);
        proof {
            assert(old(out)@ + seq![92u8] + seq![34u8] =~= old(out)@ + escape_byte(b));
        }
    } else if b == 92 {
        out.push(92);
        out.push(92);
        proof {
            assert(old(out)@ + seq![92u8] + seq![92u8] =~= old(out)@ + escape_byte(b));
        }
    } else if b == 8 {
        out.push(92);
        out.push(98);
        proof {
            assert(old(out)@ + seq![92u8] + seq![98u8] =~= old(out)@ + escape_byte(b));
        }
    } else if b == 9 {
        out.push(92);
        out.push(116);
        proof {
            assert(old(out)@ + seq![92u8] + seq![116u8] =~= old(out)@ + escape_byte(b));
        }
    } else if b == 10 {
        out.push(92);
        out.push(110);
        proof {
            assert(old(out)@ + seq![92u8] + seq![110u8] =~= old(out)@ + escape_byte(b));
        }
    } else if b == 12 {
        out.push(92);
        out.push(102);
        proof {
            assert(old(out)@ + seq![92u8] + seq![102u8] =~= old(out)@ + escape_byte(b));
        }
    } else if b == 13 {
        out.push(92);
        out.push(114);
        proof {
            assert(old(out)@ + seq![92u8] + seq![114u8] =~= old(out)@ + escape_byte(b));
        }
    } else if b < 32 {
        out.push(92);
        out.push(117);
        out.push(48);
        out.push(48);
        let hi = b / 16;
        let lo = b % 16;
        out.push(if hi < 10 { 48 + hi } else { 87 + hi });
        out.push(if lo < 10 { 48 + lo } else { 87 + lo });
        proof {
            assert(old(out)@ + seq![92u8] + seq![117u8] + seq![48u8] + seq![48u8] + seq![
                hex_digit(b / 16),
            ] + seq![hex_digit(b % 16)] =~= old(out)@ + escape_byte(b));
        }
    } else {
        out.push(b);
        proof {
            assert(old(out)@ + seq![b] =~= old(out)@ + escape_byte(b));
        }
    }
}

/// Append a whole JSON string literal holding this string's content.
pub fn push_json_string(out: &mut Vec<u8>, s: &str)
    ensures
        final(out)@ == old(out)@ + json_string(s.spec_bytes()),
{
    out.push(34);
    let bs = s.as_bytes();
    let n = bs.len();
    let mut i: usize = 0;
    while i < n
        invariant
            i <= n,
            n == bs@.len(),
            out@ == old(out)@ + seq![34u8] + json_escaped(bs@.take(i as int)),
        decreases n - i,
    {
        let ghost pre = bs@.take(i as int);
        push_escaped_byte(out, bs[i]);
        proof {
            lemma_json_escaped_push(pre, bs@[i as int]);
            assert(pre.push(bs@[i as int]) =~= bs@.take(i as int + 1));
            assert(old(out)@ + seq![34u8] + json_escaped(pre) + escape_byte(bs@[i as int]) =~= old(
                out,
            )@ + seq![34u8] + json_escaped(bs@.take(i as int + 1)));
        }
        i = i + 1;
    }
    out.push(34);
    proof {
        assert(bs@.take(n as int) =~= bs@);
        assert(old(out)@ + seq![34u8] + json_escaped(bs@) + seq![34u8] =~= old(out)@ + json_string(
            s.spec_bytes(),
        ));
    }
}

/// Append the decimal digits of a non-negative number.
pub fn push_dec_u64(out: &mut Vec<u8>, n: u64)
    ensures
        final(out)@ == old(out)@ + dec_digits(n as int),
    decreases n,
{
    if n < 10 {
        out.push(48 + (n as u8));
        proof {
            assert(old(out)@ + seq![(48 + n) as u8] =~= old(out)@ + dec_digits(n as int));
        }
    } else {
        push_dec_u64(out, n / 10);
        out.push(48 + ((n % 10) as u8));
        proof {
            assert(old(out)@ + dec_digits(n as int / 10) + seq![(48 + n as int % 10) as u8] =~= old(
                out,
            )@ + dec_digits(n as int));
        }
    }
}

/// Append the decimal form of a signed number.
pub fn push_dec_i64(out: &mut Vec<u8>, n: i64)
    ensures
        final(out)@ == old(out)@ + dec_int(n as int),
{
    if n < 0 {
        out.push(45);
        let ghost mid = out@;
        let magnitude: u64 = ((-(n + 1)) as u64) + 1;
        push_dec_u64(out, magnitude);
        proof {
            assert(magnitude as int == -(n as int));
            assert(old(out)@ + seq![45u8] + dec_digits(-(n as int)) =~= old(out)@ + dec_int(
                n as int,
            ));
        }
    } else {
        push_dec_u64(out, n as u64);
    }
}

/// Append `true` or `false`.
pub fn push_bool(out: &mut Vec<u8>, b: bool)
    ensures
        final(out)@ == old(out)@ + json_bool(b),
{
    if b {
        push_literal(out, "true");
    } else {
        push_literal(out, "false");
    }
}

} // verus!
