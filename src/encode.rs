//! The textual array form that query terms travel in.

use vstd::prelude::*;
use vstd::utf8::encode_utf8;
use crate::term::{Decimal, Term};

verus! {

broadcast use vstd::std_specs::vec::group_vec_axioms, vstd::seq::group_seq_axioms;

/// Decimal digits of a natural number, most significant first.
pub open spec fn digits(n: nat) -> Seq<u8>
    decreases n,
{
    if n < 10 {
        seq![(48 + n) as u8]
    } else {
        digits(n / 10) + seq![(48 + n % 10) as u8]
    }
}

/// Decimal text of an integer, with a leading `-` when negative.
pub open spec fn int_text(n: int) -> Seq<u8> {
    if n < 0 {
        seq![45u8] + digits((-n) as nat)
    } else {
        digits(n as nat)
    }
}

/// A number as a JSON number: the mantissa, then `e` and the exponent
/// unless the exponent is zero.
pub open spec fn num_text(d: Decimal) -> Seq<u8> {
    if d.exponent == 0 {
        int_text(d.mantissa as int)
    } else {
        int_text(d.mantissa as int) + seq![101u8] + int_text(d.exponent as int)
    }
}

pub open spec fn hex_digit(n: u8) -> u8 {
    if n < 10 {
        (48 + n) as u8
    } else {
        (87 + n) as u8
    }
}

/// How one byte of a string stands between quotes.
pub open spec fn esc_byte(b: u8) -> Seq<u8> {
    if b == 34 {
        seq![92u8, 34u8]
    } else if b == 92 {
        seq![92u8, 92u8]
    } else if b < 32 {
        seq![92u8, 117u8, 48u8, 48u8, hex_digit(b / 16), hex_digit(b % 16)]
    } else {
        seq![b]
    }
}

pub open spec fn escaped(s: Seq<u8>) -> Seq<u8>
    decreases s.len(),
{
    if s.len() == 0 {
        Seq::empty()
    } else {
        escaped(s.drop_last()) + esc_byte(s.last())
    }
}

/// A string as a JSON string literal of its UTF-8 bytes.
pub open spec fn quoted(s: Seq<char>) -> Seq<u8> {
    seq![34u8] + escaped(encode_utf8(s)) + seq![34u8]
}

pub open spec fn null_text() -> Seq<u8> {
    seq![110u8, 117u8, 108u8, 108u8]
}

pub open spec fn bool_text(b: bool) -> Seq<u8> {
    if b {
        seq![116u8, 114u8, 117u8, 101u8]
    } else {
        seq![102u8, 97u8, 108u8, 115u8, 101u8]
    }
}

/// The encoding of a term.
pub open spec fn enc(t: Term) -> Seq<u8>
    decreases t, 0nat,
{
    match t {
        Term::Null => null_text(),
        Term::Bool(b) => bool_text(b),
        Term::Num(d) => num_text(d),
        Term::Str(s) => quoted(s@),
        Term::Array(items) => seq![91u8] + digits(2) + seq![44u8, 91u8] + enc_list(
            items@,
            items@.len() as nat,
        ) + seq![93u8, 93u8],
        Term::Object(pairs) => seq![123u8] + enc_pairs(pairs@, pairs@.len() as nat) + seq![125u8],
        Term::Op(c, args, opts) => seq![91u8] + digits(c as nat) + (if args@.len() == 0 {
            Seq::empty()
        } else {
            seq![44u8, 91u8] + enc_list(args@, args@.len() as nat) + seq![93u8]
        }) + (if opts@.len() == 0 {
            Seq::empty()
        } else {
            seq![44u8, 123u8] + enc_pairs(opts@, opts@.len() as nat) + seq![125u8]
        }) + seq![93u8],
    }
}

/// The first `n` terms of `s`, encoded and separated by commas.
pub open spec fn enc_list(s: Seq<Term>, n: nat) -> Seq<u8>
    decreases s, n,
{
    if n == 0 || n > s.len() {
        Seq::empty()
    } else if n == 1 {
        enc(s[0])
    } else {
        enc_list(s, (n - 1) as nat) + seq![44u8] + enc(s[n - 1])
    }
}

/// The first `n` named options of `s` as `"key":value`, separated by commas.
pub open spec fn enc_pairs(s: Seq<(String, Term)>, n: nat) -> Seq<u8>
    decreases s, n,
{
    if n == 0 || n > s.len() {
        Seq::empty()
    } else if n == 1 {
        quoted(s[0].0@) + seq![58u8] + enc(s[0].1)
    } else {
        enc_pairs(s, (n - 1) as nat) + seq![44u8] + quoted(s[n - 1].0@) + seq![58u8] + enc(
            s[n - 1].1,
        )
    }
}

fn push_digits(out: &mut Vec<u8>, n: u128)
    ensures
        final(out)@ == old(out)@ + digits(n as nat),
    decreases n,
{
    if n >= 10 {
        push_digits(out, n / 10);
    }
    out.push((48 + n % 10) as u8);
    proof {
        if n >= 10 {
            assert(final(out)@ =~= old(out)@ + digits(n as nat));
        } else {
            assert(final(out)@ =~= old(out)@ + digits(n as nat));
        }
    }
}

fn push_int(out: &mut Vec<u8>, n: i128)
    ensures
        final(out)@ == old(out)@ + int_text(n as int),
{
    if n < 0 {
        out.push(45);
        let m: u128 = if n == i128::MIN {
            (i128::MAX as u128) + 1
        } else {
            (0 - n) as u128
        };
        push_digits(out, m);
        assert(final(out)@ =~= old(out)@ + int_text(n as int));
    } else {
        push_digits(out, n as u128);
    }
}

fn push_number(out: &mut Vec<u8>, d: Decimal)
    ensures
        final(out)@ == old(out)@ + num_text(d),
{
    push_int(out, d.mantissa);
    if d.exponent != 0 {
        out.push(101);
        push_int(out, d.exponent as i128);
        assert(final(out)@ =~= old(out)@ + num_text(d));
    }
}

fn hex(n: u8) -> (r: u8)
    requires
        n < 16,
    ensures
        r == hex_digit(n),
{
    if n < 10 {
        48 + n
    } else {
        87 + n
    }
}

fn push_escaped_byte(out: &mut Vec<u8>, b: u8)
    ensures
        final(out)@ == old(out)@ + esc_byte(b),
{
    if b == 34 || b == 92 {
        out.push(92);
        out.push(b);
    } else if b < 32 {
        out.push(92);
        out.push(117);
        out.push(48);
        out.push(48);
        out.push(hex(b / 16));
        out.push(hex(b % 16));
    } else {
        out.push(b);
    }
    assert(final(out)@ =~= old(out)@ + esc_byte(b));
}

/// Appends `s` as a JSON string literal.
pub fn push_quoted(out: &mut Vec<u8>, s: &str)
    ensures
        final(out)@ == old(out)@ + quoted(s@),
{
    let bytes = s.as_bytes();
    out.push(34);
    let ghost start = out@;
    let mut i: usize = 0;
    while i < bytes.len()
        invariant
            i <= bytes@.len(),
            bytes@ == encode_utf8(s@),
            out@ == start + escaped(bytes@.subrange(0, i as int)),
        decreases bytes.len() - i,
    {
        let b = bytes[i];
        push_escaped_byte(out, b);
        proof {
            assert(bytes@.subrange(0, i + 1).drop_last() =~= bytes@.subrange(0, i as int));
        }
        i += 1;
    }
    assert(bytes@.subrange(0, bytes@.len() as int) =~= bytes@);
    out.push(34);
    assert(out@ =~= old(out)@ + quoted(s@));
}

/// Appends the UTF-8 bytes of `s`.
pub fn push_utf8(out: &mut Vec<u8>, s: &str)
    ensures
        final(out)@ == old(out)@ + encode_utf8(s@),
{
    let bytes = s.as_bytes();
    let ghost start = out@;
    let mut i: usize = 0;
    while i < bytes.len()
        invariant
            i <= bytes@.len(),
            bytes@ == encode_utf8(s@),
            out@ == start + bytes@.subrange(0, i as int),
        decreases bytes.len() - i,
    {
        out.push(bytes[i]);
        assert(out@ =~= start + bytes@.subrange(0, i + 1));
        i += 1;
    }
    assert(bytes@.subrange(0, bytes@.len() as int) =~= bytes@);
}

/// Appends the encoding of `t`.
#[verifier::rlimit(100)]
pub fn encode_into(t: &Term, out: &mut Vec<u8>)
    ensures
        final(out)@ == old(out)@ + enc(*t),
    decreases t, 0nat,
{
    match t {
        Term::Null => {
            out.push(110);
            out.push(117);
            out.push(108);
            out.push(108);
            assert(out@ =~= old(out)@ + enc(*t));
        },
        Term::Bool(b) => {
            if *b {
                out.push(116);
                out.push(114);
                out.push(117);
                out.push(101);
            } else {
                out.push(102);
                out.push(97);
                out.push(108);
                out.push(115);
                out.push(101);
            }
            assert(out@ =~= old(out)@ + enc(*t));
        },
        Term::Num(d) => {
            push_number(out, *d);
        },
        Term::Str(s) => {
            push_quoted(out, s.as_str());
        },
        Term::Array(items) => {
            out.push(91);
            push_digits(out, 2u128);
            out.push(44);
            out.push(91);
            encode_list_into(items, out);
            out.push(93);
            out.push(93);
            assert(out@ =~= old(out)@ + enc(*t));
        },
        Term::Object(pairs) => {
            out.push(123);
            encode_pairs_into(pairs, out);
            out.push(125);
            assert(out@ =~= old(out)@ + enc(*t));
        },
        Term::Op(c, args, opts) => {
            out.push(91);
            push_digits(out, *c as u128);
            if args.len() > 0 {
                out.push(44);
                out.push(91);
                encode_list_into(args, out);
                out.push(93);
            }
            if opts.len() > 0 {
                out.push(44);
                out.push(123);
                encode_pairs_into(opts, out);
                out.push(125);
            }
            out.push(93);
            assert(out@ =~= old(out)@ + enc(*t));
        },
    }
}

/// Appends the terms of `items`, encoded and separated by commas.
pub fn encode_list_into(items: &Vec<Term>, out: &mut Vec<u8>)
    ensures
        final(out)@ == old(out)@ + enc_list(items@, items@.len() as nat),
    decreases items, 1nat,
{
    let ghost start = out@;
    let mut i: usize = 0;
    while i < items.len()
        invariant
            i <= items@.len(),
            out@ == start + enc_list(items@, i as nat),
        decreases items.len() - i,
    {
        if i > 0 {
            out.push(44);
        }
        encode_into(&items[i], out);
        assert(out@ =~= start + enc_list(items@, (i + 1) as nat));
        i += 1;
    }
}

/// Appends the named options of `pairs` as `"key":value`, separated by commas.
pub fn encode_pairs_into(pairs: &Vec<(String, Term)>, out: &mut Vec<u8>)
    ensures
        final(out)@ == old(out)@ + enc_pairs(pairs@, pairs@.len() as nat),
    decreases pairs, 1nat,
{
    let ghost start = out@;
    let mut i: usize = 0;
    while i < pairs.len()
        invariant
            i <= pairs@.len(),
            out@ == start + enc_pairs(pairs@, i as nat),
        decreases pairs.len() - i,
    {
        if i > 0 {
            out.push(44);
        }
        push_quoted(out, pairs[i].0.as_str());
        out.push(58);
        encode_into(&pairs[i].1, out);
        assert(out@ =~= start + enc_pairs(pairs@, (i + 1) as nat));
        i += 1;
    }
}

/// Values with a wire encoding.
pub trait Encode {
    spec fn spec_encode(&self) -> Seq<u8>;

    fn encode(&self) -> (b: Vec<u8>)
        ensures
            b@ == self.spec_encode(),
    ;
}

impl Encode for Term {
    open spec fn spec_encode(&self) -> Seq<u8> {
        enc(*self)
    }

    fn encode(&self) -> (b: Vec<u8>) {
        encode_term(self)
    }
}

/// Named options encode as a JSON object of their encoded values; this is
/// how the global options of a query travel.
impl Encode for Vec<(String, Term)> {
    open spec fn spec_encode(&self) -> Seq<u8> {
        seq![123u8] + enc_pairs(self@, self@.len() as nat) + seq![125u8]
    }

    fn encode(&self) -> (b: Vec<u8>) {
        let mut b: Vec<u8> = Vec::new();
        b.push(123);
        encode_pairs_into(self, &mut b);
        b.push(125);
        assert(b@ =~= self.spec_encode());
        b
    }
}

/// The encoding of `t`.
pub fn encode_term(t: &Term) -> (r: Vec<u8>)
    ensures
        r@ == enc(*t),
{
    let mut out: Vec<u8> = Vec::new();
    encode_into(t, &mut out);
    assert(out@ =~= enc(*t));
    out
}

} // verus!
