//! Reading the wire form back. `parse_value` is the grammar of encoded
//! terms, `decode` reads it into a term, and the round-trip law says that
//! every encoded term reads back as its own observable shape.

use vstd::prelude::*;
use vstd::utf8::{decode_utf8, encode_utf8, valid_utf8};
use crate::encode::{
    bool_text, digits, enc, enc_list, enc_pairs, esc_byte, escaped, hex_digit, int_text,
    null_text, quoted,
};
use crate::handshake::utf8_text;
use crate::term::{Decimal, Term};

verus! {

broadcast use vstd::std_specs::vec::group_vec_axioms, vstd::seq::group_seq_axioms;

/// The observable shape of a term: opcodes, positional arguments in order,
/// named options with their keys, and literals (text as its UTF-8 bytes).
pub enum Shape {
    Null,
    Bool(bool),
    Num(int, int),
    Str(Seq<u8>),
    Obj(Seq<(Seq<u8>, Shape)>),
    Op(nat, Seq<Shape>, Seq<(Seq<u8>, Shape)>),
}

/// The shape of a term. A literal array has the shape of the array-building
/// operation over its elements, which is how the server reads it.
pub open spec fn shape(t: Term) -> Shape
    decreases t, 0nat,
{
    match t {
        Term::Null => Shape::Null,
        Term::Bool(b) => Shape::Bool(b),
        Term::Num(d) => Shape::Num(d.mantissa as int, d.exponent as int),
        Term::Str(s) => Shape::Str(encode_utf8(s@)),
        Term::Array(items) => Shape::Op(2, shape_list(items@, items@.len() as nat), Seq::empty()),
        Term::Object(pairs) => Shape::Obj(shape_pairs(pairs@, pairs@.len() as nat)),
        Term::Op(c, args, opts) => Shape::Op(
            c as nat,
            shape_list(args@, args@.len() as nat),
            shape_pairs(opts@, opts@.len() as nat),
        ),
    }
}

pub open spec fn shape_list(s: Seq<Term>, n: nat) -> Seq<Shape>
    decreases s, n,
{
    if n == 0 || n > s.len() {
        Seq::empty()
    } else {
        shape_list(s, (n - 1) as nat).push(shape(s[n - 1]))
    }
}

pub open spec fn shape_pairs(s: Seq<(String, Term)>, n: nat) -> Seq<(Seq<u8>, Shape)>
    decreases s, n,
{
    if n == 0 || n > s.len() {
        Seq::empty()
    } else {
        shape_pairs(s, (n - 1) as nat).push((encode_utf8(s[n - 1].0@), shape(s[n - 1].1)))
    }
}

pub open spec fn is_digit(b: u8) -> bool {
    48 <= b <= 57
}

pub open spec fn is_hex(b: u8) -> bool {
    48 <= b <= 57 || 97 <= b <= 102
}

pub open spec fn hex_value(b: u8) -> int {
    if b <= 57 {
        b - 48
    } else {
        b - 87
    }
}

/// The number of leading decimal digits.
pub open spec fn digit_run(x: Seq<u8>) -> nat
    decreases x.len(),
{
    if x.len() > 0 && is_digit(x[0]) {
        1 + digit_run(x.drop_first())
    } else {
        0
    }
}

/// The value of a sequence of decimal digits.
pub open spec fn digits_value(s: Seq<u8>) -> nat
    decreases s.len(),
{
    if s.len() == 0 {
        0
    } else {
        digits_value(s.drop_last()) * 10 + (s.last() - 48) as nat
    }
}

/// A natural number in decimal, and what follows it.
pub open spec fn parse_nat(x: Seq<u8>) -> Option<(nat, Seq<u8>)> {
    let k = digit_run(x);
    if k == 0 || k > x.len() {
        None
    } else {
        Some((digits_value(x.subrange(0, k as int)), x.subrange(k as int, x.len() as int)))
    }
}

/// An integer in decimal, with an optional leading `-`.
pub open spec fn parse_int(x: Seq<u8>) -> Option<(int, Seq<u8>)> {
    if x.len() > 0 && x[0] == 45 {
        match parse_nat(x.drop_first()) {
            Some((n, r)) => Some((-n, r)),
            None => None,
        }
    } else {
        match parse_nat(x) {
            Some((n, r)) => Some((n as int, r)),
            None => None,
        }
    }
}

/// A number: an integer, then optionally `e` and an integer exponent.
pub open spec fn parse_number(x: Seq<u8>) -> Option<(Shape, Seq<u8>)> {
    match parse_int(x) {
        Some((m, r)) => if r.len() > 0 && r[0] == 101 {
            match parse_int(r.drop_first()) {
                Some((e, r2)) => Some((Shape::Num(m, e), r2)),
                None => None,
            }
        } else {
            Some((Shape::Num(m, 0), r))
        },
        None => None,
    }
}

/// The bytes of a string body up to its closing quote, and what follows it.
pub open spec fn parse_chars(x: Seq<u8>) -> Option<(Seq<u8>, Seq<u8>)>
    decreases x.len(),
{
    if x.len() == 0 {
        None
    } else if x[0] == 34 {
        Some((Seq::empty(), x.drop_first()))
    } else if x[0] == 92 {
        if x.len() >= 2 && (x[1] == 34 || x[1] == 92) {
            match parse_chars(x.subrange(2, x.len() as int)) {
                Some((b, r)) => Some((seq![x[1]] + b, r)),
                None => None,
            }
        } else if x.len() >= 6 && x[1] == 117 && x[2] == 48 && x[3] == 48 && is_hex(x[4])
            && is_hex(x[5]) {
            match parse_chars(x.subrange(6, x.len() as int)) {
                Some((b, r)) => Some((seq![(hex_value(x[4]) * 16 + hex_value(x[5])) as u8] + b, r)),
                None => None,
            }
        } else {
            None
        }
    } else {
        match parse_chars(x.drop_first()) {
            Some((b, r)) => Some((seq![x[0]] + b, r)),
            None => None,
        }
    }
}

pub open spec fn starts(x: Seq<u8>, b: u8) -> bool {
    x.len() > 0 && x[0] == b
}

/// One encoded term, and what follows it.
pub open spec fn parse_value(x: Seq<u8>) -> Option<(Shape, Seq<u8>)>
    decreases x.len(), 0nat,
{
    if x.len() == 0 {
        None
    } else if x[0] == 110 {
        if x.len() >= 4 && x.subrange(0, 4) == null_text() {
            Some((Shape::Null, x.subrange(4, x.len() as int)))
        } else {
            None
        }
    } else if x[0] == 116 {
        if x.len() >= 4 && x.subrange(0, 4) == bool_text(true) {
            Some((Shape::Bool(true), x.subrange(4, x.len() as int)))
        } else {
            None
        }
    } else if x[0] == 102 {
        if x.len() >= 5 && x.subrange(0, 5) == bool_text(false) {
            Some((Shape::Bool(false), x.subrange(5, x.len() as int)))
        } else {
            None
        }
    } else if x[0] == 34 {
        match parse_chars(x.drop_first()) {
            Some((b, r)) => Some((Shape::Str(b), r)),
            None => None,
        }
    } else if x[0] == 45 || is_digit(x[0]) {
        parse_number(x)
    } else if x[0] == 123 {
        parse_object(x.drop_first())
    } else if x[0] == 91 {
        parse_op(x.drop_first())
    } else {
        None
    }
}

/// The rest of an object after `{`.
pub open spec fn parse_object(y: Seq<u8>) -> Option<(Shape, Seq<u8>)>
    decreases y.len(), 2nat,
{
    if starts(y, 125) {
        Some((Shape::Obj(Seq::empty()), y.drop_first()))
    } else {
        match parse_pairs(y) {
            Some((ps, r)) => if starts(r, 125) {
                Some((Shape::Obj(ps), r.drop_first()))
            } else {
                None
            },
            None => None,
        }
    }
}

/// Comma-separated terms.
pub open spec fn parse_list(y: Seq<u8>) -> Option<(Seq<Shape>, Seq<u8>)>
    decreases y.len(), 1nat,
{
    match parse_value(y) {
        Some((v, r)) => if r.len() < y.len() && starts(r, 44) {
            match parse_list(r.drop_first()) {
                Some((vs, r2)) => Some((seq![v] + vs, r2)),
                None => None,
            }
        } else {
            Some((seq![v], r))
        },
        None => None,
    }
}

/// Comma-separated `"key":term` pairs.
pub open spec fn parse_pairs(y: Seq<u8>) -> Option<(Seq<(Seq<u8>, Shape)>, Seq<u8>)>
    decreases y.len(), 1nat,
{
    if starts(y, 34) {
        match parse_chars(y.drop_first()) {
            Some((k, r1)) => if r1.len() < y.len() && starts(r1, 58) {
                match parse_value(r1.drop_first()) {
                    Some((v, r2)) => if r2.len() < y.len() && starts(r2, 44) {
                        match parse_pairs(r2.drop_first()) {
                            Some((ps, r3)) => Some((seq![(k, v)] + ps, r3)),
                            None => None,
                        }
                    } else {
                        Some((seq![(k, v)], r2))
                    },
                    None => None,
                }
            } else {
                None
            },
            None => None,
        }
    } else {
        None
    }
}

/// The positional arguments of an operation node: `,[` terms `]`, or nothing.
pub open spec fn parse_args(y: Seq<u8>) -> Option<(Seq<Shape>, Seq<u8>)>
    decreases y.len(), 2nat,
{
    if y.len() >= 2 && y[0] == 44 && y[1] == 91 {
        let z = y.subrange(2, y.len() as int);
        if starts(z, 93) {
            Some((Seq::empty(), z.drop_first()))
        } else {
            match parse_list(z) {
                Some((vs, r)) => if starts(r, 93) {
                    Some((vs, r.drop_first()))
                } else {
                    None
                },
                None => None,
            }
        }
    } else {
        Some((Seq::empty(), y))
    }
}

/// The named options of an operation node: `,{` pairs `}`, or nothing.
pub open spec fn parse_opts(y: Seq<u8>) -> Option<(Seq<(Seq<u8>, Shape)>, Seq<u8>)>
    decreases y.len(), 2nat,
{
    if y.len() >= 2 && y[0] == 44 && y[1] == 123 {
        let z = y.subrange(2, y.len() as int);
        if starts(z, 125) {
            Some((Seq::empty(), z.drop_first()))
        } else {
            match parse_pairs(z) {
                Some((ps, r)) => if starts(r, 125) {
                    Some((ps, r.drop_first()))
                } else {
                    None
                },
                None => None,
            }
        }
    } else {
        Some((Seq::empty(), y))
    }
}

/// The rest of an operation node after `[`.
pub open spec fn parse_op(y: Seq<u8>) -> Option<(Shape, Seq<u8>)>
    decreases y.len(), 3nat,
{
    match parse_nat(y) {
        Some((c, r1)) => if r1.len() < y.len() {
            match parse_args(r1) {
                Some((vs, r2)) => if r2.len() <= r1.len() {
                    match parse_opts(r2) {
                        Some((ps, r3)) => if starts(r3, 93) {
                            Some((Shape::Op(c, vs, ps), r3.drop_first()))
                        } else {
                            None
                        },
                        None => None,
                    }
                } else {
                    None
                },
                None => None,
            }
        } else {
            None
        },
        None => None,
    }
}

/// What may follow an encoded term: nothing, or a separator or closing
/// bracket of the enclosing list or object.
pub open spec fn stops(rest: Seq<u8>) -> bool {
    rest.len() == 0 || rest[0] == 44 || rest[0] == 93 || rest[0] == 125
}

proof fn lemma_digits(n: nat)
    ensures
        digits(n).len() >= 1,
        forall|i: int| 0 <= i < digits(n).len() ==> is_digit(#[trigger] digits(n)[i]),
        digits_value(digits(n)) == n,
    decreases n,
{
    let d = digits(n);
    if n >= 10 {
        lemma_digits(n / 10);
        assert(d.drop_last() =~= digits(n / 10));
        assert(d.last() == (48 + n % 10) as u8);
        assert(digits_value(d) == digits_value(digits(n / 10)) * 10 + (n % 10));
        assert((n / 10) * 10 + n % 10 == n) by (nonlinear_arith);
    } else {
        assert(d.drop_last() =~= Seq::<u8>::empty());
        assert(digits_value(Seq::<u8>::empty()) == 0);
        assert(digits_value(d) == digits_value(d.drop_last()) * 10 + (d.last() - 48) as nat);
    }
}

proof fn lemma_digit_run(a: Seq<u8>, rest: Seq<u8>)
    requires
        forall|i: int| 0 <= i < a.len() ==> is_digit(#[trigger] a[i]),
        !(rest.len() > 0 && is_digit(rest[0])),
    ensures
        digit_run(a + rest) == a.len(),
    decreases a.len(),
{
    if a.len() == 0 {
        assert(a + rest =~= rest);
    } else {
        assert((a + rest).drop_first() =~= a.drop_first() + rest);
        lemma_digit_run(a.drop_first(), rest);
    }
}

#[verifier::rlimit(40)]
proof fn lemma_parse_nat(n: nat, rest: Seq<u8>)
    requires
        !(rest.len() > 0 && is_digit(rest[0])),
    ensures
        parse_nat(digits(n) + rest) == Some((n, rest)),
{
    lemma_digits(n);
    lemma_digit_run(digits(n), rest);
    let x = digits(n) + rest;
    let k = digits(n).len();
    assert(x.subrange(0, k as int) =~= digits(n));
    assert(x.subrange(k as int, x.len() as int) =~= rest);
}

#[verifier::rlimit(40)]
proof fn lemma_parse_int(n: int, rest: Seq<u8>)
    requires
        !(rest.len() > 0 && is_digit(rest[0])),
    ensures
        parse_int(int_text(n) + rest) == Some((n, rest)),
{
    if n < 0 {
        let m = (-n) as nat;
        lemma_parse_nat(m, rest);
        assert((int_text(n) + rest).drop_first() =~= digits(m) + rest);
    } else {
        lemma_digits(n as nat);
        lemma_parse_nat(n as nat, rest);
    }
}

proof fn lemma_number_exp(x: Seq<u8>, m: int, r: Seq<u8>, e: int, r2: Seq<u8>)
    requires
        parse_int(x) == Some((m, r)),
        starts(r, 101),
        parse_int(r.drop_first()) == Some((e, r2)),
    ensures
        parse_number(x) == Some((Shape::Num(m, e), r2)),
{
}

proof fn lemma_number_plain(x: Seq<u8>, m: int, r: Seq<u8>)
    requires
        parse_int(x) == Some((m, r)),
        !starts(r, 101),
    ensures
        parse_number(x) == Some((Shape::Num(m, 0), r)),
{
}

#[verifier::rlimit(30)]
proof fn lemma_parse_number(m: int, e: int, rest: Seq<u8>)
    requires
        stops(rest),
    ensures
        parse_number(
            if e == 0 {
                int_text(m)
            } else {
                int_text(m) + seq![101u8] + int_text(e)
            } + rest,
        ) == Some((Shape::Num(m, e), rest)),
{
    if e == 0 {
        lemma_parse_int(m, rest);
        lemma_number_plain(int_text(m) + rest, m, rest);
    } else {
        let tail = seq![101u8] + int_text(e) + rest;
        let x = int_text(m) + seq![101u8] + int_text(e) + rest;
        assert(x =~= int_text(m) + tail);
        lemma_parse_int(m, tail);
        assert(tail.drop_first() =~= int_text(e) + rest);
        lemma_parse_int(e, rest);
        lemma_number_exp(x, m, tail, e, rest);
    }
}

proof fn lemma_escaped_front(b: Seq<u8>)
    requires
        b.len() > 0,
    ensures
        escaped(b) == esc_byte(b[0]) + escaped(b.drop_first()),
    decreases b.len(),
{
    if b.len() == 1 {
        assert(b.drop_last() =~= Seq::<u8>::empty());
        assert(b.drop_first() =~= Seq::<u8>::empty());
        assert(escaped(b) =~= esc_byte(b[0]) + escaped(b.drop_first()));
    } else {
        lemma_escaped_front(b.drop_last());
        assert(b.drop_last().drop_first() =~= b.drop_first().drop_last());
        assert(escaped(b) =~= esc_byte(b[0]) + escaped(b.drop_first()));
    }
}

#[verifier::rlimit(40)]
proof fn lemma_parse_chars(b: Seq<u8>, rest: Seq<u8>)
    ensures
        parse_chars(escaped(b) + seq![34u8] + rest) == Some((b, rest)),
    decreases b.len(),
{
    let x = escaped(b) + seq![34u8] + rest;
    if b.len() == 0 {
        assert(x =~= seq![34u8] + rest);
        assert(x.drop_first() =~= rest);
    } else {
        lemma_escaped_front(b);
        let b0 = b[0];
        let tail = escaped(b.drop_first()) + seq![34u8] + rest;
        assert(x =~= esc_byte(b0) + tail);
        lemma_parse_chars(b.drop_first(), rest);
        if b0 == 34 || b0 == 92 {
            assert(x.subrange(2, x.len() as int) =~= tail);
            assert(seq![b0] + b.drop_first() =~= b);
        } else if b0 < 32 {
            let hi = (b0 / 16) as u8;
            let lo = (b0 % 16) as u8;
            assert(x[4] == hex_digit(hi));
            assert(x[5] == hex_digit(lo));
            assert(hex_value(hex_digit(hi)) == hi);
            assert(hex_value(hex_digit(lo)) == lo);
            assert(x.subrange(6, x.len() as int) =~= tail);
            assert(seq![b0] + b.drop_first() =~= b);
        } else {
            assert(x.drop_first() =~= tail);
            assert(seq![b0] + b.drop_first() =~= b);
        }
    }
}

proof fn lemma_parse_quoted(s: Seq<char>, rest: Seq<u8>)
    ensures
        parse_chars((quoted(s) + rest).drop_first()) == Some((encode_utf8(s), rest)),
        (quoted(s) + rest)[0] == 34,
{
    assert((quoted(s) + rest).drop_first() =~= escaped(encode_utf8(s)) + seq![34u8] + rest);
    lemma_parse_chars(encode_utf8(s), rest);
}

proof fn lemma_enc_list_front(s: Seq<Term>, n: nat)
    requires
        2 <= n <= s.len(),
    ensures
        enc_list(s, n) == enc(s[0]) + seq![44u8] + enc_list(s.drop_first(), (n - 1) as nat),
    decreases n,
{
    let df = s.drop_first();
    assert(df[n - 2] == s[n - 1]);
    assert(enc_list(s, n) == enc_list(s, (n - 1) as nat) + seq![44u8] + enc(s[n - 1]));
    if n > 2 {
        lemma_enc_list_front(s, (n - 1) as nat);
        assert(enc_list(df, (n - 1) as nat) == enc_list(df, (n - 2) as nat) + seq![44u8] + enc(
            df[n - 2],
        ));
    } else {
        assert(enc_list(s, 1) == enc(s[0]));
        assert(enc_list(df, 1) == enc(df[0]));
    }
    assert(enc_list(s, n) =~= enc(s[0]) + seq![44u8] + enc_list(df, (n - 1) as nat));
}

proof fn lemma_shape_list_front(s: Seq<Term>, n: nat)
    requires
        1 <= n <= s.len(),
    ensures
        shape_list(s, n) == seq![shape(s[0])] + shape_list(s.drop_first(), (n - 1) as nat),
    decreases n,
{
    let df = s.drop_first();
    assert(shape_list(s, n) == shape_list(s, (n - 1) as nat).push(shape(s[n - 1])));
    if n > 1 {
        lemma_shape_list_front(s, (n - 1) as nat);
        assert(df[n - 2] == s[n - 1]);
        assert(shape_list(df, (n - 1) as nat) == shape_list(df, (n - 2) as nat).push(
            shape(df[n - 2]),
        ));
    } else {
        assert(shape_list(s, 0) == Seq::<Shape>::empty());
        assert(shape_list(df, 0) == Seq::<Shape>::empty());
    }
    assert(shape_list(s, n) =~= seq![shape(s[0])] + shape_list(df, (n - 1) as nat));
}

pub open spec fn pair_text(p: (String, Term)) -> Seq<u8> {
    quoted(p.0@) + seq![58u8] + enc(p.1)
}

proof fn lemma_enc_pairs_front(s: Seq<(String, Term)>, n: nat)
    requires
        1 <= n <= s.len(),
    ensures
        n == 1 ==> enc_pairs(s, n) == pair_text(s[0]),
        n >= 2 ==> enc_pairs(s, n) == pair_text(s[0]) + seq![44u8] + enc_pairs(
            s.drop_first(),
            (n - 1) as nat,
        ),
    decreases n,
{
    let df = s.drop_first();
    if n >= 2 {
        assert(df[n - 2] == s[n - 1]);
        assert(enc_pairs(s, n) == enc_pairs(s, (n - 1) as nat) + seq![44u8] + pair_text(
            s[n - 1],
        ));
        if n > 2 {
            lemma_enc_pairs_front(s, (n - 1) as nat);
            assert(enc_pairs(df, (n - 1) as nat) == enc_pairs(df, (n - 2) as nat) + seq![44u8]
                + pair_text(df[n - 2]));
        } else {
            assert(enc_pairs(s, 1) == pair_text(s[0]));
            assert(enc_pairs(df, 1) == pair_text(df[0]));
        }
        assert(enc_pairs(s, n) =~= pair_text(s[0]) + seq![44u8] + enc_pairs(
            df,
            (n - 1) as nat,
        ));
    } else {
        assert(enc_pairs(s, 1) == pair_text(s[0]));
    }
}

proof fn lemma_shape_pairs_front(s: Seq<(String, Term)>, n: nat)
    requires
        1 <= n <= s.len(),
    ensures
        shape_pairs(s, n) == seq![(encode_utf8(s[0].0@), shape(s[0].1))] + shape_pairs(
            s.drop_first(),
            (n - 1) as nat,
        ),
    decreases n,
{
    let df = s.drop_first();
    assert(shape_pairs(s, n) == shape_pairs(s, (n - 1) as nat).push(
        (encode_utf8(s[n - 1].0@), shape(s[n - 1].1)),
    ));
    if n > 1 {
        lemma_shape_pairs_front(s, (n - 1) as nat);
        assert(df[n - 2] == s[n - 1]);
        assert(shape_pairs(df, (n - 1) as nat) == shape_pairs(df, (n - 2) as nat).push(
            (encode_utf8(df[n - 2].0@), shape(df[n - 2].1)),
        ));
    } else {
        assert(shape_pairs(s, 0) == Seq::<(Seq<u8>, Shape)>::empty());
        assert(shape_pairs(df, 0) == Seq::<(Seq<u8>, Shape)>::empty());
    }
    assert(shape_pairs(s, n) =~= seq![(encode_utf8(s[0].0@), shape(s[0].1))] + shape_pairs(
        s.drop_first(),
        (n - 1) as nat,
    ));
}

proof fn lemma_enc_nonempty(t: Term)
    ensures
        enc(t).len() > 0,
{
    match t {
        Term::Num(d) => {
            lemma_digits(d.mantissa as nat);
            lemma_digits((-d.mantissa) as nat);
        },
        _ => {},
    }
}

#[verifier::rlimit(40)]
proof fn lemma_parse_leaf(t: Term, rest: Seq<u8>)
    requires
        stops(rest),
        !(t is Array || t is Object || t is Op),
    ensures
        parse_value(enc(t) + rest) == Some((shape(t), rest)),
{
    let x = enc(t) + rest;
    match t {
        Term::Null => {
            assert(x.subrange(0, 4) =~= null_text());
            assert(x.subrange(4, x.len() as int) =~= rest);
        },
        Term::Bool(b) => {
            if b {
                assert(x.subrange(0, 4) =~= bool_text(true));
                assert(x.subrange(4, x.len() as int) =~= rest);
            } else {
                assert(x.subrange(0, 5) =~= bool_text(false));
                assert(x.subrange(5, x.len() as int) =~= rest);
            }
        },
        Term::Num(d) => {
            let m = d.mantissa as int;
            lemma_parse_number(m, d.exponent as int, rest);
            if m < 0 {
                assert(x[0] == 45);
            } else {
                lemma_digits(m as nat);
                assert(x[0] == digits(m as nat)[0]);
            }
            assert(parse_value(x) == parse_number(x));
        },
        Term::Str(st) => {
            lemma_parse_quoted(st@, rest);
        },
        _ => {},
    }
}

proof fn lemma_enc_first(t: Term)
    ensures
        enc(t).len() > 0,
        enc(t)[0] != 93,
        enc(t)[0] != 125,
{
    lemma_enc_nonempty(t);
    match t {
        Term::Num(d) => {
            if d.mantissa >= 0 {
                lemma_digits(d.mantissa as nat);
                assert(enc(t)[0] == digits(d.mantissa as nat)[0]);
            }
        },
        _ => {},
    }
}

proof fn lemma_enc_list_first(s: Seq<Term>, n: nat)
    requires
        1 <= n <= s.len(),
    ensures
        enc_list(s, n).len() > 0,
        enc_list(s, n)[0] != 93,
{
    lemma_enc_first(s[0]);
    if n == 1 {
        assert(enc_list(s, 1) == enc(s[0]));
    } else {
        lemma_enc_list_front(s, n);
        assert(enc_list(s, n)[0] == enc(s[0])[0]);
    }
}

proof fn lemma_op_parts(
    y: Seq<u8>,
    c: nat,
    r1: Seq<u8>,
    vs: Seq<Shape>,
    r2: Seq<u8>,
    ps: Seq<(Seq<u8>, Shape)>,
    rest: Seq<u8>,
)
    requires
        parse_nat(y) == Some((c, r1)),
        r1.len() < y.len(),
        parse_args(r1) == Some((vs, r2)),
        r2.len() <= r1.len(),
        parse_opts(r2) == Some((ps, seq![93u8] + rest)),
    ensures
        parse_op(y) == Some((Shape::Op(c, vs, ps), rest)),
{
    assert((seq![93u8] + rest).drop_first() =~= rest);
}

proof fn lemma_args_list(l: Seq<u8>, vs: Seq<Shape>, r2: Seq<u8>)
    requires
        l.len() > 0,
        l[0] != 93,
        parse_list(l + (seq![93u8] + r2)) == Some((vs, seq![93u8] + r2)),
    ensures
        parse_args(seq![44u8, 91u8] + l + seq![93u8] + r2) == Some((vs, r2)),
{
    let y = seq![44u8, 91u8] + l + seq![93u8] + r2;
    assert(y.subrange(2, y.len() as int) =~= l + (seq![93u8] + r2));
    assert((seq![93u8] + r2).drop_first() =~= r2);
}

proof fn lemma_args_empty_list(r2: Seq<u8>)
    ensures
        parse_args(seq![44u8, 91u8, 93u8] + r2) == Some((Seq::<Shape>::empty(), r2)),
{
    let y = seq![44u8, 91u8, 93u8] + r2;
    assert(y.subrange(2, y.len() as int).drop_first() =~= r2);
}

proof fn lemma_args_none(r2: Seq<u8>)
    requires
        !(r2.len() >= 2 && r2[0] == 44 && r2[1] == 91),
    ensures
        parse_args(r2) == Some((Seq::<Shape>::empty(), r2)),
{
}

proof fn lemma_opts_pairs(p: Seq<u8>, ps: Seq<(Seq<u8>, Shape)>, r3: Seq<u8>)
    requires
        p.len() > 0,
        p[0] == 34,
        parse_pairs(p + (seq![125u8] + r3)) == Some((ps, seq![125u8] + r3)),
    ensures
        parse_opts(seq![44u8, 123u8] + p + seq![125u8] + r3) == Some((ps, r3)),
{
    let y = seq![44u8, 123u8] + p + seq![125u8] + r3;
    assert(y.subrange(2, y.len() as int) =~= p + (seq![125u8] + r3));
    assert((seq![125u8] + r3).drop_first() =~= r3);
}

proof fn lemma_opts_none(r3: Seq<u8>)
    requires
        !(r3.len() >= 2 && r3[0] == 44 && r3[1] == 123),
    ensures
        parse_opts(r3) == Some((Seq::<(Seq<u8>, Shape)>::empty(), r3)),
{
}

proof fn lemma_enc_pairs_first(s: Seq<(String, Term)>, n: nat)
    requires
        1 <= n <= s.len(),
    ensures
        enc_pairs(s, n).len() > 0,
        enc_pairs(s, n)[0] == 34,
{
    lemma_enc_pairs_front(s, n);
}

#[verifier::rlimit(40)]
proof fn lemma_parse_array(t: Term, rest: Seq<u8>)
    requires
        stops(rest),
        t is Array,
    ensures
        parse_value(enc(t) + rest) == Some((shape(t), rest)),
    decreases t, 0nat,
{
    let items = t->Array_0;
    let x = enc(t) + rest;
    let n = items@.len() as nat;
    let l = enc_list(items@, n);
    let r2 = seq![93u8] + rest;
    let r1 = seq![44u8, 91u8] + l + seq![93u8] + r2;
    assert(x[0] == 91);
    assert(x.drop_first() =~= digits(2) + r1);
    assert(parse_value(x) == parse_op(x.drop_first()));
    lemma_parse_nat(2, r1);
    if n == 0 {
        assert(r1 =~= seq![44u8, 91u8, 93u8] + r2);
        lemma_args_empty_list(r2);
    } else {
        lemma_enc_list_first(items@, n);
        lemma_parse_list(items@, n, seq![93u8] + r2);
        lemma_args_list(l, shape_list(items@, n), r2);
    }
    lemma_opts_none(r2);
    lemma_op_parts(x.drop_first(), 2, r1, shape_list(items@, n), r2, Seq::empty(), rest);
}

#[verifier::rlimit(40)]
proof fn lemma_parse_object(t: Term, rest: Seq<u8>)
    requires
        stops(rest),
        t is Object,
    ensures
        parse_value(enc(t) + rest) == Some((shape(t), rest)),
    decreases t, 0nat,
{
    let pairs = t->Object_0;
    let x = enc(t) + rest;
    let n = pairs@.len() as nat;
    let p = enc_pairs(pairs@, n);
    let y = x.drop_first();
    assert(x[0] == 123);
    assert(y =~= p + (seq![125u8] + rest));
    assert(parse_value(x) == parse_object(y));
    assert((seq![125u8] + rest).drop_first() =~= rest);
    if n > 0 {
        lemma_parse_pairs(pairs@, n, seq![125u8] + rest);
    }
}

proof fn lemma_enc_op_form(t: Term)
    requires
        t is Op,
    ensures
        enc(t) == seq![91u8] + digits(t->Op_0 as nat) + (if t->Op_1@.len() == 0 {
            Seq::<u8>::empty()
        } else {
            seq![44u8, 91u8] + enc_list(t->Op_1@, t->Op_1@.len() as nat) + seq![93u8]
        }) + (if t->Op_2@.len() == 0 {
            Seq::<u8>::empty()
        } else {
            seq![44u8, 123u8] + enc_pairs(t->Op_2@, t->Op_2@.len() as nat) + seq![125u8]
        }) + seq![93u8],
{
}

proof fn lemma_value_op(x: Seq<u8>)
    requires
        x.len() > 0,
        x[0] == 91,
    ensures
        parse_value(x) == parse_op(x.drop_first()),
{
}

#[verifier::rlimit(80)]
proof fn lemma_parse_op(t: Term, rest: Seq<u8>)
    requires
        stops(rest),
        t is Op,
    ensures
        parse_value(enc(t) + rest) == Some((shape(t), rest)),
    decreases t, 0nat,
{
    let c = t->Op_0;
    let args = t->Op_1;
    let opts = t->Op_2;
    let x = enc(t) + rest;
    let na = args@.len() as nat;
    let no = opts@.len() as nat;
    let l = enc_list(args@, na);
    let p = enc_pairs(opts@, no);
    let a = if na == 0 {
        Seq::<u8>::empty()
    } else {
        seq![44u8, 91u8] + l + seq![93u8]
    };
    let o = if no == 0 {
        Seq::<u8>::empty()
    } else {
        seq![44u8, 123u8] + p + seq![125u8]
    };
    let r3 = seq![93u8] + rest;
    let r2 = o + r3;
    let r1 = a + r2;
    lemma_enc_op_form(t);
    assert(x =~= seq![91u8] + (digits(c as nat) + r1));
    assert(x.drop_first() =~= digits(c as nat) + r1);
    lemma_value_op(x);
    lemma_parse_nat(c as nat, r1);
    if na > 0 {
        lemma_enc_list_first(args@, na);
        lemma_parse_list(args@, na, seq![93u8] + r2);
        assert(r1 =~= seq![44u8, 91u8] + l + seq![93u8] + r2);
        lemma_args_list(l, shape_list(args@, na), r2);
    } else {
        assert(r1 =~= r2);
        assert(shape_list(args@, na) == Seq::<Shape>::empty());
        lemma_args_none(r2);
    }
    if no > 0 {
        lemma_enc_pairs_first(opts@, no);
        lemma_parse_pairs(opts@, no, seq![125u8] + r3);
        assert(r2 =~= seq![44u8, 123u8] + p + seq![125u8] + r3);
        lemma_opts_pairs(p, shape_pairs(opts@, no), r3);
    } else {
        assert(r2 =~= r3);
        assert(shape_pairs(opts@, no) == Seq::<(Seq<u8>, Shape)>::empty());
        lemma_opts_none(r3);
    }
    lemma_op_parts(x.drop_first(), c as nat, r1, shape_list(args@, na), r2, shape_pairs(opts@, no), rest);
}

proof fn lemma_parse_term(t: Term, rest: Seq<u8>)
    requires
        stops(rest),
    ensures
        parse_value(enc(t) + rest) == Some((shape(t), rest)),
    decreases t, 1nat,
{
    match t {
        Term::Array(_) => lemma_parse_array(t, rest),
        Term::Object(_) => lemma_parse_object(t, rest),
        Term::Op(..) => lemma_parse_op(t, rest),
        _ => lemma_parse_leaf(t, rest),
    }
}

#[verifier::rlimit(40)]
proof fn lemma_parse_list(s: Seq<Term>, n: nat, rest: Seq<u8>)
    requires
        1 <= n <= s.len(),
        starts(rest, 93),
    ensures
        parse_list(enc_list(s, n) + rest) == Some((shape_list(s, n), rest)),
    decreases s, n,
{
    lemma_shape_list_front(s, n);
    lemma_enc_nonempty(s[0]);
    if n == 1 {
        assert(enc_list(s, 1) == enc(s[0]));
        lemma_parse_term(s[0], rest);
        assert(shape_list(s.drop_first(), 0) == Seq::<Shape>::empty());
        assert(seq![shape(s[0])] + Seq::<Shape>::empty() =~= seq![shape(s[0])]);
    } else {
        lemma_enc_list_front(s, n);
        let df = s.drop_first();
        let tail = seq![44u8] + enc_list(df, (n - 1) as nat) + rest;
        assert(enc_list(s, n) + rest =~= enc(s[0]) + tail);
        lemma_parse_term(s[0], tail);
        assert(tail.drop_first() =~= enc_list(df, (n - 1) as nat) + rest);
        assert(decreases_to!(s => df));
        lemma_parse_list(df, (n - 1) as nat, rest);
    }
}

#[verifier::rlimit(100)]
proof fn lemma_parse_pairs(s: Seq<(String, Term)>, n: nat, rest: Seq<u8>)
    requires
        1 <= n <= s.len(),
        starts(rest, 125),
    ensures
        parse_pairs(enc_pairs(s, n) + rest) == Some((shape_pairs(s, n), rest)),
    decreases s, n,
{
    lemma_shape_pairs_front(s, n);
    lemma_enc_pairs_front(s, n);
    let p = s[0];
    lemma_enc_nonempty(p.1);
    let df = s.drop_first();
    let after = if n == 1 {
        rest
    } else {
        seq![44u8] + enc_pairs(df, (n - 1) as nat) + rest
    };
    let x = enc_pairs(s, n) + rest;
    assert(x =~= quoted(p.0@) + (seq![58u8] + enc(p.1) + after));
    lemma_parse_quoted(p.0@, seq![58u8] + enc(p.1) + after);
    assert((seq![58u8] + enc(p.1) + after).drop_first() =~= enc(p.1) + after);
    lemma_parse_term(p.1, after);
    if n == 1 {
        assert(shape_pairs(df, 0) == Seq::<(Seq<u8>, Shape)>::empty());
        assert(seq![(encode_utf8(p.0@), shape(p.1))] + Seq::<(Seq<u8>, Shape)>::empty() =~= seq![
            (encode_utf8(p.0@), shape(p.1)),
        ]);
    } else {
        assert(after.drop_first() =~= enc_pairs(df, (n - 1) as nat) + rest);
        assert(decreases_to!(s => df));
        lemma_parse_pairs(df, (n - 1) as nat, rest);
    }
}

/// The bytes of `b` from position `p` on.
pub open spec fn suf(b: Seq<u8>, p: int) -> Seq<u8> {
    b.subrange(p, b.len() as int)
}

proof fn lemma_digits_value_mono(s: Seq<u8>, k: int)
    requires
        0 <= k <= s.len(),
        forall|i: int| 0 <= i < s.len() ==> is_digit(#[trigger] s[i]),
    ensures
        digits_value(s.subrange(0, k)) <= digits_value(s),
    decreases s.len(),
{
    if k < s.len() {
        assert(s.drop_last().subrange(0, k) =~= s.subrange(0, k));
        lemma_digits_value_mono(s.drop_last(), k);
    } else {
        assert(s.subrange(0, k) =~= s);
    }
}

/// Reads a natural number at `p`.
fn nat_at(b: &[u8], p: usize) -> (r: Option<(u128, usize)>)
    requires
        p <= b@.len(),
    ensures
        r matches Some((v, q)) ==> p < q <= b@.len() && parse_nat(suf(b@, p as int)) == Some(
            (v as nat, suf(b@, q as int)),
        ),
        (parse_nat(suf(b@, p as int)) matches Some((n, _)) && n <= u128::MAX) ==> r is Some,
{
    let n = b.len();
    let mut q: usize = p;
    let mut v: u128 = 0;
    let mut overflow = false;
    while q < n && 48 <= b[q] && b[q] <= 57
        invariant
            n == b@.len(),
            p <= q <= n,
            forall|i: int| p <= i < q ==> is_digit(#[trigger] b@[i]),
            digit_run(suf(b@, p as int)) == (q - p) + digit_run(suf(b@, q as int)),
            !overflow ==> v as nat == digits_value(b@.subrange(p as int, q as int)),
            overflow ==> digits_value(b@.subrange(p as int, q as int)) > u128::MAX,
        decreases n - q,
    {
        let d = (b[q] - 48) as u128;
        proof {
            assert(suf(b@, q as int).drop_first() =~= suf(b@, q + 1));
            let pre = b@.subrange(p as int, q + 1);
            assert(pre.drop_last() =~= b@.subrange(p as int, q as int));
        }
        if !overflow {
            if v > (u128::MAX - d) / 10 {
                overflow = true;
                proof {
                    assert(v * 10 + d > u128::MAX) by (nonlinear_arith)
                        requires
                            v > (u128::MAX - d) / 10,
                            d <= 9,
                    ;
                }
            } else {
                proof {
                    assert(v * 10 + d <= u128::MAX) by (nonlinear_arith)
                        requires
                            v <= (u128::MAX - d) / 10,
                            d <= 9,
                    ;
                }
                v = v * 10 + d;
            }
        } else {
            proof {
                let pre = b@.subrange(p as int, q + 1);
                assert(digits_value(pre) == digits_value(pre.drop_last()) * 10 + d);
            }
        }
        q += 1;
    }
    proof {
        if q < n {
            assert(!is_digit(b@[q as int]));
            assert(digit_run(suf(b@, q as int)) == 0);
        } else {
            assert(suf(b@, q as int).len() == 0);
        }
        let x = suf(b@, p as int);
        let k = (q - p) as int;
        assert(x.subrange(0, k) =~= b@.subrange(p as int, q as int));
        assert(x.subrange(k, x.len() as int) =~= suf(b@, q as int));
    }
    if q == p || overflow {
        None
    } else {
        Some((v, q))
    }
}

/// Reads an integer at `p`.
fn int_at(b: &[u8], p: usize) -> (r: Option<(i128, usize)>)
    requires
        p <= b@.len(),
    ensures
        r matches Some((v, q)) ==> p < q <= b@.len() && parse_int(suf(b@, p as int)) == Some(
            (v as int, suf(b@, q as int)),
        ),
        (parse_int(suf(b@, p as int)) matches Some((n, _)) && i128::MIN <= n <= i128::MAX) ==> r is Some,
{
    if p < b.len() && b[p] == 45 {
        proof {
            assert(suf(b@, p as int).drop_first() =~= suf(b@, p + 1));
        }
        match nat_at(b, p + 1) {
            Some((n, q)) => {
                if n > 0x8000_0000_0000_0000_0000_0000_0000_0000 {
                    None
                } else if n == 0x8000_0000_0000_0000_0000_0000_0000_0000 {
                    Some((i128::MIN, q))
                } else {
                    Some((-(n as i128), q))
                }
            },
            None => None,
        }
    } else {
        match nat_at(b, p) {
            Some((n, q)) => {
                if n > 0x7fff_ffff_ffff_ffff_ffff_ffff_ffff_ffff {
                    None
                } else {
                    Some((n as i128, q))
                }
            },
            None => None,
        }
    }
}

/// Reads a number at `p`.
fn number_at(b: &[u8], p: usize) -> (r: Option<(Decimal, usize)>)
    requires
        p <= b@.len(),
    ensures
        r matches Some((d, q)) ==> p < q <= b@.len() && parse_number(suf(b@, p as int)) == Some(
            (Shape::Num(d.mantissa as int, d.exponent as int), suf(b@, q as int)),
        ),
        (parse_number(suf(b@, p as int)) matches Some((Shape::Num(m, e), _)) && i128::MIN <= m
            <= i128::MAX && i32::MIN <= e <= i32::MAX) ==> r is Some,
{
    match int_at(b, p) {
        Some((m, q)) => {
            if q < b.len() && b[q] == 101 {
                proof {
                    assert(suf(b@, q as int).drop_first() =~= suf(b@, q + 1));
                }
                match int_at(b, q + 1) {
                    Some((e, q2)) => {
                        if e < i32::MIN as i128 || e > i32::MAX as i128 {
                            None
                        } else {
                            Some((Decimal { mantissa: m, exponent: e as i32 }, q2))
                        }
                    },
                    None => None,
                }
            } else {
                Some((Decimal { mantissa: m, exponent: 0 }, q))
            }
        },
        None => None,
    }
}

pub open spec fn with_prefix(a: Seq<u8>, r: Option<(Seq<u8>, Seq<u8>)>) -> Option<(Seq<u8>, Seq<u8>)> {
    match r {
        Some((x, rest)) => Some((a + x, rest)),
        None => None,
    }
}

/// Reads a string body at `p`, up to and past its closing quote.
fn chars_at(b: &[u8], p: usize) -> (r: Option<(Vec<u8>, usize)>)
    requires
        p <= b@.len(),
    ensures
        r is Some <==> parse_chars(suf(b@, p as int)) is Some,
        r matches Some((v, q)) ==> p < q <= b@.len() && parse_chars(suf(b@, p as int)) == Some(
            (v@, suf(b@, q as int)),
        ),
{
    let n = b.len();
    let mut acc: Vec<u8> = Vec::new();
    let mut q: usize = p;
    loop
        invariant
            n == b@.len(),
            p <= q <= n,
            parse_chars(suf(b@, p as int)) == with_prefix(acc@, parse_chars(suf(b@, q as int))),
        decreases n - q,
    {
        let ghost x = suf(b@, q as int);
        if q >= n {
            assert(x.len() == 0);
            return None;
        }
        let c = b[q];
        if c == 34 {
            assert(x.drop_first() =~= suf(b@, q + 1));
            assert(acc@ + Seq::<u8>::empty() =~= acc@);
            return Some((acc, q + 1));
        } else if c == 92 {
            if n - q > 1 && (b[q + 1] == 34 || b[q + 1] == 92) {
                let e = b[q + 1];
                assert(x.subrange(2, x.len() as int) =~= suf(b@, q + 2));
                proof {
                    let ghost old_acc = acc@;
                    assert(forall|y: Seq<u8>| old_acc + (seq![e] + y) =~= old_acc.push(e) + y);
                }
                acc.push(e);
                q += 2;
            } else if n - q > 5 && b[q + 1] == 117 && b[q + 2] == 48 && b[q + 3] == 48 && is_hex_byte(b[q + 4]) && is_hex_byte(b[q + 5]) {
                let v = (hex_of(b[q + 4]) * 16 + hex_of(b[q + 5])) as u8;
                assert(x.subrange(6, x.len() as int) =~= suf(b@, q + 6));
                proof {
                    let ghost old_acc = acc@;
                    assert(forall|y: Seq<u8>| old_acc + (seq![v] + y) =~= old_acc.push(v) + y);
                }
                acc.push(v);
                q += 6;
            } else {
                return None;
            }
        } else {
            assert(x.drop_first() =~= suf(b@, q + 1));
            proof {
                let ghost old_acc = acc@;
                assert(forall|y: Seq<u8>| old_acc + (seq![c] + y) =~= old_acc.push(c) + y);
            }
            acc.push(c);
            q += 1;
        }
    }
}

fn is_hex_byte(c: u8) -> (r: bool)
    ensures
        r == is_hex(c),
{
    (48 <= c && c <= 57) || (97 <= c && c <= 102)
}

fn hex_of(c: u8) -> (r: u8)
    requires
        is_hex(c),
    ensures
        r as int == hex_value(c),
        r < 16,
{
    if c <= 57 {
        c - 48
    } else {
        c - 87
    }
}

/// A shape that terms of this library can take: numbers within the ranges
/// of `Decimal`, text that is valid UTF-8, opcodes within `u32`.
pub open spec fn fits(s: Shape) -> bool
    decreases s,
{
    match s {
        Shape::Num(m, e) => i128::MIN <= m <= i128::MAX && i32::MIN <= e <= i32::MAX,
        Shape::Str(t) => valid_utf8(t),
        Shape::Obj(ps) => forall|i: int|
            0 <= i < ps.len() ==> valid_utf8(#[trigger] ps[i].0) && fits(ps[i].1),
        Shape::Op(c, vs, ps) => {
            &&& c <= u32::MAX
            &&& forall|i: int| 0 <= i < vs.len() ==> fits(#[trigger] vs[i])
            &&& forall|i: int| 0 <= i < ps.len() ==> valid_utf8(#[trigger] ps[i].0) && fits(ps[i].1)
        },
        _ => true,
    }
}

proof fn lemma_fits_parts(s: Shape)
    requires
        fits(s),
    ensures
        s matches Shape::Op(_, vs, ps) ==> fits_list(vs) && fits_pairs(ps),
        s matches Shape::Obj(ps) ==> fits_pairs(ps),
{
    match s {
        Shape::Op(_, vs, ps) => {
            assert(fits_list(vs));
            assert(fits_pairs(ps));
        },
        Shape::Obj(ps) => {
            assert(fits(Shape::Obj(ps)));
            assert forall|i: int| 0 <= i < ps.len() implies valid_utf8(#[trigger] ps[i].0) && fits(
                ps[i].1,
            ) by {
                assert(valid_utf8(ps[i].0) && fits(ps[i].1));
            }
        },
        _ => {},
    }
}

proof fn lemma_fits_op(c: nat, vs: Seq<Shape>, ps: Seq<(Seq<u8>, Shape)>)
    requires
        c <= u32::MAX,
        fits_list(vs),
        fits_pairs(ps),
    ensures
        fits(Shape::Op(c, vs, ps)),
{
    assert forall|i: int| 0 <= i < vs.len() implies fits(#[trigger] vs[i]) by {}
    assert forall|i: int| 0 <= i < ps.len() implies valid_utf8(#[trigger] ps[i].0) && fits(
        ps[i].1,
    ) by {
        lemma_fits_pair(ps, i);
    }
    reveal_with_fuel(fits, 2);
}

proof fn lemma_fits_pair(ps: Seq<(Seq<u8>, Shape)>, i: int)
    requires
        fits_pairs(ps),
        0 <= i < ps.len(),
    ensures
        valid_utf8(ps[i].0),
        fits(ps[i].1),
{
    assert(valid_utf8(ps[i].0) && fits(ps[i].1));
}

proof fn lemma_pairs_nonempty(y: Seq<u8>)
    ensures
        parse_pairs(y) matches Some((ps, _)) ==> ps.len() >= 1,
{
}

pub open spec fn fits_list(vs: Seq<Shape>) -> bool {
    forall|i: int| 0 <= i < vs.len() ==> fits(#[trigger] vs[i])
}

pub open spec fn fits_pairs(ps: Seq<(Seq<u8>, Shape)>) -> bool {
    forall|i: int| 0 <= i < ps.len() ==> valid_utf8(#[trigger] ps[i].0) && fits(ps[i].1)
}

/// Reads one encoded term at `p`.
fn value_at(b: &[u8], p: usize) -> (r: Option<(Term, usize)>)
    requires
        p <= b@.len(),
    ensures
        r matches Some((t, q)) ==> p < q <= b@.len() && parse_value(suf(b@, p as int)) == Some(
            (shape(t), suf(b@, q as int)),
        ),
        (parse_value(suf(b@, p as int)) matches Some((s, _)) && fits(s)) ==> r is Some,
    decreases b@.len() - p, 0nat,
{
    let n = b.len();
    let ghost x = suf(b@, p as int);
    if p >= n {
        return None;
    }
    let c = b[p];
    if c == 110 {
        proof {
            if x.len() >= 4 && x.subrange(0, 4) == null_text() {
                assert(x.subrange(0, 4)[1] == x[1] && x.subrange(0, 4)[2] == x[2] && x.subrange(0, 4)[3] == x[3]);
            }
        }
        if n - p >= 4 && b[p + 1] == 117 && b[p + 2] == 108 && b[p + 3] == 108 {
            assert(x.subrange(0, 4) =~= null_text());
            assert(x.subrange(4, x.len() as int) =~= suf(b@, p + 4));
            Some((Term::Null, p + 4))
        } else {
            None
        }
    } else if c == 116 {
        proof {
            if x.len() >= 4 && x.subrange(0, 4) == bool_text(true) {
                assert(x.subrange(0, 4)[1] == x[1] && x.subrange(0, 4)[2] == x[2] && x.subrange(0, 4)[3] == x[3]);
            }
        }
        if n - p >= 4 && b[p + 1] == 114 && b[p + 2] == 117 && b[p + 3] == 101 {
            assert(x.subrange(0, 4) =~= bool_text(true));
            assert(x.subrange(4, x.len() as int) =~= suf(b@, p + 4));
            Some((Term::Bool(true), p + 4))
        } else {
            None
        }
    } else if c == 102 {
        proof {
            if x.len() >= 5 && x.subrange(0, 5) == bool_text(false) {
                assert(x.subrange(0, 5)[1] == x[1] && x.subrange(0, 5)[2] == x[2] && x.subrange(0, 5)[3] == x[3] && x.subrange(0, 5)[4] == x[4]);
            }
        }
        if n - p >= 5 && b[p + 1] == 97 && b[p + 2] == 108 && b[p + 3] == 115 && b[p + 4] == 101 {
            assert(x.subrange(0, 5) =~= bool_text(false));
            assert(x.subrange(5, x.len() as int) =~= suf(b@, p + 5));
            Some((Term::Bool(false), p + 5))
        } else {
            None
        }
    } else if c == 34 {
        assert(x.drop_first() =~= suf(b@, p + 1));
        match chars_at(b, p + 1) {
            Some((bytes, q)) => {
                let ghost bs = bytes@;
                match utf8_text(bytes) {
                    Some(s) => {
                        proof {
                            vstd::utf8::decode_utf8_encode_utf8(bs);
                        }
                        Some((Term::Str(s), q))
                    },
                    None => None,
                }
            },
            None => None,
        }
    } else if c == 45 || (48 <= c && c <= 57) {
        match number_at(b, p) {
            Some((d, q)) => Some((Term::Num(d), q)),
            None => None,
        }
    } else if c == 123 {
        assert(x.drop_first() =~= suf(b@, p + 1));
        object_at(b, p + 1)
    } else if c == 91 {
        assert(x.drop_first() =~= suf(b@, p + 1));
        op_at(b, p + 1)
    } else {
        None
    }
}

/// Reads the rest of an object after `{`.
fn object_at(b: &[u8], p: usize) -> (r: Option<(Term, usize)>)
    requires
        p <= b@.len(),
    ensures
        r matches Some((t, q)) ==> p < q <= b@.len() && parse_object(suf(b@, p as int)) == Some(
            (shape(t), suf(b@, q as int)),
        ),
        (parse_object(suf(b@, p as int)) matches Some((s, _)) && fits(s)) ==> r is Some,
    decreases b@.len() - p, 2nat,
{
    let n = b.len();
    let ghost x = suf(b@, p as int);
    if p < n && b[p] == 125 {
        assert(x.drop_first() =~= suf(b@, p + 1));
        let t = Term::Object(Vec::new());
        assert(shape(t) == Shape::Obj(Seq::empty()));
        return Some((t, p + 1));
    }
    proof {
        if parse_object(x) is Some {
            let s = (parse_object(x)->0).0;
            let ps = (parse_pairs(x)->0).0;
            assert(s == Shape::Obj(ps));
            if fits(s) {
                lemma_fits_parts(s);
            }
        }
    }
    match pairs_at(b, p) {
        Some((ps, q)) => {
            if q < n && b[q] == 125 {
                assert(suf(b@, q as int).drop_first() =~= suf(b@, q + 1));
                Some((Term::Object(ps), q + 1))
            } else {
                None
            }
        },
        None => None,
    }
}

/// Reads comma-separated terms at `p`.
fn list_at(b: &[u8], p: usize) -> (r: Option<(Vec<Term>, usize)>)
    requires
        p <= b@.len(),
    ensures
        r matches Some((v, q)) ==> p < q <= b@.len() && v@.len() >= 1 && parse_list(suf(b@, p as int))
            == Some((shape_list(v@, v@.len() as nat), suf(b@, q as int))),
        (parse_list(suf(b@, p as int)) matches Some((vs, _)) && fits_list(vs)) ==> r is Some,
    decreases b@.len() - p, 1nat,
{
    let n = b.len();
    match value_at(b, p) {
        None => {
            proof {
                if parse_list(suf(b@, p as int)) is Some {
                    let vs = (parse_list(suf(b@, p as int))->0).0;
                    assert(vs[0] == (parse_value(suf(b@, p as int))->0).0);
                    if fits_list(vs) {
                        assert(fits(vs[0]));
                    }
                }
            }
            None
        },
        Some((t, q)) => {
            let ghost r1 = suf(b@, q as int);
            if q < n && b[q] == 44 {
                assert(r1.drop_first() =~= suf(b@, q + 1));
                match list_at(b, q + 1) {
                    Some((mut rest, q2)) => {
                        let ghost old_rest = rest@;
                        rest.insert(0, t);
                        proof {
                            lemma_shape_list_front(rest@, rest@.len() as nat);
                            assert(rest@.drop_first() =~= old_rest);
                        }
                        Some((rest, q2))
                    },
                    None => {
                        proof {
                            if parse_list(suf(b@, p as int)) is Some {
                                let vs = (parse_list(suf(b@, p as int))->0).0;
                                let tail = (parse_list(r1.drop_first())->0).0;
                                assert(vs == seq![(parse_value(suf(b@, p as int))->0).0] + tail);
                                if fits_list(vs) {
                                    assert forall|i: int| 0 <= i < tail.len() implies fits(#[trigger] tail[i]) by {
                                        assert(vs[i + 1] == tail[i]);
                                    }
                                }
                            }
                        }
                        None
                    },
                }
            } else {
                let mut v: Vec<Term> = Vec::new();
                v.push(t);
                proof {
                    lemma_shape_list_front(v@, 1);
                    assert(shape_list(v@.drop_first(), 0) == Seq::<Shape>::empty());
                    assert(seq![shape(t)] + Seq::<Shape>::empty() =~= seq![shape(t)]);
                }
                Some((v, q))
            }
        },
    }
}

/// Reads comma-separated `"key":term` pairs at `p`.
#[verifier::rlimit(80)]
fn pairs_at(b: &[u8], p: usize) -> (r: Option<(Vec<(String, Term)>, usize)>)
    requires
        p <= b@.len(),
    ensures
        r matches Some((v, q)) ==> p < q <= b@.len() && v@.len() >= 1 && parse_pairs(suf(b@, p as int))
            == Some((shape_pairs(v@, v@.len() as nat), suf(b@, q as int))),
        (parse_pairs(suf(b@, p as int)) matches Some((ps, _)) && fits_pairs(ps)) ==> r is Some,
    decreases b@.len() - p, 1nat,
{
    let n = b.len();
    let ghost y = suf(b@, p as int);
    if !(p < n && b[p] == 34) {
        return None;
    }
    assert(y.drop_first() =~= suf(b@, p + 1));
    let (kb, q1) = match chars_at(b, p + 1) {
        Some(c) => c,
        None => return None,
    };
    let ghost kbs = kb@;
    if !(q1 < n && b[q1] == 58) {
        return None;
    }
    assert(suf(b@, q1 as int).drop_first() =~= suf(b@, q1 + 1));
    let (t, q2) = match value_at(b, q1 + 1) {
        Some(v) => v,
        None => {
            proof {
                if parse_pairs(y) is Some {
                    let ps = (parse_pairs(y)->0).0;
                    assert(ps[0].1 == (parse_value(suf(b@, q1 + 1))->0).0);
                    lemma_pairs_nonempty(y);
                    if fits_pairs(ps) {
                        lemma_fits_pair(ps, 0);
                    }
                }
            }
            return None;
        },
    };
    let key = match utf8_text(kb) {
        Some(k) => k,
        None => {
            proof {
                if parse_pairs(y) is Some {
                    let ps = (parse_pairs(y)->0).0;
                    assert(ps[0].0 == kbs);
                }
            }
            return None;
        },
    };
    proof {
        vstd::utf8::decode_utf8_encode_utf8(kbs);
    }
    let ghost r2 = suf(b@, q2 as int);
    if q2 < n && b[q2] == 44 {
        assert(r2.drop_first() =~= suf(b@, q2 + 1));
        match pairs_at(b, q2 + 1) {
            Some((mut rest, q3)) => {
                let ghost old_rest = rest@;
                rest.insert(0, (key, t));
                proof {
                    lemma_shape_pairs_front(rest@, rest@.len() as nat);
                    assert(rest@.drop_first() =~= old_rest);
                }
                Some((rest, q3))
            },
            None => {
                proof {
                    if parse_pairs(y) is Some {
                        let ps = (parse_pairs(y)->0).0;
                        let tail = (parse_pairs(r2.drop_first())->0).0;
                        assert(ps == seq![(kbs, shape(t))] + tail);
                        if fits_pairs(ps) {
                            assert forall|i: int| 0 <= i < tail.len() implies valid_utf8(#[trigger] tail[i].0) && fits(tail[i].1) by {
                                assert(ps[i + 1] == tail[i]);
                                lemma_fits_pair(ps, i + 1);
                            }
                        }
                    }
                }
                None
            },
        }
    } else {
        let mut v: Vec<(String, Term)> = Vec::new();
        v.push((key, t));
        proof {
            lemma_shape_pairs_front(v@, 1);
            assert(shape_pairs(v@.drop_first(), 0) == Seq::<(Seq<u8>, Shape)>::empty());
        }
        assert(shape_pairs(v@, 1) =~= seq![(kbs, shape(t))]);
        Some((v, q2))
    }
}

/// Reads the positional arguments of an operation node at `p`.
fn args_at(b: &[u8], p: usize) -> (r: Option<(Vec<Term>, usize)>)
    requires
        p <= b@.len(),
    ensures
        r matches Some((v, q)) ==> p <= q <= b@.len() && parse_args(suf(b@, p as int)) == Some(
            (shape_list(v@, v@.len() as nat), suf(b@, q as int)),
        ),
        (parse_args(suf(b@, p as int)) matches Some((vs, _)) && fits_list(vs)) ==> r is Some,
    decreases b@.len() - p, 2nat,
{
    let n = b.len();
    let ghost y = suf(b@, p as int);
    if n - p >= 2 && b[p] == 44 && b[p + 1] == 91 {
        let ghost z = y.subrange(2, y.len() as int);
        assert(z =~= suf(b@, p + 2));
        if p + 2 < n && b[p + 2] == 93 {
            assert(z.drop_first() =~= suf(b@, p + 3));
            let v: Vec<Term> = Vec::new();
            assert(shape_list(v@, 0) == Seq::<Shape>::empty());
            return Some((v, p + 3));
        }
        match list_at(b, p + 2) {
            Some((v, q)) => {
                if q < n && b[q] == 93 {
                    assert(suf(b@, q as int).drop_first() =~= suf(b@, q + 1));
                    Some((v, q + 1))
                } else {
                    None
                }
            },
            None => None,
        }
    } else {
        let v: Vec<Term> = Vec::new();
        assert(shape_list(v@, 0) == Seq::<Shape>::empty());
        Some((v, p))
    }
}

/// Reads the named options of an operation node at `p`.
fn opts_at(b: &[u8], p: usize) -> (r: Option<(Vec<(String, Term)>, usize)>)
    requires
        p <= b@.len(),
    ensures
        r matches Some((v, q)) ==> p <= q <= b@.len() && parse_opts(suf(b@, p as int)) == Some(
            (shape_pairs(v@, v@.len() as nat), suf(b@, q as int)),
        ),
        (parse_opts(suf(b@, p as int)) matches Some((ps, _)) && fits_pairs(ps)) ==> r is Some,
    decreases b@.len() - p, 2nat,
{
    let n = b.len();
    let ghost y = suf(b@, p as int);
    if n - p >= 2 && b[p] == 44 && b[p + 1] == 123 {
        let ghost z = y.subrange(2, y.len() as int);
        assert(z =~= suf(b@, p + 2));
        if p + 2 < n && b[p + 2] == 125 {
            assert(z.drop_first() =~= suf(b@, p + 3));
            let v: Vec<(String, Term)> = Vec::new();
            assert(shape_pairs(v@, 0) == Seq::<(Seq<u8>, Shape)>::empty());
            return Some((v, p + 3));
        }
        match pairs_at(b, p + 2) {
            Some((v, q)) => {
                if q < n && b[q] == 125 {
                    assert(suf(b@, q as int).drop_first() =~= suf(b@, q + 1));
                    Some((v, q + 1))
                } else {
                    None
                }
            },
            None => None,
        }
    } else {
        let v: Vec<(String, Term)> = Vec::new();
        assert(shape_pairs(v@, 0) == Seq::<(Seq<u8>, Shape)>::empty());
        Some((v, p))
    }
}

/// Reads the rest of an operation node after `[`.
fn op_at(b: &[u8], p: usize) -> (r: Option<(Term, usize)>)
    requires
        p <= b@.len(),
    ensures
        r matches Some((t, q)) ==> p < q <= b@.len() && parse_op(suf(b@, p as int)) == Some(
            (shape(t), suf(b@, q as int)),
        ),
        (parse_op(suf(b@, p as int)) matches Some((s, _)) && fits(s)) ==> r is Some,
    decreases b@.len() - p, 3nat,
{
    let n = b.len();
    let (c, q1) = match nat_at(b, p) {
        Some(v) => v,
        None => return None,
    };
    let ghost y = suf(b@, p as int);
    proof {
        if parse_op(y) is Some {
            let s = (parse_op(y)->0).0;
            let vs = (parse_args(suf(b@, q1 as int))->0).0;
            let r2 = (parse_args(suf(b@, q1 as int))->0).1;
            let ps = (parse_opts(r2)->0).0;
            assert(s == Shape::Op(c as nat, vs, ps));
            if fits(s) {
                lemma_fits_parts(s);
            }
        }
    }
    if c > 0xffff_ffff {
        return None;
    }
    let (args, q2) = match args_at(b, q1) {
        Some(v) => v,
        None => return None,
    };
    let (opts, q3) = match opts_at(b, q2) {
        Some(v) => v,
        None => return None,
    };
    if q3 < n && b[q3] == 93 {
        assert(suf(b@, q3 as int).drop_first() =~= suf(b@, q3 + 1));
        Some((Term::Op(c as u32, args, opts), q3 + 1))
    } else {
        None
    }
}

/// Reads back an encoded term: None unless `b` holds exactly one encoded
/// term, and also where a number, opcode or text does not fit this
/// library's types.
pub fn decode(b: &[u8]) -> (r: Option<Term>)
    ensures
        r matches Some(t) ==> parse_value(b@) == Some((shape(t), Seq::<u8>::empty())),
        (parse_value(b@) matches Some((s, rest)) && rest.len() == 0 && fits(s)) ==> r is Some,
{
    assert(suf(b@, 0) =~= b@);
    match value_at(b, 0) {
        Some((t, q)) => {
            if q == b.len() {
                assert(suf(b@, q as int) =~= Seq::<u8>::empty());
                Some(t)
            } else {
                None
            }
        },
        None => None,
    }
}

proof fn lemma_shape_list_index(s: Seq<Term>, n: nat)
    requires
        n <= s.len(),
    ensures
        shape_list(s, n).len() == n,
        forall|i: int| 0 <= i < n ==> #[trigger] shape_list(s, n)[i] == shape(s[i]),
    decreases n,
{
    if n > 0 {
        lemma_shape_list_index(s, (n - 1) as nat);
    }
}

proof fn lemma_shape_pairs_index(s: Seq<(String, Term)>, n: nat)
    requires
        n <= s.len(),
    ensures
        shape_pairs(s, n).len() == n,
        forall|i: int|
            0 <= i < n ==> #[trigger] shape_pairs(s, n)[i] == (encode_utf8(s[i].0@), shape(s[i].1)),
    decreases n,
{
    if n > 0 {
        lemma_shape_pairs_index(s, (n - 1) as nat);
    }
}

proof fn lemma_fits_shape(t: Term)
    ensures
        fits(shape(t)),
    decreases t,
{
    broadcast use vstd::utf8::encode_utf8_valid_utf8;

    match t {
        Term::Array(items) => {
            let n = items@.len() as nat;
            lemma_shape_list_index(items@, n);
            assert forall|i: int| 0 <= i < n implies fits(#[trigger] shape_list(items@, n)[i]) by {
                lemma_fits_shape(items@[i]);
            }
            assert(fits_pairs(Seq::<(Seq<u8>, Shape)>::empty()));
            lemma_fits_op(2, shape_list(items@, n), Seq::empty());
        },
        Term::Object(pairs) => {
            let n = pairs@.len() as nat;
            lemma_shape_pairs_index(pairs@, n);
            assert forall|i: int| 0 <= i < n implies valid_utf8(
                #[trigger] shape_pairs(pairs@, n)[i].0,
            ) && fits(shape_pairs(pairs@, n)[i].1) by {
                lemma_fits_shape(pairs@[i].1);
            }
        },
        Term::Op(c, args, opts) => {
            let na = args@.len() as nat;
            let no = opts@.len() as nat;
            lemma_shape_list_index(args@, na);
            lemma_shape_pairs_index(opts@, no);
            assert forall|i: int| 0 <= i < na implies fits(#[trigger] shape_list(args@, na)[i]) by {
                lemma_fits_shape(args@[i]);
            }
            assert forall|i: int| 0 <= i < no implies valid_utf8(
                #[trigger] shape_pairs(opts@, no)[i].0,
            ) && fits(shape_pairs(opts@, no)[i].1) by {
                lemma_fits_shape(opts@[i].1);
            }
        },
        _ => {},
    }
}

/// Round trip: the encoding of any term reads back as exactly its shape
/// (opcodes, positional arguments in order, named options with their
/// values, literals) with nothing left over, and that shape fits this
/// library's types, so `decode` of `encode_term(t)` returns a term of the
/// same shape as `t`.
pub proof fn lemma_round_trip(t: Term)
    ensures
        parse_value(enc(t)) == Some((shape(t), Seq::<u8>::empty())),
        fits(shape(t)),
{
    lemma_parse_term(t, Seq::empty());
    assert(enc(t) + Seq::<u8>::empty() =~= enc(t));
    lemma_fits_shape(t);
}

} // verus!
