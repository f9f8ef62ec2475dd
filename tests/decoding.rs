use ql2::commands::{r, Arg, RootCommand};
use ql2::decode::decode;
use ql2::encode::encode_term;
use ql2::term::{Decimal, Term};
use ql2::types::{Object, SecondaryKey};

fn round_trip(t: &Term) -> Vec<u8> {
    let bytes = encode_term(t);
    let back = decode(&bytes).expect("an encoded term decodes");
    encode_term(&back)
}

#[test]
fn composed_query_round_trips() {
    let t = r
        .db("heroes")
        .table("marvel")
        .get_all(SecondaryKey::text("iron \"man\""))
        .index("nickname")
        .changes()
        .squash(Decimal::new(25, -1))
        .into_term();
    let bytes = encode_term(&t);
    assert_eq!(round_trip(&t), bytes);
    let t = r.table("marvel").map(|row: Arg| row.get_field::<Object>("villain")).into_term();
    assert_eq!(round_trip(&t), encode_term(&t));
}

#[test]
fn literals_round_trip() {
    let t = Term::Object(vec![
        ("a\u{1}".to_string(), Term::Array(vec![Term::Null, Term::Bool(false), Term::Bool(true)])),
        ("ü".to_string(), Term::Num(Decimal::new(i128::MIN, i32::MIN))),
        ("".to_string(), Term::text("\\\"x\"\n")),
    ]);
    assert_eq!(round_trip(&t), encode_term(&t));
}

#[test]
fn decode_reads_options_in_order() {
    match decode(b"[15,[\"x\"],{\"b\":1,\"a\":[2,[]]}]") {
        Some(Term::Op(15, args, opts)) => {
            assert_eq!(args.len(), 1);
            assert!(matches!(&args[0], Term::Str(s) if s == "x"));
            assert_eq!(opts.len(), 2);
            assert_eq!(opts[0].0, "b");
            assert_eq!(opts[1].0, "a");
            assert!(matches!(&opts[1].1, Term::Op(2, a, o) if a.is_empty() && o.is_empty()));
        }
        other => panic!("{:?}", other),
    }
}

#[test]
fn decode_refuses_malformed_input() {
    assert!(decode(b"").is_none());
    assert!(decode(b"nul").is_none());
    assert!(decode(b"[15").is_none());
    assert!(decode(b"[15,[1,]]").is_none());
    assert!(decode(b"\"abc").is_none());
    assert!(decode(b"\"\\q\"").is_none());
    assert!(decode(b"1 ").is_none());
    assert!(decode(b"{\"a\"1}").is_none());
}

#[test]
fn decode_refuses_what_does_not_fit() {
    assert!(decode(b"[4294967296]").is_none());
    assert!(decode(b"[4294967295]").is_some());
    assert!(decode(b"1e2147483648").is_none());
    assert!(decode(b"170141183460469231731687303715884105728").is_none());
    assert!(decode(b"-170141183460469231731687303715884105728").is_some());
    assert!(decode(b"\"\xff\"").is_none());
}
