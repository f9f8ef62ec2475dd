use ql2::encode::encode_term;
use ql2::term::{Decimal, IsDatum, Term, TermType};
use ql2::types::Command;

fn text(b: Vec<u8>) -> String {
    String::from_utf8(b).unwrap()
}

#[test]
fn literals() {
    assert_eq!(text(encode_term(&Term::Null)), "null");
    assert_eq!(text(encode_term(&Term::Bool(true))), "true");
    assert_eq!(text(encode_term(&Term::Bool(false))), "false");
    assert_eq!(text(encode_term(&Term::Num(Decimal::integer(0)))), "0");
    assert_eq!(text(encode_term(&Term::Num(Decimal::integer(1234567)))), "1234567");
    assert_eq!(text(encode_term(&Term::Num(Decimal::new(-25, -1)))), "-25e-1");
    assert_eq!(text(encode_term(&Term::Num(Decimal::new(3, 12)))), "3e12");
    assert_eq!(
        text(encode_term(&Term::Num(Decimal::integer(i128::MIN)))),
        "-170141183460469231731687303715884105728"
    );
    assert_eq!(text(encode_term(&Term::text("hi"))), "\"hi\"");
}

#[test]
fn strings_are_escaped() {
    assert_eq!(
        text(encode_term(&Term::text("a\"b\\c\nd\u{1}é"))),
        "\"a\\\"b\\\\c\\u000ad\\u0001é\""
    );
    assert_eq!(text(encode_term(&Term::text(""))), "\"\"");
}

#[test]
fn arrays_and_objects() {
    let arr = Term::Array(vec![Term::Num(Decimal::integer(1)), Term::text("x"), Term::Array(vec![])]);
    assert_eq!(text(encode_term(&arr)), "[2,[1,\"x\",[2,[]]]]");
    let obj = Term::Object(vec![
        ("a".to_string(), Term::Null),
        ("b".to_string(), Term::Object(vec![])),
    ]);
    assert_eq!(text(encode_term(&obj)), "{\"a\":null,\"b\":{}}");
}

#[test]
fn operation_nodes_omit_empty_parts() {
    let t = Term::new_op(TermType::Uuid, None);
    assert_eq!(text(encode_term(&t)), "[169]");
    let mut c = Command::new(TermType::Db, None);
    c.with_args(Term::text("x"));
    assert_eq!(text(encode_term(&c.0)), "[14,[\"x\"]]");
    let mut c = Command::new(TermType::Table, None);
    c.with_opts(vec![("k".to_string(), Term::Bool(true))]);
    assert_eq!(text(encode_term(&c.0)), "[15,{\"k\":true}]");
}

#[test]
fn with_opts_replaces_existing_keys() {
    let mut c = Command::new(TermType::Table, Some(Term::text("p")));
    c.with_opts(vec![
        ("a".to_string(), Term::Num(Decimal::integer(1))),
        ("b".to_string(), Term::Num(Decimal::integer(2))),
        ("a".to_string(), Term::Num(Decimal::integer(3))),
    ]);
    assert_eq!(text(encode_term(&c.0)), "[15,[\"p\"],{\"a\":3,\"b\":2}]");
}

#[test]
fn datum_test() {
    assert!(Term::Null.is_datum());
    assert!(Term::Array(vec![]).is_datum());
    assert!(!Term::new_op(TermType::Db, None).is_datum());
}
