use ql2::commands::{r, Arg, IdentifierFormat, MapArg, ReadMode, RootCommand};
use ql2::term::{Decimal, Term};
use ql2::types::{Array, Function, Number, Object, PrimaryKey, SecondaryKey};

fn text(b: Vec<u8>) -> String {
    String::from_utf8(b).unwrap()
}

const MARVEL: &str = "[15,[[14,[\"test\"]],\"marvel\"],{\"read_mode\":\"single\",\"identifier_format\":\"name\"}]";

#[test]
fn table_options_default_to_single_and_name() {
    let q = r.table("marvel");
    assert_eq!(text(q.encode()), MARVEL);
    let q = r.db("test").table("marvel");
    assert_eq!(text(q.encode()), MARVEL);
}

#[test]
fn table_options_can_be_set() {
    let q = r
        .db("heroes")
        .table("dc")
        .read_mode(ReadMode::Outdated)
        .identifier_format(IdentifierFormat::Uuid);
    assert_eq!(
        text(q.encode()),
        "[15,[[14,[\"heroes\"]],\"dc\"],{\"read_mode\":\"outdated\",\"identifier_format\":\"uuid\"}]"
    );
    let q = r.table("dc").read_mode(ReadMode::Majority);
    assert!(text(q.encode()).contains("\"read_mode\":\"majority\""));
}

#[test]
fn get_all_index_defaults_to_primary_key() {
    let q = r.table("marvel").get_all(SecondaryKey::text("ironman"));
    assert_eq!(
        text(q.encode()),
        format!("[78,[{},\"ironman\"],{{\"index\":\"\"}}]", MARVEL)
    );
}

#[test]
fn get_all_index_can_be_named() {
    let q = r
        .table("marvel")
        .get_all(SecondaryKey::text("ironman"))
        .index("nickname");
    assert_eq!(
        text(q.encode()),
        format!("[78,[{},\"ironman\"],{{\"index\":\"nickname\"}}]", MARVEL)
    );
}

#[test]
fn changes_defaults() {
    let q = r.table("marvel").changes();
    assert_eq!(
        text(q.encode()),
        format!(
            "[152,[{}],{{\"squash\":false,\"changefeed_queue_size\":100000,\"include_initial\":true,\"include_states\":false,\"include_offsets\":false,\"include_types\":false}}]",
            MARVEL
        )
    );
}

#[test]
fn squash_takes_a_flag_or_a_fraction() {
    let q = r.table("marvel").changes().squash(true);
    assert!(text(q.encode()).contains("{\"squash\":true,\"changefeed_queue_size\":100000,"));
    let q = r.table("marvel").changes().squash(Decimal::new(25, -1));
    assert!(text(q.encode()).contains("{\"squash\":25e-1,\"changefeed_queue_size\":100000,"));
    let v: f32 = 2.5;
    assert_eq!("25e-1".parse::<f32>().unwrap(), v);
}

#[test]
fn changes_setters() {
    let q = r
        .table("marvel")
        .changes()
        .changefeed_queue_size(7)
        .include_initial(false)
        .include_states(true)
        .include_offsets(true)
        .include_types(true);
    assert!(text(q.encode()).ends_with(
        "{\"squash\":false,\"changefeed_queue_size\":7,\"include_initial\":false,\"include_states\":true,\"include_offsets\":true,\"include_types\":true}]"
    ));
}

#[test]
fn changes_on_selections_and_streams() {
    let q = r.table("marvel").get(PrimaryKey::text("ironman")).changes();
    assert!(text(q.encode()).starts_with(&format!("[152,[[16,[{},\"ironman\"]]],{{\"squash\":false", MARVEL)));
    let q = r.table("marvel").get_all(SecondaryKey::number(Decimal::integer(3))).changes();
    assert!(text(q.encode()).starts_with(&format!("[152,[[78,[{},3],{{\"index\":\"\"}}]],", MARVEL)));
}

#[test]
fn get_by_key_kinds() {
    let q = r.table("marvel").get(PrimaryKey::number(Decimal::integer(-12)));
    assert_eq!(text(q.encode()), format!("[16,[{},-12]]", MARVEL));
    let q = r.table("marvel").get(PrimaryKey::boolean(true));
    assert_eq!(text(q.encode()), format!("[16,[{},true]]", MARVEL));
}

#[test]
fn get_field_on_object_selection() {
    let q = r
        .table("marvel")
        .get(PrimaryKey::text("ironman"))
        .get_field::<Object>("name");
    assert_eq!(text(q.encode()), format!("[31,[[16,[{},\"ironman\"]],\"name\"]]", MARVEL));
}

#[test]
fn uuid_has_no_arguments() {
    assert_eq!(text(r.uuid().encode()), "[169]");
}

#[test]
fn rem_of_numbers() {
    let n: ql2::commands::Command<Number, ()> =
        ql2::commands::Command(Number::new(Decimal::integer(7)), None);
    let q = n.rem(Number::new(Decimal::integer(2)));
    assert_eq!(text(q.encode()), "[28,[7,2]]");
}

#[test]
fn array_map_and_get_field() {
    let a = Array(Term::Array(vec![Term::Num(Decimal::integer(1)), Term::Null]));
    let base: ql2::commands::Command<Array, ()> = ql2::commands::Command(a, None);
    let q = base.get_field("x");
    assert_eq!(text(q.encode()), "[31,[[2,[1,null]],\"x\"]]");
    let base: ql2::commands::Command<Array, ()> =
        ql2::commands::Command(Array(Term::Array(Vec::new())), None);
    let q = base.map(Array(Term::Array(vec![Term::Bool(false)])));
    assert_eq!(text(q.encode()), "[38,[[2,[]],[2,[false]]]]");
}

#[test]
fn one_parameter_function_uses_index_one() {
    let f = Function::lambda1(|row: Arg| row.get_field::<Object>("a"));
    assert_eq!(
        text(ql2::encode::encode_term(&f.0)),
        "[69,[[2,[1]],[31,[[10,[1]],\"a\"]]]]"
    );
}

#[test]
fn two_parameter_function_uses_indices_one_and_two() {
    let f = Function::lambda2(|a: Arg, b: Arg| {
        let _ = b;
        a.get_field::<Object>("left")
    });
    assert_eq!(
        text(ql2::encode::encode_term(&f.0)),
        "[69,[[2,[1,2]],[31,[[10,[1]],\"left\"]]]]"
    );
    let g = Function::lambda2(|a: Arg, b: Arg| {
        let _ = a;
        b.get_field::<Object>("right")
    });
    assert_eq!(
        text(ql2::encode::encode_term(&g.0)),
        "[69,[[2,[1,2]],[31,[[10,[2]],\"right\"]]]]"
    );
}

#[test]
fn stream_map_chains() {
    let q = r
        .table("marvel")
        .map(|row: Arg| row.get_field::<Object>("a"))
        .map(|row: Arg| row.get_field::<Object>("b"));
    assert_eq!(
        text(q.encode()),
        format!(
            "[38,[[38,[{},[69,[[2,[1]],[31,[[10,[1]],\"a\"]]]]]],[69,[[2,[1]],[31,[[10,[1]],\"b\"]]]]]]",
            MARVEL
        )
    );
}

#[test]
fn map_over_several_sequences() {
    let f = Function::lambda2(|a: Arg, b: Arg| {
        let _ = b;
        a.get_field::<Object>("x")
    });
    let q = r.table("marvel").map_many(MapArg::new(vec![r.table("dc")], f));
    let dc = "[15,[[14,[\"test\"]],\"dc\"],{\"read_mode\":\"single\",\"identifier_format\":\"name\"}]";
    assert_eq!(
        text(q.encode()),
        format!("[38,[{},{},[69,[[2,[1,2]],[31,[[10,[1]],\"x\"]]]]]]", MARVEL, dc)
    );
}
