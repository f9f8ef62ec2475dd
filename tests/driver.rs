use ql2::commands::{r, Arg, RootCommand};
use ql2::types::Object;

fn text(b: Vec<u8>) -> String {
    String::from_utf8(b).unwrap()
}

#[test]
fn db_works() {
    let query = r
        .db("heroes")
        .table("marvel")
        .map(|row: Arg| row.get_field::<Object>("villain"));
    assert_eq!(
        text(query.encode()),
        "[38,[[15,[[14,[\"heroes\"]],\"marvel\"],{\"read_mode\":\"single\",\"identifier_format\":\"name\"}],[69,[[2,[1]],[31,[[10,[1]],\"villain\"]]]]]]"
    );
}
