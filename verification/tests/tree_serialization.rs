use rethink_wire::json::Json;
use rethink_wire::tree::{clone_json, Tree, DB_CREATE, MAKE_ARRAY};

fn datum(j: Json) -> Json {
    Tree::Datum(j).to_json()
}

#[test]
fn literal_number_passes_through() {
    assert_eq!(datum(Json::I64(42)), Json::I64(42));
}

#[test]
fn literal_scalars_pass_through() {
    assert_eq!(datum(Json::Null), Json::Null);
    assert_eq!(datum(Json::Bool(true)), Json::Bool(true));
    assert_eq!(datum(Json::Str(b"abc".to_vec())), Json::Str(b"abc".to_vec()));
}

#[test]
fn literal_object_passes_through() {
    let obj = Json::Obj(vec![(b"k".to_vec(), Json::I64(1))]);
    assert_eq!(datum(clone_json(&obj)), obj);
}

#[test]
fn literal_array_is_escaped() {
    let arr = Json::Arr(vec![Json::I64(1), Json::I64(2)]);
    let expected = Json::Arr(vec![
        Json::I64(MAKE_ARRAY as i64),
        Json::Arr(vec![Json::I64(1), Json::I64(2)]),
    ]);
    assert_eq!(datum(arr), expected);
}

#[test]
fn nested_literal_array_is_escaped_at_every_level() {
    let arr = Json::Arr(vec![Json::Arr(vec![Json::I64(1)])]);
    let expected = Json::Arr(vec![
        Json::I64(MAKE_ARRAY as i64),
        Json::Arr(vec![Json::Arr(vec![
            Json::I64(MAKE_ARRAY as i64),
            Json::Arr(vec![Json::I64(1)]),
        ])]),
    ]);
    assert_eq!(datum(arr), expected);
}

#[test]
fn operator_node_is_code_then_children_in_order() {
    let t = Tree::Query {
        head: 57,
        tail: vec![
            Tree::Datum(Json::Str(b"a".to_vec())),
            Tree::Datum(Json::I64(7)),
        ],
    };
    let expected = Json::Arr(vec![
        Json::I64(57),
        Json::Str(b"a".to_vec()),
        Json::I64(7),
    ]);
    assert_eq!(t.to_json(), expected);
}

#[test]
fn reordering_children_changes_the_serialization() {
    let a = Tree::Query {
        head: 57,
        tail: vec![
            Tree::Datum(Json::Str(b"a".to_vec())),
            Tree::Datum(Json::I64(7)),
        ],
    };
    let b = Tree::Query {
        head: 57,
        tail: vec![
            Tree::Datum(Json::I64(7)),
            Tree::Datum(Json::Str(b"a".to_vec())),
        ],
    };
    assert_ne!(a.to_json(), b.to_json());
}

#[test]
fn db_create_tree_shape() {
    let t = rethink_wire::tree::db_create_tree("mydb");
    let expected = Json::Arr(vec![
        Json::I64(DB_CREATE as i64),
        Json::Str(b"mydb".to_vec()),
    ]);
    assert_eq!(t.to_json(), expected);
}
