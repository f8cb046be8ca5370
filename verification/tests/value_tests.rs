use menu_driver::json::Json;
use menu_driver::value::{VecString, decode_value, encode_value};

fn single(s: &str) -> VecString {
    VecString::Single(s.to_string())
}

#[test]
fn is_empty_only_for_empty_multi() {
    assert!(VecString::Multi(vec![]).is_empty());
    assert!(!VecString::Multi(vec![single("a")]).is_empty());
    assert!(!single("").is_empty());
    assert!(!VecString::UserInput.is_empty());
}

#[test]
fn flatten_joins_all_leaves() {
    let t = VecString::Multi(vec![
        single("a"),
        VecString::UserInput,
        VecString::Multi(vec![single("b"), single("c")]),
    ]);
    assert_eq!(t.flatten("X"), "aXbc");
}

#[test]
fn flatten_of_leaves() {
    assert_eq!(single("hi").flatten("ignored"), "hi");
    assert_eq!(VecString::UserInput.flatten("typed"), "typed");
    assert_eq!(VecString::Multi(vec![]).flatten("x"), "");
}

#[test]
fn flatten1_expands_one_level() {
    let t = VecString::Multi(vec![
        single("a"),
        VecString::UserInput,
        VecString::Multi(vec![single("b"), single("c")]),
    ]);
    assert_eq!(t.flatten1("X"), vec!["a", "X", "bc"]);
}

#[test]
fn flatten1_length_matches_shape() {
    let t = VecString::Multi(vec![single("a"), single("b"), single("c")]);
    assert_eq!(t.flatten1("u").len(), 3);
    assert_eq!(single("s").flatten1("u").len(), 1);
    assert_eq!(VecString::UserInput.flatten1("u").len(), 1);
    assert_eq!(VecString::Multi(vec![]).flatten1("u").len(), 0);
}

#[test]
fn expand_then_join_equals_join() {
    let t = VecString::Multi(vec![
        single("a"),
        VecString::Multi(vec![VecString::UserInput, single("b")]),
    ]);
    let joined = t.flatten("in");
    let expanded = t.flatten1("in").concat();
    assert_eq!(expanded, joined);
}

#[test]
fn value_grammar_decodes_all_shapes() {
    let j = Json::Arr(vec![
        Json::Str("a".to_string()),
        Json::Null,
        Json::Arr(vec![Json::Str("b".to_string())]),
    ]);
    let t = decode_value(&j).unwrap();
    assert_eq!(t.flatten1("U"), vec!["a", "U", "b"]);
}

#[test]
fn value_grammar_rejects_other_shapes() {
    assert!(decode_value(&Json::Bool(true)).is_none());
    assert!(decode_value(&Json::Int(3)).is_none());
    assert!(decode_value(&Json::Obj(vec![])).is_none());
    assert!(decode_value(&Json::Arr(vec![Json::Bool(false)])).is_none());
}

#[test]
fn value_round_trip_through_json() {
    let t = VecString::Multi(vec![
        single("a"),
        VecString::UserInput,
        VecString::Multi(vec![]),
    ]);
    let j = encode_value(&t);
    let back = decode_value(&j).unwrap();
    assert_eq!(back.flatten1("z"), t.flatten1("z"));
    assert_eq!(back.flatten("z"), t.flatten("z"));
}
