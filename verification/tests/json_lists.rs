use astray_verify::contract::{contract_changes, tool_map, tool_names};
use astray_verify::error::Error;
use astray_verify::json::{Json, Number};
use astray_verify::normalize::{normalize_named_items, normalize_tools, normalized_value};

fn s(text: &str) -> Json {
    Json::Str(text.to_string())
}

fn obj(entries: Vec<(&str, Json)>) -> Json {
    Json::Object(entries.into_iter().map(|(k, v)| (k.to_string(), v)).collect())
}

fn arr(items: Vec<Json>) -> Json {
    Json::Array(items)
}

fn num(n: u64) -> Json {
    Json::Number(Number::PosInt(n))
}

fn tool(name: &str, description: &str) -> Json {
    obj(vec![("name", s(name)), ("description", s(description))])
}

fn keys(value: &Json) -> Vec<String> {
    match value {
        Json::Object(entries) => entries.iter().map(|(k, _)| k.clone()).collect(),
        _ => panic!("not an object"),
    }
}

fn names(value: &Json) -> Vec<String> {
    tool_names(value)
}

#[test]
fn normalized_value_sorts_keys_at_every_depth() {
    let value = obj(vec![
        ("zeta", num(1)),
        ("alpha", obj(vec![("y", num(2)), ("b", num(3))])),
        ("list", arr(vec![obj(vec![("d", num(4)), ("c", num(5))])])),
    ]);
    let result = normalized_value(value);
    assert_eq!(keys(&result), vec!["alpha", "list", "zeta"]);
    let alpha = result.get("alpha").unwrap();
    assert_eq!(keys(alpha), vec!["b", "y"]);
    match result.get("list").unwrap() {
        Json::Array(items) => assert_eq!(keys(&items[0]), vec!["c", "d"]),
        _ => panic!("list is not an array"),
    }
}

#[test]
fn normalized_value_keeps_the_last_of_a_repeated_key() {
    let value = obj(vec![("k", num(1)), ("a", num(0)), ("k", num(2))]);
    let result = normalized_value(value);
    assert_eq!(keys(&result), vec!["a", "k"]);
    assert!(result.get("k").unwrap().equals(&num(2)));
}

#[test]
fn normalized_value_leaves_scalars_alone() {
    assert!(normalized_value(s("x")).equals(&s("x")));
    assert!(normalized_value(Json::Null).equals(&Json::Null));
    assert!(normalized_value(Json::Bool(true)).equals(&Json::Bool(true)));
}

#[test]
fn named_items_are_sorted_by_name() {
    let list = arr(vec![tool("write", "w"), tool("read", "r"), tool("delete", "d")]);
    let result = normalize_named_items(list).ok().unwrap();
    assert_eq!(names(&result), vec!["delete", "read", "write"]);
}

#[test]
fn a_reordered_list_normalizes_to_the_same_list() {
    let first = normalize_named_items(arr(vec![tool("write", "w"), tool("read", "r"), tool("delete", "d")])).ok().unwrap();
    let second = normalize_named_items(arr(vec![tool("delete", "d"), tool("write", "w"), tool("read", "r")])).ok().unwrap();
    assert!(first.equals(&second));
    assert!(matches!(
        normalize_named_items(arr(vec![tool("a", ""), tool("b", ""), tool("a", "x")])),
        Err(Error::DuplicateItemNames)
    ));
    assert!(matches!(
        normalize_named_items(arr(vec![tool("a", "x"), tool("a", ""), tool("b", "")])),
        Err(Error::DuplicateItemNames)
    ));
}

#[test]
fn named_items_are_sorted_by_code_point() {
    let list = arr(vec![tool("b", ""), tool("B", ""), tool("a", ""), tool("ab", "")]);
    let result = normalize_named_items(list).ok().unwrap();
    assert_eq!(names(&result), vec!["B", "a", "ab", "b"]);
}

#[test]
fn named_items_members_are_normalized() {
    let list = arr(vec![obj(vec![("name", s("t")), ("inputSchema", obj(vec![("type", s("object")), ("properties", obj(vec![]))]))])]);
    let result = normalize_named_items(list).ok().unwrap();
    match &result {
        Json::Array(items) => {
            assert_eq!(keys(&items[0]), vec!["inputSchema", "name"]);
            assert_eq!(keys(items[0].get("inputSchema").unwrap()), vec!["properties", "type"]);
        }
        _ => panic!("not an array"),
    }
}

#[test]
fn a_list_that_is_not_an_array_is_refused() {
    assert!(matches!(normalize_named_items(obj(vec![])), Err(Error::ListNotArray)));
    assert!(matches!(normalize_named_items(Json::Null), Err(Error::ListNotArray)));
}

#[test]
fn an_item_without_a_name_is_refused() {
    let list = arr(vec![tool("a", ""), obj(vec![("description", s("x"))])]);
    assert!(matches!(normalize_named_items(list), Err(Error::MissingItemName)));
    let empty_name = arr(vec![tool("", "x")]);
    assert!(matches!(normalize_named_items(empty_name), Err(Error::MissingItemName)));
    let number_name = arr(vec![obj(vec![("name", num(3))])]);
    assert!(matches!(normalize_named_items(number_name), Err(Error::MissingItemName)));
    let not_object = arr(vec![s("name")]);
    assert!(matches!(normalize_named_items(not_object), Err(Error::MissingItemName)));
}

#[test]
fn duplicate_names_are_refused() {
    let list = arr(vec![tool("a", "1"), tool("b", ""), tool("a", "2")]);
    assert!(matches!(normalize_named_items(list), Err(Error::DuplicateItemNames)));
}

#[test]
fn a_missing_name_is_reported_before_a_duplicate() {
    let list = arr(vec![tool("a", "1"), tool("a", "2"), obj(vec![])]);
    assert!(matches!(normalize_named_items(list), Err(Error::MissingItemName)));
}

#[test]
fn normalizing_a_normalized_list_gives_it_back() {
    let list = arr(vec![
        tool("z", "last"),
        obj(vec![("name", s("m")), ("b", num(1)), ("a", num(2))]),
        tool("a", "first"),
    ]);
    let once = normalize_tools(list).ok().unwrap();
    let twice = normalize_tools(once.duplicate()).ok().unwrap();
    assert!(once.equals(&twice));
}

#[test]
fn tool_names_keep_list_order_and_skip_unnamed_items() {
    let list = arr(vec![tool("b", ""), obj(vec![]), tool("a", ""), tool("", "")]);
    assert_eq!(tool_names(&list), vec!["b", "a", ""]);
    assert!(tool_names(&s("not a list")).is_empty());
}

#[test]
fn tool_map_keeps_the_last_item_of_a_name() {
    let list = arr(vec![tool("b", "first"), tool("a", ""), tool("b", "second")]);
    let map = tool_map(&list);
    let listed: Vec<&str> = map.iter().map(|(k, _)| k.as_str()).collect();
    assert_eq!(listed, vec!["a", "b"]);
    assert!(map[1].1.get("description").unwrap().equals(&s("second")));
}

#[test]
fn contract_changes_lists_removed_added_and_changed_tools() {
    let expected = arr(vec![tool("keep", "same"), tool("gone", ""), tool("edit", "old")]);
    let actual = arr(vec![tool("keep", "same"), tool("edit", "new"), tool("fresh", ""), tool("also_new", "")]);
    assert_eq!(
        contract_changes(&expected, &actual),
        vec![
            "removed tool `gone`",
            "added tool `also_new`",
            "added tool `fresh`",
            "changed contract for `edit`",
        ]
    );
}

#[test]
fn a_list_has_no_changes_against_itself() {
    let list = arr(vec![tool("a", "x"), tool("b", "y")]);
    assert!(contract_changes(&list, &list.duplicate()).is_empty());
}

#[test]
fn changes_ignore_member_order() {
    let expected = arr(vec![obj(vec![("name", s("a")), ("x", num(1)), ("y", num(2))])]);
    let actual = arr(vec![obj(vec![("y", num(2)), ("name", s("a")), ("x", num(1))])]);
    let changes = contract_changes(
        &normalize_tools(expected).ok().unwrap(),
        &normalize_tools(actual).ok().unwrap(),
    );
    assert!(changes.is_empty());
}

#[test]
fn float_zero_equals_negative_zero() {
    let zero = Json::Number(Number::Float(0.0f64.to_bits()));
    let negative = Json::Number(Number::Float((-0.0f64).to_bits()));
    assert!(zero.equals(&negative));
    let one = Json::Number(Number::Float(1.0f64.to_bits()));
    assert!(!zero.equals(&one));
    assert!(!Json::Number(Number::PosInt(1)).equals(&one));
}

#[test]
fn get_finds_the_last_member_of_a_key() {
    let value = obj(vec![("a", num(1)), ("a", num(2))]);
    assert!(value.get("a").unwrap().equals(&num(2)));
    assert!(value.get("b").is_none());
    assert!(arr(vec![]).get("a").is_none());
}
