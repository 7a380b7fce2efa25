use ridl::field_type::{InterfaceFieldMap, InterfaceFieldRefer, InterfaceFieldType};

#[test]
fn test_field_type_basic() {
    let field_type_b = InterfaceFieldType::from_str("bool").to_field_type_str();
    let field_type_bl = InterfaceFieldType::from_str("list<bool>").to_field_type_str();
    let field_type_n = InterfaceFieldType::from_str("i32").to_field_type_str();
    let field_type_nl = InterfaceFieldType::from_str("list<i32>").to_field_type_str();
    let field_type_s1 = InterfaceFieldType::from_str("i64").to_field_type_str();
    let field_type_s2 = InterfaceFieldType::from_str("string").to_field_type_str();
    let field_type_sl1 = InterfaceFieldType::from_str("list<i64>").to_field_type_str();
    let field_type_sl2 = InterfaceFieldType::from_str("list<string>").to_field_type_str();

    assert_eq!(field_type_b, "boolean".to_string());
    assert_eq!(field_type_bl, "boolean[]".to_string());
    assert_eq!(field_type_n, "number".to_string());
    assert_eq!(field_type_nl, "number[]".to_string());
    assert_eq!(field_type_s1, "string".to_string());
    assert_eq!(field_type_s2, "string".to_string());
    assert_eq!(field_type_sl1, "string[]".to_string());
    assert_eq!(field_type_sl2, "string[]".to_string());
}

fn check_no_namespace(refer: &str, answer: &str) {
    let refer_single = InterfaceFieldType::from_str(refer);
    assert_eq!(refer_single.to_field_type_str(), answer);
    match refer_single {
        InterfaceFieldType::Refer(refer) => {
            assert_eq!(refer.refer, answer);
            assert_eq!(refer.namespace.len(), 0);
        }
        _ => (),
    }
}

fn check_namespace(text: &str, answer: &str, namespace: Vec<&str>) {
    let refer_single = InterfaceFieldType::from_str(text);
    assert_eq!(refer_single.to_field_type_str(), answer);
    match refer_single {
        InterfaceFieldType::Refer(refer) => {
            assert_eq!(refer.refer, answer);
            for (idx, n) in namespace.iter().enumerate() {
                assert_eq!(n.to_string(), refer.namespace[idx]);
            }
        }
        _ => (),
    }
}

#[test]
fn test_field_type_refer() {
    check_no_namespace("ReferObj", "ReferObj");
    check_no_namespace("list<ReferObj>", "ReferObj[]");
    check_namespace("foo.bar.ReferObj", "ReferObj", ["foo", "bar"].to_vec());
    check_namespace("list<foo.bar.ReferObj>", "ReferObj[]", ["foo", "bar"].to_vec());
}

fn check_map(text: &str, answer: &str, key: &str, value: &str) {
    let f = InterfaceFieldType::from_str(text);
    assert_eq!(f.to_field_type_str(), answer.to_string());
    match f {
        InterfaceFieldType::Mapping(m) => {
            assert_eq!(m.key.to_field_type_str(), key);
            assert_eq!(m.value.to_field_type_str(), value);
        }
        _ => (),
    }
}

#[test]
fn test_field_type_map() {
    check_map("map<string, string>", "Record<string, string>", "string", "string");
    check_map("map<foo.bar.ReferObj, string>", "Record<ReferObj, string>", "ReferObj", "string");
    check_map("map<string, foo.bar.ReferObj>", "Record<string, ReferObj>", "string", "ReferObj");
}

fn refer(name: &str, path: &[&str]) -> InterfaceFieldRefer {
    InterfaceFieldRefer {
        refer: name.to_string(),
        namespace: path.iter().map(|s| s.to_string()).collect(),
    }
}

#[test]
fn literal_table_gives_documented_types() {
    assert_eq!(InterfaceFieldType::from_str("i32"), InterfaceFieldType::Number);
    assert_eq!(InterfaceFieldType::from_str("list<i32>"), InterfaceFieldType::Numbers);
    assert_eq!(InterfaceFieldType::from_str("i64"), InterfaceFieldType::String);
    assert_eq!(InterfaceFieldType::from_str("string"), InterfaceFieldType::String);
    assert_eq!(InterfaceFieldType::from_str("list<i64>"), InterfaceFieldType::Strings);
    assert_eq!(InterfaceFieldType::from_str("list<string>"), InterfaceFieldType::Strings);
    assert_eq!(InterfaceFieldType::from_str("bool"), InterfaceFieldType::Boolean);
    assert_eq!(InterfaceFieldType::from_str("list<bool>"), InterfaceFieldType::Booleans);
}

#[test]
fn classifying_twice_gives_equal_results() {
    for token in ["i32", "list<bool>", "a.b.Cd", "map<string, list<i32>>", "what"] {
        assert_eq!(InterfaceFieldType::from_str(token), InterfaceFieldType::from_str(token));
    }
}

#[test]
fn qualified_name_and_its_list() {
    assert_eq!(
        InterfaceFieldType::from_str("a.b.Cat"),
        InterfaceFieldType::Refer(refer("Cat", &["a", "b"]))
    );
    assert_eq!(
        InterfaceFieldType::from_str("list<a.b.Cat>"),
        InterfaceFieldType::Refers(refer("Cat", &["a", "b"]))
    );
}

#[test]
fn nested_map_classifies_recursively() {
    let t = InterfaceFieldType::from_str("map<map<i32, bool>, list<Item>>");
    let expected = InterfaceFieldType::Mapping(InterfaceFieldMap {
        key: Box::new(InterfaceFieldType::Mapping(InterfaceFieldMap {
            key: Box::new(InterfaceFieldType::Number),
            value: Box::new(InterfaceFieldType::Boolean),
        })),
        value: Box::new(InterfaceFieldType::Refers(refer("Item", &[]))),
    });
    assert_eq!(t, expected);
    assert_eq!(
        InterfaceFieldType::from_str("map<map<i32, bool>, list<Item>>").to_field_type_str(),
        "Record<Record<number, boolean>, Item[]>"
    );
}

#[test]
fn unrecognised_tokens_are_unknown() {
    assert_eq!(InterfaceFieldType::from_str("double"), InterfaceFieldType::Unknown);
    assert_eq!(InterfaceFieldType::from_str("foo.bar"), InterfaceFieldType::Unknown);
    assert_eq!(InterfaceFieldType::from_str("a1.Cat"), InterfaceFieldType::Unknown);
    assert_eq!(InterfaceFieldType::from_str("map<i32>"), InterfaceFieldType::Unknown);
    assert_eq!(InterfaceFieldType::from_str(""), InterfaceFieldType::Unknown);
    assert_eq!(InterfaceFieldType::from_str("Unknown").to_field_type_str(), "Unknown");
    assert_eq!(InterfaceFieldType::Unknown.to_field_type_str(), "");
}

#[test]
fn camel_name_with_several_capitals() {
    assert_eq!(
        InterfaceFieldType::from_str("ScheduleRule"),
        InterfaceFieldType::Refer(refer("ScheduleRule", &[]))
    );
    assert_eq!(
        InterfaceFieldType::from_str("SchedulE"),
        InterfaceFieldType::Refer(refer("SchedulE", &[]))
    );
}

#[test]
fn capitalized_identifiers_as_names() {
    assert_eq!(
        InterfaceFieldType::from_str("a.b.C"),
        InterfaceFieldType::Refer(refer("C", &["a", "b"]))
    );
    assert_eq!(
        InterfaceFieldType::from_str("list<a.b.C>"),
        InterfaceFieldType::Refers(refer("C", &["a", "b"]))
    );
    assert_eq!(
        InterfaceFieldType::from_str("base.HTTP2_Req"),
        InterfaceFieldType::Refer(refer("HTTP2_Req", &["base"]))
    );
    assert_eq!(InterfaceFieldType::from_str("a.b.c"), InterfaceFieldType::Unknown);
    assert_eq!(InterfaceFieldType::from_str("a.b.C-d"), InterfaceFieldType::Unknown);
}
