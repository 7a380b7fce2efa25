use ridl::field_type::{InterfaceFieldRefer, InterfaceFieldType};
use ridl::parser::{parse_field_from_line, parser, IdlMetaField};
use ridl::types::{CodeBlock, IdlBlocksMap, IdlType};

fn test_enum_field(field: &IdlMetaField, key: &str, value: &str) {
    match field {
        IdlMetaField::Enum(f) => {
            assert_eq!(f.key, key);
            assert_eq!(f.value, value);
        }
        IdlMetaField::Interface(_) => {}
    }
}

fn test_interface_field(field: &IdlMetaField, name: &str, optional: bool, field_type: InterfaceFieldType) {
    match field {
        IdlMetaField::Enum(_) => {}
        IdlMetaField::Interface(f) => {
            assert_eq!(f.name, name);
            assert_eq!(f.optional, optional);
            assert_eq!(f.field_type, field_type);
            assert_eq!(f.comment, None);
        }
    }
}

#[test]
fn test_parser() {
    let mut blocks_map = IdlBlocksMap::new();
    blocks_map.insert(
        IdlType::Interface,
        [CodeBlock {
            name: "interface1".to_string(),
            lines: [
                "struct AddCourseScheduleRulesReq {",
                "1: i64 term_id",
                "2: list<ScheduleRule> rules",
                "",
                "30: i64 org_id //orgid",
                "31: i64 job_key",
                "32: i64 user_id",
                "255: optional base.Base Base",
                "}",
            ]
            .map(|s| s.to_string())
            .to_vec(),
        }]
        .to_vec(),
    );
    blocks_map.insert(
        IdlType::Enum,
        [CodeBlock {
            name: "enum1".to_string(),
            lines: ["enum ScheduleRuleType {", "    Soft = 0", "    Hard = 1", "}"]
                .map(|s| s.to_string())
                .to_vec(),
        }]
        .to_vec(),
    );
    let idl_meta_map = parser(&blocks_map);
    // enum
    let idl_metas_enum = idl_meta_map.get(&IdlType::Enum).unwrap();
    assert_eq!(idl_metas_enum.len(), 1);
    assert_eq!(idl_metas_enum[0].name, "enum1");
    let enum_fields = &idl_metas_enum[0].fields;
    assert_eq!(enum_fields.len(), 2);
    test_enum_field(&enum_fields[0], "Soft", "0");
    test_enum_field(&enum_fields[1], "Hard", "1");

    // interface
    let idl_metas_interface = idl_meta_map.get(&IdlType::Interface).unwrap();
    assert_eq!(idl_metas_interface.len(), 1);
    assert_eq!(idl_metas_interface[0].name, "interface1");
    let interface_fields = &idl_metas_interface[0].fields;
    assert_eq!(interface_fields.len(), 6);
    test_interface_field(&interface_fields[0], "term_id", false, InterfaceFieldType::String);
    test_interface_field(
        &interface_fields[1],
        "rules",
        false,
        InterfaceFieldType::Refers(InterfaceFieldRefer {
            refer: "ScheduleRule".to_string(),
            namespace: [].to_vec(),
        }),
    );
    test_interface_field(&interface_fields[2], "org_id", false, InterfaceFieldType::String);
    test_interface_field(&interface_fields[3], "job_key", false, InterfaceFieldType::String);
    test_interface_field(&interface_fields[4], "user_id", false, InterfaceFieldType::String);
    test_interface_field(
        &interface_fields[5],
        "Base",
        true,
        InterfaceFieldType::Refer(InterfaceFieldRefer {
            refer: "Base".to_string(),
            namespace: ["base".to_string()].to_vec(),
        }),
    );
}

fn lines(v: &[&str]) -> Vec<String> {
    v.iter().map(|s| s.to_string()).collect()
}

#[test]
fn optional_qualified_field_scenario() {
    let fields = parse_field_from_line(IdlType::Interface, &lines(&["255: optional base.Base Base"]));
    assert_eq!(fields.len(), 1);
    test_interface_field(
        &fields[0],
        "Base",
        true,
        InterfaceFieldType::Refer(InterfaceFieldRefer {
            refer: "Base".to_string(),
            namespace: vec!["base".to_string()],
        }),
    );
}

#[test]
fn field_before_trailing_comment_scenario() {
    let fields = parse_field_from_line(IdlType::Interface, &lines(&["2: i64 bar /* comment */"]));
    assert_eq!(fields.len(), 1);
    test_interface_field(&fields[0], "bar", false, InterfaceFieldType::String);
    let none = parse_field_from_line(IdlType::Interface, &lines(&["// 3: i64 baz"]));
    assert_eq!(none.len(), 1);
    let only_comment = parse_field_from_line(IdlType::Interface, &lines(&["/* comment */"]));
    assert_eq!(only_comment.len(), 0);
}

#[test]
fn required_and_container_fields() {
    let fields = parse_field_from_line(
        IdlType::Interface,
        &lines(&[
            "  1: required string name,",
            "2: map<string, list<i32>> scores (api.body = \"s\")",
            "3: optional list<foo.Bar> bars;",
            "4: i32",
            "x: i32 bad",
            "5:i32 tight",
        ]),
    );
    assert_eq!(fields.len(), 3);
    test_interface_field(&fields[0], "name", false, InterfaceFieldType::String);
    match &fields[1] {
        IdlMetaField::Interface(f) => {
            assert_eq!(f.name, "scores");
            assert_eq!(f.field_type.to_field_type_str(), "Record<string, number[]>");
        }
        _ => panic!("expected an interface field"),
    }
    test_interface_field(
        &fields[2],
        "bars",
        true,
        InterfaceFieldType::Refers(InterfaceFieldRefer {
            refer: "Bar".to_string(),
            namespace: vec!["foo".to_string()],
        }),
    );
}

#[test]
fn modifier_word_as_type_name() {
    let fields = parse_field_from_line(IdlType::Interface, &lines(&["1: optional Foo"]));
    assert_eq!(fields.len(), 1);
    match &fields[0] {
        IdlMetaField::Interface(f) => {
            assert_eq!(f.name, "Foo");
            assert!(!f.optional);
            assert_eq!(f.field_type, InterfaceFieldType::Unknown);
        }
        _ => panic!("expected an interface field"),
    }
}

#[test]
fn enum_members_and_non_members() {
    let fields = parse_field_from_line(
        IdlType::Enum,
        &lines(&["enum Kind {", "  Alpha2 = 10,", "  beta = 3", "Gamma = x", "  Delta = 7 // d", "}"]),
    );
    assert_eq!(fields.len(), 2);
    test_enum_field(&fields[0], "Alpha2", "10");
    test_enum_field(&fields[1], "Delta", "7");
    assert_eq!(fields[0], IdlMetaField::Enum(ridl::parser::EnumField { key: "Alpha2".to_string(), value: "10".to_string() }));
}

#[test]
fn parser_keeps_only_present_kinds() {
    let mut blocks_map = IdlBlocksMap::new();
    blocks_map.insert(IdlType::Enum, Vec::new());
    let metas = parser(&blocks_map);
    assert!(metas.get(&IdlType::Interface).is_none());
    assert_eq!(metas.get(&IdlType::Enum).unwrap().len(), 0);
}

#[test]
fn unicode_digits_in_values_and_tags() {
    let fields = parse_field_from_line(IdlType::Enum, &lines(&["  Three = \u{663}\u{664}"]));
    assert_eq!(fields.len(), 1);
    test_enum_field(&fields[0], "Three", "\u{663}\u{664}");
    let tagged = parse_field_from_line(IdlType::Interface, &lines(&["\u{661}: i64 id"]));
    assert_eq!(tagged.len(), 1);
    test_interface_field(&tagged[0], "id", false, InterfaceFieldType::String);
}
