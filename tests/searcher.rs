use ridl::namespace::NamespaceMap;
use ridl::parse_idl_metas_from_blocks;
use ridl::parser::IdlMetaField;
use ridl::searcher::{collect_idl_blocks, merge_file_blocks, parse_namespace, searcher};
use ridl::types::{CodeBlock, IdlBlocksMap, IdlProtocolType, IdlType};

#[test]
fn namespace_declaration_is_read() {
    assert_eq!(parse_namespace("namespace go a.b_c.d\nstruct X {}\n"), "a.b_c.d");
    assert_eq!(parse_namespace("// x\nnamespace go svc\n"), "svc");
    assert_eq!(parse_namespace("struct X {}\n"), "");
    assert_eq!(parse_namespace(" namespace go svc\n"), "");
    assert_eq!(parse_namespace("namespace go svc"), "");
}

#[test]
fn searcher_finds_both_kinds() {
    let source = "namespace go demo\n\nstruct S1 {\n  1: i64 foo\n}\n\nenum E1 {\n  A = 1\n}\n";
    let (namespace, blocks) = searcher(source);
    assert_eq!(namespace, "demo");
    let structs = blocks.get(&IdlType::Interface).unwrap();
    assert_eq!(structs.len(), 1);
    assert_eq!(structs[0].name, "S1");
    let enums = blocks.get(&IdlType::Enum).unwrap();
    assert_eq!(enums.len(), 1);
    assert_eq!(enums[0].name, "E1");
}

#[test]
fn merging_same_namespace_scenario() {
    let first = "struct A {\n  1: i64 a\n}\nstruct B {\n}\n".to_string();
    let second = "struct C {\n  1: i64 c\n}\n".to_string();
    let tree = collect_idl_blocks(&vec![first, second]);
    assert_eq!(tree.len(), 1);
    let blocks = tree.get("").unwrap().get(&IdlType::Interface).unwrap();
    let names: Vec<&str> = blocks.iter().map(|b| b.name.as_str()).collect();
    assert_eq!(names, vec!["A", "B", "C"]);
}

fn block(name: &str) -> CodeBlock {
    CodeBlock { name: name.to_string(), lines: Vec::new() }
}

#[test]
fn merge_keeps_other_kinds_and_namespaces() {
    let mut tree = NamespaceMap::new();
    let mut one = IdlBlocksMap::new();
    one.insert(IdlType::Enum, vec![block("E")]);
    merge_file_blocks(&mut tree, "x".to_string(), one);
    let mut two = IdlBlocksMap::new();
    two.insert(IdlType::Interface, vec![block("S")]);
    merge_file_blocks(&mut tree, "x".to_string(), two);
    let mut three = IdlBlocksMap::new();
    three.insert(IdlType::Enum, vec![block("F")]);
    merge_file_blocks(&mut tree, "y".to_string(), three);
    assert_eq!(tree.len(), 2);
    let x = tree.get("x").unwrap();
    assert_eq!(x.get(&IdlType::Enum).unwrap()[0].name, "E");
    assert_eq!(x.get(&IdlType::Interface).unwrap()[0].name, "S");
    assert_eq!(tree.get("y").unwrap().get(&IdlType::Enum).unwrap()[0].name, "F");
    assert!(tree.get("z").is_none());
}

#[test]
fn whole_pipeline_from_sources() {
    let a = "namespace go base\n\nstruct Base {\n  1: string LogID\n}\n".to_string();
    let b = "namespace go svc\n\nstruct Req {\n  1: i64 id\n  255: optional base.Base Base\n}\n\nenum Kind {\n  On = 1\n  Off = 0\n}\n".to_string();
    let tree = collect_idl_blocks(&vec![a, b]);
    let metas = parse_idl_metas_from_blocks(&IdlProtocolType::Thrift, &tree);
    assert_eq!(metas.len(), 2);
    let svc = metas.get("svc").unwrap();
    let reqs = svc.get(&IdlType::Interface).unwrap();
    assert_eq!(reqs.len(), 1);
    assert_eq!(reqs[0].name, "Req");
    assert_eq!(reqs[0].fields.len(), 2);
    let kinds = svc.get(&IdlType::Enum).unwrap();
    assert_eq!(kinds[0].fields.len(), 2);
    match &kinds[0].fields[1] {
        IdlMetaField::Enum(f) => {
            assert_eq!(f.key, "Off");
            assert_eq!(f.value, "0");
        }
        _ => panic!("expected an enum member"),
    }
    assert_eq!(metas.get("base").unwrap().get(&IdlType::Interface).unwrap()[0].name, "Base");
}

#[test]
fn kind_and_protocol_texts() {
    assert_eq!(IdlType::Interface.as_str(), "struct");
    assert_eq!(IdlType::Enum.as_str(), "enum");
    assert_eq!(IdlProtocolType::Thrift.as_str(), ".thrift");
}

#[test]
fn unicode_word_characters_in_names() {
    assert_eq!(parse_namespace("namespace go \u{e9}t\u{e9}.caf\u{e9}\n"), "\u{e9}t\u{e9}.caf\u{e9}");
    let (_, blocks) = searcher("struct S {\n  1: i64 d\u{e9}j\u{e0}\n}\n");
    let metas = ridl::parser::parser(&blocks);
    let fields = &metas.get(&IdlType::Interface).unwrap()[0].fields;
    assert_eq!(fields.len(), 1);
    match &fields[0] {
        IdlMetaField::Interface(f) => assert_eq!(f.name, "d\u{e9}j\u{e0}"),
        _ => panic!("expected an interface field"),
    }
}

#[test]
fn searcher_gives_both_kinds_even_when_empty() {
    let (namespace, blocks) = searcher("namespace go base\nstruct Base {\n  1: i64 a\n}\n");
    assert_eq!(namespace, "base");
    let structs = blocks.get(&IdlType::Interface).unwrap();
    assert_eq!(structs.len(), 1);
    assert_eq!(structs[0].lines, vec!["struct Base {", "  1: i64 a", "}"]);
    assert_eq!(blocks.get(&IdlType::Enum).unwrap().len(), 0);
}
