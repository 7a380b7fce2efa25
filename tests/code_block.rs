
use ridl::code_block::{scan_lines, search_blocks_from_source, LineMarks, Pattern};

#[test]
fn test_no_blocks() {
    let source = r#"function struct() {
    // ...
  }"#;
    let struct_blocks =
        search_blocks_from_source(source, Pattern::new(r"^struct").unwrap(), None, None, None);
    let enum_blocks =
        search_blocks_from_source(source, Pattern::new(r"^enum").unwrap(), None, None, None);
    assert_eq!(struct_blocks.len(), 0);
    assert_eq!(enum_blocks.len(), 0);
}

#[test]
fn test_blocks_with_block_comment() {
    let source = r#"enum E1 {
  /* block comment 1 */
  Soft = 0
  Hard = 1
}/* block comment2 */

struct S1 {
  /**
   * block comment 1
   */
  1: i64 foo
  2: i64 bar
  3: i64 baz
}
"#;
    let struct_blocks =
        search_blocks_from_source(source, Pattern::new(r"^struct").unwrap(), None, None, None);
    let enum_blocks =
        search_blocks_from_source(source, Pattern::new(r"^enum").unwrap(), None, None, None);
    assert_eq!(struct_blocks.len(), 1);
    assert_eq!(struct_blocks[0].name, "S1");
    assert_eq!(struct_blocks[0].lines.len(), 5); // not 7
    assert_eq!(enum_blocks.len(), 1);
    assert_eq!(enum_blocks[0].name, "E1");
    assert_eq!(enum_blocks[0].lines.len(), 4); // not 5
    println!("struct_blocks {:?}", struct_blocks);
    println!("enum_blocks {:?}", enum_blocks);
}

#[test]
fn test_nested_block() {
    let source = r#"interface I1 {
    foo: String,
    bar: {
      baz: String,
    },
  };"#;
    let blocks =
        search_blocks_from_source(source, Pattern::new(r"^interface").unwrap(), None, None, None);
    assert_eq!(blocks.len(), 1);
    assert_eq!(blocks[0].lines.len(), 6);
    println!("nested block: {:?}", blocks);
}

#[test]
fn test_invalid_nested_block() {
    let source = r#"interface I1 {
    foo: String,
    bar: {
      baz: String,
    },
  ;"#;
    let blocks =
        search_blocks_from_source(source, Pattern::new(r"^interface").unwrap(), None, None, None);
    assert_eq!(blocks.len(), 0);
}

#[test]
fn enum_block_scenario() {
    let source = "enum E1 {\n  Soft = 0\n  Hard = 1\n}";
    let blocks = search_blocks_from_source(source, Pattern::new(r"^enum").unwrap(), None, None, None);
    assert_eq!(blocks.len(), 1);
    assert_eq!(blocks[0].name, "E1");
    assert_eq!(blocks[0].lines, vec!["enum E1 {", "  Soft = 0", "  Hard = 1", "}"]);
}

#[test]
fn comment_lines_scenario() {
    let source = "struct S {\n  1: i64 foo\n  // 9: i64 gone\n  2: i64 bar /* comment */\n}\n";
    let blocks = search_blocks_from_source(source, Pattern::new(r"^struct").unwrap(), None, None, None);
    assert_eq!(blocks.len(), 1);
    assert_eq!(blocks[0].lines, vec!["struct S {", "  1: i64 foo", "  2: i64 bar /* comment */", "}"]);
    let kept = search_blocks_from_source(source, Pattern::new(r"^struct").unwrap(), None, None, Some(false));
    assert_eq!(kept[0].lines.len(), 5);
}

#[test]
fn missing_closing_brace_scenario() {
    let source = "struct S {\n  1: i64 foo\n";
    let blocks = search_blocks_from_source(source, Pattern::new(r"^struct").unwrap(), None, None, None);
    assert_eq!(blocks.len(), 0);
}

#[test]
fn custom_markers_and_head_name() {
    let source = "call run (\n  a\n  (b)\n)\ncall skip (";
    let blocks = search_blocks_from_source(
        source,
        Pattern::new(r"^call").unwrap(),
        Some(Pattern::new(r"\(").unwrap()),
        Some(Pattern::new(r"\)").unwrap()),
        None,
    );
    assert_eq!(blocks.len(), 1);
    assert_eq!(blocks[0].name, "run");
    assert_eq!(blocks[0].lines.len(), 4);
}

#[test]
fn several_braces_on_one_line() {
    let source = "struct A { x: { y: {\n} }\n}\nstruct B {}\n";
    let blocks = search_blocks_from_source(source, Pattern::new(r"^struct").unwrap(), None, None, None);
    assert_eq!(blocks.len(), 2);
    assert_eq!(blocks[0].name, "A");
    assert_eq!(blocks[0].lines.len(), 3);
    assert_eq!(blocks[1].name, "B");
    assert_eq!(blocks[1].lines.len(), 1);
}

#[test]
fn head_without_name_and_crlf_lines() {
    let source = "struct{\r\n  1: i64 a\r\n}\r\n";
    let blocks = search_blocks_from_source(source, Pattern::new(r"^struct").unwrap(), None, None, None);
    assert_eq!(blocks.len(), 1);
    assert_eq!(blocks[0].name, "");
    assert_eq!(blocks[0].lines, vec!["struct{", "  1: i64 a", "}"]);
}

#[test]
fn scan_with_given_marks() {
    let lines: Vec<String> = vec!["head x {".to_string(), "body".to_string(), "}".to_string()];
    let marks = vec![
        LineMarks { head_end: Some(4), open_start: Some(7), opens: 1, closes: 0 },
        LineMarks { head_end: None, open_start: None, opens: 0, closes: 0 },
        LineMarks { head_end: None, open_start: None, opens: 0, closes: 1 },
    ];
    let blocks = scan_lines(&lines, &marks, true);
    assert_eq!(blocks.len(), 1);
    assert_eq!(blocks[0].name, "x");
    assert_eq!(blocks[0].lines, lines);
}

#[test]
fn head_line_without_open_marker_gives_empty_name() {
    let source = "struct S\n{\n  1: i64 a\n}\n";
    let blocks = search_blocks_from_source(source, Pattern::new(r"^struct").unwrap(), None, None, None);
    assert_eq!(blocks.len(), 1);
    assert_eq!(blocks[0].name, "");
    assert_eq!(blocks[0].lines.len(), 4);
}

#[test]
fn closing_markers_past_zero_close_the_block() {
    let source = "struct S { } }\nstruct T {\n}\n";
    let blocks = search_blocks_from_source(source, Pattern::new(r"^struct").unwrap(), None, None, None);
    assert_eq!(blocks.len(), 2);
    assert_eq!(blocks[0].name, "S");
    assert_eq!(blocks[0].lines.len(), 1);
    assert_eq!(blocks[1].name, "T");
}

#[test]
fn pattern_keeps_its_text() {
    let p = Pattern::new(r"^enum\s").unwrap();
    assert_eq!(p.as_str(), r"^enum\s");
    assert!(Pattern::new(r"(unclosed").is_err());
}
