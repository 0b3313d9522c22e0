use hades_modmanager::{
    include_paths, parse_document, parse_priority, splice_includes, ParseError, Parser, Statement,
    Token,
};

const DEFAULT_TARGET: &str = "Scripts/RoomManager.lua";

fn parse(input: &str) -> Result<Vec<Statement>, ParseError> {
    parse_document(input, "mods/Example".to_string())
}

#[test]
fn include_splices_nested_directives() {
    let outer = parse("Include \"a.txt\"").unwrap();
    assert_eq!(outer.len(), 1);
    assert_eq!(outer[0].token, Token::Include);
    let paths = include_paths(&outer);
    assert_eq!(paths, vec!["a.txt".to_string()]);
    let nested = parse("import \"foo.lua\"").unwrap();
    let all = splice_includes(&outer, &vec![nested]);
    assert_eq!(all.len(), 1);
    assert_eq!(all[0].token, Token::Import);
    assert_eq!(all[0].value, "foo.lua");
    assert_eq!(all[0].priority, 100);
    assert_eq!(all[0].target, DEFAULT_TARGET);
    assert_eq!(all[0].line, 1);
}

#[test]
fn load_priority_and_target_apply() {
    let out = parse("load priority 5; to \"X.lua\"; import \"y\"").unwrap();
    assert_eq!(out.len(), 1);
    assert_eq!(out[0].token, Token::Import);
    assert_eq!(out[0].value, "y");
    assert_eq!(out[0].priority, 5);
    assert_eq!(out[0].target, "X.lua");
}

#[test]
fn single_line_comment_is_skipped() {
    let out = parse(":: this is ignored\nimport \"z\"").unwrap();
    assert_eq!(out.len(), 1);
    assert_eq!(out[0].token, Token::Import);
    assert_eq!(out[0].value, "z");
    assert_eq!(out[0].priority, 100);
    assert_eq!(out[0].target, DEFAULT_TARGET);
    assert_eq!(out[0].line, 2);
}

#[test]
fn single_line_comment_at_end_of_text() {
    assert_eq!(parse("import a :: trailing words").unwrap().len(), 1);
}

#[test]
fn unterminated_block_comment_fails() {
    assert_eq!(parse("-: unterminated"), Err(ParseError::UnterminatedComment { line: 1 }));
}

#[test]
fn block_comment_is_skipped() {
    let out = parse("-: import \"no\"\n; :- sjson \"yes\"").unwrap();
    assert_eq!(out.len(), 1);
    assert_eq!(out[0].token, Token::Sjson);
    assert_eq!(out[0].value, "yes");
    assert_eq!(out[0].line, 2);
}

#[test]
fn priority_follows_latest_load() {
    let out = parse("import a\nload priority 7\n:: note\nxml b\nto T\nload priority 9\nsjson c")
        .unwrap();
    let prios: Vec<u8> = out.iter().map(|s| s.priority).collect();
    assert_eq!(prios, vec![100, 7, 9]);
    let targets: Vec<&str> = out.iter().map(|s| s.target.as_str()).collect();
    assert_eq!(targets, vec![DEFAULT_TARGET, DEFAULT_TARGET, "T"]);
    let lines: Vec<usize> = out.iter().map(|s| s.line).collect();
    assert_eq!(lines, vec![1, 4, 7]);
}

#[test]
fn nested_document_starts_from_defaults() {
    let outer = parse("load priority 3; to Other; Include part; import after").unwrap();
    let nested = parse("import inner").unwrap();
    let all = splice_includes(&outer, &vec![nested]);
    assert_eq!(all.len(), 2);
    assert_eq!(all[0].value, "inner");
    assert_eq!(all[0].priority, 100);
    assert_eq!(all[0].target, DEFAULT_TARGET);
    assert_eq!(all[1].value, "after");
    assert_eq!(all[1].priority, 3);
    assert_eq!(all[1].target, "Other");
}

#[test]
fn parsing_twice_gives_the_same_directives() {
    let text = "load priority 12; import a; to \"B.lua\"; xml c; Include d";
    assert_eq!(parse(text), parse(text));
}

#[test]
fn empty_document_has_no_directives() {
    assert_eq!(parse("").unwrap(), Vec::<Statement>::new());
    assert_eq!(parse("  ;;\n ;").unwrap(), Vec::<Statement>::new());
}

#[test]
fn integer_operands_are_literals() {
    let out = parse("import 42").unwrap();
    assert_eq!(out[0].value, "42");
}

#[test]
fn load_without_priority_fails() {
    assert_eq!(parse("load 5"), Err(ParseError::MissingPriority { line: 1 }));
}

#[test]
fn priority_out_of_range_fails() {
    assert_eq!(parse("load priority 256"), Err(ParseError::BadPriority { line: 1 }));
    assert_eq!(parse("load priority abc"), Err(ParseError::BadPriority { line: 1 }));
    assert_eq!(parse("load priority 255").unwrap().len(), 0);
}

#[test]
fn missing_operand_fails() {
    assert_eq!(parse("import ;"), Err(ParseError::ExpectedLiteral { line: 1 }));
    assert_eq!(parse("to"), Err(ParseError::ExpectedLiteral { line: 1 }));
}

#[test]
fn stray_token_fails() {
    assert_eq!(parse("import a\n  -"), Err(ParseError::IllegalToken { line: 2, column: 3 }));
    assert_eq!(parse("abc"), Err(ParseError::IllegalToken { line: 1, column: 1 }));
    assert_eq!(parse("xml b ;\n\n 5"), Err(ParseError::IllegalToken { line: 3, column: 2 }));
}

#[test]
fn unclosed_string_fails_in_parser() {
    assert_eq!(parse("import \"abc"), Err(ParseError::UnterminatedString { line: 1 }));
}

#[test]
fn parser_new_then_parse() {
    let mut p = Parser::new("xml \"a.xml\"", "m".to_string()).unwrap();
    let out = p.parse().unwrap();
    assert_eq!(out.len(), 1);
    assert_eq!(out[0].token, Token::Xml);
    assert_eq!(out[0].value, "a.xml");
}

#[test]
fn priority_text_values() {
    assert_eq!(parse_priority(&"0".to_string()), Some(0));
    assert_eq!(parse_priority(&"007".to_string()), Some(7));
    assert_eq!(parse_priority(&"255".to_string()), Some(255));
    assert_eq!(parse_priority(&"1000".to_string()), None);
    assert_eq!(parse_priority(&"".to_string()), None);
    assert_eq!(parse_priority(&"-1".to_string()), None);
}

#[test]
fn statement_constructors() {
    let s = Statement::new(Token::Import, "v".to_string(), 3, 4, "t".to_string());
    assert_eq!(s.priority, 3);
    assert_eq!(s.line, 4);
    assert_eq!(Statement::empty().token, Token::Ignore);
    assert_eq!(Statement::ignore().token, Token::Ignore);
    assert_eq!(s.duplicate(), s);
}

#[test]
fn splice_keeps_order_around_includes() {
    let outer = parse("import a; Include x; import b; Include y").unwrap();
    assert_eq!(include_paths(&outer), vec!["x".to_string(), "y".to_string()]);
    let nx = parse("import x_one; import x_two").unwrap();
    let ny = parse("").unwrap();
    let all = splice_includes(&outer, &vec![nx, ny]);
    let values: Vec<&str> = all.iter().map(|s| s.value.as_str()).collect();
    assert_eq!(values, vec!["a", "x_one", "x_two", "b"]);
}

#[test]
fn directive_takes_line_of_keyword() {
    let out = parse("import\n\"a\"").unwrap();
    assert_eq!(out.len(), 1);
    assert_eq!(out[0].value, "a");
    assert_eq!(out[0].line, 1);
}

#[test]
fn comment_alone_on_its_line_ends_there() {
    let out = parse("::\nimport \"z\"").unwrap();
    assert_eq!(out.len(), 1);
    assert_eq!(out[0].value, "z");
    assert_eq!(out[0].line, 2);
}

#[test]
fn operand_errors_name_the_operand_line() {
    assert_eq!(parse("load priority\n\n300"), Err(ParseError::BadPriority { line: 3 }));
    assert_eq!(parse("to\n;"), Err(ParseError::ExpectedLiteral { line: 2 }));
}

#[test]
fn include_depth_limit() {
    assert!(hades_modmanager::may_follow_includes(0));
    assert!(hades_modmanager::may_follow_includes(hades_modmanager::MAX_INCLUDE_DEPTH - 1));
    assert!(!hades_modmanager::may_follow_includes(hades_modmanager::MAX_INCLUDE_DEPTH));
}
