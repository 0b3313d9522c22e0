use hades_modmanager::{get_literal, is_letter, keyword_token, lookup_indent, Lexer, ParseError, Token};

fn tokens(input: &str) -> Vec<Token> {
    let mut lexer = Lexer::new(input);
    let mut out = Vec::new();
    loop {
        let t = lexer.next_token().unwrap();
        if t == Token::EndOfFile {
            break;
        }
        out.push(t);
    }
    out
}

#[test]
fn string_literal_round_trip() {
    let mut lexer = Lexer::new("\"abc\"");
    let t = lexer.next_token().unwrap();
    assert_eq!(t, Token::String("abc".to_string()));
    assert_eq!(get_literal(&t), Some("abc".to_string()));
}

#[test]
fn string_literal_keeps_backslashes() {
    let mut lexer = Lexer::new("\"a\\nb c\"");
    assert_eq!(lexer.next_token().unwrap(), Token::String("a\\nb c".to_string()));
}

#[test]
fn identifier_next_to_digits_splits() {
    assert_eq!(
        tokens("abc123"),
        vec![Token::Ident("abc".to_string()), Token::Integer("123".to_string())]
    );
}

#[test]
fn keywords_ignore_case() {
    assert_eq!(lookup_indent("ImPoRt"), Token::Import);
    assert_eq!(lookup_indent("SJSON"), Token::Sjson);
    assert_eq!(lookup_indent("Xml"), Token::Xml);
    assert_eq!(lookup_indent("LOAD"), Token::Load);
    assert_eq!(lookup_indent("Priority"), Token::Priority);
    assert_eq!(lookup_indent("tO"), Token::To);
    assert_eq!(lookup_indent("INCLUDE"), Token::Include);
    assert_eq!(lookup_indent("Imports"), Token::Ident("Imports".to_string()));
}

#[test]
fn punctuation_tokens() {
    assert_eq!(
        tokens("-: :- :: ; - : ?"),
        vec![
            Token::MultilineCommentStart,
            Token::MultilineCommentEnd,
            Token::Comment,
            Token::Semicolon,
            Token::Illegal,
            Token::Illegal,
            Token::Illegal,
        ]
    );
}

#[test]
fn unicode_letters_form_identifiers() {
    assert!(is_letter('é'));
    assert!(is_letter('_'));
    assert!(!is_letter('1'));
    assert_eq!(tokens("héllo_x"), vec![Token::Ident("héllo_x".to_string())]);
}

#[test]
fn line_and_column_follow_whitespace() {
    let mut lexer = Lexer::new("  ab\n\t cd");
    assert_eq!(lexer.next_token().unwrap(), Token::Ident("ab".to_string()));
    assert_eq!(lexer.cur_line, 1);
    assert_eq!(lexer.cur_char, 5);
    assert_eq!(lexer.next_token().unwrap(), Token::Ident("cd".to_string()));
    assert_eq!(lexer.cur_line, 2);
    assert_eq!(lexer.cur_char, 5);
    assert_eq!(lexer.next_token().unwrap(), Token::EndOfFile);
    assert_eq!(lexer.next_token().unwrap(), Token::EndOfFile);
}

#[test]
fn unterminated_string_fails() {
    let mut lexer = Lexer::new("\n\"abc");
    assert_eq!(lexer.next_token(), Err(ParseError::UnterminatedString { line: 2 }));
}

#[test]
fn empty_input_is_end_of_file() {
    let mut lexer = Lexer::new("");
    assert_eq!(lexer.next_token().unwrap(), Token::EndOfFile);
}

#[test]
fn literal_of_non_literal_is_none() {
    assert_eq!(get_literal(&Token::Semicolon), None);
    assert_eq!(get_literal(&Token::Integer("42".to_string())), Some("42".to_string()));
    assert_eq!(get_literal(&Token::Ident("x".to_string())), Some("x".to_string()));
}

#[test]
fn keyword_from_lowered_text() {
    assert_eq!(keyword_token("import", "IMPORT"), Token::Import);
    assert_eq!(keyword_token("to", "To"), Token::To);
    assert_eq!(keyword_token("imports", "Imports"), Token::Ident("Imports".to_string()));
}

#[test]
fn newline_resets_column_to_one() {
    let mut lexer = Lexer::new("a\n");
    assert_eq!(lexer.next_token().unwrap(), Token::Ident("a".to_string()));
    assert_eq!(lexer.next_token().unwrap(), Token::EndOfFile);
    assert_eq!(lexer.cur_line, 2);
    assert_eq!(lexer.cur_char, 1);
}
