use lox_vm::lexer::{lex_all, TokenKind};

#[test]
fn source_splits_into_kinds_spans_and_lines() {
    let tokens = lex_all(b"1 + (foo)\n\"hi\" != nil;".to_vec());
    let kinds: Vec<TokenKind> = tokens.iter().map(|t| t.kind).collect();
    assert_eq!(
        kinds,
        vec![
            TokenKind::NumLit,
            TokenKind::Operator,
            TokenKind::Brace,
            TokenKind::Ident,
            TokenKind::Brace,
            TokenKind::StrLit,
            TokenKind::Operator,
            TokenKind::Keyword,
            TokenKind::Punct,
        ]
    );
    assert_eq!(tokens[0].text, b"1".to_vec());
    assert_eq!(tokens[1].text, b"+".to_vec());
    assert_eq!(tokens[3].text, b"foo".to_vec());
    assert_eq!(tokens[5].text, b"\"hi\"".to_vec());
    assert_eq!(tokens[6].text, b"!=".to_vec());
    assert_eq!(tokens[7].text, b"nil".to_vec());
    assert_eq!(tokens[0].line, 0);
    assert_eq!(tokens[5].line, 1);
    assert_eq!(tokens[5].start, 10);
    assert_eq!(tokens[5].end, 14);
}

#[test]
fn decimal_literals_are_one_token_but_a_bare_dot_is_not() {
    let tokens = lex_all(b"12.5 12.".to_vec());
    assert_eq!(tokens.len(), 3);
    assert_eq!(tokens[0].kind, TokenKind::NumLit);
    assert_eq!(tokens[0].text, b"12.5".to_vec());
    assert_eq!(tokens[1].text, b"12".to_vec());
    assert_eq!(tokens[2].kind, TokenKind::Punct);
}

#[test]
fn keywords_are_told_apart_from_identifiers() {
    let tokens = lex_all(b"true truex var x".to_vec());
    assert_eq!(tokens[0].kind, TokenKind::Keyword);
    assert_eq!(tokens[1].kind, TokenKind::Ident);
    assert_eq!(tokens[2].kind, TokenKind::Keyword);
    assert_eq!(tokens[3].kind, TokenKind::Ident);
}

#[test]
fn the_stream_ends_at_unrecognized_input() {
    let tokens = lex_all(b"1 + #2".to_vec());
    assert_eq!(tokens.len(), 2);
    let tokens = lex_all(b"\"unterminated".to_vec());
    assert_eq!(tokens.len(), 0);
}

#[test]
fn suffixed_operators_take_the_equal_sign() {
    let tokens = lex_all(b"<= < == = >= !".to_vec());
    let texts: Vec<Vec<u8>> = tokens.iter().map(|t| t.text.clone()).collect();
    assert_eq!(
        texts,
        vec![
            b"<=".to_vec(),
            b"<".to_vec(),
            b"==".to_vec(),
            b"=".to_vec(),
            b">=".to_vec(),
            b"!".to_vec(),
        ]
    );
}
