use silq::lexer::Lexer;
use silq::token::TokenType;

#[test]
fn test_basic_tokens() {
    let mut lexer = Lexer::new("def f(x: B): B { return x; }");
    let tokens = lexer.tokenize_all();
    let types: Vec<TokenType> = tokens.iter().map(|t| t.ty).collect();
    assert_eq!(
        types,
        vec![
            TokenType::KwDef,
            TokenType::Identifier,
            TokenType::LParen,
            TokenType::Identifier,
            TokenType::Colon,
            TokenType::Identifier,
            TokenType::RParen,
            TokenType::Colon,
            TokenType::Identifier,
            TokenType::LBrace,
            TokenType::KwReturn,
            TokenType::Identifier,
            TokenType::Semicolon,
            TokenType::RBrace
        ]
    );
}

#[test]
fn test_numbers() {
    let mut lexer = Lexer::new("42 3.14 0xFF 3e10");
    let tokens = lexer.tokenize_all();
    assert_eq!(tokens[0].ty, TokenType::IntLit);
    assert_eq!(tokens[1].ty, TokenType::FloatLit);
    assert_eq!(tokens[2].ty, TokenType::IntLit);
    assert_eq!(tokens[3].ty, TokenType::FloatLit);
}

#[test]
fn test_arrows() {
    let mut lexer = Lexer::new("-> => <-");
    let tokens = lexer.tokenize_all();
    assert_eq!(tokens[0].ty, TokenType::Arrow);
    assert_eq!(tokens[1].ty, TokenType::FatArrow);
    assert_eq!(tokens[2].ty, TokenType::LeftArrow);
}

#[test]
fn test_keywords() {
    let mut lexer = Lexer::new("if then else while for in def dat import");
    let tokens = lexer.tokenize_all();
    assert_eq!(tokens[0].ty, TokenType::KwIf);
    assert_eq!(tokens[3].ty, TokenType::KwWhile);
    assert_eq!(tokens[6].ty, TokenType::KwDef);
    assert_eq!(tokens[8].ty, TokenType::KwImport);
}

#[test]
fn test_comments() {
    let mut lexer = Lexer::new("x // this is a comment\ny");
    let tokens = lexer.tokenize_all();
    assert_eq!(tokens.len(), 2);
    assert_eq!(tokens[0].text, "x");
    assert_eq!(tokens[1].text, "y");
}

#[test]
fn peek_then_next_returns_the_same_token() {
    let mut lexer = Lexer::new("foo := 12");
    let peeked = lexer.peek_token();
    let again = lexer.peek_token();
    let next = lexer.next_token();
    assert_eq!(peeked.ty, TokenType::Identifier);
    assert_eq!(peeked.text, "foo");
    assert_eq!(again.text, peeked.text);
    assert_eq!(next.text, peeked.text);
    assert_eq!(next.offset, peeked.offset);
    assert_eq!(lexer.next_token().ty, TokenType::Assign);
}

#[test]
fn nested_comments_are_skipped() {
    let mut lexer = Lexer::new("a /+ outer /+ inner +/ still +/ b");
    let tokens = lexer.tokenize_all();
    assert_eq!(tokens.len(), 2);
    assert_eq!(tokens[0].text, "a");
    assert_eq!(tokens[1].text, "b");
}

#[test]
fn token_offsets_do_not_decrease() {
    let mut lexer = Lexer::new("def  main ( ) { x := 1 + 2 ; }");
    let tokens = lexer.tokenize_all();
    for w in tokens.windows(2) {
        assert!(w[0].offset <= w[1].offset);
    }
    assert!(tokens.iter().all(|t| t.ty != TokenType::Eof));
}

#[test]
fn end_of_input_repeats() {
    let mut lexer = Lexer::new("   ");
    assert_eq!(lexer.next_token().ty, TokenType::Eof);
    assert_eq!(lexer.next_token().ty, TokenType::Eof);
}

#[test]
fn line_and_column_of_tokens() {
    let mut lexer = Lexer::new("x\n  y");
    let tokens = lexer.tokenize_all();
    assert_eq!(tokens[0].line, 1);
    assert_eq!(tokens[0].col, 1);
    assert_eq!(tokens[1].line, 2);
    assert_eq!(tokens[1].col, 3);
    assert_eq!(tokens[1].offset, 4);
}

#[test]
fn keyword_lookup_and_precedence() {
    assert_eq!(silq::token::lookup_keyword("while"), Some(TokenType::KwWhile));
    assert_eq!(silq::token::lookup_keyword("whilst"), None);
    assert_eq!(silq::token::get_lbp(TokenType::Plus), 120);
    assert_eq!(silq::token::get_lbp(TokenType::Mul), 130);
    assert_eq!(silq::token::get_lbp(TokenType::Semicolon), 0);
    assert_eq!(TokenType::LParen.as_static_str(), "'('");
    assert_eq!(TokenType::Plus.debug_name(), "Plus");
}

#[test]
fn keyword_kinds_print_as_quoted_spellings() {
    for word in ["def", "dat", "with", "forget", "classical", "lambda"] {
        let kind = silq::token::lookup_keyword(word).unwrap();
        assert_eq!(kind.as_static_str(), format!("'{}'", word));
    }
    assert_eq!(silq::token::lookup_keyword("λ"), Some(TokenType::KwLambda));
}

#[test]
fn binding_powers_lie_between_comma_and_postfix() {
    assert_eq!(silq::token::get_lbp(TokenType::Comma), 10);
    assert_eq!(silq::token::get_lbp(TokenType::Dot), 160);
    assert_eq!(silq::token::get_lbp(TokenType::Power), 150);
    assert_eq!(silq::token::get_lbp(TokenType::RParen), 0);
    for t in [TokenType::Plus, TokenType::Assign, TokenType::Colon, TokenType::Arrow, TokenType::LBracket] {
        let p = silq::token::get_lbp(t);
        assert!((10..=160).contains(&p));
    }
}

#[test]
fn tokenize_listing_of_a_short_source() {
    let listing = silq::wasm::tokenize_silq("x := 1;");
    assert_eq!(listing, "Identifier: 'x'\nAssign: ':='\nIntLit: '1'\nSemicolon: ';'");
}

#[test]
fn unicode_letters_form_identifiers() {
    // each non-ASCII character is a token of its own
    let mut lexer = Lexer::new("дм € x");
    let tokens = lexer.tokenize_all();
    assert_eq!(tokens[0].ty, TokenType::Identifier);
    assert_eq!(tokens[0].text, "д");
    assert_eq!(tokens[1].ty, TokenType::Identifier);
    assert_eq!(tokens[1].text, "м");
    assert_ne!(tokens[2].ty, TokenType::Identifier);
    assert_eq!(tokens.last().unwrap().text, "x");
}

#[test]
fn string_and_char_literals_resolve_escapes() {
    let mut lexer = Lexer::new(r#""a\tb\"c" r"x\ny" 'q' '\n' @[extern="H[1]"] rest"#);
    let tokens = lexer.tokenize_all();
    assert_eq!(tokens[0].ty, TokenType::StringLit);
    assert_eq!(tokens[0].text, "a\tb\"c");
    assert_eq!(tokens[1].ty, TokenType::StringLit);
    assert_eq!(tokens[1].text, "x\\ny");
    assert_eq!(tokens[2].ty, TokenType::CharLit);
    assert_eq!(tokens[2].text, "q");
    assert_eq!(tokens[3].text, "\n");
    assert_eq!(tokens[4].ty, TokenType::Annotation);
    assert_eq!(tokens[4].text, "extern=\"H[1]\"");
    assert_eq!(tokens[5].text, "rest");
}

#[test]
fn numeric_literal_kinds_and_extents() {
    let mut lexer = Lexer::new("0x1F 0b101 1_000 2.5e-3 7e2 3\\4 .5 1.5.3 9");
    let tokens = lexer.tokenize_all();
    let kinds: Vec<(TokenType, String)> = tokens.iter().map(|t| (t.ty, t.text.clone())).collect();
    assert_eq!(
        kinds,
        vec![
            (TokenType::IntLit, "0x1F".to_string()),
            (TokenType::IntLit, "0b101".to_string()),
            (TokenType::IntLit, "1_000".to_string()),
            (TokenType::FloatLit, "2.5e-3".to_string()),
            (TokenType::FloatLit, "7e2".to_string()),
            (TokenType::RationalLit, "3\\4".to_string()),
            (TokenType::FloatLit, ".5".to_string()),
            (TokenType::FloatLit, "1.5.3".to_string()),
            (TokenType::IntLit, "9".to_string()),
        ]
    );
}

#[test]
fn unexpected_characters_are_error_tokens() {
    let mut lexer = Lexer::new("$");
    let tokens = lexer.tokenize_all();
    assert_eq!(tokens[0].ty, TokenType::Error);
    assert_eq!(tokens[0].text, "unexpected character '$'");
}

#[test]
fn nested_comment_positions_follow_the_comment() {
    let mut lexer = Lexer::new("/+ a /+ b +/ c +/ x");
    let t = lexer.next_token();
    assert_eq!(t.ty, TokenType::Identifier);
    assert_eq!(t.text, "x");
    assert_eq!((t.line, t.col, t.offset), (1, 19, 18));
}

#[test]
fn second_line_token_position() {
    let mut lexer = Lexer::new("x\n  y");
    let first = lexer.next_token();
    assert_eq!((first.line, first.col, first.offset), (1, 1, 0));
    let second = lexer.next_token();
    assert_eq!(second.text, "y");
    assert_eq!((second.line, second.col, second.offset), (2, 3, 4));
}

#[test]
fn end_of_input_keeps_its_position() {
    let mut lexer = Lexer::new("ab\n c ");
    lexer.next_token();
    lexer.next_token();
    let t1 = lexer.next_token();
    let t2 = lexer.next_token();
    assert_eq!(t1.ty, TokenType::Eof);
    assert_eq!(t2.ty, TokenType::Eof);
    assert_eq!(t2.text, "");
    assert_eq!((t1.line, t1.col, t1.offset), (t2.line, t2.col, t2.offset));
    assert_eq!((t1.line, t1.col, t1.offset), (2, 4, 6));
}

#[test]
fn multibyte_operator_is_located_at_its_first_byte() {
    let mut lexer = Lexer::new("→");
    let t = lexer.next_token();
    assert_eq!(t.ty, TokenType::Arrow);
    assert_eq!(t.text, "→");
    assert_eq!((t.line, t.col, t.offset), (1, 1, 0));
    let mut lexer = Lexer::new("a × b");
    let tokens = lexer.tokenize_all();
    assert_eq!(tokens[1].ty, TokenType::Cross);
    assert_eq!(tokens[1].offset, 2);
    assert_eq!(tokens[1].col, 3);
    assert_eq!(tokens[2].offset, 5);
}

#[test]
fn lambda_letter_is_the_lambda_keyword() {
    let mut lexer = Lexer::new("λ");
    assert_eq!(lexer.next_token().ty, TokenType::KwLambda);
}

#[test]
fn last_token_is_the_previous_token() {
    let mut lexer = Lexer::new("x y");
    assert!(lexer.last_token().is_none());
    let t = lexer.next_token();
    let last = lexer.last_token().unwrap();
    assert_eq!(last.ty, TokenType::Identifier);
    assert_eq!(last.text, t.text);
    assert_eq!(last.offset, 0);
}

#[test]
fn keyword_tokens_answer_for_their_spelling() {
    let t = silq::token::Token::new(TokenType::KwIf, "if".to_string(), 1, 1, 0);
    assert!(t.is_keyword("if"));
    assert!(!t.is_keyword("then"));
    let id = silq::token::Token::new(TokenType::Identifier, "if".to_string(), 1, 1, 0);
    assert!(!id.is_keyword("if"));
}

#[test]
fn held_back_end_of_input_keeps_its_position() {
    let mut lexer = Lexer::new("a  ");
    lexer.next_token();
    let peeked = lexer.peek_token();
    let t1 = lexer.next_token();
    let t2 = lexer.next_token();
    assert_eq!(peeked.ty, TokenType::Eof);
    assert_eq!(t1.ty, TokenType::Eof);
    assert_eq!(t2.ty, TokenType::Eof);
    assert_eq!((t1.line, t1.col, t1.offset), (t2.line, t2.col, t2.offset));
}

#[test]
fn after_tokenizing_everything_the_next_token_is_end_of_input() {
    let mut lexer = Lexer::new("x := 1");
    let tokens = lexer.tokenize_all();
    assert_eq!(tokens.len(), 3);
    assert_eq!(lexer.next_token().ty, TokenType::Eof);
}

#[test]
fn identifier_continues_through_non_ascii_letters() {
    let mut lexer = Lexer::new("x\u{3b1}1 + y");
    let tokens = lexer.tokenize_all();
    assert_eq!(tokens.len(), 3);
    assert_eq!(tokens[0].ty, TokenType::Identifier);
    assert_eq!(tokens[0].text, "x\u{3b1}1");
    assert_eq!(tokens[1].ty, TokenType::Plus);
    assert_eq!(tokens[2].text, "y");
}

#[test]
fn identifier_stops_before_a_non_letter_symbol() {
    let mut lexer = Lexer::new("x\u{2192}y");
    let tokens = lexer.tokenize_all();
    assert_eq!(tokens[0].ty, TokenType::Identifier);
    assert_eq!(tokens[0].text, "x");
    assert_eq!(tokens[1].text, "\u{2192}");
    assert_eq!(tokens[2].text, "y");
}
