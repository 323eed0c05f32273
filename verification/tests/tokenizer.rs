use rcc::errors::TokenizeError;
use rcc::token::TokenKind;
use rcc::tokenizer::Tokenizer;

#[test]
fn tokenize_single_digit_num() {
    let expr = "1";
    let mut token_list = Tokenizer::new(expr).tokenize().unwrap();
    assert_eq!(token_list.peek().unwrap().kind, TokenKind::Num);
    assert_eq!(token_list.peek().unwrap().num.unwrap(), 1);
    token_list.next();
    assert!(token_list.peek().is_none());
}

#[test]
fn tokenize_multiple_digit_num() {
    let expr = "1234";
    let mut token_list = Tokenizer::new(expr).tokenize().unwrap();
    assert_eq!(token_list.peek().unwrap().kind, TokenKind::Num);
    assert_eq!(token_list.peek().unwrap().num.unwrap(), 1234);
    token_list.next();
    assert!(token_list.peek().is_none());
}

#[test]
fn tokenize_operators() {
    let expr = "+-*/";
    let mut token_list = Tokenizer::new(expr).tokenize().unwrap();
    assert_eq!(token_list.next().unwrap().kind, TokenKind::Plus);
    assert_eq!(token_list.next().unwrap().kind, TokenKind::Minus);
    assert_eq!(token_list.next().unwrap().kind, TokenKind::Star);
    assert_eq!(token_list.next().unwrap().kind, TokenKind::Div);
}

#[test]
fn tokenize_parens() {
    let expr = "()";
    let mut token_list = Tokenizer::new(expr).tokenize().unwrap();
    assert_eq!(token_list.next().unwrap().kind, TokenKind::LParen);
    assert_eq!(token_list.next().unwrap().kind, TokenKind::RParen);
}

#[test]
fn skip_whitespaces() {
    let expr = "5 + 20 - 4";
    let mut token_list = Tokenizer::new(expr).tokenize().unwrap();
    assert_eq!(token_list.next().unwrap().kind, TokenKind::Num);
    assert_eq!(token_list.next().unwrap().kind, TokenKind::Plus);
    assert_eq!(token_list.next().unwrap().kind, TokenKind::Num);
    assert_eq!(token_list.next().unwrap().kind, TokenKind::Minus);
    assert_eq!(token_list.next().unwrap().kind, TokenKind::Num);
}

#[test]
fn tokenize_multi_length_operators() {
    let expr = "<=>===!=<>";
    let mut token_list = Tokenizer::new(expr).tokenize().unwrap();
    assert_eq!(token_list.next().unwrap().kind, TokenKind::LessThanOrEqual);
    assert_eq!(token_list.next().unwrap().kind, TokenKind::GreaterThanOrEqual);
    assert_eq!(token_list.next().unwrap().kind, TokenKind::Equal);
    assert_eq!(token_list.next().unwrap().kind, TokenKind::NotEqual);
    assert_eq!(token_list.next().unwrap().kind, TokenKind::LessThan);
    assert_eq!(token_list.next().unwrap().kind, TokenKind::GreaterThan);
}

#[test]
fn tokenize_single_char_ident() {
    let expr = "a b";
    let mut token_list = Tokenizer::new(expr).tokenize().unwrap();
    assert_eq!(token_list.next().unwrap().kind, TokenKind::Ident);
    assert_eq!(token_list.next().unwrap().kind, TokenKind::Ident);
}

#[test]
fn tokenize_single_multi_char_ident() {
    let expr = "foo bar";
    let mut token_list = Tokenizer::new(expr).tokenize().unwrap();
    let first_ident = token_list.next().unwrap();
    let second_ident = token_list.next().unwrap();
    assert_eq!(first_ident.kind, TokenKind::Ident);
    assert_eq!(first_ident.str.unwrap(), "foo");
    assert_eq!(second_ident.kind, TokenKind::Ident);
    assert_eq!(second_ident.str.unwrap(), "bar");
}

#[test]
fn tokenize_semicolon() {
    let expr = ";";
    let mut token_list = Tokenizer::new(expr).tokenize().unwrap();
    assert_eq!(token_list.next().unwrap().kind, TokenKind::Semicolon);
}

#[test]
fn tokenize_equal_assign() {
    let expr = "===";
    let mut token_list = Tokenizer::new(expr).tokenize().unwrap();
    assert_eq!(token_list.next().unwrap().kind, TokenKind::Equal);
    assert_eq!(token_list.next().unwrap().kind, TokenKind::Assign);
}

#[test]
fn tokenize_program() {
    let expr = "a = 42; a;";
    let mut token_list = Tokenizer::new(expr).tokenize().unwrap();
    // a = 42;
    assert_eq!(token_list.next().unwrap().kind, TokenKind::Ident);
    assert_eq!(token_list.next().unwrap().kind, TokenKind::Assign);
    assert_eq!(token_list.next().unwrap().kind, TokenKind::Num);
    assert_eq!(token_list.next().unwrap().kind, TokenKind::Semicolon);
    // a;
    assert_eq!(token_list.next().unwrap().kind, TokenKind::Ident);
    assert_eq!(token_list.next().unwrap().kind, TokenKind::Semicolon);
}

#[test]
fn tokenize_return() {
    let expr = "return 42;";
    let mut token_list = Tokenizer::new(expr).tokenize().unwrap();
    assert_eq!(token_list.next().unwrap().kind, TokenKind::Return);
    assert_eq!(token_list.next().unwrap().kind, TokenKind::Num);
    assert_eq!(token_list.next().unwrap().kind, TokenKind::Semicolon);
}

#[test]
fn correctly_tokenize_return_like_local_var() {
    let expr = "return_with_suffix prefixed_return return42 return";
    let mut token_list = Tokenizer::new(expr).tokenize().unwrap();
    assert_eq!(token_list.next().unwrap().kind, TokenKind::Ident);
    assert_eq!(token_list.next().unwrap().kind, TokenKind::Ident);
    assert_eq!(token_list.next().unwrap().kind, TokenKind::Ident);
    assert_eq!(token_list.next().unwrap().kind, TokenKind::Return);
}

#[test]
fn tokenize_keywords_and_brackets() {
    let expr = "int x[3]; if else while for sizeof & {} ,";
    let mut token_list = Tokenizer::new(expr).tokenize().unwrap();
    assert_eq!(token_list.next().unwrap().kind, TokenKind::Int);
    assert_eq!(token_list.next().unwrap().kind, TokenKind::Ident);
    assert_eq!(token_list.next().unwrap().kind, TokenKind::LBracket);
    assert_eq!(token_list.next().unwrap().kind, TokenKind::Num);
    assert_eq!(token_list.next().unwrap().kind, TokenKind::RBracket);
    assert_eq!(token_list.next().unwrap().kind, TokenKind::Semicolon);
    assert_eq!(token_list.next().unwrap().kind, TokenKind::If);
    assert_eq!(token_list.next().unwrap().kind, TokenKind::Else);
    assert_eq!(token_list.next().unwrap().kind, TokenKind::While);
    assert_eq!(token_list.next().unwrap().kind, TokenKind::For);
    assert_eq!(token_list.next().unwrap().kind, TokenKind::SizeOf);
    assert_eq!(token_list.next().unwrap().kind, TokenKind::Ampersand);
    assert_eq!(token_list.next().unwrap().kind, TokenKind::LBrace);
    assert_eq!(token_list.next().unwrap().kind, TokenKind::RBrace);
    assert_eq!(token_list.next().unwrap().kind, TokenKind::Comma);
    assert!(token_list.next().is_none());
}

#[test]
fn tokenize_rejects_unknown_character() {
    let expr = "1 + @";
    let result = Tokenizer::new(expr).tokenize();
    assert!(matches!(
        result,
        Err(TokenizeError::UnknownToken { position: 4 })
    ));
}
