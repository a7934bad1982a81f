use rlox::scanner::Scanner;
use rlox::token::{Literal, Token, TokenType};

#[test]
fn scanner_literal_string() {
    let string_token = Token::new(
        TokenType::String,
        "\"string\"".to_owned(),
        Literal::String("string".into()),
        1,
    );
    let semicolon = Token::new(TokenType::Semicolon, ";".to_owned(), Literal::Absent, 1);
    let eof = Token::new(TokenType::EOF, "".to_owned(), Literal::Absent, 1);
    let tokens = vec![string_token, semicolon, eof];
    let text = "\"string\";";
    let mut scanner = Scanner::new(text);
    assert_eq!(tokens, *scanner.scan_text());
}

#[test]
fn scanner_negation() {
    let number = Token::new(TokenType::Number, "1".to_owned(), Literal::Num(1.0f64.to_bits()), 1);
    let operator = Token::new(TokenType::Bang, "!".to_owned(), Literal::Absent, 1);
    let semicolon = Token::new(TokenType::Semicolon, ";".to_owned(), Literal::Absent, 1);
    let eof = Token::new(TokenType::EOF, "".to_owned(), Literal::Absent, 1);
    let tokens = vec![operator, number, semicolon, eof];
    let text = "!1;";
    let mut scanner = Scanner::new(text);
    assert_eq!(tokens, *scanner.scan_text());
}

#[test]
fn scanner_addition() {
    let first_number = Token::new(TokenType::Number, "1".to_owned(), Literal::Num(1.0f64.to_bits()), 1);
    let second_number = Token::new(TokenType::Number, "2".to_owned(), Literal::Num(2.0f64.to_bits()), 1);
    let operator = Token::new(TokenType::Plus, "+".to_owned(), Literal::Absent, 1);
    let semicolon = Token::new(TokenType::Semicolon, ";".to_owned(), Literal::Absent, 1);
    let eof = Token::new(TokenType::EOF, "".to_owned(), Literal::Absent, 1);
    let tokens = vec![first_number, operator, second_number, semicolon, eof];
    let text = "1 + 2;";
    let mut scanner = Scanner::new(text);
    assert_eq!(tokens, *scanner.scan_text());
}

#[test]
fn scanner_equality() {
    let first_number = Token::new(TokenType::Number, "1".to_owned(), Literal::Num(1.0f64.to_bits()), 1);
    let second_number = Token::new(TokenType::Number, "1".to_owned(), Literal::Num(1.0f64.to_bits()), 1);
    let operator = Token::new(TokenType::EqualEqual, "==".to_owned(), Literal::Absent, 1);
    let semicolon = Token::new(TokenType::Semicolon, ";".to_owned(), Literal::Absent, 1);
    let eof = Token::new(TokenType::EOF, "".to_owned(), Literal::Absent, 1);
    let tokens = vec![first_number, operator, second_number, semicolon, eof];
    let text = "1 == 1;";
    let mut scanner = Scanner::new(text);
    assert_eq!(tokens, *scanner.scan_text());
}

#[test]
fn scanner_comparison() {
    let first_number = Token::new(TokenType::Number, "1".to_owned(), Literal::Num(1.0f64.to_bits()), 1);
    let second_number = Token::new(TokenType::Number, "2".to_owned(), Literal::Num(2.0f64.to_bits()), 1);
    let operator = Token::new(TokenType::Greater, ">".to_owned(), Literal::Absent, 1);
    let semicolon = Token::new(TokenType::Semicolon, ";".to_owned(), Literal::Absent, 1);
    let eof = Token::new(TokenType::EOF, "".to_owned(), Literal::Absent, 1);
    let tokens = vec![first_number, operator, second_number, semicolon, eof];
    let text = "1 > 2;";
    let mut scanner = Scanner::new(text);
    assert_eq!(tokens, *scanner.scan_text());
}

#[test]
fn scanner_multiplication() {
    let first_number = Token::new(TokenType::Number, "1".to_owned(), Literal::Num(1.0f64.to_bits()), 1);
    let operator = Token::new(TokenType::Star, "*".to_owned(), Literal::Absent, 1);
    let second_number = Token::new(TokenType::Number, "1".to_owned(), Literal::Num(1.0f64.to_bits()), 1);
    let semicolon = Token::new(TokenType::Semicolon, ";".to_owned(), Literal::Absent, 1);
    let eof = Token::new(TokenType::EOF, "".to_owned(), Literal::Absent, 1);
    let tokens = vec![first_number, operator, second_number, semicolon, eof];
    let text = "1 * 1;";
    let mut scanner = Scanner::new(text);
    assert_eq!(tokens, *scanner.scan_text());
}

#[test]
fn while_statement() {
    let while_kw = Token::new(TokenType::While, "while".to_owned(), Literal::Absent, 1);
    let left_paren = Token::new(TokenType::LeftParen, "(".to_owned(), Literal::Absent, 1);
    let variable = Token::new(TokenType::Identifier, "a".to_owned(), Literal::Absent, 1);
    let greater = Token::new(TokenType::Less, "<".to_owned(), Literal::Absent, 1);
    let two = Token::new(TokenType::Number, "2".to_owned(), Literal::Num(2.0f64.to_bits()), 1);
    let right_paren = Token::new(TokenType::RightParen, ")".to_owned(), Literal::Absent, 1);
    let left_bracket = Token::new(TokenType::LeftBrace, "{".to_owned(), Literal::Absent, 1);
    let plus_sign = Token::new(TokenType::Plus, "+".to_owned(), Literal::Absent, 1);
    let equal_sign = Token::new(TokenType::Equal, "=".to_owned(), Literal::Absent, 1);
    let one = Token::new(TokenType::Number, "1".to_owned(), Literal::Num(1.0f64.to_bits()), 1);
    let right_bracket = Token::new(TokenType::RightBrace, "}".to_owned(), Literal::Absent, 1);
    let semicolon = Token::new(TokenType::Semicolon, ";".to_owned(), Literal::Absent, 1);
    let eof = Token::new(TokenType::EOF, "".to_owned(), Literal::Absent, 1);
    let tokens = vec![
        while_kw,
        left_paren,
        variable.clone(),
        greater.clone(),
        two.clone(),
        right_paren,
        left_bracket,
        variable.clone(),
        equal_sign,
        variable.clone(),
        plus_sign,
        one,
        semicolon,
        right_bracket,
        eof,
    ];
    let text = "while(a < 2) { a = a + 1; }";
    let mut scanner = Scanner::new(text);
    assert_eq!(tokens, *scanner.scan_text());
}

#[test]
fn unterminated_string_is_reported() {
    let mut scanner = Scanner::new("\"unterminated");
    let toks = scanner.scan_text().clone();
    assert_eq!(toks.len(), 1);
    let errs = scanner.lex_errors();
    assert_eq!(errs.len(), 1);
    assert_eq!(errs[0].line, 1);
}

#[test]
fn string_lexeme_rescans_to_equal_token() {
    let mut scanner = Scanner::new("\"ab\";");
    let toks = scanner.scan_text().clone();
    assert_eq!(toks[0].t_type, TokenType::String);
    let lexeme = toks[0].lexeme.clone();
    assert_eq!(lexeme, "\"ab\"");
    let mut again = Scanner::new(&lexeme);
    let toks2 = again.scan_text().clone();
    assert_eq!(toks2[0].t_type, toks[0].t_type);
    assert_eq!(toks2[0].literal, toks[0].literal);
}

#[test]
fn number_lexeme_rescans_to_equal_token() {
    let mut scanner = Scanner::new("12.5 + 3;");
    let toks = scanner.scan_text().clone();
    assert_eq!(toks[0].t_type, TokenType::Number);
    assert_eq!(toks[0].literal, Literal::Num(12.5f64.to_bits()));
    let lexeme = toks[0].lexeme.clone();
    let mut again = Scanner::new(&lexeme);
    let toks2 = again.scan_text().clone();
    assert_eq!(toks2[0].t_type, toks[0].t_type);
    assert_eq!(toks2[0].literal, toks[0].literal);
}

#[test]
fn keyword_lexeme_rescans_to_equal_token() {
    let mut scanner = Scanner::new("true;");
    let toks = scanner.scan_text().clone();
    assert_eq!(toks[0].t_type, TokenType::True);
    assert_eq!(toks[0].literal, Literal::Boolean(true));
    let lexeme = toks[0].lexeme.clone();
    let mut again = Scanner::new(&lexeme);
    let toks2 = again.scan_text().clone();
    assert_eq!(toks2[0].t_type, toks[0].t_type);
    assert_eq!(toks2[0].literal, toks[0].literal);
}
