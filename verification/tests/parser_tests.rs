use rlox::expr::{Binary, Expr, Literal as ExprLiteral, Unary, Var as ExprVar};
use rlox::parser::Parser;
use rlox::stmt::{Block, Stmt, While};
use rlox::token::{Literal, Token, TokenType};

#[test]
fn parser_literal_string() {
    let string_token = Token::new(
        TokenType::String,
        "string".to_owned(),
        Literal::String("string".into()),
        1,
    );
    let semicolon = Token::new(TokenType::Semicolon, ";".to_owned(), Literal::Absent, 1);
    let expected_expr = Expr::Literal(ExprLiteral { token: string_token.clone() });
    let tokens = vec![string_token, semicolon];
    let mut parser = Parser::new(&tokens);
    let mut stmt = parser.parse();
    if let Some(Stmt::Expr(expr)) = stmt.pop() {
        assert_eq!(expr, expected_expr);
    } else {
        unreachable!()
    }
}

#[test]
fn parser_negation() {
    let number = Token::new(TokenType::Number, "1".to_owned(), Literal::Num(1.0f64.to_bits()), 1);
    let operator = Token::new(TokenType::Bang, "!".to_owned(), Literal::Absent, 1);
    let left = Expr::Literal(ExprLiteral { token: number.clone() });
    let expected_expr = Expr::Unary(Unary {
        expr: Box::new(left),
        operator: operator.clone(),
    });
    let semicolon = Token::new(TokenType::Semicolon, ";".to_owned(), Literal::Absent, 1);
    let tokens = vec![operator, number, semicolon];
    let mut parser = Parser::new(&tokens);
    let mut stmt = parser.parse();
    if let Some(Stmt::Expr(expr)) = stmt.pop() {
        assert_eq!(expr, expected_expr);
    } else {
        unreachable!()
    }
}

#[test]
fn parser_addition() {
    let first_number = Token::new(TokenType::Number, "1".to_owned(), Literal::Num(1.0f64.to_bits()), 1);
    let second_number = Token::new(TokenType::Number, "2".to_owned(), Literal::Num(2.0f64.to_bits()), 1);
    let operator = Token::new(TokenType::Plus, "+".to_owned(), Literal::Absent, 1);
    let left = Expr::Literal(ExprLiteral { token: first_number.clone() });
    let right = Expr::Literal(ExprLiteral { token: second_number.clone() });
    let expected_expr = Expr::Binary(Binary {
        left: Box::new(left),
        right: Box::new(right),
        operator: operator.clone(),
    });
    let semicolon = Token::new(TokenType::Semicolon, ";".to_owned(), Literal::Absent, 1);
    let tokens = vec![first_number, operator, second_number, semicolon];
    let mut parser = Parser::new(&tokens);
    let mut stmt = parser.parse();
    if let Some(Stmt::Expr(expr)) = stmt.pop() {
        assert_eq!(expr, expected_expr);
    } else {
        unreachable!()
    }
}

#[test]
fn parser_equality() {
    let first_number = Token::new(TokenType::Number, "1".to_owned(), Literal::Num(1.0f64.to_bits()), 1);
    let second_number = Token::new(TokenType::Number, "1".to_owned(), Literal::Num(1.0f64.to_bits()), 1);
    let operator = Token::new(TokenType::EqualEqual, "==".to_owned(), Literal::Absent, 1);
    let left = Expr::Literal(ExprLiteral { token: first_number.clone() });
    let right = Expr::Literal(ExprLiteral { token: second_number.clone() });
    let expected_expr = Expr::Binary(Binary {
        left: Box::new(left),
        right: Box::new(right),
        operator: operator.clone(),
    });
    let semicolon = Token::new(TokenType::Semicolon, ";".to_owned(), Literal::Absent, 1);
    let tokens = vec![first_number, operator, second_number, semicolon];
    let mut parser = Parser::new(&tokens);
    let mut stmt = parser.parse();
    if let Some(Stmt::Expr(expr)) = stmt.pop() {
        assert_eq!(expr, expected_expr);
    } else {
        unreachable!()
    }
}

#[test]
fn parser_comparison() {
    let first_number = Token::new(TokenType::Number, "1".to_owned(), Literal::Num(1.0f64.to_bits()), 1);
    let second_number = Token::new(TokenType::Number, "2".to_owned(), Literal::Num(2.0f64.to_bits()), 1);
    let operator = Token::new(TokenType::Greater, ">".to_owned(), Literal::Absent, 1);
    let semicolon = Token::new(TokenType::Semicolon, ";".to_owned(), Literal::Absent, 1);
    let left = Expr::Literal(ExprLiteral { token: first_number.clone() });
    let right = Expr::Literal(ExprLiteral { token: second_number.clone() });
    let expected_expr = Expr::Binary(Binary {
        left: Box::new(left),
        right: Box::new(right),
        operator: operator.clone(),
    });
    let tokens = vec![first_number, operator, second_number, semicolon];
    let mut parser = Parser::new(&tokens);
    let mut stmt = parser.parse();
    if let Some(Stmt::Expr(expr)) = stmt.pop() {
        assert_eq!(expr, expected_expr);
    } else {
        unreachable!()
    }
}

#[test]
fn parser_multiplication() {
    let first_number = Token::new(TokenType::Number, "1".to_owned(), Literal::Num(1.0f64.to_bits()), 1);
    let operator = Token::new(TokenType::Star, "*".to_owned(), Literal::Absent, 1);
    let second_number = Token::new(TokenType::Number, "1".to_owned(), Literal::Num(1.0f64.to_bits()), 1);
    let semicolon = Token::new(TokenType::Semicolon, ";".to_owned(), Literal::Absent, 1);
    let left = Expr::Literal(ExprLiteral { token: first_number.clone() });
    let right = Expr::Literal(ExprLiteral { token: second_number.clone() });
    let expected_expr = Expr::Binary(Binary {
        left: Box::new(left),
        right: Box::new(right),
        operator: operator.clone(),
    });
    let tokens = vec![first_number, operator, second_number, semicolon];
    let mut parser = Parser::new(&tokens);
    let mut stmt = parser.parse();
    if let Some(Stmt::Expr(expr)) = stmt.pop() {
        assert_eq!(expr, expected_expr);
    } else {
        unreachable!()
    }
}

#[test]
fn while_statement_parse() {
    // while(a < 2) {
    //   a = a + 1;
    // }
    let while_kw = Token::new(TokenType::While, "while".to_owned(), Literal::Absent, 1);
    let left_paren = Token::new(TokenType::LeftParen, "(".to_owned(), Literal::Absent, 1);
    let variable = Token::new(TokenType::Identifier, "a".to_owned(), Literal::Absent, 1);
    let greater = Token::new(TokenType::Less, "<".to_owned(), Literal::Absent, 1);
    let two = Token::new(TokenType::Number, "2".to_owned(), Literal::Num(2.0f64.to_bits()), 1);
    let right_paren = Token::new(TokenType::RightParen, ")".to_owned(), Literal::Absent, 1);
    let left_bracket = Token::new(TokenType::LeftBrace, "{".to_owned(), Literal::Absent, 1);
    let plus_sign = Token::new(TokenType::Plus, "+".to_owned(), Literal::Absent, 1);
    let equal_sign = Token::new(TokenType::Equal, "=".to_owned(), Literal::Absent, 1);
    let one = Token::new(TokenType::Number, "1".to_owned(), Literal::Num(1.0f64.to_bits()), 1);
    let right_bracket = Token::new(TokenType::RightBrace, "}".to_owned(), Literal::Absent, 1);
    let semicolon = Token::new(TokenType::Semicolon, ";".to_owned(), Literal::Absent, 1);

    let tokens = vec![
        while_kw,
        left_paren,
        variable.clone(),
        greater.clone(),
        two.clone(),
        right_paren,
        left_bracket,
        variable.clone(),
        equal_sign,
        variable.clone(),
        plus_sign.clone(),
        one.clone(),
        semicolon,
        right_bracket,
    ];

    let while_left = Expr::Var(ExprVar { name: variable.clone() });
    let while_right = Expr::Literal(ExprLiteral { token: two.clone() });
    let while_greater_expr = Expr::Binary(Binary {
        left: Box::new(while_left),
        right: Box::new(while_right),
        operator: greater.clone(),
    });
    let block_var = Expr::Var(ExprVar { name: variable.clone() });
    let block_value = Expr::Literal(ExprLiteral { token: one.clone() });
    let block_right = Expr::Binary(Binary {
        left: Box::new(block_var),
        right: Box::new(block_value),
        operator: plus_sign.clone(),
    });
    let block_left = Stmt::Expr(Expr::Assignment(rlox::expr::Assignment {
        name: variable,
        value: Box::new(block_right),
    }));
    let block = Stmt::Block(Block { stmt_vec: vec![block_left] });
    let while_stmt = Stmt::While(While {
        condition: while_greater_expr,
        body: Box::new(block),
    });

    let mut parser = Parser::new(&tokens);
    let mut stmt = parser.parse();
    assert_eq!(while_stmt, stmt.pop().unwrap());
}

#[test]
fn for_loop_parse() {
    // for(var a = 1; a < 2; a = a + 1) {}
    // should parse as:
    // {
    //  var a = 1;
    //  while(a < 2) {
    //   a = a + 1;
    //  }
    // }
    let for_kw = Token::new(TokenType::For, "for".to_owned(), Literal::Absent, 1);
    let left_paren = Token::new(TokenType::LeftParen, "(".to_owned(), Literal::Absent, 1);
    let var_kw = Token::new(TokenType::Var, "var".to_owned(), Literal::Absent, 1);
    let variable = Token::new(TokenType::Identifier, "a".to_owned(), Literal::Absent, 1);
    let equal_sign = Token::new(TokenType::Equal, "=".to_owned(), Literal::Absent, 1);
    let one = Token::new(TokenType::Number, "1".to_owned(), Literal::Num(1.0f64.to_bits()), 1);
    let semicolon = Token::new(TokenType::Semicolon, ";".to_owned(), Literal::Absent, 1);

    let identifier = Token::new(TokenType::Identifier, "a".to_owned(), Literal::Absent, 1);
    let less = Token::new(TokenType::Less, "<".to_owned(), Literal::Absent, 1);
    let two = Token::new(TokenType::Number, "2".to_owned(), Literal::Num(2.0f64.to_bits()), 1);
    let semicolon_two = Token::new(TokenType::Semicolon, ";".to_owned(), Literal::Absent, 1);

    let identifier_two = Token::new(TokenType::Identifier, "a".to_owned(), Literal::Absent, 1);
    let equal_sign_two = Token::new(TokenType::Equal, "=".to_owned(), Literal::Absent, 1);
    let identifier_three = Token::new(TokenType::Identifier, "a".to_owned(), Literal::Absent, 1);
    let plus_sign = Token::new(TokenType::Plus, "+".to_owned(), Literal::Absent, 1);
    let one_again = Token::new(TokenType::Number, "1".to_owned(), Literal::Num(1.0f64.to_bits()), 1);
    let right_paren = Token::new(TokenType::RightParen, ")".to_owned(), Literal::Absent, 1);
    let left_bracket = Token::new(TokenType::LeftBrace, "{".to_owned(), Literal::Absent, 1);
    let right_bracket = Token::new(TokenType::RightBrace, "}".to_owned(), Literal::Absent, 1);

    let tokens = vec![
        for_kw,
        left_paren,
        var_kw,
        variable.clone(),
        equal_sign,
        one.clone(),
        semicolon,
        identifier,
        less.clone(),
        two.clone(),
        semicolon_two,
        identifier_two,
        equal_sign_two,
        identifier_three,
        plus_sign.clone(),
        one_again,
        right_paren,
        left_bracket,
        right_bracket,
    ];

    let declaration = Stmt::Declaration(rlox::stmt::Var {
        value: Expr::Literal(ExprLiteral { token: one.clone() }),
        name: 'a'.to_string(),
    });
    let while_left = Expr::Var(ExprVar { name: variable.clone() });
    let while_right = Expr::Literal(ExprLiteral { token: two.clone() });
    let while_greater_expr = Expr::Binary(Binary {
        left: Box::new(while_left),
        right: Box::new(while_right),
        operator: less.clone(),
    });

    let block_var = Expr::Var(ExprVar { name: variable.clone() });
    let block_value = Expr::Literal(ExprLiteral { token: one.clone() });
    let block_right = Expr::Binary(Binary {
        left: Box::new(block_var),
        right: Box::new(block_value),
        operator: plus_sign.clone(),
    });
    let block_left = Stmt::Expr(Expr::Assignment(rlox::expr::Assignment {
        name: variable,
        value: Box::new(block_right),
    }));

    let inner_block_for = Stmt::Block(Block { stmt_vec: vec![] });
    let block = Stmt::Block(Block { stmt_vec: vec![inner_block_for, block_left] });

    let while_stmt = Stmt::While(While {
        condition: while_greater_expr,
        body: Box::new(block),
    });

    let desugared_for = Stmt::Block(Block { stmt_vec: vec![declaration, while_stmt] });

    let mut parser = Parser::new(&tokens);
    let mut stmt = parser.parse();
    assert_eq!(desugared_for, stmt.pop().unwrap());
}
