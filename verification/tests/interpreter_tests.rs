use rlox::expr::{Binary, Expr, Literal as ExprLiteral, Unary, Var as ExprVar};
use rlox::interpreter::Interpreter;
use rlox::stmt::{Block, Stmt, Var, While};
use rlox::token::{Literal, Token, TokenType};
use rlox::value::Value;
use rlox::expr::Assignment;

#[test]
fn interpreter_literal_string() {
    let mut interpreter = Interpreter::new();
    let expr = Expr::Literal(ExprLiteral {
        token: Token::new(
            TokenType::String,
            "string".to_owned(),
            Literal::String("string".into()),
            1,
        ),
    });
    let value = interpreter.evaluate_expression(expr).unwrap();
    assert_eq!(value, Value::String("string".into()));
}

#[test]
fn interpreter_negation() {
    let mut interpreter = Interpreter::new();
    let operator = Token::new(TokenType::Bang, "!".to_owned(), Literal::Absent, 1);
    let left = Expr::Literal(ExprLiteral {
        token: Token::new(TokenType::Number, "1".to_owned(), Literal::Num(1.0f64.to_bits()), 1),
    });
    let expr = Expr::Unary(Unary { expr: Box::new(left), operator });
    let value = interpreter.evaluate_expression(expr).unwrap();
    assert_eq!(value, Value::Boolean(false));
}

#[test]
fn interpreter_addition() {
    let mut interpreter = Interpreter::new();
    let operator = Token::new(TokenType::Plus, "+".to_owned(), Literal::Absent, 1);
    let left = Expr::Literal(ExprLiteral {
        token: Token::new(TokenType::Number, "1".to_owned(), Literal::Num(1.0f64.to_bits()), 1),
    });
    let right = Expr::Literal(ExprLiteral {
        token: Token::new(TokenType::Number, "2".to_owned(), Literal::Num(2.0f64.to_bits()), 1),
    });
    let expr = Expr::Binary(Binary { left: Box::new(left), right: Box::new(right), operator });
    let value = interpreter.evaluate_expression(expr).unwrap();
    assert_eq!(value, Value::Number(3.0f64.to_bits()));
}

#[test]
fn interpreter_equality() {
    let mut interpreter = Interpreter::new();
    let operator = Token::new(TokenType::EqualEqual, "==".to_owned(), Literal::Absent, 1);
    let left = Expr::Literal(ExprLiteral {
        token: Token::new(TokenType::Number, "1".to_owned(), Literal::Num(1.0f64.to_bits()), 1),
    });
    let right = Expr::Literal(ExprLiteral {
        token: Token::new(TokenType::Number, "1".to_owned(), Literal::Num(1.0f64.to_bits()), 1),
    });
    let expr = Expr::Binary(Binary { left: Box::new(left), right: Box::new(right), operator });
    let value = interpreter.evaluate_expression(expr).unwrap();
    assert_eq!(value, Value::Boolean(true));
}

#[test]
fn interpreter_comparison() {
    let mut interpreter = Interpreter::new();
    let operator = Token::new(TokenType::Greater, ">".to_owned(), Literal::Absent, 1);
    let left = Expr::Literal(ExprLiteral {
        token: Token::new(TokenType::Number, "1".to_owned(), Literal::Num(1.0f64.to_bits()), 1),
    });
    let right = Expr::Literal(ExprLiteral {
        token: Token::new(TokenType::Number, "2".to_owned(), Literal::Num(2.0f64.to_bits()), 1),
    });
    let expr = Expr::Binary(Binary { left: Box::new(left), right: Box::new(right), operator });
    let value = interpreter.evaluate_expression(expr).unwrap();
    assert_eq!(value, Value::Boolean(false));
}

#[test]
fn interpreter_multiplication() {
    let mut interpreter = Interpreter::new();
    let operator = Token::new(TokenType::Star, "*".to_owned(), Literal::Absent, 1);
    let left = Expr::Literal(ExprLiteral {
        token: Token::new(TokenType::Number, "3".to_owned(), Literal::Num(3.0f64.to_bits()), 1),
    });
    let right = Expr::Literal(ExprLiteral {
        token: Token::new(TokenType::Number, "3".to_owned(), Literal::Num(3.0f64.to_bits()), 1),
    });
    let expr = Expr::Binary(Binary { left: Box::new(left), right: Box::new(right), operator });
    let value = interpreter.evaluate_expression(expr).unwrap();
    assert_eq!(value, Value::Number(9.0f64.to_bits()));
}

#[test]
fn while_loop_interpreter() {
    let variable = Token::new(TokenType::Identifier, "a".to_owned(), Literal::Absent, 1);
    let greater = Token::new(TokenType::Less, "<".to_owned(), Literal::Absent, 1);
    let two = Token::new(TokenType::Number, "2".to_owned(), Literal::Num(2.0f64.to_bits()), 1);
    let plus_sign = Token::new(TokenType::Plus, "+".to_owned(), Literal::Absent, 1);
    let one = Token::new(TokenType::Number, "1".to_owned(), Literal::Num(1.0f64.to_bits()), 1);

    let var_dcl = Stmt::Declaration(Var {
        name: "a".to_owned(),
        value: Expr::Literal(ExprLiteral { token: one.clone() }),
    });
    let while_left = Expr::Var(ExprVar { name: variable.clone() });
    let while_right = Expr::Literal(ExprLiteral { token: two.clone() });
    let while_greater_expr = Expr::Binary(Binary {
        left: Box::new(while_left),
        right: Box::new(while_right),
        operator: greater.clone(),
    });
    let block_var = Expr::Var(ExprVar { name: variable.clone() });
    let block_value = Expr::Literal(ExprLiteral { token: one.clone() });
    let block_right = Expr::Binary(Binary {
        left: Box::new(block_var),
        right: Box::new(block_value),
        operator: plus_sign.clone(),
    });
    let block_left = Stmt::Expr(Expr::Assignment(Assignment {
        name: variable,
        value: Box::new(block_right),
    }));
    let block = Stmt::Block(Block { stmt_vec: vec![block_left] });
    let while_stmt = Stmt::While(While {
        condition: while_greater_expr,
        body: Box::new(block),
    });

    let mut interpreter = Interpreter::new();
    interpreter.evaluate_node(var_dcl).unwrap();
    interpreter.evaluate_node(while_stmt).unwrap();
    assert_eq!(
        interpreter.environment().get("a").unwrap(),
        Value::Number(2.0f64.to_bits())
    );
}
