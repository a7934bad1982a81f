//! Lexical vocabulary: token kinds, decoded literal values, and the
//! tokens the scanner produces.

use vstd::prelude::*;

verus! {

/// The lexical category of a token.
#[derive(PartialEq, Eq, Structural, Debug, Copy, Clone)]
pub enum TokenType {
    // Single-character tokens.
    LeftParen,
    RightParen,
    LeftBrace,
    RightBrace,
    Comma,
    Dot,
    Minus,
    Plus,
    Semicolon,
    Slash,
    Star,

    // One or two character tokens.
    Bang,
    BangEqual,
    Equal,
    EqualEqual,
    Greater,
    GreaterEqual,
    Less,
    LessEqual,

    // Literals.
    Identifier,
    String,
    Number,

    // Keywords.
    And,
    Class,
    Else,
    False,
    Fun,
    For,
    If,
    Nil,
    Or,
    Print,
    Return,
    Super,
    This,
    True,
    Var,
    While,

    EOF,
}

/// The decoded value carried by a literal-bearing token. A number is
/// kept as the bit pattern of an IEEE-754 binary64 value.
#[derive(PartialEq, Debug, Clone)]
pub enum Literal {
    String(String),
    Num(u64),
    Boolean(bool),
    Nil,
    Absent,
}

/// Mathematical model of a [`Literal`].
pub enum SpecLiteral {
    String(Seq<char>),
    Num(u64),
    Boolean(bool),
    Nil,
    Absent,
}

impl View for Literal {
    type V = SpecLiteral;

    open spec fn view(&self) -> SpecLiteral {
        match self {
            Literal::String(s) => SpecLiteral::String(s@),
            Literal::Num(b) => SpecLiteral::Num(*b),
            Literal::Boolean(b) => SpecLiteral::Boolean(*b),
            Literal::Nil => SpecLiteral::Nil,
            Literal::Absent => SpecLiteral::Absent,
        }
    }
}

/// One token: its category, the raw source text it was scanned from,
/// its decoded literal (populated iff the category is literal-bearing),
/// and the line it appeared on.
#[derive(PartialEq, Debug, Clone)]
pub struct Token {
    pub t_type: TokenType,
    pub lexeme: String,
    pub literal: Literal,
    pub line: u32,
}

/// Mathematical model of a [`Token`].
pub struct SpecToken {
    pub t_type: TokenType,
    pub lexeme: Seq<char>,
    pub literal: SpecLiteral,
    pub line: u32,
}

impl View for Token {
    type V = SpecToken;

    open spec fn view(&self) -> SpecToken {
        SpecToken {
            t_type: self.t_type,
            lexeme: self.lexeme@,
            literal: self.literal@,
            line: self.line,
        }
    }
}

/// Whether a token of this category carries a decoded literal.
pub open spec fn literal_bearing(t: TokenType) -> bool {
    ||| t == TokenType::String
    ||| t == TokenType::Number
    ||| t == TokenType::True
    ||| t == TokenType::False
    ||| t == TokenType::Nil
}

/// A token is well formed when its literal is populated exactly for the
/// literal-bearing categories, and with a value of the matching kind.
pub open spec fn token_wf(t: SpecToken) -> bool {
    match t.t_type {
        TokenType::String => t.literal is String,
        TokenType::Number => t.literal is Num,
        TokenType::True => t.literal == SpecLiteral::Boolean(true),
        TokenType::False => t.literal == SpecLiteral::Boolean(false),
        TokenType::Nil => t.literal is Nil,
        _ => t.literal is Absent,
    }
}

impl Token {
    pub fn new(t_type: TokenType, lexeme: String, literal: Literal, line: u32) -> (t: Token)
        ensures
            t@ == (SpecToken { t_type, lexeme: lexeme@, literal: literal@, line }),
    {
        Token { t_type, lexeme, literal, line }
    }

    /// The synthetic end-of-input token that closes every token stream.
    pub fn empty_token(line: u32) -> (t: Token)
        ensures
            t@ == spec_eof_token(line),
    {
        Token {
            t_type: TokenType::EOF,
            lexeme: String::new(),
            literal: Literal::Absent,
            line,
        }
    }
}

/// An explicit deep copy of a literal, so that contracts can track it.
pub fn clone_literal(l: &Literal) -> (r: Literal)
    ensures
        r@ == l@,
{
    match l {
        Literal::String(s) => Literal::String(s.clone()),
        Literal::Num(b) => Literal::Num(*b),
        Literal::Boolean(b) => Literal::Boolean(*b),
        Literal::Nil => Literal::Nil,
        Literal::Absent => Literal::Absent,
    }
}

/// An explicit deep copy of a token.
pub fn clone_token(t: &Token) -> (r: Token)
    ensures
        r@ == t@,
{
    Token {
        t_type: t.t_type,
        lexeme: t.lexeme.clone(),
        literal: clone_literal(&t.literal),
        line: t.line,
    }
}

/// The model of the synthetic end-of-input token.
pub open spec fn spec_eof_token(line: u32) -> SpecToken {
    SpecToken {
        t_type: TokenType::EOF,
        lexeme: Seq::<char>::empty(),
        literal: SpecLiteral::Absent,
        line,
    }
}

} // verus!
