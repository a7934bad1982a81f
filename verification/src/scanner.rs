//! Lexical scanner: one left-to-right pass over the source text that
//! classifies punctuation, one- and two-character operators, line
//! comments, string and number literals, identifiers and keywords,
//! collecting line-tagged lexical errors without aborting, and always
//! ending the token stream with a synthetic end-of-input token.

use vstd::prelude::*;
use crate::token::{Literal, SpecLiteral, SpecToken, Token, TokenType, literal_bearing, spec_eof_token, token_wf};
use crate::double::{all_digits, clean_decimal, double_of_decimal, parse_double};
use vstd::string::StrSliceExecFns;

verus! {

/// A lexical error: the offending character or an unterminated string,
/// tagged with the line it started on.
#[derive(PartialEq, Eq, Structural, Debug, Copy, Clone)]
pub enum LexErrorKind {
    UnexpectedChar(char),
    UnterminatedString,
}

#[derive(PartialEq, Eq, Structural, Debug, Copy, Clone)]
pub struct LexError {
    pub kind: LexErrorKind,
    pub line: u32,
}

pub open spec fn is_digit(c: char) -> bool {
    '0' <= c <= '9'
}

pub open spec fn is_alpha(c: char) -> bool {
    ('a' <= c <= 'z') || ('A' <= c <= 'Z') || c == '_'
}

/// Identifier continuation characters: letters, digits, underscore, hyphen.
pub open spec fn is_ident_cont(c: char) -> bool {
    is_alpha(c) || is_digit(c) || c == '-'
}

/// The token category of a fixed single-character lexeme, if any.
pub open spec fn single_type(c: char) -> Option<TokenType> {
    if c == '(' {
        Some(TokenType::LeftParen)
    } else if c == ')' {
        Some(TokenType::RightParen)
    } else if c == '{' {
        Some(TokenType::LeftBrace)
    } else if c == '}' {
        Some(TokenType::RightBrace)
    } else if c == ',' {
        Some(TokenType::Comma)
    } else if c == '.' {
        Some(TokenType::Dot)
    } else if c == '-' {
        Some(TokenType::Minus)
    } else if c == '+' {
        Some(TokenType::Plus)
    } else if c == ';' {
        Some(TokenType::Semicolon)
    } else if c == '*' {
        Some(TokenType::Star)
    } else {
        None
    }
}

/// The keyword category of an identifier, if it is a reserved word.
pub open spec fn spec_keyword(s: Seq<char>) -> Option<TokenType> {
    if s == "and"@ {
        Some(TokenType::And)
    } else if s == "class"@ {
        Some(TokenType::Class)
    } else if s == "else"@ {
        Some(TokenType::Else)
    } else if s == "false"@ {
        Some(TokenType::False)
    } else if s == "for"@ {
        Some(TokenType::For)
    } else if s == "fun"@ {
        Some(TokenType::Fun)
    } else if s == "if"@ {
        Some(TokenType::If)
    } else if s == "nil"@ {
        Some(TokenType::Nil)
    } else if s == "or"@ {
        Some(TokenType::Or)
    } else if s == "print"@ {
        Some(TokenType::Print)
    } else if s == "return"@ {
        Some(TokenType::Return)
    } else if s == "super"@ {
        Some(TokenType::Super)
    } else if s == "this"@ {
        Some(TokenType::This)
    } else if s == "true"@ {
        Some(TokenType::True)
    } else if s == "var"@ {
        Some(TokenType::Var)
    } else if s == "while"@ {
        Some(TokenType::While)
    } else {
        None
    }
}

/// Number of newline characters strictly before position `i`.
pub open spec fn nl_count(src: Seq<char>, i: int) -> int
    decreases i,
{
    if i <= 0 || i > src.len() {
        0
    } else {
        nl_count(src, i - 1) + if src[i - 1] == '\n' { 1int } else { 0int }
    }
}

/// The 1-based line number at position `i` of the source.
pub open spec fn line_at(src: Seq<char>, i: int) -> int {
    1 + nl_count(src, i)
}

pub open spec fn line_u32(src: Seq<char>, i: int) -> u32 {
    line_at(src, i) as u32
}

/// End of the digit run starting at `i`.
pub open spec fn digits_end(src: Seq<char>, i: int) -> int
    decreases src.len() - i,
{
    if 0 <= i < src.len() && is_digit(src[i]) {
        digits_end(src, i + 1)
    } else {
        i
    }
}

/// End of the number starting at `i`: a digit run, then one optional
/// dot that must be followed by another digit run.
pub open spec fn number_end(src: Seq<char>, i: int) -> int {
    let d = digits_end(src, i);
    if d + 1 < src.len() && src[d] == '.' && is_digit(src[d + 1]) {
        digits_end(src, d + 1)
    } else {
        d
    }
}

/// End of the identifier run starting at `i`.
pub open spec fn ident_end(src: Seq<char>, i: int) -> int
    decreases src.len() - i,
{
    if 0 <= i < src.len() && is_ident_cont(src[i]) {
        ident_end(src, i + 1)
    } else {
        i
    }
}

/// Position of the first closing quote at or after `i`, or the length
/// of the source if there is none.
pub open spec fn quote_pos(src: Seq<char>, i: int) -> int
    decreases src.len() - i,
{
    if 0 <= i < src.len() {
        if src[i] == '"' {
            i
        } else {
            quote_pos(src, i + 1)
        }
    } else {
        src.len() as int
    }
}

/// Position of the first newline at or after `i`, or the length of the
/// source if there is none.
pub open spec fn newline_pos(src: Seq<char>, i: int) -> int
    decreases src.len() - i,
{
    if 0 <= i < src.len() {
        if src[i] == '\n' {
            i
        } else {
            newline_pos(src, i + 1)
        }
    } else {
        src.len() as int
    }
}

/// The token produced for the identifier or keyword with lexeme `lex`.
pub open spec fn ident_token(lex: Seq<char>, line: u32) -> SpecToken {
    match spec_keyword(lex) {
        Some(k) => SpecToken {
            t_type: k,
            lexeme: lex,
            literal: if k == TokenType::True {
                SpecLiteral::Boolean(true)
            } else if k == TokenType::False {
                SpecLiteral::Boolean(false)
            } else if k == TokenType::Nil {
                SpecLiteral::Nil
            } else {
                SpecLiteral::Absent
            },
            line,
        },
        None => SpecToken { t_type: TokenType::Identifier, lexeme: lex, literal: SpecLiteral::Absent, line },
    }
}

/// What one scanning step at position `i` produces: at most one token,
/// at most one error, and the position where the next step starts.
pub struct ScanStep {
    pub tok: Option<SpecToken>,
    pub err: Option<LexError>,
    pub next: int,
}

pub open spec fn spec_scan_step(src: Seq<char>, i: int) -> ScanStep
    recommends
        0 <= i < src.len(),
{
    let c = src[i];
    if single_type(c) is Some {
        ScanStep {
            tok: Some(
                SpecToken {
                    t_type: single_type(c)->Some_0,
                    lexeme: src.subrange(i, i + 1),
                    literal: SpecLiteral::Absent,
                    line: line_u32(src, i),
                },
            ),
            err: None,
            next: i + 1,
        }
    } else if c == '"' {
        let close = quote_pos(src, i + 1);
        if close < src.len() {
            ScanStep {
                tok: Some(
                    SpecToken {
                        t_type: TokenType::String,
                        lexeme: src.subrange(i, close + 1),
                        literal: SpecLiteral::String(src.subrange(i + 1, close)),
                        line: line_u32(src, close),
                    },
                ),
                err: None,
                next: close + 1,
            }
        } else {
            ScanStep {
                tok: None,
                err: Some(LexError { kind: LexErrorKind::UnterminatedString, line: line_u32(src, i) }),
                next: src.len() as int,
            }
        }
    } else if is_digit(c) {
        let e = number_end(src, i);
        ScanStep {
            tok: Some(
                SpecToken {
                    t_type: TokenType::Number,
                    lexeme: src.subrange(i, e),
                    literal: SpecLiteral::Num(double_of_decimal(src.subrange(i, e))),
                    line: line_u32(src, i),
                },
            ),
            err: None,
            next: e,
        }
    } else if is_alpha(c) {
        let e = ident_end(src, i);
        ScanStep {
            tok: Some(ident_token(src.subrange(i, e), line_u32(src, i))),
            err: None,
            next: e,
        }
    } else if c == ' ' || c == '\t' || c == '\r' || c == '\n' {
        ScanStep { tok: None, err: None, next: i + 1 }
    } else if c == '!' {
        if i + 1 < src.len() && src[i + 1] == '=' {
            ScanStep {
                tok: Some(
                    SpecToken {
                        t_type: TokenType::BangEqual,
                        lexeme: src.subrange(i, i + 2),
                        literal: SpecLiteral::Absent,
                        line: line_u32(src, i),
                    },
                ),
                err: None,
                next: i + 2,
            }
        } else {
            ScanStep {
                tok: Some(
                    SpecToken {
                        t_type: TokenType::Bang,
                        lexeme: src.subrange(i, i + 1),
                        literal: SpecLiteral::Absent,
                        line: line_u32(src, i),
                    },
                ),
                err: None,
                next: i + 1,
            }
        }
    } else if c == '=' {
        if i + 1 < src.len() && src[i + 1] == '=' {
            ScanStep {
                tok: Some(
                    SpecToken {
                        t_type: TokenType::EqualEqual,
                        lexeme: src.subrange(i, i + 2),
                        literal: SpecLiteral::Absent,
                        line: line_u32(src, i),
                    },
                ),
                err: None,
                next: i + 2,
            }
        } else {
            ScanStep {
                tok: Some(
                    SpecToken {
                        t_type: TokenType::Equal,
                        lexeme: src.subrange(i, i + 1),
                        literal: SpecLiteral::Absent,
                        line: line_u32(src, i),
                    },
                ),
                err: None,
                next: i + 1,
            }
        }
    } else if c == '<' {
        if i + 1 < src.len() && src[i + 1] == '=' {
            ScanStep {
                tok: Some(
                    SpecToken {
                        t_type: TokenType::LessEqual,
                        lexeme: src.subrange(i, i + 2),
                        literal: SpecLiteral::Absent,
                        line: line_u32(src, i),
                    },
                ),
                err: None,
                next: i + 2,
            }
        } else {
            ScanStep {
                tok: Some(
                    SpecToken {
                        t_type: TokenType::Less,
                        lexeme: src.subrange(i, i + 1),
                        literal: SpecLiteral::Absent,
                        line: line_u32(src, i),
                    },
                ),
                err: None,
                next: i + 1,
            }
        }
    } else if c == '>' {
        if i + 1 < src.len() && src[i + 1] == '=' {
            ScanStep {
                tok: Some(
                    SpecToken {
                        t_type: TokenType::GreaterEqual,
                        lexeme: src.subrange(i, i + 2),
                        literal: SpecLiteral::Absent,
                        line: line_u32(src, i),
                    },
                ),
                err: None,
                next: i + 2,
            }
        } else {
            ScanStep {
                tok: Some(
                    SpecToken {
                        t_type: TokenType::Greater,
                        lexeme: src.subrange(i, i + 1),
                        literal: SpecLiteral::Absent,
                        line: line_u32(src, i),
                    },
                ),
                err: None,
                next: i + 1,
            }
        }
    } else if c == '/' {
        if i + 1 < src.len() && src[i + 1] == '/' {
            ScanStep { tok: None, err: None, next: newline_pos(src, i + 2) }
        } else {
            ScanStep {
                tok: Some(
                    SpecToken {
                        t_type: TokenType::Slash,
                        lexeme: src.subrange(i, i + 1),
                        literal: SpecLiteral::Absent,
                        line: line_u32(src, i),
                    },
                ),
                err: None,
                next: i + 1,
            }
        }
    } else {
        ScanStep {
            tok: None,
            err: Some(LexError { kind: LexErrorKind::UnexpectedChar(c), line: line_u32(src, i) }),
            next: i + 1,
        }
    }
}

/// Everything scanning produces: the token stream (ending with the
/// end-of-input token) and the lexical errors, in source order.
pub struct ScanOut {
    pub toks: Seq<SpecToken>,
    pub errs: Seq<LexError>,
}

pub open spec fn opt_seq<A>(o: Option<A>) -> Seq<A> {
    match o {
        Some(a) => seq![a],
        None => Seq::empty(),
    }
}

pub open spec fn spec_scan_from(src: Seq<char>, i: int) -> ScanOut
    decreases src.len() - i,
{
    if i >= src.len() || i < 0 {
        ScanOut { toks: seq![spec_eof_token(line_u32(src, src.len() as int))], errs: Seq::empty() }
    } else {
        let st = spec_scan_step(src, i);
        let j = if i < st.next <= src.len() { st.next } else { i + 1 };
        let rest = spec_scan_from(src, j);
        ScanOut { toks: opt_seq(st.tok) + rest.toks, errs: opt_seq(st.err) + rest.errs }
    }
}

/// The scanner's contract: the tokens and lexical errors produced for
/// a source text.
pub open spec fn spec_scan(src: Seq<char>) -> ScanOut {
    spec_scan_from(src, 0)
}

pub open spec fn token_views(ts: Seq<Token>) -> Seq<SpecToken> {
    ts.map_values(|t: Token| t@)
}

proof fn lemma_digits_end_bounds(src: Seq<char>, i: int)
    requires
        0 <= i <= src.len(),
    ensures
        i <= digits_end(src, i) <= src.len(),
    decreases src.len() - i,
{
    if i < src.len() && is_digit(src[i]) {
        lemma_digits_end_bounds(src, i + 1);
    }
}

proof fn lemma_ident_end_bounds(src: Seq<char>, i: int)
    requires
        0 <= i <= src.len(),
    ensures
        i <= ident_end(src, i) <= src.len(),
    decreases src.len() - i,
{
    if i < src.len() && is_ident_cont(src[i]) {
        lemma_ident_end_bounds(src, i + 1);
    }
}

/// Every character of a digit run is a digit; used to know the lexeme
/// of a number token is a clean decimal.
proof fn lemma_digits_end_digits(src: Seq<char>, i: int)
    requires
        0 <= i <= src.len(),
    ensures
        forall|k: int| i <= k < digits_end(src, i) ==> is_digit(#[trigger] src[k]),
    decreases src.len() - i,
{
    if i < src.len() && is_digit(src[i]) {
        lemma_digits_end_digits(src, i + 1);
        lemma_digits_end_bounds(src, i + 1);
    }
}

/// If no character in `[i, j)` is a newline, the line number does not
/// change between the two positions.
proof fn lemma_nl_same(src: Seq<char>, i: int, j: int)
    requires
        0 <= i <= j <= src.len(),
        forall|k: int| i <= k < j ==> #[trigger] src[k] != '\n',
    ensures
        nl_count(src, j) == nl_count(src, i),
    decreases j - i,
{
    if i < j {
        lemma_nl_same(src, i, j - 1);
    }
}

/// The line number grows by at most one per character, so it stays
/// below the source length and cannot overflow a `u32` counter.
proof fn lemma_nl_le(src: Seq<char>, i: int)
    requires
        0 <= i <= src.len(),
    ensures
        0 <= nl_count(src, i) <= i,
    decreases i,
{
    if i > 0 {
        lemma_nl_le(src, i - 1);
    }
}

/// Every token the scanner produces is well formed: its literal is
/// populated exactly for the literal-bearing categories, as the data
/// model demands.
pub proof fn lemma_scan_tokens_wf(src: Seq<char>, i: int)
    ensures
        forall|k: int|
            0 <= k < spec_scan_from(src, i).toks.len() ==> token_wf(
                #[trigger] spec_scan_from(src, i).toks[k],
            ),
    decreases src.len() - i,
{
    if i >= src.len() || i < 0 {
        assert(token_wf(spec_eof_token(line_u32(src, src.len() as int))));
    } else {
        let st = spec_scan_step(src, i);
        let j = if i < st.next <= src.len() {
            st.next
        } else {
            i + 1
        };
        lemma_scan_tokens_wf(src, j);
        let head = opt_seq(st.tok);
        let rest = spec_scan_from(src, j).toks;
        assert forall|k: int|
            0 <= k < spec_scan_from(src, i).toks.len() implies token_wf(
            #[trigger] spec_scan_from(src, i).toks[k],
        ) by {
            if k < head.len() {
                assert(spec_scan_from(src, i).toks[k] == st.tok->Some_0);
                assert(token_wf(st.tok->Some_0));
            } else {
                assert(spec_scan_from(src, i).toks[k] == rest[k - head.len()]);
            }
        }
    }
}

/// `quote_pos` finds the first closing quote: nothing before it is one.
proof fn lemma_quote_pos_first(src: Seq<char>, j: int)
    requires
        0 <= j <= src.len(),
    ensures
        j <= quote_pos(src, j) <= src.len(),
        forall|k: int| j <= k < quote_pos(src, j) ==> src[k] != '"',
        quote_pos(src, j) < src.len() ==> src[quote_pos(src, j)] == '"',
    decreases src.len() - j,
{
    if j < src.len() && src[j] != '"' {
        lemma_quote_pos_first(src, j + 1);
    }
}

/// Where a quote is known to close a run without quotes, `quote_pos`
/// lands exactly on it.
proof fn lemma_quote_pos_exact(src: Seq<char>, j: int, m: int)
    requires
        0 <= j <= m < src.len(),
        forall|k: int| j <= k < m ==> src[k] != '"',
        src[m] == '"',
    ensures
        quote_pos(src, j) == m,
    decreases m - j,
{
    if j < m {
        lemma_quote_pos_exact(src, j + 1, m);
    }
}

/// A digit run that provably stops at `b` is exactly what
/// `digits_end` finds.
proof fn lemma_digits_end_exact(src: Seq<char>, a: int, b: int)
    requires
        0 <= a <= b <= src.len(),
        forall|k: int| a <= k < b ==> is_digit(#[trigger] src[k]),
        b == src.len() || !is_digit(src[b]),
    ensures
        digits_end(src, a) == b,
    decreases b - a,
{
    if a < b {
        lemma_digits_end_exact(src, a + 1, b);
    }
}

/// An identifier run that provably stops at `b` is exactly what
/// `ident_end` finds.
proof fn lemma_ident_end_exact(src: Seq<char>, a: int, b: int)
    requires
        0 <= a <= b <= src.len(),
        forall|k: int| a <= k < b ==> is_ident_cont(#[trigger] src[k]),
        b == src.len() || !is_ident_cont(src[b]),
    ensures
        ident_end(src, a) == b,
    decreases b - a,
{
    if a < b {
        lemma_ident_end_exact(src, a + 1, b);
    }
}

/// Rescanning a stored string lexeme (quotes included, no interior
/// quote) yields a string token with the same decoded content.
proof fn lemma_rescan_string(lex: Seq<char>)
    requires
        lex.len() >= 2,
        lex[0] == '"',
        lex[lex.len() - 1] == '"',
        forall|k: int| 1 <= k < lex.len() - 1 ==> lex[k] != '"',
    ensures
        spec_scan(lex).toks.len() > 0,
        spec_scan(lex).toks[0].t_type == TokenType::String,
        spec_scan(lex).toks[0].literal == SpecLiteral::String(lex.subrange(1, lex.len() - 1)),
{
    lemma_quote_pos_exact(lex, 1, lex.len() - 1);
    assert(single_type('"') is None);
}

/// Rescanning a stored numeral (digits, at most one interior dot
/// followed by digits) yields a number token decoding the whole
/// numeral.
proof fn lemma_rescan_number(lex: Seq<char>, dot: Option<int>)
    requires
        lex.len() > 0,
        match dot {
            None => all_digits(lex),
            Some(j) => 0 < j < lex.len() - 1 && lex[j] == '.' && all_digits(
                lex.subrange(0, j),
            ) && all_digits(lex.subrange(j + 1, lex.len() as int)),
        },
    ensures
        spec_scan(lex).toks.len() > 0,
        spec_scan(lex).toks[0].t_type == TokenType::Number,
        spec_scan(lex).toks[0].literal == SpecLiteral::Num(double_of_decimal(lex)),
{
    match dot {
        None => {
            assert(is_digit(lex[0]));
            lemma_digits_end_exact(lex, 0, lex.len() as int);
        },
        Some(j) => {
            assert forall|k: int| 0 <= k < j implies is_digit(#[trigger] lex[k]) by {
                assert(lex.subrange(0, j)[k] == lex[k]);
            }
            assert forall|k: int| j + 1 <= k < lex.len() implies is_digit(
                #[trigger] lex[k],
            ) by {
                assert(lex.subrange(j + 1, lex.len() as int)[k - j - 1] == lex[k]);
            }
            assert(is_digit(lex[0]));
            lemma_digits_end_exact(lex, 0, j);
            lemma_digits_end_exact(lex, j + 1, lex.len() as int);
        },
    }
    assert(number_end(lex, 0) == lex.len());
    assert(single_type(lex[0]) is None);
    assert(lex.subrange(0, lex.len() as int) =~= lex);
}

/// Rescanning the lexeme of a literal-bearing keyword yields the same
/// keyword with the same decoded value.
proof fn lemma_rescan_word(lex: Seq<char>)
    requires
        lex == "true"@ || lex == "false"@ || lex == "nil"@,
    ensures
        spec_scan(lex).toks.len() > 0,
        spec_scan(lex).toks[0].t_type == ident_token(lex, 1).t_type,
        spec_scan(lex).toks[0].literal == ident_token(lex, 1).literal,
{
    broadcast use vstd::string::group_string_axioms;

    reveal_strlit("and");
    reveal_strlit("class");
    reveal_strlit("else");
    reveal_strlit("false");
    reveal_strlit("for");
    reveal_strlit("fun");
    reveal_strlit("if");
    reveal_strlit("nil");
    reveal_strlit("or");
    reveal_strlit("print");
    reveal_strlit("return");
    reveal_strlit("super");
    reveal_strlit("this");
    reveal_strlit("true");
    reveal_strlit("var");
    reveal_strlit("while");
    if lex == "true"@ {
        assert(lex.len() == 4 && lex[0] == 't' && lex[1] == 'r' && lex[2] == 'u' && lex[3]
            == 'e');
        assert(forall|k: int| 0 <= k < 4 ==> is_ident_cont(#[trigger] lex[k]));
        lemma_ident_end_exact(lex, 0, 4);
        assert(lex.subrange(0, 4) =~= lex);
        assert(single_type('t') is None);
    } else if lex == "false"@ {
        assert(lex.len() == 5 && lex[0] == 'f' && lex[1] == 'a' && lex[2] == 'l' && lex[3]
            == 's' && lex[4] == 'e');
        assert(forall|k: int| 0 <= k < 5 ==> is_ident_cont(#[trigger] lex[k]));
        lemma_ident_end_exact(lex, 0, 5);
        assert(lex.subrange(0, 5) =~= lex);
        assert(single_type('f') is None);
    } else {
        assert(lex.len() == 3 && lex[0] == 'n' && lex[1] == 'i' && lex[2] == 'l');
        assert(forall|k: int| 0 <= k < 3 ==> is_ident_cont(#[trigger] lex[k]));
        lemma_ident_end_exact(lex, 0, 3);
        assert(lex.subrange(0, 3) =~= lex);
        assert(single_type('n') is None);
    }
}

/// The lex round trip: rescanning the lexeme of any literal-bearing
/// token the scanner produced reproduces an equal category and
/// decoded literal.
pub proof fn lemma_lex_round_trip(src: Seq<char>, i: int)
    ensures
        forall|k: int|
            0 <= k < spec_scan_from(src, i).toks.len() && literal_bearing(
                (#[trigger] spec_scan_from(src, i).toks[k]).t_type,
            ) ==> {
                let t = spec_scan_from(src, i).toks[k];
                &&& spec_scan(t.lexeme).toks.len() > 0
                &&& spec_scan(t.lexeme).toks[0].t_type == t.t_type
                &&& spec_scan(t.lexeme).toks[0].literal == t.literal
            },
    decreases src.len() - i,
{
    if 0 <= i < src.len() {
        let st = spec_scan_step(src, i);
        let j = if i < st.next <= src.len() {
            st.next
        } else {
            i + 1
        };
        lemma_lex_round_trip(src, j);
        let head = opt_seq(st.tok);
        let rest = spec_scan_from(src, j).toks;
        let c = src[i];
        if st.tok is Some && literal_bearing(st.tok->Some_0.t_type) {
            let t = st.tok->Some_0;
            let lex = t.lexeme;
            if single_type(c) is Some {
                // no literal-bearing category here
            } else if c == '"' {
                let close = quote_pos(src, i + 1);
                lemma_quote_pos_first(src, i + 1);
                assert(lex =~= src.subrange(i, close + 1));
                assert(lex[0] == '"');
                assert(lex[lex.len() - 1] == src[close]);
                assert forall|k2: int| 1 <= k2 < lex.len() - 1 implies lex[k2] != '"' by {
                    assert(lex[k2] == src[i + k2]);
                }
                lemma_rescan_string(lex);
                assert(lex.subrange(1, lex.len() - 1) =~= src.subrange(i + 1, close));
            } else if is_digit(c) {
                let d = digits_end(src, i);
                let e = number_end(src, i);
                lemma_digits_end_bounds(src, i);
                lemma_digits_end_bounds(src, i + 1);
                lemma_digits_end_digits(src, i);
                assert(lex =~= src.subrange(i, e));
                if d + 1 < src.len() && src[d] == '.' && is_digit(src[d + 1]) {
                    lemma_digits_end_digits(src, d + 1);
                    lemma_digits_end_bounds(src, d + 2);
                    let jdot = d - i;
                    assert(lex[jdot] == '.');
                    assert forall|k2: int| 0 <= k2 < jdot implies is_digit(
                        #[trigger] lex.subrange(0, jdot)[k2],
                    ) by {
                        assert(lex.subrange(0, jdot)[k2] == src[i + k2]);
                    }
                    assert forall|k2: int|
                        0 <= k2 < lex.len() - jdot - 1 implies is_digit(
                        #[trigger] lex.subrange(jdot + 1, lex.len() as int)[k2],
                    ) by {
                        assert(lex.subrange(jdot + 1, lex.len() as int)[k2] == src[d + 1 + k2]);
                    }
                    assert(0 < jdot < lex.len() - 1);
                    lemma_rescan_number(lex, Some(jdot));
                } else {
                    assert forall|k2: int| 0 <= k2 < lex.len() implies is_digit(
                        #[trigger] lex[k2],
                    ) by {
                        assert(lex[k2] == src[i + k2]);
                    }
                    lemma_rescan_number(lex, None);
                }
            } else if is_alpha(c) {
                assert(spec_keyword(lex) == Some(t.t_type));
                assert(lex == "true"@ || lex == "false"@ || lex == "nil"@);
                lemma_rescan_word(lex);
            }
        }
        assert forall|k: int|
            0 <= k < spec_scan_from(src, i).toks.len() && literal_bearing(
                (#[trigger] spec_scan_from(src, i).toks[k]).t_type,
            ) implies {
            let t = spec_scan_from(src, i).toks[k];
            &&& spec_scan(t.lexeme).toks.len() > 0
            &&& spec_scan(t.lexeme).toks[0].t_type == t.t_type
            &&& spec_scan(t.lexeme).toks[0].literal == t.literal
        } by {
            if k < head.len() {
                assert(spec_scan_from(src, i).toks[k] == st.tok->Some_0);
            } else {
                assert(spec_scan_from(src, i).toks[k] == rest[k - head.len()]);
            }
        }
    }
}

/// The scanner. `new` records the source; `scan_text` runs the single
/// pass and leaves the tokens and errors behind.
pub struct Scanner {
    text: String,
    chars: Vec<char>,
    tokens: Vec<Token>,
    errors: Vec<LexError>,
    pos: usize,
    line: u32,
}

impl Scanner {
    /// The character sequence being scanned.
    pub closed spec fn src(&self) -> Seq<char> {
        self.chars@
    }

    pub closed spec fn wf(&self) -> bool {
        &&& self.text@ == self.chars@
        &&& self.chars@.len() < u32::MAX as int
        &&& self.pos <= self.chars@.len()
        &&& self.line == line_u32(self.chars@, self.pos as int)
    }

    /// A scanner that has not started scanning yet.
    pub closed spec fn fresh(&self) -> bool {
        &&& self.wf()
        &&& self.pos == 0
        &&& self.tokens@.len() == 0
        &&& self.errors@.len() == 0
    }

    pub closed spec fn spec_tokens(&self) -> Seq<SpecToken> {
        token_views(self.tokens@)
    }

    pub closed spec fn spec_errors(&self) -> Seq<LexError> {
        self.errors@
    }

    pub fn new(source: &str) -> (s: Scanner)
        requires
            source@.len() < u32::MAX as int,
        ensures
            s.fresh(),
            s.src() == source@,
    {
        let n = source.unicode_len();
        let mut chars: Vec<char> = Vec::new();
        let mut i: usize = 0;
        while i < n
            invariant
                i <= n,
                n == source@.len(),
                source@.len() < u32::MAX as int,
                chars@ =~= source@.subrange(0, i as int),
            decreases n - i,
        {
            chars.push(source.get_char(i));
            i = i + 1;
            proof {
                assert(chars@ =~= source@.subrange(0, i as int));
            }
        }
        proof {
            assert(chars@ =~= source@);
        }
        Scanner {
            text: source.to_owned(),
            chars,
            tokens: Vec::new(),
            errors: Vec::new(),
            pos: 0,
            line: 1,
        }
    }

    /// A lexeme: the source text from `from` to `to`, as a `String`.
    fn lexeme(&self, from: usize, to: usize) -> (s: String)
        requires
            self.wf(),
            from <= to <= self.src().len(),
        ensures
            s@ == self.src().subrange(from as int, to as int),
    {
        let piece = self.text.as_str().substring_char(from, to);
        piece.to_owned()
    }

    /// Scan one token (or comment, whitespace, or error) starting at
    /// the current position.
    fn scan_next_token(&mut self)
        requires
            old(self).wf(),
            old(self).pos < old(self).src().len(),
        ensures
            final(self).wf(),
            final(self).src() == old(self).src(),
            ({
                let st = spec_scan_step(old(self).src(), old(self).pos as int);
                &&& final(self).pos == if st.next > old(self).pos as int {
                    st.next
                } else {
                    old(self).pos + 1
                }
                &&& final(self).spec_tokens() == old(self).spec_tokens() + opt_seq(st.tok)
                &&& final(self).spec_errors() == old(self).spec_errors() + opt_seq(st.err)
            }),
    {
        let ghost src = self.chars@;
        let ghost i = self.pos as int;
        let n = self.chars.len();
        let start = self.pos;
        let c = self.chars[self.pos];
        proof {
            lemma_nl_le(src, i);
        }
        if c == '(' || c == ')' || c == '{' || c == '}' || c == ',' || c == '.' || c == '-'
            || c == '+' || c == ';' || c == '*' {
            let t_type = if c == '(' {
                TokenType::LeftParen
            } else if c == ')' {
                TokenType::RightParen
            } else if c == '{' {
                TokenType::LeftBrace
            } else if c == '}' {
                TokenType::RightBrace
            } else if c == ',' {
                TokenType::Comma
            } else if c == '.' {
                TokenType::Dot
            } else if c == '-' {
                TokenType::Minus
            } else if c == '+' {
                TokenType::Plus
            } else if c == ';' {
                TokenType::Semicolon
            } else {
                TokenType::Star
            };
            let lex = self.lexeme(start, start + 1);
            let tok = Token::new(t_type, lex, Literal::Absent, self.line);
            self.tokens.push(tok);
            self.pos = self.pos + 1;
            proof {
                assert(self.spec_tokens() =~= old(self).spec_tokens() + opt_seq(
                    spec_scan_step(src, i).tok,
                ));
                assert(self.spec_errors() =~= old(self).spec_errors());
                assert(self.spec_errors() =~= old(self).spec_errors() + opt_seq(
                    spec_scan_step(src, i).err,
                ));
            }
        } else if c == '"' {
            self.scan_string();
        } else if '0' <= c && c <= '9' {
            self.scan_number();
        } else if ('a' <= c && c <= 'z') || ('A' <= c && c <= 'Z') || c == '_' {
            self.scan_identifier();
        } else if c == ' ' || c == '\t' || c == '\r' {
            self.pos = self.pos + 1;
            proof {
                assert(self.spec_tokens() =~= old(self).spec_tokens() + opt_seq(
                    spec_scan_step(src, i).tok,
                ));
                assert(self.spec_errors() =~= old(self).spec_errors() + opt_seq(
                    spec_scan_step(src, i).err,
                ));
            }
        } else if c == '\n' {
            self.pos = self.pos + 1;
            self.line = self.line + 1;
            proof {
                assert(self.spec_tokens() =~= old(self).spec_tokens() + opt_seq(
                    spec_scan_step(src, i).tok,
                ));
                assert(self.spec_errors() =~= old(self).spec_errors() + opt_seq(
                    spec_scan_step(src, i).err,
                ));
            }
        } else if c == '!' || c == '=' || c == '<' || c == '>' {
            let two = self.pos + 1 < n && self.chars[self.pos + 1] == '=';
            let t_type = if c == '!' {
                if two {
                    TokenType::BangEqual
                } else {
                    TokenType::Bang
                }
            } else if c == '=' {
                if two {
                    TokenType::EqualEqual
                } else {
                    TokenType::Equal
                }
            } else if c == '<' {
                if two {
                    TokenType::LessEqual
                } else {
                    TokenType::Less
                }
            } else {
                if two {
                    TokenType::GreaterEqual
                } else {
                    TokenType::Greater
                }
            };
            let end = if two {
                start + 2
            } else {
                start + 1
            };
            let lex = self.lexeme(start, end);
            let tok = Token::new(t_type, lex, Literal::Absent, self.line);
            self.tokens.push(tok);
            self.pos = end;
            proof {
                lemma_nl_same(src, i, end as int);
                assert(self.spec_tokens() =~= old(self).spec_tokens() + opt_seq(
                    spec_scan_step(src, i).tok,
                ));
                assert(self.spec_errors() =~= old(self).spec_errors() + opt_seq(
                    spec_scan_step(src, i).err,
                ));
            }
        } else if c == '/' {
            if self.pos + 1 < n && self.chars[self.pos + 1] == '/' {
                // A line comment: consume up to, but not including, the
                // next newline.
                self.pos = self.pos + 2;
                proof {
                    lemma_nl_same(src, i, self.pos as int);
                }
                while self.pos < n && self.chars[self.pos] != '\n'
                    invariant
                        self.wf(),
                        self.chars@ == src,
                        n == src.len(),
                        i + 2 <= self.pos <= n,
                        self.tokens@ == old(self).tokens@,
                        self.errors@ == old(self).errors@,
                        self.text == old(self).text,
                        newline_pos(src, self.pos as int) == newline_pos(src, i + 2),
                    decreases n - self.pos,
                {
                    proof {
                        lemma_nl_same(src, self.pos as int, self.pos + 1);
                    }
                    self.pos = self.pos + 1;
                }
                proof {
                    assert(self.pos == newline_pos(src, i + 2));
                    assert(self.spec_tokens() =~= old(self).spec_tokens() + opt_seq(
                        spec_scan_step(src, i).tok,
                    ));
                    assert(self.spec_errors() =~= old(self).spec_errors() + opt_seq(
                        spec_scan_step(src, i).err,
                    ));
                }
            } else {
                let lex = self.lexeme(start, start + 1);
                let tok = Token::new(TokenType::Slash, lex, Literal::Absent, self.line);
                self.tokens.push(tok);
                self.pos = self.pos + 1;
                proof {
                    assert(self.spec_tokens() =~= old(self).spec_tokens() + opt_seq(
                        spec_scan_step(src, i).tok,
                    ));
                    assert(self.spec_errors() =~= old(self).spec_errors() + opt_seq(
                        spec_scan_step(src, i).err,
                    ));
                }
            }
        } else {
            self.errors.push(LexError { kind: LexErrorKind::UnexpectedChar(c), line: self.line });
            self.pos = self.pos + 1;
            proof {
                assert(self.spec_tokens() =~= old(self).spec_tokens() + opt_seq(
                    spec_scan_step(src, i).tok,
                ));
                assert(self.spec_errors() =~= old(self).spec_errors() + opt_seq(
                    spec_scan_step(src, i).err,
                ));
            }
        }
    }

    /// Scan a string literal; the opening quote is at the current
    /// position. Consumed verbatim until the closing quote; reaching
    /// the end of input first is an error tagged with the start line.
    fn scan_string(&mut self)
        requires
            old(self).wf(),
            old(self).pos < old(self).src().len(),
            old(self).src()[old(self).pos as int] == '"',
        ensures
            final(self).wf(),
            final(self).src() == old(self).src(),
            final(self).pos > old(self).pos,
            ({
                let st = spec_scan_step(old(self).src(), old(self).pos as int);
                &&& final(self).pos == st.next
                &&& final(self).spec_tokens() == old(self).spec_tokens() + opt_seq(st.tok)
                &&& final(self).spec_errors() == old(self).spec_errors() + opt_seq(st.err)
            }),
    {
        let ghost src = self.chars@;
        let ghost i = self.pos as int;
        let n = self.chars.len();
        let start = self.pos;
        let line_start = self.line;
        self.pos = self.pos + 1;
        while self.pos < n && self.chars[self.pos] != '"'
            invariant
                self.wf(),
                self.chars@ == src,
                n == src.len(),
                i + 1 <= self.pos <= n,
                self.tokens@ == old(self).tokens@,
                self.errors@ == old(self).errors@,
                self.text == old(self).text,
                line_start == line_u32(src, i),
                quote_pos(src, self.pos as int) == quote_pos(src, i + 1),
            decreases n - self.pos,
        {
            proof {
                lemma_nl_le(src, self.pos as int);
            }
            if self.chars[self.pos] == '\n' {
                self.line = self.line + 1;
            }
            self.pos = self.pos + 1;
        }
        if self.pos < n {
            // The closing quote.
            let ghost close = self.pos as int;
            let lex = self.lexeme(start, self.pos + 1);
            let lit = self.lexeme(start + 1, self.pos);
            let tok = Token::new(TokenType::String, lex, Literal::String(lit), self.line);
            self.tokens.push(tok);
            self.pos = self.pos + 1;
            proof {
                lemma_nl_same(src, close, close + 1);
                assert(self.spec_tokens() =~= old(self).spec_tokens() + opt_seq(
                    spec_scan_step(src, i).tok,
                ));
                assert(self.spec_errors() =~= old(self).spec_errors() + opt_seq(
                    spec_scan_step(src, i).err,
                ));
            }
        } else {
            self.errors.push(
                LexError { kind: LexErrorKind::UnterminatedString, line: line_start },
            );
            proof {
                assert(self.spec_tokens() =~= old(self).spec_tokens() + opt_seq(
                    spec_scan_step(src, i).tok,
                ));
                assert(self.spec_errors() =~= old(self).spec_errors() + opt_seq(
                    spec_scan_step(src, i).err,
                ));
            }
        }
    }

    /// Scan a number literal: a greedy digit run, permitting one dot
    /// that is followed by at least one more digit.
    fn scan_number(&mut self)
        requires
            old(self).wf(),
            old(self).pos < old(self).src().len(),
            is_digit(old(self).src()[old(self).pos as int]),
        ensures
            final(self).wf(),
            final(self).src() == old(self).src(),
            final(self).pos > old(self).pos,
            ({
                let st = spec_scan_step(old(self).src(), old(self).pos as int);
                &&& final(self).pos == st.next
                &&& final(self).spec_tokens() == old(self).spec_tokens() + opt_seq(st.tok)
                &&& final(self).spec_errors() == old(self).spec_errors() + opt_seq(st.err)
            }),
    {
        let ghost src = self.chars@;
        let ghost i = self.pos as int;
        let n = self.chars.len();
        let start = self.pos;
        while self.pos < n && '0' <= self.chars[self.pos] && self.chars[self.pos] <= '9'
            invariant
                self.wf(),
                self.chars@ == src,
                n == src.len(),
                i <= self.pos <= n,
                self.tokens@ == old(self).tokens@,
                self.errors@ == old(self).errors@,
                self.text == old(self).text,
                self.line == old(self).line,
                digits_end(src, self.pos as int) == digits_end(src, i),
                forall|k: int| i <= k < self.pos ==> is_digit(#[trigger] src[k]),
            decreases n - self.pos,
        {
            proof {
                lemma_nl_same(src, self.pos as int, self.pos + 1);
            }
            self.pos = self.pos + 1;
        }
        let ghost d = digits_end(src, i);
        proof {
            assert(self.pos == d);
        }
        if self.pos + 1 < n && self.chars[self.pos] == '.' && '0' <= self.chars[self.pos + 1]
            && self.chars[self.pos + 1] <= '9' {
            proof {
                lemma_nl_same(src, d, d + 1);
            }
            self.pos = self.pos + 1;
            while self.pos < n && '0' <= self.chars[self.pos] && self.chars[self.pos] <= '9'
                invariant
                    self.wf(),
                    self.chars@ == src,
                    n == src.len(),
                    d + 1 <= self.pos <= n,
                    self.tokens@ == old(self).tokens@,
                    self.errors@ == old(self).errors@,
                    self.text == old(self).text,
                    self.line == old(self).line,
                    digits_end(src, self.pos as int) == digits_end(src, d + 1),
                    forall|k: int| d + 1 <= k < self.pos ==> is_digit(#[trigger] src[k]),
                decreases n - self.pos,
            {
                proof {
                    lemma_nl_same(src, self.pos as int, self.pos + 1);
                }
                self.pos = self.pos + 1;
            }
        }
        let ghost e = number_end(src, i);
        proof {
            assert(self.pos == e);
            lemma_digits_end_bounds(src, i);
            lemma_digits_end_bounds(src, i + 1);
            lemma_digits_end_digits(src, i);
            if d + 1 < src.len() && src[d] == '.' && is_digit(src[d + 1]) {
                lemma_digits_end_digits(src, d + 1);
                lemma_digits_end_bounds(src, d + 2);
            }
        }
        let lex = self.lexeme(start, self.pos);
        proof {
            let lexv = src.subrange(i, e);
            if e == d {
                assert(all_digits(lexv)) by {
                    assert(forall|k: int| 0 <= k < lexv.len() ==> is_digit(#[trigger] lexv[k]));
                }
            } else {
                let j = d - i;
                assert(lexv[j] == '.');
                assert(all_digits(lexv.subrange(0, j))) by {
                    assert(forall|k: int|
                        0 <= k < j ==> is_digit(#[trigger] lexv.subrange(0, j)[k]));
                }
                assert(all_digits(lexv.subrange(j + 1, lexv.len() as int))) by {
                    assert(forall|k: int|
                        0 <= k < lexv.len() - j - 1 ==> is_digit(
                            #[trigger] lexv.subrange(j + 1, lexv.len() as int)[k],
                        ));
                }
                assert(0 < j < lexv.len() - 1);
            }
            assert(clean_decimal(lexv));
        }
        let parsed = parse_double(lex.as_str());
        let bits = match parsed {
            Some(b) => b,
            None => {
                proof {
                    assert(false);
                }
                0
            },
        };
        let tok = Token::new(TokenType::Number, lex, Literal::Num(bits), self.line);
        self.tokens.push(tok);
        proof {
            assert(self.spec_tokens() =~= old(self).spec_tokens() + opt_seq(
                spec_scan_step(src, i).tok,
            ));
            assert(self.spec_errors() =~= old(self).spec_errors() + opt_seq(
                spec_scan_step(src, i).err,
            ));
        }
    }

    /// Scan an identifier or keyword: a letter or underscore followed
    /// by letters, digits, underscores or hyphens.
    fn scan_identifier(&mut self)
        requires
            old(self).wf(),
            old(self).pos < old(self).src().len(),
            is_alpha(old(self).src()[old(self).pos as int]),
        ensures
            final(self).wf(),
            final(self).src() == old(self).src(),
            final(self).pos > old(self).pos,
            ({
                let st = spec_scan_step(old(self).src(), old(self).pos as int);
                &&& final(self).pos == st.next
                &&& final(self).spec_tokens() == old(self).spec_tokens() + opt_seq(st.tok)
                &&& final(self).spec_errors() == old(self).spec_errors() + opt_seq(st.err)
            }),
    {
        let ghost src = self.chars@;
        let ghost i = self.pos as int;
        let n = self.chars.len();
        let start = self.pos;
        while self.pos < n && (('a' <= self.chars[self.pos] && self.chars[self.pos] <= 'z') || (
        'A' <= self.chars[self.pos] && self.chars[self.pos] <= 'Z') || self.chars[self.pos] == '_'
            || ('0' <= self.chars[self.pos] && self.chars[self.pos] <= '9') || self.chars[self.pos]
            == '-')
            invariant
                self.wf(),
                self.chars@ == src,
                n == src.len(),
                i <= self.pos <= n,
                self.tokens@ == old(self).tokens@,
                self.errors@ == old(self).errors@,
                self.text == old(self).text,
                self.line == old(self).line,
                ident_end(src, self.pos as int) == ident_end(src, i),
            decreases n - self.pos,
        {
            proof {
                lemma_nl_same(src, self.pos as int, self.pos + 1);
            }
            self.pos = self.pos + 1;
        }
        let ghost e = ident_end(src, i);
        proof {
            assert(self.pos == e);
        }
        let lex = self.lexeme(start, self.pos);
        let kw = keyword_type(lex.as_str());
        let tok = match kw {
            Some(k) => {
                let lit = if matches!(k, TokenType::True) {
                    Literal::Boolean(true)
                } else if matches!(k, TokenType::False) {
                    Literal::Boolean(false)
                } else if matches!(k, TokenType::Nil) {
                    Literal::Nil
                } else {
                    Literal::Absent
                };
                Token::new(k, lex, lit, self.line)
            },
            None => Token::new(TokenType::Identifier, lex, Literal::Absent, self.line),
        };
        self.tokens.push(tok);
        proof {
            assert(self.spec_tokens() =~= old(self).spec_tokens() + opt_seq(
                spec_scan_step(src, i).tok,
            ));
            assert(self.spec_errors() =~= old(self).spec_errors() + opt_seq(
                spec_scan_step(src, i).err,
            ));
        }
    }

    /// Run the whole scan. The token list always ends with the
    /// synthetic end-of-input token; the errors collect every lexical
    /// fault, line-tagged, across the whole input.
    pub fn scan_text(&mut self) -> (toks: &Vec<Token>)
        requires
            old(self).fresh(),
        ensures
            final(self).wf(),
            token_views(toks@) == spec_scan(old(self).src()).toks,
            final(self).spec_errors() == spec_scan(old(self).src()).errs,
    {
        let ghost src = self.chars@;
        let n = self.chars.len();
        while self.pos < n
            invariant
                self.wf(),
                self.chars@ == src,
                n == src.len(),
                spec_scan(src).toks =~= self.spec_tokens() + spec_scan_from(
                    src,
                    self.pos as int,
                ).toks,
                spec_scan(src).errs =~= self.spec_errors() + spec_scan_from(
                    src,
                    self.pos as int,
                ).errs,
            decreases n - self.pos,
        {
            let ghost pos0 = self.pos as int;
            let ghost toks0 = self.spec_tokens();
            let ghost errs0 = self.spec_errors();
            self.scan_next_token();
            proof {
                let st = spec_scan_step(src, pos0);
                let j = if pos0 < st.next <= src.len() {
                    st.next
                } else {
                    pos0 + 1
                };
                assert(self.pos == j);
                assert(spec_scan_from(src, pos0).toks =~= opt_seq(st.tok) + spec_scan_from(
                    src,
                    j,
                ).toks);
                assert(spec_scan_from(src, pos0).errs =~= opt_seq(st.err) + spec_scan_from(
                    src,
                    j,
                ).errs);
                assert(spec_scan(src).toks =~= self.spec_tokens() + spec_scan_from(
                    src,
                    self.pos as int,
                ).toks);
                assert(spec_scan(src).errs =~= self.spec_errors() + spec_scan_from(
                    src,
                    self.pos as int,
                ).errs);
            }
        }
        let eof = Token::empty_token(self.line);
        self.tokens.push(eof);
        proof {
            assert(token_views(self.tokens@) =~= spec_scan(src).toks);
        }
        &self.tokens
    }

    /// The lexical errors collected by the scan, in source order.
    pub fn lex_errors(&self) -> (errs: &Vec<LexError>)
        ensures
            errs@ == self.spec_errors(),
    {
        &self.errors
    }
}

/// Character-sequence equality of two string slices.
pub(crate) fn str_eq_str(a: &str, b: &str) -> (r: bool)
    ensures
        r == (a@ == b@),
{
    let na = a.unicode_len();
    let nb = b.unicode_len();
    if na != nb {
        proof {
            assert(a@ != b@);
        }
        return false;
    }
    let mut i: usize = 0;
    while i < na
        invariant
            i <= na,
            na == a@.len(),
            na == b@.len(),
            forall|k: int| 0 <= k < i ==> a@[k] == b@[k],
        decreases na - i,
    {
        if a.get_char(i) != b.get_char(i) {
            proof {
                assert(a@ != b@);
            }
            return false;
        }
        i = i + 1;
    }
    proof {
        assert(a@ =~= b@);
    }
    true
}

/// The keyword category of an identifier, if it is a reserved word.
pub fn keyword_type(s: &str) -> (r: Option<TokenType>)
    ensures
        r == spec_keyword(s@),
{
    if str_eq_str(s, "and") {
        Some(TokenType::And)
    } else if str_eq_str(s, "class") {
        Some(TokenType::Class)
    } else if str_eq_str(s, "else") {
        Some(TokenType::Else)
    } else if str_eq_str(s, "false") {
        Some(TokenType::False)
    } else if str_eq_str(s, "for") {
        Some(TokenType::For)
    } else if str_eq_str(s, "fun") {
        Some(TokenType::Fun)
    } else if str_eq_str(s, "if") {
        Some(TokenType::If)
    } else if str_eq_str(s, "nil") {
        Some(TokenType::Nil)
    } else if str_eq_str(s, "or") {
        Some(TokenType::Or)
    } else if str_eq_str(s, "print") {
        Some(TokenType::Print)
    } else if str_eq_str(s, "return") {
        Some(TokenType::Return)
    } else if str_eq_str(s, "super") {
        Some(TokenType::Super)
    } else if str_eq_str(s, "this") {
        Some(TokenType::This)
    } else if str_eq_str(s, "true") {
        Some(TokenType::True)
    } else if str_eq_str(s, "var") {
        Some(TokenType::Var)
    } else if str_eq_str(s, "while") {
        Some(TokenType::While)
    } else {
        None
    }
}

/// Whether an identifier is a keyword, and if so which one: the
/// returned string equals the identifier exactly when it is reserved.
pub fn key_getter(identifier: &str) -> (r: (bool, &str))
    ensures
        r.0 == (spec_keyword(identifier@) is Some),
        r.0 ==> r.1@ == identifier@,
        !r.0 ==> r.1@ == Seq::<char>::empty(),
{
    let kw = keyword_type(identifier);
    if kw.is_some() {
        (true, identifier)
    } else {
        let empty = "";
        proof {
            reveal_strlit("");
            assert(empty@ =~= Seq::<char>::empty());
        }
        (false, empty)
    }
}

} // verus!
