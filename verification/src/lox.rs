//! The embedding surface: one value that owns the error flags of a
//! session and drives the pipeline, scanning a source text, parsing
//! the tokens, and running the statements against an interpreter. A
//! lexical or syntax error suppresses evaluation of that run; a
//! runtime fault stops it and is reported.

use vstd::prelude::*;
use crate::interpreter::{Interpreter, spec_exec_stmts};
use crate::parser::{ParseError, Parser, sp_parse};
use crate::scanner::{LexError, Scanner, spec_scan};
use crate::value::RuntimeError;

verus! {

/// One interactive or batch session: whether any diagnostics have
/// been reported so far.
pub struct Lox {
    pub had_errors: bool,
    pub had_runtime_errors: bool,
}

/// Everything one run produces: the lines printed, the diagnostics of
/// each stage, in order.
pub struct RunOutcome {
    pub output: Vec<String>,
    pub lex_errors: Vec<LexError>,
    pub parse_errors: Vec<ParseError>,
    pub runtime_error: Option<RuntimeError>,
}

impl Lox {
    pub fn new() -> (r: Lox)
        ensures
            !r.had_errors,
            !r.had_runtime_errors,
    {
        Lox { had_errors: false, had_runtime_errors: false }
    }

    /// Run one source text: scan, parse, and—only when both stages
    /// were clean—execute, collecting the printed lines. The error
    /// flags record what went wrong.
    pub fn run(&mut self, interpreter: &mut Interpreter, source: &str) -> (r: RunOutcome)
        requires
            source@.len() < u32::MAX as int,
            old(interpreter).wf(),
        ensures
            final(interpreter).wf(),
            r.lex_errors@ == spec_scan(source@).errs,
            r.parse_errors@ == sp_parse(spec_scan(source@).toks).1,
            final(self).had_errors == (old(self).had_errors || r.lex_errors@.len() > 0
                || r.parse_errors@.len() > 0),
            final(self).had_runtime_errors == (old(self).had_runtime_errors
                || r.runtime_error is Some),
            r.lex_errors@.len() > 0 || r.parse_errors@.len() > 0 ==> {
                &&& *final(interpreter) == *old(interpreter)
                &&& r.runtime_error is None
                &&& r.output@.len() == 0
            },
            r.lex_errors@.len() == 0 && r.parse_errors@.len() == 0 ==> {
                let o = spec_exec_stmts(
                    sp_parse(spec_scan(source@).toks).0,
                    old(interpreter).spec_state(),
                    old(interpreter).fuel(),
                );
                &&& final(interpreter).spec_state().env == o.st.env
                &&& final(interpreter).spec_state().out == Seq::<Seq<char>>::empty()
                &&& final(interpreter).fuel() == o.fuel
                &&& r.output@.map_values(|s: String| s@) == o.st.out
                &&& match r.runtime_error {
                    None => o.res is Ok,
                    Some(e) => o.res == Err::<crate::value::SpecValue,
                        crate::value::SpecRuntimeError>(e@),
                }
            },
    {
        let mut scanner = Scanner::new(source);
        let tokens = scanner.scan_text();
        let mut parser = Parser::new(tokens.as_slice());
        let statements = parser.parse();
        let parse_errors = parser.parse_errors().clone();
        let lex_errors = scanner.lex_errors().clone();
        if lex_errors.len() > 0 || parse_errors.len() > 0 {
            self.had_errors = true;
            return RunOutcome {
                output: Vec::new(),
                lex_errors,
                parse_errors,
                runtime_error: None,
            };
        }
        let runtime_error = interpreter.run(&statements);
        if runtime_error.is_some() {
            self.had_runtime_errors = true;
        }
        let output = interpreter.take_output();
        RunOutcome { output, lex_errors, parse_errors, runtime_error }
    }
}

} // verus!
