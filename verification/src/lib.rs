//! Core of a small scripting language: tokenizer, recursive-descent parser and
//! tree-walking evaluator, with an execution facade that turns any phase
//! failure into a uniform result record.
use vstd::prelude::*;

mod ast;
mod interpreter;
mod lexer;
mod math;
mod num;
mod parser;
mod text;

verus! {

pub use num::Num;
pub use ast::{BinOp, Expr, Stmt, Program};
pub use parser::{Parser, ParseError};
pub use lexer::{Token, Lexer};
pub use interpreter::{Interpreter, Value, RunError, Env, FuncTable, PlotV, StateV};

use crate::lexer::spec_tokenize;
use crate::parser::{spec_parse, perr_msg};
use crate::interpreter::{ev_program, init_state, err_msg, plots_view, FUEL};

/// One plot artifact: ordered samples, a display color, the plotted
/// function's name, and the capture timestamp in milliseconds since the
/// epoch.
pub struct PlotData {
    pub points: Vec<(Num, Num)>,
    pub color: String,
    pub label: String,
    pub timestamp: i64,
}

/// The uniform result of one execution request: whether it succeeded, the
/// accumulated text output, the diagnostics (at most one under the
/// first-fault policy), and the plot artifacts emitted before any fault.
pub struct CompilationResult {
    pub success: bool,
    pub output: String,
    pub errors: Vec<String>,
    pub plots: Vec<PlotData>,
}

pub open spec fn errors_view(s: Seq<String>) -> Seq<Seq<char>> {
    Seq::new(s.len(), |i: int| s[i]@)
}

/// Mathematical image of one request's outcome.
pub struct RunOutcome {
    pub success: bool,
    pub output: Seq<char>,
    pub errors: Seq<Seq<char>>,
    pub plots: Seq<PlotV>,
}

/// The whole pipeline on a source text: scan, parse, evaluate; the first
/// fault of any phase becomes the single diagnostic of a failed outcome, with
/// the output and plots produced before it preserved.
pub open spec fn spec_run(src: Seq<char>) -> RunOutcome {
    match spec_tokenize(src) {
        None => RunOutcome {
            success: false,
            output: Seq::empty(),
            errors: seq!["Ошибка лексического анализа"@],
            plots: Seq::empty(),
        },
        Some(tvs) => match spec_parse(tvs) {
            Err(pe) => RunOutcome {
                success: false,
                output: Seq::empty(),
                errors: seq![perr_msg(pe)],
                plots: Seq::empty(),
            },
            Ok(ssv) => {
                let (st2, e) = ev_program(init_state(), ssv, FUEL as nat);
                match e {
                    None => RunOutcome {
                        success: true,
                        output: st2.output,
                        errors: Seq::empty(),
                        plots: st2.plots,
                    },
                    Some(ev) => RunOutcome {
                        success: false,
                        output: st2.output,
                        errors: seq![err_msg(ev)],
                        plots: st2.plots,
                    },
                }
            },
        },
    }
}

/// Runs a source text through the whole pipeline and reports the uniform
/// result record. Success and the absence of diagnostics coincide, and a
/// failed request carries exactly one diagnostic.
pub fn compile_and_run(code: String) -> (r: CompilationResult)
    ensures
        ({
            let o = spec_run(code@);
            &&& r.success == o.success
            &&& r.output@ == o.output
            &&& errors_view(r.errors@) == o.errors
            &&& plots_view(r.plots@) == o.plots
            &&& (r.success <==> r.errors@.len() == 0)
            &&& r.errors@.len() <= 1
        }),
{
    let mut lexer = Lexer::new(code);
    let tokens = match lexer.tokenize() {
        Err(_) => {
            let mut errors: Vec<String> = Vec::new();
            errors.push(String::from_str("Ошибка лексического анализа"));
            let r = CompilationResult {
                success: false,
                output: String::new(),
                errors,
                plots: Vec::new(),
            };
            proof {
                assert(errors_view(r.errors@) =~= spec_run(code@).errors);
                assert(plots_view(r.plots@) =~= Seq::<PlotV>::empty());
            }
            return r;
        },
        Ok(ts) => ts,
    };
    let mut parser = Parser::new(tokens);
    let program = match parser.parse() {
        Err(e) => {
            let mut errors: Vec<String> = Vec::new();
            errors.push(e.message());
            let r = CompilationResult {
                success: false,
                output: String::new(),
                errors,
                plots: Vec::new(),
            };
            proof {
                assert(errors_view(r.errors@) =~= spec_run(code@).errors);
                assert(plots_view(r.plots@) =~= Seq::<PlotV>::empty());
            }
            return r;
        },
        Ok(p) => p,
    };
    let mut interpreter = Interpreter::new();
    match interpreter.execute(program) {
        Ok(_) => {
            let r = CompilationResult {
                success: true,
                output: interpreter.output,
                errors: Vec::new(),
                plots: interpreter.plots,
            };
            proof {
                assert(errors_view(r.errors@) =~= Seq::<Seq<char>>::empty());
            }
            r
        },
        Err(m) => {
            let mut errors: Vec<String> = Vec::new();
            errors.push(m);
            let r = CompilationResult {
                success: false,
                output: interpreter.output,
                errors,
                plots: interpreter.plots,
            };
            proof {
                assert(errors_view(r.errors@) =~= spec_run(code@).errors);
            }
            r
        },
    }
}

} // verus!
