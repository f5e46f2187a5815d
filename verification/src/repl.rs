use vstd::prelude::*;

use crate::environment::{env_wf, Environment};
use crate::eval::{error_chars, run_s, Program, CALL_DEPTH_LIMIT};
use crate::lexer::{lex_s, Lexer};
use crate::object::{value_chars, ValueV};
use crate::parser::Parser;
use vstd::string::StringExecFns;

verus! {

/// The read-eval-print session's state: one environment, threaded
/// from line to line so that `let` bindings persist. Reading input and
/// printing belong to the host; this type does the evaluating.
pub struct Repl {
    env: Environment,
}

impl Repl {
    /// The environment arena carried across lines.
    pub closed spec fn env_view(&self) -> Seq<crate::environment::FrameV> {
        self.env@
    }

    /// The arena is well formed and holds the root scope.
    pub open spec fn wf(&self) -> bool {
        env_wf(self.env_view()) && self.env_view().len() >= 1
    }

    /// A session with one fresh root environment.
    pub fn new() -> (r: Repl)
        ensures
            r.wf(),
            r.env_view() == crate::environment::initial_env(),
    {
        Repl { env: Environment::new() }
    }

    /// Evaluates one line against the session environment and renders
    /// the outcome: the value's display form, or the error's message
    /// after `error: `. The environment keeps whatever bindings the
    /// line made before an error stopped it.
    pub fn eval_line(&mut self, line: &str) -> (r: String)
        requires
            old(self).wf(),
        ensures
            final(self).wf(),
            ({
                let (st2, res) = run_s(
                    lex_s(line@, 0),
                    0,
                    old(self).env_view(),
                    0,
                    CALL_DEPTH_LIMIT as nat,
                    ValueV::Nil,
                );
                final(self).env_view() == st2 && r@ == match res {
                    Ok(v) => value_chars(v),
                    Err(e) => "error: "@ + error_chars(e),
                }
            }),
    {
        let mut lexer = Lexer::new(line);
        let tokens = lexer.tokens();
        let mut parser = Parser::new(tokens);
        let mut program = Program::default();
        match program.eval(&mut parser, &mut self.env) {
            Ok(value) => value.render(),
            Err(err) => {
                let mut s = "error: ".to_owned();
                let m = err.message();
                s.append(m.as_str());
                proof {
                    assert(s@ =~= "error: "@ + crate::eval::error_chars(err@));
                }
                s
            },
        }
    }
}

} // verus!
