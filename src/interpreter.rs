//! Line-by-line interpretation: scan, parse, and reduce to a fixed point.

use vstd::prelude::*;
use crate::ast::{AstNode, Term};
use crate::lexer::{LexError, Lexer, lex_spec};
use crate::parser::{ParseError, Parser, parse_spec};
use crate::reduce::{Environment, reduce_term};

verus! {

/// Reduction did not reach a fixed point within its bounds.
#[derive(Debug, Clone, Copy, PartialEq, Eq, Structural)]
pub enum DivergenceError {
    /// Every one of `steps` steps changed the term.
    TooManySteps { steps: usize },
    /// Step number `step` (from 0) needed more nested reductions than allowed.
    TooDeep { step: usize },
}

/// Repeated reduction of `t` under `env`, where `k` steps have been taken:
/// each step has at most `depth` nested reductions, and it stops at the first
/// term that a step leaves as it is, or after `max_steps` steps.
pub open spec fn evaluate_from(t: Term, env: Map<Seq<char>, Term>, depth: nat, k: nat, max_steps: nat) -> Result<Term, DivergenceError>
    decreases max_steps - k,
{
    if k >= max_steps {
        Err(DivergenceError::TooManySteps { steps: max_steps as usize })
    } else {
        match reduce_term(t, env, depth) {
            None => Err(DivergenceError::TooDeep { step: k as usize }),
            Some(u) => if u == t {
                Ok(t)
            } else {
                evaluate_from(u, env, depth, k + 1, max_steps)
            },
        }
    }
}

/// The normal form that repeated reduction of `t` under `env` reaches within
/// the bounds, or why it reached none.
pub open spec fn normal_form_within(t: Term, env: Map<Seq<char>, Term>, depth: nat, max_steps: nat) -> Result<Term, DivergenceError> {
    evaluate_from(t, env, depth, 0, max_steps)
}

/// Why a line could not be interpreted.
#[derive(Debug, Clone, Copy, PartialEq, Eq, Structural)]
pub enum LineError {
    Lex(LexError),
    Parse(ParseError),
    Divergence(DivergenceError),
}

/// An interpreter that reads one line at a time. A definition `name := value`
/// binds `name` to `value` as written, for the lines that follow it; a later
/// definition of the same name replaces it from then on.
pub struct Interpreter {
    lexer: Lexer,
    parser: Parser,
    definitions: Environment,
}

impl Interpreter {
    /// The number of the next line.
    pub closed spec fn next_line(&self) -> usize {
        self.lexer.next_line()
    }

    /// The definitions made so far.
    pub closed spec fn definitions(&self) -> Map<Seq<char>, Term> {
        self.definitions@
    }

    pub fn new() -> (r: Interpreter)
        ensures
            r.next_line() == 1,
            r.definitions() == Map::<Seq<char>, Term>::empty(),
    {
        Interpreter { lexer: Lexer::new(), parser: Parser::new(), definitions: Environment::new() }
    }

    /// The number of the next line.
    pub fn line_number(&self) -> (r: usize)
        ensures
            r == self.next_line(),
    {
        self.lexer.line_number()
    }

    /// Reduces `ast` under the definitions until a step leaves it as it is,
    /// taking at most `max_steps` steps of at most `max_depth` nested
    /// reductions each.
    pub fn evaluate(&self, ast: AstNode, max_steps: usize, max_depth: usize) -> (r: Result<AstNode, DivergenceError>)
        ensures
            match normal_form_within(ast@, self.definitions(), max_depth as nat, max_steps as nat) {
                Ok(v) => r is Ok && r->Ok_0@ == v,
                Err(e) => r == Err::<AstNode, DivergenceError>(e),
            },
    {
        let ghost env = self.definitions@;
        let ghost t = ast@;
        let mut cur = ast;
        let mut k: usize = 0;
        while k < max_steps
            invariant
                env == self.definitions@,
                t == ast@,
                k <= max_steps,
                normal_form_within(t, env, max_depth as nat, max_steps as nat)
                    == evaluate_from(cur@, env, max_depth as nat, k as nat, max_steps as nat),
            decreases max_steps - k,
        {
            let next = match cur.reduce(self.definitions.copy(), max_depth) {
                Some(n) => n,
                None => return Err(DivergenceError::TooDeep { step: k }),
            };
            if next.same(&cur) {
                return Ok(cur);
            }
            cur = next;
            k = k + 1;
        }
        Err(DivergenceError::TooManySteps { steps: max_steps })
    }

    /// Interprets one line: scans and parses it, and reduces the statement to
    /// a normal form with at most `max_steps` steps of at most `max_depth`
    /// nested reductions each. A blank line gives `None`; any other gives the
    /// statement and its normal form.
    pub fn interpret_line(&mut self, line: &str, max_steps: usize, max_depth: usize) -> (r: Result<Option<(AstNode, AstNode)>, LineError>)
        requires
            old(self).next_line() < usize::MAX,
        ensures
            final(self).next_line() == old(self).next_line() + 1,
            match lex_spec(line@, old(self).next_line()) {
                Err(e) => r == Err::<Option<(AstNode, AstNode)>, LineError>(LineError::Lex(e))
                    && final(self).definitions() == old(self).definitions(),
                Ok(ts) => match parse_spec(ts) {
                    Err(e) => r == Err::<Option<(AstNode, AstNode)>, LineError>(LineError::Parse(e))
                        && final(self).definitions() == old(self).definitions(),
                    Ok(Term::Epsilon) => r == Ok::<Option<(AstNode, AstNode)>, LineError>(None)
                        && final(self).definitions() == old(self).definitions(),
                    Ok(t) => match normal_form_within(t, old(self).definitions(), max_depth as nat, max_steps as nat) {
                        Err(e) => r == Err::<Option<(AstNode, AstNode)>, LineError>(LineError::Divergence(e))
                            && final(self).definitions() == old(self).definitions(),
                        Ok(v) => r is Ok && r->Ok_0 is Some && r->Ok_0->Some_0.0@ == t
                            && r->Ok_0->Some_0.1@ == v
                            && final(self).definitions() == match t {
                                Term::Definition(name, value) => old(self).definitions().insert(name, *value),
                                _ => old(self).definitions(),
                            },
                    },
                },
            },
    {
        let tokens = match self.lexer.lex_line(line) {
            Ok(ts) => ts,
            Err(e) => return Err(LineError::Lex(e)),
        };
        let ast = match self.parser.parse(tokens) {
            Ok(a) => a,
            Err(e) => return Err(LineError::Parse(e)),
        };
        if let AstNode::Epsilon = ast {
            return Ok(None);
        }
        let normal = match self.evaluate(ast.copy(), max_steps, max_depth) {
            Ok(v) => v,
            Err(e) => return Err(LineError::Divergence(e)),
        };
        if let AstNode::Definition { name, value } = &ast {
            self.definitions.insert(name.clone(), value.copy());
        }
        Ok(Some((ast, normal)))
    }
}

} // verus!
