//! The recursive-descent parser: the tokens of one line to a syntax tree.
//!
//! statement   := identifier ASSIGN term | term
//! term        := LAMBDA identifier DOT term | application | EOF
//! application := atom+ [abstraction]   (left-associative)
//! atom        := identifier | OPEN term CLOSE

use vstd::prelude::*;
use crate::ast::{AstNode, Term, opt_model};
use crate::chars::string_from_chars;
use crate::lexer::{Token, TokenType, TokenView, token_views};

verus! {

/// Why a token sequence is not a statement.
#[derive(Debug, Clone, Copy, PartialEq, Eq, Structural)]
pub enum ParseError {
    /// A token of kind `expected` was required where a token of kind `found`
    /// stands, at the given line and column.
    Unexpected { expected: TokenType, found: TokenType, line: usize, col: usize },
    /// The tokens ran out at index `position`, before the statement ended.
    OutOfTokens { position: usize },
}

pub open spec fn out_of_tokens(i: int) -> ParseError {
    ParseError::OutOfTokens { position: i as usize }
}

pub open spec fn unexpected(toks: Seq<TokenView>, i: int, expected: TokenType) -> ParseError {
    ParseError::Unexpected { expected, found: toks[i].kind, line: toks[i].line, col: toks[i].col }
}

/// Whether a token of kind `kind` stands at index `i`.
pub open spec fn expect(toks: Seq<TokenView>, i: int, kind: TokenType) -> Result<(), ParseError> {
    if !(0 <= i < toks.len()) {
        Err(out_of_tokens(i))
    } else if toks[i].kind == kind {
        Ok(())
    } else {
        Err(unexpected(toks, i, kind))
    }
}

/// A parse with `k` more tokens consumed in front of it.
pub open spec fn shift(r: Result<(Term, nat), ParseError>, k: nat) -> Result<(Term, nat), ParseError> {
    match r {
        Ok((t, n)) => Ok((t, n + k)),
        Err(e) => Err(e),
    }
}

/// `t` applied as the next argument of `lhs`, or `t` alone when there is no
/// `lhs` yet.
pub open spec fn join(lhs: Option<Term>, t: Term) -> Term {
    match lhs {
        Some(l) => Term::Application(Box::new(l), Box::new(t)),
        None => t,
    }
}

/// The term at index `i`, with the number of tokens it takes.
pub open spec fn parse_term_at(toks: Seq<TokenView>, i: int) -> Result<(Term, nat), ParseError>
    decreases toks.len() - i, 3nat,
{
    if !(0 <= i < toks.len()) {
        Err(out_of_tokens(i))
    } else if toks[i].kind == TokenType::EOF {
        Ok((Term::Epsilon, 0))
    } else if toks[i].kind == TokenType::Lambda {
        parse_abstraction_at(toks, i)
    } else {
        parse_application_at(toks, i, None)
    }
}

/// The abstraction at index `i`: its body extends as far as a term does.
pub open spec fn parse_abstraction_at(toks: Seq<TokenView>, i: int) -> Result<(Term, nat), ParseError>
    decreases toks.len() - i, 1nat,
{
    match expect(toks, i, TokenType::Lambda) {
        Err(e) => Err(e),
        Ok(_) => match expect(toks, i + 1, TokenType::Identifier) {
            Err(e) => Err(e),
            Ok(_) => match expect(toks, i + 2, TokenType::Dot) {
                Err(e) => Err(e),
                Ok(_) => match parse_term_at(toks, i + 3) {
                    Err(e) => Err(e),
                    Ok((body, n)) => Ok((Term::Abstraction(toks[i + 1].lexeme, Box::new(body)), n + 3)),
                },
            },
        },
    }
}

/// The rest of an application from index `i`, where `lhs` holds the atoms
/// already read: further atoms are applied from the left, an abstraction is the
/// last argument, and any other token ends the application.
pub open spec fn parse_application_at(toks: Seq<TokenView>, i: int, lhs: Option<Term>) -> Result<(Term, nat), ParseError>
    decreases toks.len() - i, 2nat,
{
    if !(0 <= i < toks.len()) {
        Err(out_of_tokens(i))
    } else if toks[i].kind == TokenType::Identifier {
        shift(parse_application_at(toks, i + 1, Some(join(lhs, Term::Identifier(toks[i].lexeme)))), 1)
    } else if toks[i].kind == TokenType::OpenParen {
        match parse_term_at(toks, i + 1) {
            Err(e) => Err(e),
            Ok((t, n)) => match expect(toks, i + 1 + n, TokenType::CloseParen) {
                Err(e) => Err(e),
                Ok(_) => shift(parse_application_at(toks, i + 2 + n, Some(join(lhs, t))), n + 2),
            },
        }
    } else if toks[i].kind == TokenType::Lambda {
        match parse_abstraction_at(toks, i) {
            Err(e) => Err(e),
            Ok((a, n)) => Ok((join(lhs, a), n)),
        }
    } else {
        match lhs {
            Some(l) => Ok((l, 0)),
            None => Err(unexpected(toks, i, TokenType::Identifier)),
        }
    }
}

/// Whether an atom starts at index `i`: an identifier or an opening
/// parenthesis stands there.
pub open spec fn starts_atom(toks: Seq<TokenView>, i: int) -> bool {
    0 <= i < toks.len() && (toks[i].kind == TokenType::Identifier || toks[i].kind == TokenType::OpenParen)
}

/// The atom at index `i`: an identifier or a term in parentheses.
pub open spec fn parse_atom_at(toks: Seq<TokenView>, i: int) -> Result<(Term, nat), ParseError> {
    if !(0 <= i < toks.len()) {
        Err(out_of_tokens(i))
    } else if toks[i].kind == TokenType::Identifier {
        Ok((Term::Identifier(toks[i].lexeme), 1))
    } else if toks[i].kind == TokenType::OpenParen {
        match parse_term_at(toks, i + 1) {
            Err(e) => Err(e),
            Ok((t, n)) => match expect(toks, i + 1 + n, TokenType::CloseParen) {
                Err(e) => Err(e),
                Ok(_) => Ok((t, n + 2)),
            },
        }
    } else {
        Err(unexpected(toks, i, TokenType::Identifier))
    }
}

/// The statement at the start of `toks`: a definition when the tokens start
/// with an identifier and `:=`, a term otherwise.
pub open spec fn parse_statement_at(toks: Seq<TokenView>) -> Result<(Term, nat), ParseError> {
    if toks.len() >= 2 && toks[0].kind == TokenType::Identifier && toks[1].kind == TokenType::Assign {
        match parse_term_at(toks, 2) {
            Err(e) => Err(e),
            Ok((v, n)) => Ok((Term::Definition(toks[0].lexeme, Box::new(v)), n + 2)),
        }
    } else {
        parse_term_at(toks, 0)
    }
}

/// The statement that `toks` holds: a statement followed by `EOF`.
pub open spec fn parse_spec(toks: Seq<TokenView>) -> Result<Term, ParseError> {
    match parse_statement_at(toks) {
        Err(e) => Err(e),
        Ok((t, n)) => match expect(toks, n as int, TokenType::EOF) {
            Err(e) => Err(e),
            Ok(_) => Ok(t),
        },
    }
}

/// Whether the exec result `r`, read from index `start` up to `end`, is the
/// parse `s`.
pub open spec fn parsed(s: Result<(Term, nat), ParseError>, r: Result<AstNode, ParseError>, start: int, end: int) -> bool {
    match s {
        Ok((t, n)) => r is Ok && r->Ok_0@ == t && end == start + n,
        Err(e) => r == Err::<AstNode, ParseError>(e),
    }
}

fn join_node(lhs: Option<AstNode>, t: AstNode) -> (r: AstNode)
    ensures
        r@ == join(opt_model(lhs), t@),
{
    match lhs {
        Some(l) => AstNode::Application { lhs: Box::new(l), rhs: Box::new(t) },
        None => t,
    }
}

/// A parser that reads one token sequence at a time.
pub struct Parser {
    tokens: Vec<Token>,
    idx: usize,
}

impl Parser {
    pub closed spec fn toks(&self) -> Seq<TokenView> {
        token_views(self.tokens@)
    }

    pub fn new() -> (r: Parser) {
        Parser { tokens: Vec::new(), idx: 0 }
    }

    /// Parses a token sequence to the statement it holds.
    pub fn parse(&mut self, tokens: Vec<Token>) -> (r: Result<AstNode, ParseError>)
        ensures
            match parse_spec(token_views(tokens@)) {
                Ok(t) => r is Ok && r->Ok_0@ == t,
                Err(e) => r == Err::<AstNode, ParseError>(e),
            },
    {
        self.tokens = tokens;
        self.idx = 0;
        let stmt = self.parse_statement();
        match stmt {
            Ok(t) => {
                match self.consume(TokenType::EOF) {
                    Ok(_) => Ok(t),
                    Err(e) => Err(e),
                }
            },
            Err(e) => Err(e),
        }
    }

    /// The kind of the next token.
    fn peek(&self) -> (r: Result<TokenType, ParseError>)
        ensures
            self.idx < self.toks().len() ==> r == Ok::<TokenType, ParseError>(self.toks()[self.idx as int].kind),
            self.idx >= self.toks().len() ==> r == Err::<TokenType, ParseError>(out_of_tokens(self.idx as int)),
    {
        if self.idx < self.tokens.len() {
            Ok(self.tokens[self.idx].get_type())
        } else {
            Err(ParseError::OutOfTokens { position: self.idx })
        }
    }

    /// The error for a token that is not of kind `expected`.
    fn unexpected(&self, expected: TokenType) -> (r: ParseError)
        requires
            self.idx < self.toks().len(),
        ensures
            r == unexpected(self.toks(), self.idx as int, expected),
    {
        let t = &self.tokens[self.idx];
        ParseError::Unexpected { expected, found: t.get_type(), line: t.get_line(), col: t.get_col() }
    }

    /// Consumes a token of kind `tok_type` and returns a copy of it.
    fn consume(&mut self, tok_type: TokenType) -> (r: Result<Token, ParseError>)
        ensures
            final(self).tokens == old(self).tokens,
            match expect(old(self).toks(), old(self).idx as int, tok_type) {
                Ok(_) => r is Ok && r->Ok_0@ == old(self).toks()[old(self).idx as int]
                    && final(self).idx == old(self).idx + 1,
                Err(e) => r == Err::<Token, ParseError>(e) && final(self).idx == old(self).idx,
            },
    {
        if self.idx >= self.tokens.len() {
            return Err(ParseError::OutOfTokens { position: self.idx });
        }
        if !self.tokens[self.idx].is_type(tok_type) {
            return Err(self.unexpected(tok_type));
        }
        let t = self.tokens[self.idx].copy();
        self.advance();
        Ok(t)
    }

    fn advance(&mut self)
        requires
            old(self).idx < old(self).toks().len(),
        ensures
            final(self).tokens == old(self).tokens,
            final(self).idx == old(self).idx + 1,
    {
        // A Vec's length fits in a usize, and so does the index after this one.
        let _len = self.tokens.len();
        self.idx = self.idx + 1;
    }

    /// Consumes an identifier and returns its name.
    fn parse_identifier(&mut self) -> (r: Result<String, ParseError>)
        ensures
            final(self).tokens == old(self).tokens,
            match expect(old(self).toks(), old(self).idx as int, TokenType::Identifier) {
                Ok(_) => r is Ok && r->Ok_0@ == old(self).toks()[old(self).idx as int].lexeme
                    && final(self).idx == old(self).idx + 1,
                Err(e) => r == Err::<String, ParseError>(e),
            },
    {
        match self.consume(TokenType::Identifier) {
            Ok(t) => Ok(string_from_chars(t.get_lexeme())),
            Err(e) => Err(e),
        }
    }

    /// Parses a term.
    fn parse_term(&mut self) -> (r: Result<AstNode, ParseError>)
        ensures
            final(self).tokens == old(self).tokens,
            parsed(parse_term_at(old(self).toks(), old(self).idx as int), r, old(self).idx as int, final(self).idx as int),
        decreases old(self).toks().len() - old(self).idx, 3nat,
    {
        let kind = match self.peek() {
            Ok(k) => k,
            Err(e) => return Err(e),
        };
        if kind == TokenType::EOF {
            Ok(AstNode::Epsilon)
        } else if kind == TokenType::Lambda {
            self.parse_abstraction()
        } else {
            self.parse_application()
        }
    }

    /// Parses an abstraction.
    fn parse_abstraction(&mut self) -> (r: Result<AstNode, ParseError>)
        ensures
            final(self).tokens == old(self).tokens,
            parsed(parse_abstraction_at(old(self).toks(), old(self).idx as int), r, old(self).idx as int, final(self).idx as int),
        decreases old(self).toks().len() - old(self).idx, 1nat,
    {
        if let Err(e) = self.consume(TokenType::Lambda) {
            return Err(e);
        }
        let parameter = match self.parse_identifier() {
            Ok(p) => p,
            Err(e) => return Err(e),
        };
        if let Err(e) = self.consume(TokenType::Dot) {
            return Err(e);
        }
        let term = match self.parse_term() {
            Ok(t) => t,
            Err(e) => return Err(e),
        };
        Ok(AstNode::Abstraction { parameter, term: Box::new(term) })
    }

    /// Parses an application: atoms applied from the left, ended by a token
    /// that starts no atom, or by an abstraction that takes the rest of the
    /// term as the last argument.
    fn parse_application(&mut self) -> (r: Result<AstNode, ParseError>)
        ensures
            final(self).tokens == old(self).tokens,
            parsed(parse_application_at(old(self).toks(), old(self).idx as int, None), r, old(self).idx as int, final(self).idx as int),
        decreases old(self).toks().len() - old(self).idx, 2nat,
    {
        let ghost toks = self.toks();
        let ghost start = self.idx as int;
        let mut lhs: Option<AstNode> = None;
        loop
            invariant
                self.tokens == old(self).tokens,
                toks == self.toks(),
                start == old(self).idx,
                start <= self.idx,
                parse_application_at(toks, start, None)
                    == shift(parse_application_at(toks, self.idx as int, opt_model(lhs)), (self.idx - start) as nat),
            decreases toks.len() - self.idx,
        {
            let ghost at = self.idx as int;
            let kind = match self.peek() {
                Ok(k) => k,
                Err(e) => return Err(e),
            };
            if kind == TokenType::Identifier || kind == TokenType::OpenParen {
                let atom = match self.parse_atom() {
                    Ok(a) => a,
                    Err(e) => return Err(e),
                };
                lhs = Some(join_node(lhs, atom));
            } else if kind == TokenType::Lambda {
                let last = match self.parse_abstraction() {
                    Ok(a) => a,
                    Err(e) => return Err(e),
                };
                return Ok(join_node(lhs, last));
            } else {
                return match lhs {
                    Some(l) => Ok(l),
                    None => Err(self.unexpected(TokenType::Identifier)),
                };
            }
        }
    }

    /// Parses an identifier or a term in parentheses.
    fn parse_atom(&mut self) -> (r: Result<AstNode, ParseError>)
        ensures
            final(self).tokens == old(self).tokens,
            parsed(parse_atom_at(old(self).toks(), old(self).idx as int), r, old(self).idx as int, final(self).idx as int),
            !starts_atom(old(self).toks(), old(self).idx as int) ==> final(self).idx == old(self).idx,
        decreases old(self).toks().len() - old(self).idx, 1nat,
    {
        let kind = match self.peek() {
            Ok(k) => k,
            Err(e) => return Err(e),
        };
        if kind == TokenType::Identifier {
            match self.parse_identifier() {
                Ok(id) => Ok(AstNode::Identifier(id)),
                Err(e) => Err(e),
            }
        } else if kind == TokenType::OpenParen {
            self.parse_grouped_term()
        } else {
            Err(self.unexpected(TokenType::Identifier))
        }
    }

    /// Parses a term in parentheses.
    fn parse_grouped_term(&mut self) -> (r: Result<AstNode, ParseError>)
        requires
            old(self).idx < old(self).toks().len(),
            old(self).toks()[old(self).idx as int].kind == TokenType::OpenParen,
        ensures
            final(self).tokens == old(self).tokens,
            parsed(parse_atom_at(old(self).toks(), old(self).idx as int), r, old(self).idx as int, final(self).idx as int),
        decreases old(self).toks().len() - old(self).idx, 0nat,
    {
        if let Err(e) = self.consume(TokenType::OpenParen) {
            return Err(e);
        }
        let term = match self.parse_term() {
            Ok(t) => t,
            Err(e) => return Err(e),
        };
        if let Err(e) = self.consume(TokenType::CloseParen) {
            return Err(e);
        }
        Ok(term)
    }

    /// Parses a statement: after a leading identifier the parser looks at one
    /// more token, and goes back to the identifier when that is not `:=`.
    fn parse_statement(&mut self) -> (r: Result<AstNode, ParseError>)
        requires
            old(self).idx == 0,
        ensures
            final(self).tokens == old(self).tokens,
            parsed(parse_statement_at(old(self).toks()), r, 0, final(self).idx as int),
    {
        if let Ok(TokenType::Identifier) = self.peek() {
            let name = match self.parse_identifier() {
                Ok(n) => n,
                Err(e) => return Err(e),
            };
            if let Ok(TokenType::Assign) = self.peek() {
                self.advance();
                let value = match self.parse_term() {
                    Ok(v) => v,
                    Err(e) => return Err(e),
                };
                return Ok(AstNode::Definition { name, value: Box::new(value) });
            }
            self.idx = 0;
        }
        self.parse_term()
    }
}

} // verus!
