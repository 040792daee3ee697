//! The scanner: one line of text to a sequence of tokens ending in `EOF`.

use vstd::prelude::*;
use crate::chars::{is_ident_char, whitespace};

verus! {

/// The kind of a token.
#[derive(Debug, Clone, Copy, PartialEq, Eq, Structural)]
pub enum TokenType {
    Lambda,
    Dot,
    Identifier,
    Assign,
    OpenParen,
    CloseParen,
    EOF,
}

/// The model of a token: its kind, the line it stands on, the column where it
/// starts (from 0), and its text.
pub struct TokenView {
    pub kind: TokenType,
    pub line: usize,
    pub col: usize,
    pub lexeme: Seq<char>,
}

/// A token of a source line.
#[derive(Debug, Clone)]
pub struct Token {
    tok_type: TokenType,
    line: usize,
    col: usize,
    lexeme: Vec<char>,
}

impl View for Token {
    type V = TokenView;

    closed spec fn view(&self) -> TokenView {
        TokenView { kind: self.tok_type, line: self.line, col: self.col, lexeme: self.lexeme@ }
    }
}

/// The models of a sequence of tokens.
pub open spec fn token_views(s: Seq<Token>) -> Seq<TokenView> {
    Seq::new(s.len(), |i: int| s[i]@)
}

impl Token {
    pub fn new(tok_type: TokenType, line: usize, col: usize, lexeme: Vec<char>) -> (r: Token)
        ensures
            r@ == (TokenView { kind: tok_type, line, col, lexeme: lexeme@ }),
    {
        Token { tok_type, line, col, lexeme }
    }

    pub fn get_type(&self) -> (r: TokenType)
        ensures
            r == self@.kind,
    {
        self.tok_type
    }

    pub fn get_lexeme(&self) -> (r: &Vec<char>)
        ensures
            r@ == self@.lexeme,
    {
        &self.lexeme
    }

    pub fn get_line(&self) -> (r: usize)
        ensures
            r == self@.line,
    {
        self.line
    }

    pub fn get_col(&self) -> (r: usize)
        ensures
            r == self@.col,
    {
        self.col
    }

    /// A copy of this token.
    pub fn copy(&self) -> (r: Token)
        ensures
            r@ == self@,
    {
        let mut lexeme: Vec<char> = Vec::new();
        let mut k: usize = 0;
        while k < self.lexeme.len()
            invariant
                k <= self.lexeme@.len(),
                lexeme@ == self.lexeme@.subrange(0, k as int),
            decreases self.lexeme@.len() - k,
        {
            lexeme.push(self.lexeme[k]);
            k = k + 1;
            assert(lexeme@ =~= self.lexeme@.subrange(0, k as int));
        }
        assert(lexeme@ =~= self.lexeme@);
        Token { tok_type: self.tok_type, line: self.line, col: self.col, lexeme }
    }

    pub fn is_type(&self, t: TokenType) -> (r: bool)
        ensures
            r == (self@.kind == t),
    {
        self.tok_type == t
    }
}

/// Why a line could not be scanned; lines count from 1, columns from 0.
#[derive(Debug, Clone, Copy, PartialEq, Eq, Structural)]
pub enum LexError {
    /// A character that starts no token.
    BadCharacter { line: usize, col: usize, found: char },
    /// A `:` that is not followed by `=`.
    IncompleteAssign { line: usize, col: usize },
}

/// The number of identifier characters in `s` from position `i` on, up to the
/// first other character.
pub open spec fn ident_len(s: Seq<char>, i: int) -> nat
    decreases s.len() - i,
{
    if 0 <= i < s.len() && is_ident_char(s[i]) {
        1 + ident_len(s, i + 1)
    } else {
        0
    }
}

/// An identifier run ends within the text.
pub proof fn lemma_ident_len_bound(s: Seq<char>, i: int)
    requires
        0 <= i <= s.len(),
    ensures
        i + ident_len(s, i) <= s.len(),
    decreases s.len() - i,
{
    if i < s.len() {
        lemma_ident_len_bound(s, i + 1);
    }
}

/// The token of kind `kind` made of `s[start..end]`.
pub open spec fn token_of(kind: TokenType, line: usize, s: Seq<char>, start: int, end: int) -> TokenView {
    TokenView { kind, line, col: start as usize, lexeme: s.subrange(start, end) }
}

/// One step of the scanner at position `i` of `s`: the token found there, if
/// any, and the position after it.
pub open spec fn lex_step(s: Seq<char>, line: usize, i: int) -> Result<(Option<TokenView>, int), LexError>
    recommends
        0 <= i < s.len(),
{
    let c = s[i];
    if c == 'λ' || c == '\\' {
        Ok((Some(token_of(TokenType::Lambda, line, s, i, i + 1)), i + 1))
    } else if c == '.' {
        Ok((Some(token_of(TokenType::Dot, line, s, i, i + 1)), i + 1))
    } else if c == '(' {
        Ok((Some(token_of(TokenType::OpenParen, line, s, i, i + 1)), i + 1))
    } else if c == ')' {
        Ok((Some(token_of(TokenType::CloseParen, line, s, i, i + 1)), i + 1))
    } else if c == '#' {
        Ok((None, s.len() as int))
    } else if c == ':' {
        if i + 1 < s.len() && s[i + 1] == '=' {
            Ok((Some(token_of(TokenType::Assign, line, s, i, i + 2)), i + 2))
        } else {
            Err(LexError::IncompleteAssign { line, col: i as usize })
        }
    } else if is_ident_char(c) {
        let end = i + 1 + ident_len(s, i + 1);
        Ok((Some(token_of(TokenType::Identifier, line, s, i, end)), end))
    } else if whitespace(c) {
        Ok((None, i + 1))
    } else {
        Err(LexError::BadCharacter { line, col: i as usize, found: c })
    }
}

/// The tokens of an optional token.
pub open spec fn opt_seq(t: Option<TokenView>) -> Seq<TokenView> {
    match t {
        Some(t) => seq![t],
        None => Seq::empty(),
    }
}

/// `ts` put in front of the tokens of a successful scan; an error stays.
pub open spec fn prepend(ts: Seq<TokenView>, r: Result<Seq<TokenView>, LexError>) -> Result<Seq<TokenView>, LexError> {
    match r {
        Ok(rest) => Ok(ts + rest),
        Err(e) => Err(e),
    }
}

/// The end-of-line token of a line of `n` characters.
pub open spec fn eof_token(line: usize, n: int) -> TokenView {
    TokenView { kind: TokenType::EOF, line, col: n as usize, lexeme: Seq::empty() }
}

/// The tokens of `s` from position `i` on, ending in `EOF`, or the first error.
pub open spec fn lex_from(s: Seq<char>, line: usize, i: int) -> Result<Seq<TokenView>, LexError>
    decreases s.len() - i,
    via lex_from_decreases
{
    if i < 0 || i >= s.len() {
        Ok(seq![eof_token(line, s.len() as int)])
    } else {
        match lex_step(s, line, i) {
            Ok((t, j)) => prepend(opt_seq(t), lex_from(s, line, j)),
            Err(e) => Err(e),
        }
    }
}

/// Each step of the scanner moves forward.
#[via_fn]
proof fn lex_from_decreases(s: Seq<char>, line: usize, i: int) {
    if 0 <= i < s.len() {
        match lex_step(s, line, i) {
            Ok((t, j)) => {
                lemma_ident_len_bound(s, i + 1);
                assert(0 <= s.len() - j < s.len() - i);
            },
            Err(e) => {},
        }
    }
}

/// The tokens of the line `s`, which stands on line `line`.
pub open spec fn lex_spec(s: Seq<char>, line: usize) -> Result<Seq<TokenView>, LexError> {
    lex_from(s, line, 0)
}

/// The models of an optional token.
pub open spec fn opt_view(t: Option<Token>) -> Option<TokenView> {
    match t {
        Some(t) => Some(t@),
        None => None,
    }
}

/// A scanner that numbers the lines it is given, from 1.
pub struct Lexer {
    src: Vec<char>,
    col: usize,
    line: usize,
}

impl Lexer {
    /// The number that the next line scanned will carry.
    pub closed spec fn next_line(&self) -> usize {
        self.line
    }

    pub fn new() -> (r: Lexer)
        ensures
            r.next_line() == 1,
    {
        Lexer { src: Vec::new(), col: 0, line: 1 }
    }

    /// The number that the next line scanned will carry.
    pub fn line_number(&self) -> (r: usize)
        ensures
            r == self.next_line(),
    {
        self.line
    }

    /// Starts the line count over.
    pub fn reset(&mut self)
        ensures
            final(self).next_line() == 1,
    {
        self.src = Vec::new();
        self.col = 0;
        self.line = 1;
    }

    /// Scans one line of source text, whose number is `next_line()`, to its
    /// tokens; the count moves to the next line whether or not the scan fails.
    pub fn lex_line(&mut self, src: &str) -> (r: Result<Vec<Token>, LexError>)
        requires
            old(self).next_line() < usize::MAX,
        ensures
            final(self).next_line() == old(self).next_line() + 1,
            match lex_spec(src@, old(self).next_line()) {
                Ok(ts) => r is Ok && token_views(r->Ok_0@) == ts,
                Err(e) => r == Err::<Vec<Token>, LexError>(e),
            },
    {
        let mut chars: Vec<char> = Vec::new();
        let n = src.unicode_len();
        let mut k: usize = 0;
        while k < n
            invariant
                n == src@.len(),
                k <= n,
                chars@ == src@.subrange(0, k as int),
            decreases n - k,
        {
            chars.push(src.get_char(k));
            k = k + 1;
            assert(chars@ =~= src@.subrange(0, k as int));
        }
        assert(chars@ =~= src@);
        self.src = chars;
        self.col = 0;
        let ghost s = self.src@;
        let ghost line = self.line;
        let mut tokens: Vec<Token> = Vec::new();
        assert(token_views(tokens@) =~= Seq::<TokenView>::empty());
        while !self.is_eol()
            invariant
                self.src@ == s,
                s == src@,
                self.line == line,
                line == old(self).line,
                line < usize::MAX,
                self.col <= s.len(),
                lex_spec(s, line) == prepend(token_views(tokens@), lex_from(s, line, self.col as int)),
            decreases s.len() - self.col,
        {
            let ghost before = token_views(tokens@);
            let ghost col = self.col as int;
            match self.lex_token() {
                Ok(t) => {
                    let ghost j = self.col as int;
                    let ghost added = opt_seq(opt_view(t));
                    if let Some(t) = t {
                        tokens.push(t);
                    }
                    assert(token_views(tokens@) =~= before + added);
                    proof {
                        if let Ok(rest) = lex_from(s, line, j) {
                            assert(before + (added + rest) =~= (before + added) + rest);
                        }
                    }
                },
                Err(e) => {
                    self.advance_line();
                    return Err(e);
                },
            }
        }
        let eof = self.new_token(TokenType::EOF, self.col);
        assert(s.subrange(s.len() as int, s.len() as int) =~= Seq::<char>::empty());
        assert(eof@ == eof_token(line, s.len() as int));
        tokens.push(eof);
        assert(token_views(tokens@) =~= token_views(tokens@).drop_last().push(eof@));
        self.advance_line();
        Ok(tokens)
    }

    fn advance(&mut self)
        requires
            old(self).col < old(self).src@.len(),
        ensures
            final(self).col == old(self).col + 1,
            final(self).src == old(self).src,
            final(self).line == old(self).line,
    {
        // A Vec's length fits in a usize, and so does the column after this one.
        let _len = self.src.len();
        self.col = self.col + 1;
    }

    /// Moves to the start of the next line.
    fn advance_line(&mut self)
        requires
            old(self).line < usize::MAX,
        ensures
            final(self).line == old(self).line + 1,
            final(self).col == 0,
    {
        self.line = self.line + 1;
        self.col = 0;
    }

    fn is_eol(&self) -> (r: bool)
        ensures
            r == (self.col >= self.src@.len()),
    {
        self.col >= self.src.len()
    }

    /// Whether `c` may stand inside an identifier.
    fn is_identifier_char(&self, c: char) -> (r: bool)
        ensures
            r == is_ident_char(c),
    {
        c.is_alphanumeric() || c == '_'
    }

    /// Whether `c` is skipped between tokens.
    fn is_ignore_char(&self, c: char) -> (r: bool)
        ensures
            r == whitespace(c),
    {
        c.is_whitespace()
    }

    fn peek(&self) -> (r: char)
        requires
            self.col < self.src@.len(),
        ensures
            r == self.src@[self.col as int],
    {
        self.src[self.col]
    }

    /// The token of kind `tok_type` made of the text from `start` up to the
    /// current column.
    fn new_token(&self, tok_type: TokenType, start: usize) -> (r: Token)
        requires
            start <= self.col <= self.src@.len(),
        ensures
            r@ == token_of(tok_type, self.line, self.src@, start as int, self.col as int),
    {
        let mut lexeme: Vec<char> = Vec::new();
        let mut k: usize = start;
        while k < self.col
            invariant
                start <= k <= self.col <= self.src@.len(),
                lexeme@ == self.src@.subrange(start as int, k as int),
            decreases self.col - k,
        {
            lexeme.push(self.src[k]);
            k = k + 1;
            assert(lexeme@ =~= self.src@.subrange(start as int, k as int));
        }
        Token::new(tok_type, self.line, start, lexeme)
    }

    /// Skips the rest of the line.
    fn lex_comment(&mut self) -> (r: Result<Option<Token>, LexError>)
        requires
            old(self).col <= old(self).src@.len(),
        ensures
            r == Ok::<Option<Token>, LexError>(None),
            final(self).col == old(self).src@.len(),
            final(self).src == old(self).src,
            final(self).line == old(self).line,
    {
        while !self.is_eol()
            invariant
                self.col <= self.src@.len(),
                self.src == old(self).src,
                self.line == old(self).line,
            decreases self.src@.len() - self.col,
        {
            self.advance();
        }
        Ok(None)
    }

    /// Scans an identifier whose first character stands at the current column.
    fn lex_identifier(&mut self) -> (r: Result<Option<Token>, LexError>)
        requires
            old(self).col < old(self).src@.len(),
            is_ident_char(old(self).src@[old(self).col as int]),
            old(self).src@[old(self).col as int] != 'λ',
        ensures
            ({
                let (t, j) = lex_step(old(self).src@, old(self).line, old(self).col as int)->Ok_0;
                r is Ok && opt_view(r->Ok_0) == t && final(self).col == j
            }),
            final(self).src == old(self).src,
            final(self).line == old(self).line,
    {
        let ghost s = self.src@;
        let start = self.col;
        self.advance();
        while !self.is_eol() && self.is_identifier_char(self.peek())
            invariant
                self.src == old(self).src,
                self.src@ == s,
                self.line == old(self).line,
                start < self.col <= s.len(),
                start + 1 + ident_len(s, start + 1) == self.col + ident_len(s, self.col as int),
            decreases s.len() - self.col,
        {
            self.advance();
        }
        Ok(Some(self.new_token(TokenType::Identifier, start)))
    }

    /// Scans a token of one character.
    fn lex_single(&mut self, tok_type: TokenType) -> (r: Result<Option<Token>, LexError>)
        requires
            old(self).col < old(self).src@.len(),
        ensures
            r is Ok && opt_view(r->Ok_0) == Some(
                token_of(tok_type, old(self).line, old(self).src@, old(self).col as int, old(self).col + 1),
            ),
            final(self).col == old(self).col + 1,
            final(self).src == old(self).src,
            final(self).line == old(self).line,
    {
        self.advance();
        Ok(Some(self.new_token(tok_type, self.col - 1)))
    }

    /// Scans the token, if any, that starts at the current column.
    fn lex_token(&mut self) -> (r: Result<Option<Token>, LexError>)
        requires
            old(self).col < old(self).src@.len(),
        ensures
            final(self).src == old(self).src,
            final(self).line == old(self).line,
            final(self).col <= final(self).src@.len(),
            match lex_step(old(self).src@, old(self).line, old(self).col as int) {
                Ok((t, j)) => r is Ok && opt_view(r->Ok_0) == t && final(self).col == j,
                Err(e) => r == Err::<Option<Token>, LexError>(e),
            },
    {
        proof {
            lemma_ident_len_bound(self.src@, self.col + 1);
        }
        let n = self.src.len();
        let c = self.peek();
        if c == 'λ' || c == '\\' {
            self.lex_single(TokenType::Lambda)
        } else if c == '.' {
            self.lex_single(TokenType::Dot)
        } else if c == '(' {
            self.lex_single(TokenType::OpenParen)
        } else if c == ')' {
            self.lex_single(TokenType::CloseParen)
        } else if c == '#' {
            self.lex_comment()
        } else if c == ':' {
            if self.col + 1 < n && self.src[self.col + 1] == '=' {
                let start = self.col;
                self.advance();
                self.advance();
                Ok(Some(self.new_token(TokenType::Assign, start)))
            } else {
                Err(LexError::IncompleteAssign { line: self.line, col: self.col })
            }
        } else if self.is_identifier_char(c) {
            self.lex_identifier()
        } else if self.is_ignore_char(c) {
            self.advance();
            Ok(None)
        } else {
            Err(LexError::BadCharacter { line: self.line, col: self.col, found: c })
        }
    }
}

} // verus!
