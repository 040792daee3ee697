//! Rendering a term and reading the text back gives the term again.

use vstd::prelude::*;
use crate::ast::{Term, render_term};
use crate::chars::is_ident_char;
use crate::lexer::{
    TokenType, TokenView, eof_token, ident_len, lex_from, lex_spec, lex_step, opt_seq, prepend,
    token_of,
};
use crate::parser::{
    ParseError, expect, join, parse_abstraction_at, parse_application_at, parse_spec, parse_statement_at,
    parse_term_at, shift,
};

verus! {

/// A name that scans back as one identifier: not empty, made of identifier
/// characters, and not starting with `λ`.
pub open spec fn valid_name(x: Seq<char>) -> bool {
    &&& x.len() > 0
    &&& x[0] != 'λ'
    &&& forall|k: int| 0 <= k < x.len() ==> is_ident_char(#[trigger] x[k])
}

/// A term whose text reads back as the term itself: every name is valid, it
/// holds no definition and no empty term, and no abstraction stands as the
/// function of an application (`(λx.x y)` would read back as `λx.(x y)`).
pub open spec fn renderable(t: Term) -> bool
    decreases t,
{
    match t {
        Term::Identifier(x) => valid_name(x),
        Term::Abstraction(p, body) => valid_name(p) && renderable(*body),
        Term::Application(f, a) => !(*f is Abstraction) && renderable(*f) && renderable(*a),
        _ => false,
    }
}

pub open spec fn tok(kind: TokenType, line: usize, col: int, lexeme: Seq<char>) -> TokenView {
    TokenView { kind, line, col: col as usize, lexeme }
}

/// The tokens of the text of `t`, placed at column `i` of line `line`.
pub open spec fn tokens_at(t: Term, line: usize, i: int) -> Seq<TokenView>
    decreases t,
{
    match t {
        Term::Identifier(x) => seq![tok(TokenType::Identifier, line, i, x)],
        Term::Abstraction(p, body) => seq![
            tok(TokenType::Lambda, line, i, seq!['λ']),
            tok(TokenType::Identifier, line, i + 1, p),
            tok(TokenType::Dot, line, i + 1 + p.len(), seq!['.']),
        ] + tokens_at(*body, line, i + 2 + p.len()),
        Term::Application(f, a) => seq![tok(TokenType::OpenParen, line, i, seq!['('])]
            + tokens_at(*f, line, i + 1) + tokens_at(*a, line, i + 2 + render_term(*f).len())
            + seq![
            tok(
                TokenType::CloseParen,
                line,
                i + 2 + render_term(*f).len() + render_term(*a).len(),
                seq![')'],
            ),
        ],
        _ => Seq::empty(),
    }
}

proof fn lemma_prepend_assoc(a: Seq<TokenView>, b: Seq<TokenView>, r: Result<Seq<TokenView>, crate::lexer::LexError>)
    ensures
        prepend(a, prepend(b, r)) == prepend(a + b, r),
{
    if let Ok(rest) = r {
        assert(a + (b + rest) =~= (a + b) + rest);
    }
}

/// Text that ends at `e` or is followed there by a character that cannot
/// continue an identifier.
pub open spec fn ends_word(s: Seq<char>, e: int) -> bool {
    e == s.len() || !is_ident_char(s[e])
}

proof fn lemma_ident_run(s: Seq<char>, from: int, to: int)
    requires
        0 <= from <= to <= s.len(),
        forall|k: int| from <= k < to ==> is_ident_char(#[trigger] s[k]),
        ends_word(s, to),
    ensures
        ident_len(s, from) == to - from,
    decreases to - from,
{
    if from < to {
        lemma_ident_run(s, from + 1, to);
    }
}

proof fn lemma_lex_name(x: Seq<char>, s: Seq<char>, line: usize, i: int)
    requires
        valid_name(x),
        0 <= i,
        i + x.len() <= s.len(),
        s.subrange(i, i + x.len()) == x,
        ends_word(s, i + x.len()),
    ensures
        lex_from(s, line, i) == prepend(
            seq![tok(TokenType::Identifier, line, i, x)],
            lex_from(s, line, i + x.len()),
        ),
{
    assert(s[i] == x[0]);
    assert forall|k: int| i + 1 <= k < i + x.len() implies is_ident_char(#[trigger] s[k]) by {
        assert(s[k] == x[k - i]);
    }
    lemma_ident_run(s, i + 1, i + x.len());
    assert(is_ident_char(x[0]));
    assert(lex_step(s, line, i) == Ok::<(Option<TokenView>, int), crate::lexer::LexError>(
        (Some(token_of(TokenType::Identifier, line, s, i, i + x.len())), i + x.len()),
    ));
    assert(opt_seq(Some(token_of(TokenType::Identifier, line, s, i, i + x.len())))
        == seq![tok(TokenType::Identifier, line, i, x)]);
}

proof fn lemma_subrange_of(s: Seq<char>, r: Seq<char>, i: int, a: int, b: int)
    requires
        0 <= i,
        i + r.len() <= s.len(),
        s.subrange(i, i + r.len()) == r,
        0 <= a <= b <= r.len(),
    ensures
        s.subrange(i + a, i + b) == r.subrange(a, b),
{
    assert forall|k: int| 0 <= k < b - a implies s.subrange(i + a, i + b)[k] == r.subrange(a, b)[k] by {
        assert(s[i + a + k] == s.subrange(i, i + r.len())[a + k]);
    }
    assert(s.subrange(i + a, i + b) =~= r.subrange(a, b));
}

proof fn lemma_lex_term(t: Term, s: Seq<char>, line: usize, i: int)
    requires
        renderable(t),
        0 <= i,
        i + render_term(t).len() <= s.len(),
        s.subrange(i, i + render_term(t).len()) == render_term(t),
        ends_word(s, i + render_term(t).len()),
    ensures
        lex_from(s, line, i) == prepend(tokens_at(t, line, i), lex_from(s, line, i + render_term(t).len())),
    decreases t,
{
    let r = render_term(t);
    let e = i + r.len();
    match t {
        Term::Identifier(x) => {
            lemma_lex_name(x, s, line, i);
        },
        Term::Abstraction(p, body) => {
            let rb = render_term(*body);
            let lam = tok(TokenType::Lambda, line, i, seq!['λ']);
            let id = tok(TokenType::Identifier, line, i + 1, p);
            let dot = tok(TokenType::Dot, line, i + 1 + p.len(), seq!['.']);
            assert(s[i] == r[0]);
            assert(s.subrange(i, i + 1) =~= seq!['λ']);
            assert(opt_seq(lex_step(s, line, i)->Ok_0.0) == seq![lam]);
            lemma_subrange_of(s, r, i, 1, 1 + p.len() as int);
            assert(r.subrange(1, 1 + p.len() as int) =~= p);
            assert(s[i + 1 + p.len()] == r[1 + p.len() as int]);
            lemma_lex_name(p, s, line, i + 1);
            let d = i + 1 + p.len();
            assert(s.subrange(d, d + 1) =~= seq!['.']);
            assert(opt_seq(lex_step(s, line, d)->Ok_0.0) == seq![dot]);
            lemma_subrange_of(s, r, i, 2 + p.len() as int, r.len() as int);
            assert(r.subrange(2 + p.len() as int, r.len() as int) =~= rb);
            lemma_lex_term(*body, s, line, d + 1);
            lemma_prepend_assoc(seq![dot], tokens_at(*body, line, d + 1), lex_from(s, line, e));
            lemma_prepend_assoc(seq![id], seq![dot] + tokens_at(*body, line, d + 1), lex_from(s, line, e));
            lemma_prepend_assoc(seq![lam], seq![id] + (seq![dot] + tokens_at(*body, line, d + 1)), lex_from(s, line, e));
            assert(seq![lam] + (seq![id] + (seq![dot] + tokens_at(*body, line, d + 1))) =~= tokens_at(t, line, i));
        },
        Term::Application(f, a) => {
            let rf = render_term(*f);
            let ra = render_term(*a);
            let open = tok(TokenType::OpenParen, line, i, seq!['(']);
            let m = i + 1 + rf.len();
            let c = m + 1 + ra.len();
            let close = tok(TokenType::CloseParen, line, c, seq![')']);
            assert(s[i] == r[0]);
            assert(s.subrange(i, i + 1) =~= seq!['(']);
            assert(opt_seq(lex_step(s, line, i)->Ok_0.0) == seq![open]);
            lemma_subrange_of(s, r, i, 1, 1 + rf.len() as int);
            assert(r.subrange(1, 1 + rf.len() as int) =~= rf);
            assert(s[m] == r[1 + rf.len() as int]);
            lemma_lex_term(*f, s, line, i + 1);
            assert(s[m] == ' ');
            assert(lex_from(s, line, m) == lex_from(s, line, m + 1));
            lemma_subrange_of(s, r, i, 2 + rf.len() as int, 2 + rf.len() + ra.len() as int);
            assert(r.subrange(2 + rf.len() as int, 2 + rf.len() + ra.len() as int) =~= ra);
            assert(s[c] == r[2 + rf.len() + ra.len() as int]);
            lemma_lex_term(*a, s, line, m + 1);
            assert(s.subrange(c, c + 1) =~= seq![')']);
            assert(opt_seq(lex_step(s, line, c)->Ok_0.0) == seq![close]);
            let tf = tokens_at(*f, line, i + 1);
            let ta = tokens_at(*a, line, m + 1);
            lemma_prepend_assoc(ta, seq![close], lex_from(s, line, e));
            lemma_prepend_assoc(tf, ta + seq![close], lex_from(s, line, e));
            lemma_prepend_assoc(seq![open], tf + (ta + seq![close]), lex_from(s, line, e));
            assert(seq![open] + (tf + (ta + seq![close])) =~= tokens_at(t, line, i));
        },
        _ => {},
    }
}

/// A token that ends a term: the end of the line or a closing parenthesis.
pub open spec fn ends_term(toks: Seq<TokenView>, j: int) -> bool {
    toks[j].kind == TokenType::EOF || toks[j].kind == TokenType::CloseParen
}

proof fn lemma_tokens_subrange(toks: Seq<TokenView>, ts: Seq<TokenView>, k: int, a: int, b: int)
    requires
        0 <= k,
        k + ts.len() <= toks.len(),
        toks.subrange(k, k + ts.len()) == ts,
        0 <= a <= b <= ts.len(),
    ensures
        toks.subrange(k + a, k + b) == ts.subrange(a, b),
{
    assert forall|m: int| 0 <= m < b - a implies toks.subrange(k + a, k + b)[m] == ts.subrange(a, b)[m] by {
        assert(toks[k + a + m] == toks.subrange(k, k + ts.len())[a + m]);
    }
    assert(toks.subrange(k + a, k + b) =~= ts.subrange(a, b));
}

proof fn lemma_parse_term(t: Term, toks: Seq<TokenView>, k: int, line: usize, i: int)
    requires
        renderable(t),
        0 <= k,
        k + tokens_at(t, line, i).len() < toks.len(),
        toks.subrange(k, k + tokens_at(t, line, i).len()) == tokens_at(t, line, i),
    ensures
        tokens_at(t, line, i).len() > 0,
        !(t is Abstraction) ==> forall|lhs: Option<Term>|
            #[trigger] parse_application_at(toks, k, lhs) == shift(
                parse_application_at(toks, k + tokens_at(t, line, i).len(), Some(join(lhs, t))),
                tokens_at(t, line, i).len(),
            ),
        ends_term(toks, k + tokens_at(t, line, i).len()) ==> parse_term_at(toks, k)
            == Ok::<(Term, nat), ParseError>((t, tokens_at(t, line, i).len())),
        ends_term(toks, k + tokens_at(t, line, i).len()) && t is Abstraction ==> parse_abstraction_at(toks, k)
            == Ok::<(Term, nat), ParseError>((t, tokens_at(t, line, i).len())),
    decreases t,
{
    let ts = tokens_at(t, line, i);
    let n = ts.len();
    assert(toks[k] == ts[0]);
    match t {
        Term::Identifier(x) => {
            assert forall|lhs: Option<Term>|
                #[trigger] parse_application_at(toks, k, lhs) == shift(
                    parse_application_at(toks, k + n, Some(join(lhs, t))),
                    n,
                ) by {}
            if ends_term(toks, k + n) {
                assert(parse_application_at(toks, k + 1, Some(t)) == Ok::<(Term, nat), ParseError>((t, 0nat)));
                assert(parse_application_at(toks, k, None) == shift(parse_application_at(toks, k + 1, Some(join(None, t))), 1));
            }
        },
        Term::Abstraction(p, body) => {
            let tb = tokens_at(*body, line, i + 2 + p.len());
            assert(ts[1] == toks[k + 1]);
            assert(ts[2] == toks[k + 2]);
            lemma_tokens_subrange(toks, ts, k, 3, n as int);
            assert(ts.subrange(3, n as int) =~= tb);
            lemma_parse_term(*body, toks, k + 3, line, i + 2 + p.len());
        },
        Term::Application(f, a) => {
            let tf = tokens_at(*f, line, i + 1);
            let ta = tokens_at(*a, line, i + 2 + render_term(*f).len());
            let nf = tf.len();
            let na = ta.len();
            lemma_tokens_subrange(toks, ts, k, 1, 1 + nf as int);
            assert(ts.subrange(1, 1 + nf as int) =~= tf);
            lemma_tokens_subrange(toks, ts, k, 1 + nf as int, 1 + nf + na as int);
            assert(ts.subrange(1 + nf as int, 1 + nf + na as int) =~= ta);
            assert(toks[k + 1 + nf + na] == ts[1 + nf + na as int]);
            lemma_parse_term(*f, toks, k + 1, line, i + 1);
            lemma_parse_term(*a, toks, k + 1 + nf, line, i + 2 + render_term(*f).len());
            assert(toks[k + 1] == tf[0]);
            assert(toks[k + 1 + nf] == ta[0]);
            assert(parse_application_at(toks, k + 1, None) == shift(parse_application_at(toks, k + 1 + nf, Some(*f)), nf));
            if *a is Abstraction {
                assert(parse_application_at(toks, k + 1 + nf, Some(*f)) == Ok::<(Term, nat), ParseError>((t, na)));
            } else {
                assert(parse_application_at(toks, k + 1 + nf + na, Some(t)) == Ok::<(Term, nat), ParseError>((t, 0nat)));
                assert(parse_application_at(toks, k + 1 + nf, Some(*f)) == shift(parse_application_at(toks, k + 1 + nf + na, Some(join(Some(*f), *a))), na));
            }
            assert(parse_term_at(toks, k + 1) == Ok::<(Term, nat), ParseError>((t, (nf + na) as nat)));
            assert forall|lhs: Option<Term>|
                #[trigger] parse_application_at(toks, k, lhs) == shift(
                    parse_application_at(toks, k + n, Some(join(lhs, t))),
                    n,
                ) by {}
            if ends_term(toks, k + n) {
                assert(parse_application_at(toks, k + n, Some(t)) == Ok::<(Term, nat), ParseError>((t, 0nat)));
                assert(parse_application_at(toks, k, None) == shift(parse_application_at(toks, k + n, Some(join(None, t))), n));
            }
        },
        _ => {},
    }
}

/// Round trip: the text of a renderable term scans without error, and its
/// tokens parse back to the term.
pub proof fn lemma_round_trip(t: Term, line: usize)
    requires
        renderable(t),
    ensures
        lex_spec(render_term(t), line) is Ok,
        parse_spec(lex_spec(render_term(t), line)->Ok_0) == Ok::<Term, ParseError>(t),
{
    let s = render_term(t);
    assert(s.subrange(0, s.len() as int) =~= s);
    lemma_lex_term(t, s, line, 0);
    let ts = tokens_at(t, line, 0);
    let toks = ts + seq![eof_token(line, s.len() as int)];
    assert(ts + seq![eof_token(line, s.len() as int)] =~= toks);
    assert(lex_spec(s, line) == Ok::<Seq<TokenView>, crate::lexer::LexError>(toks));
    assert(toks.subrange(0, ts.len() as int) =~= ts);
    lemma_parse_term(t, toks, 0, line, 0);
    assert(toks[ts.len() as int] == eof_token(line, s.len() as int));
    assert(toks[0] == ts[0]);
    if t is Identifier {
        assert(toks[1] == eof_token(line, s.len() as int));
    }
    assert(parse_statement_at(toks) == parse_term_at(toks, 0));
}

} // verus!
