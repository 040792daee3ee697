//! The syntax tree of a statement, its mathematical model, and its rendering.

use vstd::prelude::*;

verus! {

/// The mathematical model of a syntax tree: names are sequences of characters.
pub enum Term {
    Abstraction(Seq<char>, Box<Term>),
    Application(Box<Term>, Box<Term>),
    Identifier(Seq<char>),
    Definition(Seq<char>, Box<Term>),
    Epsilon,
}

/// A syntax tree. Every child is owned by its parent, so a tree has no cycles.
#[derive(Debug)]
pub enum AstNode {
    /// `λparameter.term`: binds `parameter` within `term`.
    Abstraction { parameter: String, term: Box<AstNode> },
    /// `(lhs rhs)`: applies `lhs` to `rhs`.
    Application { lhs: Box<AstNode>, rhs: Box<AstNode> },
    /// A reference to a variable.
    Identifier(String),
    /// `name := value`: a named top-level binding.
    Definition { name: String, value: Box<AstNode> },
    /// The tree of a blank or comment-only line.
    Epsilon,
}

/// The model of a syntax tree.
pub open spec fn model(n: AstNode) -> Term
    decreases n,
{
    match n {
        AstNode::Abstraction { parameter, term } => Term::Abstraction(parameter@, Box::new(model(*term))),
        AstNode::Application { lhs, rhs } => Term::Application(Box::new(model(*lhs)), Box::new(model(*rhs))),
        AstNode::Identifier(id) => Term::Identifier(id@),
        AstNode::Definition { name, value } => Term::Definition(name@, Box::new(model(*value))),
        AstNode::Epsilon => Term::Epsilon,
    }
}

impl View for AstNode {
    type V = Term;

    open spec fn view(&self) -> Term {
        model(*self)
    }
}

/// The model of an optional tree.
pub open spec fn opt_model(n: Option<AstNode>) -> Option<Term> {
    match n {
        Some(n) => Some(n@),
        None => None,
    }
}

/// The canonical text of a term: `λp.body` for an abstraction, `(f a)` for an
/// application, the bare name for an identifier, `name := value` for a
/// definition and `ε` for the empty term.
pub open spec fn render_term(t: Term) -> Seq<char>
    decreases t,
{
    match t {
        Term::Abstraction(p, body) => seq!['λ'] + p + seq!['.'] + render_term(*body),
        Term::Application(f, a) => seq!['('] + render_term(*f) + seq![' '] + render_term(*a) + seq![')'],
        Term::Identifier(x) => x,
        Term::Definition(n, v) => n + seq![' ', ':', '=', ' '] + render_term(*v),
        Term::Epsilon => seq!['ε'],
    }
}

impl AstNode {
    /// A copy of this tree.
    pub fn copy(&self) -> (r: AstNode)
        ensures
            r@ == self@,
        decreases self,
    {
        match self {
            AstNode::Abstraction { parameter, term } => AstNode::Abstraction {
                parameter: parameter.clone(),
                term: Box::new(term.copy()),
            },
            AstNode::Application { lhs, rhs } => AstNode::Application {
                lhs: Box::new(lhs.copy()),
                rhs: Box::new(rhs.copy()),
            },
            AstNode::Identifier(id) => AstNode::Identifier(id.clone()),
            AstNode::Definition { name, value } => AstNode::Definition {
                name: name.clone(),
                value: Box::new(value.copy()),
            },
            AstNode::Epsilon => AstNode::Epsilon,
        }
    }

    /// Structural equality of two trees.
    pub fn same(&self, other: &AstNode) -> (r: bool)
        ensures
            r == (self@ == other@),
        decreases self,
    {
        match (self, other) {
            (
                AstNode::Abstraction { parameter: p, term: t },
                AstNode::Abstraction { parameter: q, term: u },
            ) => *p == *q && t.same(u),
            (AstNode::Application { lhs: f, rhs: a }, AstNode::Application { lhs: g, rhs: b }) => {
                f.same(g) && a.same(b)
            },
            (AstNode::Identifier(x), AstNode::Identifier(y)) => *x == *y,
            (
                AstNode::Definition { name: n, value: v },
                AstNode::Definition { name: m, value: w },
            ) => *n == *m && v.same(w),
            (AstNode::Epsilon, AstNode::Epsilon) => true,
            _ => false,
        }
    }

    /// Appends the canonical text of this tree to `out`.
    fn render_into(&self, out: &mut String)
        ensures
            final(out)@ == old(out)@ + render_term(self@),
        decreases self,
    {
        proof {
            reveal_strlit("λ");
            reveal_strlit(".");
            reveal_strlit("(");
            reveal_strlit(" ");
            reveal_strlit(")");
            reveal_strlit(" := ");
            reveal_strlit("ε");
        }
        match self {
            AstNode::Abstraction { parameter, term } => {
                out.append("λ");
                out.append(parameter.as_str());
                out.append(".");
                term.render_into(out);
                assert(final(out)@ =~= old(out)@ + render_term(self@));
            },
            AstNode::Application { lhs, rhs } => {
                out.append("(");
                lhs.render_into(out);
                out.append(" ");
                rhs.render_into(out);
                out.append(")");
                assert(final(out)@ =~= old(out)@ + render_term(self@));
            },
            AstNode::Identifier(id) => {
                out.append(id.as_str());
            },
            AstNode::Definition { name, value } => {
                out.append(name.as_str());
                out.append(" := ");
                value.render_into(out);
                assert(final(out)@ =~= old(out)@ + render_term(self@));
            },
            AstNode::Epsilon => {
                out.append("ε");
            },
        }
    }

    /// The canonical text of this tree.
    pub fn render(&self) -> (r: String)
        ensures
            r@ == render_term(self@),
    {
        let mut out = String::new();
        self.render_into(&mut out);
        assert(out@ =~= render_term(self@));
        out
    }
}

impl Clone for AstNode {
    fn clone(&self) -> (r: AstNode)
        ensures
            r@ == self@,
    {
        self.copy()
    }
}

impl PartialEq for AstNode {
    fn eq(&self, other: &AstNode) -> (r: bool) {
        self.same(other)
    }
}

impl vstd::std_specs::cmp::PartialEqSpecImpl for AstNode {
    open spec fn obeys_eq_spec() -> bool {
        true
    }

    open spec fn eq_spec(&self, other: &AstNode) -> bool {
        self@ == other@
    }
}

} // verus!
