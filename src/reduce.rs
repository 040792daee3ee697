//! Normal-order reduction: substitution environments, the free-variable test,
//! and one reduction step.

use vstd::prelude::*;
use crate::ast::{AstNode, Term, opt_model};

verus! {

/// A substitution environment as a list of bindings; a later binding of a name
/// hides an earlier one.
pub open spec fn bindings_map(s: Seq<(Seq<char>, Term)>) -> Map<Seq<char>, Term>
    decreases s.len(),
{
    if s.len() == 0 {
        Map::empty()
    } else {
        bindings_map(s.drop_last()).insert(s.last().0, s.last().1)
    }
}

/// The models of a list of bindings.
pub open spec fn binding_views(s: Seq<(String, AstNode)>) -> Seq<(Seq<char>, Term)> {
    Seq::new(s.len(), |i: int| (s[i].0@, s[i].1@))
}

/// A substitution environment: a mapping from names to terms.
pub struct Environment {
    entries: Vec<(String, AstNode)>,
}

impl Environment {
    /// The bindings, in the order in which they were made.
    pub closed spec fn bindings(&self) -> Seq<(Seq<char>, Term)> {
        binding_views(self.entries@)
    }
}

impl View for Environment {
    type V = Map<Seq<char>, Term>;

    closed spec fn view(&self) -> Map<Seq<char>, Term> {
        bindings_map(self.bindings())
    }
}

impl Environment {
    /// The environment that binds no name.
    pub fn new() -> (r: Environment)
        ensures
            r@ == Map::<Seq<char>, Term>::empty(),
    {
        let r = Environment { entries: Vec::new() };
        assert(r.bindings() =~= Seq::<(Seq<char>, Term)>::empty());
        r
    }

    /// The term bound to `name`, if any.
    pub fn get(&self, name: &String) -> (r: Option<&AstNode>)
        ensures
            r is Some <==> self@.contains_key(name@),
            r is Some ==> r->0@ == self@[name@],
    {
        let ghost s = self.bindings();
        let mut i: usize = self.entries.len();
        assert(s.subrange(0, i as int) =~= s);
        while i > 0
            invariant
                i <= self.entries@.len(),
                s == self.bindings(),
                bindings_map(s.subrange(0, i as int)).contains_key(name@)
                    == self@.contains_key(name@),
                self@.contains_key(name@) ==> bindings_map(s.subrange(0, i as int))[name@]
                    == self@[name@],
            decreases i,
        {
            let ghost prefix = s.subrange(0, i as int);
            assert(prefix.drop_last() =~= s.subrange(0, i - 1));
            if self.entries[i - 1].0 == *name {
                return Some(&self.entries[i - 1].1);
            }
            i = i - 1;
        }
        assert(s.subrange(0, 0) =~= Seq::<(Seq<char>, Term)>::empty());
        None
    }

    /// Binds `name` to `value`, hiding any earlier binding of `name`.
    pub fn insert(&mut self, name: String, value: AstNode)
        ensures
            final(self)@ == old(self)@.insert(name@, value@),
    {
        let ghost s = old(self).bindings();
        self.entries.push((name, value));
        assert(self.bindings().drop_last() =~= s);
    }

    /// Drops every binding of `name`.
    pub fn remove(&mut self, name: &String)
        ensures
            final(self)@ == old(self)@.remove(name@),
    {
        let ghost s = old(self).bindings();
        let mut kept: Vec<(String, AstNode)> = Vec::new();
        let mut i: usize = 0;
        while i < self.entries.len()
            invariant
                i <= self.entries@.len(),
                s == self.bindings(),
                bindings_map(binding_views(kept@))
                    == bindings_map(s.subrange(0, i as int)).remove(name@),
            decreases self.entries@.len() - i,
        {
            let ghost before = binding_views(kept@);
            assert(s.subrange(0, i + 1).drop_last() =~= s.subrange(0, i as int));
            if self.entries[i].0 != *name {
                let entry = (self.entries[i].0.clone(), self.entries[i].1.copy());
                kept.push(entry);
                assert(binding_views(kept@).drop_last() =~= before);
                assert(bindings_map(binding_views(kept@))
                    =~= bindings_map(s.subrange(0, i + 1)).remove(name@));
            } else {
                assert(bindings_map(before) =~= bindings_map(s.subrange(0, i + 1)).remove(name@));
            }
            i = i + 1;
        }
        assert(s.subrange(0, i as int) =~= s);
        self.entries = kept;
    }

    /// A copy of this environment.
    pub fn copy(&self) -> (r: Environment)
        ensures
            r@ == self@,
    {
        let mut out: Vec<(String, AstNode)> = Vec::new();
        let mut i: usize = 0;
        while i < self.entries.len()
            invariant
                i <= self.entries@.len(),
                binding_views(out@)
                    =~= self.bindings().subrange(0, i as int),
            decreases self.entries@.len() - i,
        {
            let ghost before = out@;
            let entry = (self.entries[i].0.clone(), self.entries[i].1.copy());
            assert(entry.0@ == self.entries@[i as int].0@ && entry.1@ == self.entries@[i as int].1@);
            out.push(entry);
            assert(out@ == before.push(entry));
            assert(binding_views(before).len() == i);
            assert(binding_views(out@) =~= self.bindings().subrange(0, i + 1));
            i = i + 1;
        }
        let r = Environment { entries: out };
        assert(r.bindings() =~= self.bindings());
        r
    }
}

/// Whether `x` occurs free in `t`: an abstraction that binds `x` hides the
/// occurrences in its body, and a definition or the empty term has none.
pub open spec fn free_in(t: Term, x: Seq<char>) -> bool
    decreases t,
{
    match t {
        Term::Abstraction(p, body) => p != x && free_in(*body, x),
        Term::Application(f, a) => free_in(*f, x) || free_in(*a, x),
        Term::Identifier(y) => y == x,
        _ => false,
    }
}

/// Whether `λp.body` is an eta redex: `body` applies a term in which `p` is not
/// free to `p` itself.
pub open spec fn is_eta_redex(p: Seq<char>, body: Term) -> bool {
    match body {
        Term::Application(f, a) => *a == Term::Identifier(p) && !free_in(*f, p),
        _ => false,
    }
}

/// One normal-order reduction step of `t` under the substitution `env`, with at
/// most `depth` nested reductions; `None` when the step needs more.
///
/// An identifier bound in `env` becomes its binding. An application reduces its
/// function part first: when that gives an abstraction `λp.b`, the step goes on
/// with `b` under `env` with `p` bound to the argument; otherwise the reduced
/// function is applied to the reduced argument. An abstraction drops its
/// parameter from `env` and reduces its body, and `λx.(f x)` with `x` not free
/// in `f` reduces as `f`. A definition and the empty term stay as they are.
///
/// The bound is needed: a step need not end. Under `x ↦ (λz.x) q`, the step of
/// `(λz.x) q` reduces `λz.x` to `λz.((λz.x) q)` and goes on with `(λz.x) q`
/// under the same bindings.
pub open spec fn reduce_term(t: Term, env: Map<Seq<char>, Term>, depth: nat) -> Option<Term>
    decreases depth,
{
    if depth == 0 {
        None
    } else {
        let d = (depth - 1) as nat;
        match t {
            Term::Abstraction(p, body) => if is_eta_redex(p, *body) {
                reduce_term(eta_function(*body), env.remove(p), d)
            } else {
                match reduce_term(*body, env.remove(p), d) {
                    Some(b) => Some(Term::Abstraction(p, Box::new(b))),
                    None => None,
                }
            },
            Term::Application(f, a) => match reduce_term(*f, env, d) {
                None => None,
                Some(Term::Abstraction(p, b)) => reduce_term(*b, env.insert(p, *a), d),
                Some(rf) => match reduce_term(*a, env, d) {
                    Some(ra) => Some(Term::Application(Box::new(rf), Box::new(ra))),
                    None => None,
                },
            },
            Term::Identifier(x) => Some(
                if env.contains_key(x) {
                    env[x]
                } else {
                    t
                },
            ),
            _ => Some(t),
        }
    }
}

/// The function part of an application.
pub open spec fn eta_function(body: Term) -> Term {
    match body {
        Term::Application(f, _) => *f,
        _ => body,
    }
}

/// The depth of nesting of a term.
pub open spec fn height(t: Term) -> nat
    decreases t,
{
    match t {
        Term::Abstraction(_, body) => 1 + height(*body),
        Term::Application(f, a) => 1 + if height(*f) >= height(*a) {
            height(*f)
        } else {
            height(*a)
        },
        _ => 0,
    }
}

/// A term that reduction leaves as it is: it holds no beta redex and no eta
/// redex.
pub open spec fn is_normal(t: Term) -> bool
    decreases t,
{
    match t {
        Term::Abstraction(p, body) => !is_eta_redex(p, *body) && is_normal(*body),
        Term::Application(f, a) => !(*f is Abstraction) && is_normal(*f) && is_normal(*a),
        Term::Definition(_, v) => is_normal(*v),
        _ => true,
    }
}

impl AstNode {
    /// Whether this tree is the identifier `name`.
    fn is_identifier(&self, name: &String) -> (r: bool)
        ensures
            r == (self@ == Term::Identifier(name@)),
    {
        match self {
            AstNode::Identifier(id) => *id == *name,
            _ => false,
        }
    }

    /// Whether `id` occurs free in this tree.
    pub fn free(&self, id: &String) -> (r: bool)
        ensures
            r == free_in(self@, id@),
        decreases self,
    {
        match self {
            AstNode::Abstraction { parameter, term } => *parameter != *id && term.free(id),
            AstNode::Application { lhs, rhs } => lhs.free(id) || rhs.free(id),
            AstNode::Identifier(x) => *x == *id,
            _ => false,
        }
    }

    /// One normal-order reduction step under the substitution `env` (see
    /// `reduce_term`), with at most `depth` nested reductions; `None` when the
    /// step needs more.
    pub fn reduce(&self, env: Environment, depth: usize) -> (r: Option<AstNode>)
        ensures
            opt_model(r) == reduce_term(self@, env@, depth as nat),
        decreases depth,
    {
        if depth == 0 {
            return None;
        }
        let d = depth - 1;
        match self {
            AstNode::Abstraction { parameter, term } => {
                let mut inner = env;
                inner.remove(parameter);
                if let AstNode::Application { lhs, rhs } = &**term {
                    assert(term@ == Term::Application(Box::new(lhs@), Box::new(rhs@)));
                    if rhs.is_identifier(parameter) && !lhs.free(parameter) {
                        return lhs.reduce(inner, d);
                    }
                }
                match term.reduce(inner, d) {
                    Some(body) => Some(AstNode::Abstraction { parameter: parameter.clone(), term: Box::new(body) }),
                    None => None,
                }
            },
            AstNode::Application { lhs, rhs } => {
                let function = match lhs.reduce(env.copy(), d) {
                    Some(f) => f,
                    None => return None,
                };
                match function {
                    AstNode::Abstraction { parameter, term } => {
                        let mut inner = env;
                        inner.insert(parameter, rhs.copy());
                        term.reduce(inner, d)
                    },
                    other => match rhs.reduce(env, d) {
                        Some(argument) => Some(AstNode::Application { lhs: Box::new(other), rhs: Box::new(argument) }),
                        None => None,
                    },
                }
            },
            AstNode::Identifier(id) => match env.get(id) {
                Some(x) => Some(x.copy()),
                None => Some(self.copy()),
            },
            _ => Some(self.copy()),
        }
    }
}

/// A larger depth bound gives the same step: once the step finishes within
/// `n` nested reductions, it gives the same term within any `m >= n`.
pub proof fn lemma_reduce_depth_monotone(t: Term, env: Map<Seq<char>, Term>, n: nat, m: nat)
    requires
        n <= m,
        reduce_term(t, env, n) is Some,
    ensures
        reduce_term(t, env, m) == reduce_term(t, env, n),
    decreases n,
{
    let d = (n - 1) as nat;
    let e = (m - 1) as nat;
    match t {
        Term::Abstraction(p, body) => {
            if is_eta_redex(p, *body) {
                lemma_reduce_depth_monotone(eta_function(*body), env.remove(p), d, e);
            } else {
                lemma_reduce_depth_monotone(*body, env.remove(p), d, e);
            }
        },
        Term::Application(f, a) => {
            lemma_reduce_depth_monotone(*f, env, d, e);
            match reduce_term(*f, env, d) {
                Some(Term::Abstraction(p, b)) => {
                    lemma_reduce_depth_monotone(*b, env.insert(p, *a), d, e);
                },
                _ => {
                    lemma_reduce_depth_monotone(*a, env, d, e);
                },
            }
        },
        _ => {},
    }
}

/// Beta after reducing the function: when the function part of an application
/// reduces to an abstraction `λp.b`, the step of the application is the step
/// of `b` with `p` bound to the argument.
pub proof fn lemma_beta_after_function(f: Term, a: Term, env: Map<Seq<char>, Term>, depth: nat, p: Seq<char>, b: Term)
    requires
        reduce_term(f, env, depth) == Some(Term::Abstraction(p, Box::new(b))),
    ensures
        reduce_term(Term::Application(Box::new(f), Box::new(a)), env, depth + 1)
            == reduce_term(b, env.insert(p, a), depth),
{
}

/// Reducing a term with no redex, under an environment that binds none of its
/// free names, gives the term back.
proof fn lemma_reduce_fixes_normal(t: Term, env: Map<Seq<char>, Term>, depth: nat)
    requires
        is_normal(t),
        depth > height(t),
        forall|k: Seq<char>| env.contains_key(k) ==> !free_in(t, k),
    ensures
        reduce_term(t, env, depth) == Some(t),
    decreases t,
{
    let d = (depth - 1) as nat;
    match t {
        Term::Abstraction(p, body) => {
            assert forall|k: Seq<char>| env.remove(p).contains_key(k) implies !free_in(*body, k) by {
                assert(!free_in(t, k));
            }
            lemma_reduce_fixes_normal(*body, env.remove(p), d);
        },
        Term::Application(f, a) => {
            assert forall|k: Seq<char>| env.contains_key(k) implies !free_in(*f, k) && !free_in(*a, k) by {
                assert(!free_in(t, k));
            }
            lemma_reduce_fixes_normal(*f, env, d);
            lemma_reduce_fixes_normal(*a, env, d);
        },
        Term::Identifier(x) => {
            assert(free_in(t, x));
        },
        _ => {},
    }
}

/// Idempotence: a step on a term already in normal form gives the term back
/// whenever it finishes, and it finishes once the depth bound exceeds the
/// term's height.
pub proof fn lemma_normal_form_is_fixed(t: Term, depth: nat)
    requires
        is_normal(t),
    ensures
        reduce_term(t, Map::empty(), depth) is Some ==> reduce_term(t, Map::empty(), depth) == Some(t),
        depth > height(t) ==> reduce_term(t, Map::empty(), depth) == Some(t),
{
    let enough = if depth > height(t) { depth } else { height(t) + 1 };
    lemma_reduce_fixes_normal(t, Map::empty(), enough);
    if reduce_term(t, Map::empty(), depth) is Some {
        lemma_reduce_depth_monotone(t, Map::empty(), depth, enough);
    }
}

/// Eta shortcut: `λx.(f x)`, with `x` not free in `f`, reduces as `f` does with
/// `x` unbound; in the empty environment a normal `f` is the result itself.
pub proof fn lemma_eta_shortcut(f: Term, x: Seq<char>, env: Map<Seq<char>, Term>, depth: nat)
    requires
        !free_in(f, x),
    ensures
        reduce_term(
            Term::Abstraction(x, Box::new(Term::Application(Box::new(f), Box::new(Term::Identifier(x))))),
            env,
            depth + 1,
        ) == reduce_term(f, env.remove(x), depth),
        env == Map::<Seq<char>, Term>::empty() && is_normal(f) && depth > height(f) ==> reduce_term(
            Term::Abstraction(x, Box::new(Term::Application(Box::new(f), Box::new(Term::Identifier(x))))),
            env,
            depth + 1,
        ) == Some(f),
{
    if env == Map::<Seq<char>, Term>::empty() && is_normal(f) && depth > height(f) {
        assert(env.remove(x) =~= Map::<Seq<char>, Term>::empty());
        lemma_normal_form_is_fixed(f, depth);
    }
}

} // verus!
