//! The mathematical models of expressions and of values, which every
//! contract in this crate is stated over.

use vstd::prelude::*;

verus! {

/// A variable name, as the sequence of its characters.
pub type Name = Seq<char>;

/// An expression tree with names as character sequences.
pub enum Term {
    /// An integer literal.
    Int(i64),
    /// The first operand minus the second.
    Sub(Box<Term>, Box<Term>),
    /// The third operand where the first is at most the second, else the fourth.
    If(Box<Term>, Box<Term>, Box<Term>, Box<Term>),
    /// The application of a function to an argument.
    App(Box<Term>, Box<Term>),
    /// A reference to a variable.
    Var(Name),
    /// A function literal: its parameter and its body.
    Fun(Name, Box<Term>),
}

/// Subtraction on 64-bit signed integers that wraps around on overflow.
pub open spec fn wrapping_difference(i: i64, j: i64) -> i64 {
    if i - j > i64::MAX {
        (i - j - 0x1_0000_0000_0000_0000) as i64
    } else if i - j < i64::MIN {
        (i - j + 0x1_0000_0000_0000_0000) as i64
    } else {
        (i - j) as i64
    }
}

/// Addition on 64-bit signed integers that wraps around on overflow.
pub open spec fn wrapping_sum(i: i64, j: i64) -> i64 {
    if i + j > i64::MAX {
        (i + j - 0x1_0000_0000_0000_0000) as i64
    } else if i + j < i64::MIN {
        (i + j + 0x1_0000_0000_0000_0000) as i64
    } else {
        (i + j) as i64
    }
}

impl Term {
    /// The negation of `t`: its subtraction from zero.
    pub open spec fn negate(t: Term) -> Term {
        Term::Sub(Box::new(Term::Int(0)), Box::new(t))
    }

    /// The sum of `a` and `b`: the subtraction of the negation of `b` from `a`.
    pub open spec fn plus(a: Term, b: Term) -> Term {
        Term::Sub(Box::new(a), Box::new(Term::negate(b)))
    }

    /// The binding of `x` to `bound` in `body`: the application to `bound`
    /// of the function literal with the parameter `x` and the body `body`.
    pub open spec fn bind(x: Name, bound: Term, body: Term) -> Term {
        Term::App(Box::new(Term::Fun(x, Box::new(body))), Box::new(bound))
    }

    /// A normal form: an integer or a function literal.
    pub open spec fn is_value(self) -> bool {
        self is Int || self is Fun
    }

    /// The names that occur in the term outside the scope of a binder of the same name.
    pub open spec fn free_vars(self) -> Set<Name>
        decreases self,
    {
        match self {
            Term::Int(_) => Set::empty(),
            Term::Sub(a, b) => a.free_vars() + b.free_vars(),
            Term::If(a, b, c, d) => a.free_vars() + b.free_vars() + c.free_vars() + d.free_vars(),
            Term::App(a, b) => a.free_vars() + b.free_vars(),
            Term::Var(y) => set![y],
            Term::Fun(y, body) => body.free_vars().remove(y),
        }
    }

    /// No name occurs free.
    pub open spec fn closed(self) -> bool {
        forall|x: Name| !self.free_vars().contains(x)
    }

    /// Structural substitution of `v` for the free occurrences of `x`.
    /// A binder of the same name shadows `x`; bound names are never renamed.
    pub open spec fn subst(self, x: Name, v: Term) -> Term
        decreases self,
    {
        match self {
            Term::Int(i) => Term::Int(i),
            Term::Sub(a, b) => Term::Sub(Box::new(a.subst(x, v)), Box::new(b.subst(x, v))),
            Term::If(a, b, c, d) => Term::If(
                Box::new(a.subst(x, v)),
                Box::new(b.subst(x, v)),
                Box::new(c.subst(x, v)),
                Box::new(d.subst(x, v)),
            ),
            Term::App(a, b) => Term::App(Box::new(a.subst(x, v)), Box::new(b.subst(x, v))),
            Term::Var(y) => if y == x { v } else { Term::Var(y) },
            Term::Fun(y, body) => if y == x {
                Term::Fun(y, body)
            } else {
                Term::Fun(y, Box::new(body.subst(x, v)))
            },
        }
    }
}

/// Substituting a closed term captures nothing: the names free in the
/// result are those free in `t`, other than `x`.
pub proof fn lemma_subst_closed(t: Term, x: Name, v: Term)
    requires
        v.closed(),
    ensures
        t.subst(x, v).free_vars() =~= t.free_vars().remove(x),
    decreases t,
{
    match t {
        Term::Int(_) => {},
        Term::Var(_) => {},
        Term::Sub(a, b) => {
            lemma_subst_closed(*a, x, v);
            lemma_subst_closed(*b, x, v);
        },
        Term::If(a, b, c, d) => {
            lemma_subst_closed(*a, x, v);
            lemma_subst_closed(*b, x, v);
            lemma_subst_closed(*c, x, v);
            lemma_subst_closed(*d, x, v);
        },
        Term::App(a, b) => {
            lemma_subst_closed(*a, x, v);
            lemma_subst_closed(*b, x, v);
        },
        Term::Fun(y, body) => {
            if y != x {
                lemma_subst_closed(*body, x, v);
            }
        },
    }
}

/// The mathematical model of what the closure evaluator computes with.
pub enum Val {
    /// An integer.
    Int(i64),
    /// A function literal's parameter and body, with the bindings that
    /// were in effect where the literal was evaluated.
    Closure(Name, Term, Map<Name, Val>),
}

} // verus!
