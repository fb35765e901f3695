//! Expression trees, their builders, and the evaluator that works by
//! substituting arguments into function bodies.

use vstd::prelude::*;

pub use self::Expr::{App, Fun, If, Int, Sub, Var};
use crate::term::{lemma_subst_closed, wrapping_difference, Name, Term};

verus! {

/// An expression of the language. Every node owns its children.
#[derive(Debug, PartialEq, Eq)]
pub enum Expr {
    /// An integer literal.
    Int(i64),
    /// The first operand minus the second.
    Sub(Box<Expr>, Box<Expr>),
    /// The third operand where the first is at most the second, else the fourth.
    If(Box<Expr>, Box<Expr>, Box<Expr>, Box<Expr>),
    /// The application of a function to an argument.
    App(Box<Expr>, Box<Expr>),
    /// A reference to a variable.
    Var(String),
    /// A function literal: its parameter and its body.
    Fun(String, Box<Expr>),
}

impl Expr {
    /// The term that this tree stands for.
    pub open spec fn model(self) -> Term
        decreases self,
    {
        match self {
            Expr::Int(i) => Term::Int(i),
            Expr::Sub(a, b) => Term::Sub(Box::new(a.model()), Box::new(b.model())),
            Expr::If(a, b, c, d) => Term::If(
                Box::new(a.model()),
                Box::new(b.model()),
                Box::new(c.model()),
                Box::new(d.model()),
            ),
            Expr::App(a, b) => Term::App(Box::new(a.model()), Box::new(b.model())),
            Expr::Var(y) => Term::Var(y@),
            Expr::Fun(y, body) => Term::Fun(y@, Box::new(body.model())),
        }
    }
}

impl View for Expr {
    type V = Term;

    open spec fn view(&self) -> Term {
        self.model()
    }
}

impl Clone for Expr {
    /// A deep copy: the same tree, node for node.
    fn clone(&self) -> (copy: Self)
        ensures
            copy == *self,
        decreases self,
    {
        match self {
            Expr::Int(i) => Expr::Int(*i),
            Expr::Sub(a, b) => Expr::Sub(Box::new((**a).clone()), Box::new((**b).clone())),
            Expr::If(a, b, c, d) => Expr::If(
                Box::new((**a).clone()),
                Box::new((**b).clone()),
                Box::new((**c).clone()),
                Box::new((**d).clone()),
            ),
            Expr::App(a, b) => Expr::App(Box::new((**a).clone()), Box::new((**b).clone())),
            Expr::Var(y) => Expr::Var(y.clone()),
            Expr::Fun(y, body) => Expr::Fun(y.clone(), Box::new((**body).clone())),
        }
    }
}

/// The integer literal `i`.
pub fn _int(i: i64) -> (e: Expr)
    ensures
        e@ == Term::Int(i),
{
    Expr::Int(i)
}

/// A reference to the variable named `v`.
pub fn _var(v: &str) -> (e: Expr)
    ensures
        e@ == Term::Var(v@),
{
    Expr::Var(v.to_string())
}

/// The subtraction of `e2` from `e1`.
pub fn _sub(e1: Expr, e2: Expr) -> (e: Expr)
    ensures
        e@ == Term::Sub(Box::new(e1@), Box::new(e2@)),
{
    Expr::Sub(Box::new(e1), Box::new(e2))
}

/// The conditional that continues with `e3` where `e1` is at most `e2`, and with `e4` otherwise.
pub fn _if(e1: Expr, e2: Expr, e3: Expr, e4: Expr) -> (e: Expr)
    ensures
        e@ == Term::If(Box::new(e1@), Box::new(e2@), Box::new(e3@), Box::new(e4@)),
{
    Expr::If(Box::new(e1), Box::new(e2), Box::new(e3), Box::new(e4))
}

/// The application of `e1` to the argument `e2`.
pub fn _app(e1: Expr, e2: Expr) -> (e: Expr)
    ensures
        e@ == Term::App(Box::new(e1@), Box::new(e2@)),
{
    Expr::App(Box::new(e1), Box::new(e2))
}

/// The function literal with the parameter `v` and the body `e`.
pub fn _fun(v: &str, e: Expr) -> (f: Expr)
    ensures
        f@ == Term::Fun(v@, Box::new(e@)),
{
    Expr::Fun(v.to_string(), Box::new(e))
}

/// The negation of `e`, as its subtraction from zero.
pub fn _negate(e: Expr) -> (n: Expr)
    ensures
        n@ == Term::negate(e@),
{
    _sub(_int(0), e)
}

/// The sum of `e1` and `e2`, as the subtraction of the negation of `e2` from `e1`.
pub fn _plus(e1: Expr, e2: Expr) -> (s: Expr)
    ensures
        s@ == Term::plus(e1@, e2@),
{
    _sub(e1, _negate(e2))
}

/// The binding of `x` to `e1` in `e2`, as the application to `e1` of the
/// function literal with the parameter `x` and the body `e2`.
pub fn _let(x: &str, e1: Expr, e2: Expr) -> (l: Expr)
    ensures
        l@ == Term::bind(x@, e1@, e2@),
{
    _app(_fun(x, e2), e1)
}

/// Replaces the free occurrences of `x` in `expr` by copies of `v`.
///
/// A function literal that binds `x` itself is left as it is; bound names
/// are never renamed, so a free name of `v` can be captured by a binder of
/// `expr`. The operation never fails.
pub fn subst(expr: Expr, x: String, v: Expr) -> (r: Result<Expr, ()>)
    ensures
        r matches Ok(e) && e@ == expr@.subst(x@, v@),
    decreases expr,
{
    match expr {
        Expr::Int(i) => Ok(Expr::Int(i)),
        Expr::Var(y) => {
            if x == y {
                Ok(v)
            } else {
                Ok(Expr::Var(y))
            }
        },
        Expr::Sub(e1, e2) => {
            let i = subst(*e1, x.clone(), v.clone())?;
            let j = subst(*e2, x.clone(), v.clone())?;
            Ok(Expr::Sub(Box::new(i), Box::new(j)))
        },
        Expr::If(e1, e2, e3, e4) => {
            let i = subst(*e1, x.clone(), v.clone())?;
            let j = subst(*e2, x.clone(), v.clone())?;
            let k = subst(*e3, x.clone(), v.clone())?;
            let l = subst(*e4, x.clone(), v.clone())?;
            Ok(Expr::If(Box::new(i), Box::new(j), Box::new(k), Box::new(l)))
        },
        Expr::Fun(y, e) => {
            if x == y {
                Ok(Expr::Fun(y, e))
            } else {
                let body = subst(*e, x, v)?;
                Ok(Expr::Fun(y, Box::new(body)))
            }
        },
        Expr::App(e1, e2) => {
            let i = subst(*e1, x.clone(), v.clone())?;
            let j = subst(*e2, x.clone(), v.clone())?;
            Ok(Expr::App(Box::new(i), Box::new(j)))
        },
    }
}

/// The result of evaluating `t` by substitution, as far as it can be had
/// with at most `depth` evaluations nested in one another.
///
/// `None` says that the depth did not suffice; `Some(Err(()))` that the
/// evaluation fails; `Some(Ok(v))` that it yields the value `v`.
pub open spec fn reduce(t: Term, depth: nat) -> Option<Result<Term, ()>>
    decreases depth,
{
    if depth == 0 {
        None
    } else {
        let d = (depth - 1) as nat;
        match t {
            Term::Int(_) => Some(Ok(t)),
            Term::Fun(_, _) => Some(Ok(t)),
            Term::Var(_) => Some(Err(())),
            Term::Sub(a, b) => match reduce(*a, d) {
                None => None,
                Some(Ok(Term::Int(i))) => match reduce(*b, d) {
                    None => None,
                    Some(Ok(Term::Int(j))) => Some(Ok(Term::Int(wrapping_difference(i, j)))),
                    Some(_) => Some(Err(())),
                },
                Some(_) => Some(Err(())),
            },
            Term::If(a, b, c, e) => match reduce(*a, d) {
                None => None,
                Some(Ok(Term::Int(i))) => match reduce(*b, d) {
                    None => None,
                    Some(Ok(Term::Int(j))) => if i <= j {
                        reduce(*c, d)
                    } else {
                        reduce(*e, d)
                    },
                    Some(_) => Some(Err(())),
                },
                Some(_) => Some(Err(())),
            },
            Term::App(a, b) => match reduce(*a, d) {
                None => None,
                Some(Ok(Term::Fun(x, body))) => match reduce(*b, d) {
                    None => None,
                    Some(Ok(v)) => reduce(body.subst(x, v), d),
                    Some(Err(_)) => Some(Err(())),
                },
                Some(_) => Some(Err(())),
            },
        }
    }
}

/// Evaluation of `t` by substitution comes to an end, in a value or in a failure.
pub open spec fn terminates(t: Term) -> bool {
    exists|depth: nat| reduce(t, depth) is Some
}

/// What evaluation of `t` by substitution ends in, where it terminates.
pub open spec fn outcome(t: Term) -> Result<Term, ()> {
    reduce(t, choose|depth: nat| reduce(t, depth) is Some)->Some_0
}

/// The model of an evaluation result.
pub open spec fn result_model(r: Result<Expr, ()>) -> Result<Term, ()> {
    match r {
        Ok(e) => Ok(e@),
        Err(_) => Err(()),
    }
}

/// A result that was reached within some depth is reached within every greater depth.
pub proof fn lemma_reduce_monotonic(t: Term, depth: nat, more: nat)
    requires
        reduce(t, depth) is Some,
        depth <= more,
    ensures
        reduce(t, more) == reduce(t, depth),
    decreases depth,
{
    let d = (depth - 1) as nat;
    let m = (more - 1) as nat;
    match t {
        Term::Int(_) => {},
        Term::Fun(_, _) => {},
        Term::Var(_) => {},
        Term::Sub(a, b) => {
            lemma_reduce_monotonic(*a, d, m);
            if let Some(Ok(Term::Int(_))) = reduce(*a, d) {
                lemma_reduce_monotonic(*b, d, m);
            }
        },
        Term::If(a, b, c, e) => {
            lemma_reduce_monotonic(*a, d, m);
            if let Some(Ok(Term::Int(i))) = reduce(*a, d) {
                lemma_reduce_monotonic(*b, d, m);
                if let Some(Ok(Term::Int(j))) = reduce(*b, d) {
                    if i <= j {
                        lemma_reduce_monotonic(*c, d, m);
                    } else {
                        lemma_reduce_monotonic(*e, d, m);
                    }
                }
            }
        },
        Term::App(a, b) => {
            lemma_reduce_monotonic(*a, d, m);
            if let Some(Ok(Term::Fun(x, body))) = reduce(*a, d) {
                lemma_reduce_monotonic(*b, d, m);
                if let Some(Ok(v)) = reduce(*b, d) {
                    lemma_reduce_monotonic(body.subst(x, v), d, m);
                }
            }
        },
    }
}

/// Whatever depth an evaluation was completed in, its result is the outcome.
pub proof fn lemma_outcome(t: Term, depth: nat)
    requires
        reduce(t, depth) is Some,
    ensures
        terminates(t),
        reduce(t, depth) == Some(outcome(t)),
{
    let chosen = choose|d: nat| reduce(t, d) is Some;
    if chosen <= depth {
        lemma_reduce_monotonic(t, chosen, depth);
    } else {
        lemma_reduce_monotonic(t, depth, chosen);
    }
}

/// An evaluation that succeeds yields a normal form: an integer or a function literal.
pub proof fn lemma_reduce_yields_value(t: Term, depth: nat)
    requires
        reduce(t, depth) is Some,
    ensures
        reduce(t, depth) matches Some(Ok(v)) ==> v.is_value(),
    decreases depth,
{
    let d = (depth - 1) as nat;
    match t {
        Term::If(a, b, c, e) => {
            if let Some(Ok(Term::Int(i))) = reduce(*a, d) {
                if let Some(Ok(Term::Int(j))) = reduce(*b, d) {
                    if i <= j {
                        lemma_reduce_yields_value(*c, d);
                    } else {
                        lemma_reduce_yields_value(*e, d);
                    }
                }
            }
        },
        Term::App(a, b) => {
            if let Some(Ok(Term::Fun(x, body))) = reduce(*a, d) {
                if let Some(Ok(v)) = reduce(*b, d) {
                    lemma_reduce_yields_value(body.subst(x, v), d);
                }
            }
        },
        _ => {},
    }
}

/// Evaluating a closed term substitutes closed values only, so that no name
/// is ever captured, and yields a closed value.
pub proof fn lemma_reduce_preserves_closed(t: Term, depth: nat)
    requires
        t.closed(),
    ensures
        reduce(t, depth) matches Some(Ok(v)) ==> v.closed(),
    decreases depth,
{
    if depth == 0 {
        return ;
    }
    let d = (depth - 1) as nat;
    match t {
        Term::Int(_) => {},
        Term::Fun(_, _) => {},
        Term::Var(_) => {},
        Term::Sub(_, _) => {},
        Term::If(a, b, c, e) => {
            assert forall|x: Name| !c.free_vars().contains(x) && !e.free_vars().contains(x) by {
                assert(!t.free_vars().contains(x));
            }
            lemma_reduce_preserves_closed(*c, d);
            lemma_reduce_preserves_closed(*e, d);
        },
        Term::App(a, b) => {
            assert forall|x: Name| !a.free_vars().contains(x) && !b.free_vars().contains(x) by {
                assert(!t.free_vars().contains(x));
            }
            lemma_reduce_preserves_closed(*a, d);
            lemma_reduce_preserves_closed(*b, d);
            if let Some(Ok(Term::Fun(x, body))) = reduce(*a, d) {
                if let Some(Ok(v)) = reduce(*b, d) {
                    lemma_subst_closed(*body, x, v);
                    assert forall|y: Name| !body.subst(x, v).free_vars().contains(y) by {
                        assert(!Term::Fun(x, body).free_vars().contains(y));
                    }
                    lemma_reduce_preserves_closed(body.subst(x, v), d);
                }
            }
        },
    }
}

/// Evaluates `expr` by substitution.
///
/// Integers and function literals are values and evaluate to themselves.
/// A subtraction or a conditional whose operand is no integer, an
/// application of what is no function, and a variable that no substitution
/// has replaced, fail. The evaluation of `expr` has to come to an end.
pub fn eval(expr: Expr) -> (r: Result<Expr, ()>)
    requires
        terminates(expr@),
    ensures
        result_model(r) == outcome(expr@),
        r matches Ok(v) ==> v@.is_value(),
{
    let ghost depth = choose|d: nat| reduce(expr@, d) is Some;
    proof {
        lemma_outcome(expr@, depth);
        lemma_reduce_yields_value(expr@, depth);
    }
    eval_within(expr, Ghost(depth))
}

/// Evaluates `expr`, given a depth that its evaluation is known to stay within.
fn eval_within(expr: Expr, Ghost(depth): Ghost<nat>) -> (r: Result<Expr, ()>)
    requires
        reduce(expr@, depth) is Some,
    ensures
        reduce(expr@, depth) == Some(result_model(r)),
    decreases depth,
{
    let ghost d = (depth - 1) as nat;
    match expr {
        Expr::Int(i) => Ok(Expr::Int(i)),
        Expr::Var(_) => Err(()),
        Expr::Sub(e1, e2) => {
            let i = match eval_within(*e1, Ghost(d)) {
                Ok(Expr::Int(x)) => x,
                _ => return Err(()),
            };
            let j = match eval_within(*e2, Ghost(d)) {
                Ok(Expr::Int(x)) => x,
                _ => return Err(()),
            };
            Ok(Expr::Int(i.wrapping_sub(j)))
        },
        Expr::If(e1, e2, e3, e4) => {
            let i = match eval_within(*e1, Ghost(d)) {
                Ok(Expr::Int(x)) => x,
                _ => return Err(()),
            };
            let j = match eval_within(*e2, Ghost(d)) {
                Ok(Expr::Int(x)) => x,
                _ => return Err(()),
            };
            let e = if i <= j {
                *e3
            } else {
                *e4
            };
            eval_within(e, Ghost(d))
        },
        Expr::Fun(x, e) => Ok(Expr::Fun(x, e)),
        Expr::App(e1, e2) => {
            let (x, e) = match eval_within(*e1, Ghost(d)) {
                Ok(Expr::Fun(x, e)) => (x, e),
                _ => return Err(()),
            };
            let v = match eval_within(*e2, Ghost(d)) {
                Ok(v) => v,
                Err(_) => return Err(()),
            };
            let ee = match subst(*e, x, v) {
                Ok(ee) => ee,
                Err(_) => return Err(()),
            };
            eval_within(ee, Ghost(d))
        },
    }
}

/// The model of what a bounded evaluation returns.
pub open spec fn bounded_model(r: Option<Result<Expr, ()>>) -> Option<Result<Term, ()>> {
    match r {
        Some(result) => Some(result_model(result)),
        None => None,
    }
}

/// Evaluates `expr` by substitution with at most `depth` evaluations
/// nested in one another, for callers that do not know whether the
/// evaluation comes to an end.
///
/// Returns `None` where the depth does not suffice, and otherwise what
/// [`eval`] returns.
pub fn eval_bounded(expr: Expr, depth: usize) -> (r: Option<Result<Expr, ()>>)
    ensures
        bounded_model(r) == reduce(expr@, depth as nat),
    decreases depth,
{
    if depth == 0 {
        return None;
    }
    let d = depth - 1;
    match expr {
        Expr::Int(i) => Some(Ok(Expr::Int(i))),
        Expr::Var(_) => Some(Err(())),
        Expr::Sub(e1, e2) => {
            let i = match eval_bounded(*e1, d) {
                None => return None,
                Some(Ok(Expr::Int(x))) => x,
                Some(_) => return Some(Err(())),
            };
            let j = match eval_bounded(*e2, d) {
                None => return None,
                Some(Ok(Expr::Int(x))) => x,
                Some(_) => return Some(Err(())),
            };
            Some(Ok(Expr::Int(i.wrapping_sub(j))))
        },
        Expr::If(e1, e2, e3, e4) => {
            let i = match eval_bounded(*e1, d) {
                None => return None,
                Some(Ok(Expr::Int(x))) => x,
                Some(_) => return Some(Err(())),
            };
            let j = match eval_bounded(*e2, d) {
                None => return None,
                Some(Ok(Expr::Int(x))) => x,
                Some(_) => return Some(Err(())),
            };
            if i <= j {
                eval_bounded(*e3, d)
            } else {
                eval_bounded(*e4, d)
            }
        },
        Expr::Fun(x, e) => Some(Ok(Expr::Fun(x, e))),
        Expr::App(e1, e2) => {
            let (x, e) = match eval_bounded(*e1, d) {
                None => return None,
                Some(Ok(Expr::Fun(x, e))) => (x, e),
                Some(_) => return Some(Err(())),
            };
            let v = match eval_bounded(*e2, d) {
                None => return None,
                Some(Ok(v)) => v,
                Some(Err(_)) => return Some(Err(())),
            };
            match subst(*e, x, v) {
                Ok(ee) => eval_bounded(ee, d),
                Err(_) => Some(Err(())),
            }
        },
    }
}

} // verus!
