//! What both evaluators do on the simplest expressions of each form.

use vstd::prelude::*;

use crate::ast;
use crate::ast_closure;
use crate::term::{wrapping_difference, wrapping_sum, Name, Term, Val};

verus! {

/// The subtraction of the integer `b` from the integer `a`.
pub open spec fn sub_of(a: i64, b: i64) -> Term {
    Term::Sub(Box::new(Term::Int(a)), Box::new(Term::Int(b)))
}

/// The conditional that compares the integers `a` and `b` and continues
/// with the integer `t` or with the integer `e`.
pub open spec fn if_of(a: i64, b: i64, t: i64, e: i64) -> Term {
    Term::If(
        Box::new(Term::Int(a)),
        Box::new(Term::Int(b)),
        Box::new(Term::Int(t)),
        Box::new(Term::Int(e)),
    )
}

/// The identity function with the parameter `x`.
pub open spec fn identity(x: Name) -> Term {
    Term::Fun(x, Box::new(Term::Var(x)))
}

/// The function of `x` that returns the identity function, whose parameter is `x` again.
pub open spec fn twice_bound(x: Name) -> Term {
    Term::Fun(x, Box::new(identity(x)))
}

/// The application of `f` to the integer `n`.
pub open spec fn apply_to(f: Term, n: i64) -> Term {
    Term::App(Box::new(f), Box::new(Term::Int(n)))
}

/// Subtracting one integer from another yields their difference, which
/// wraps around where it does not fit in 64 bits.
pub proof fn subtraction_of_integers(a: i64, b: i64, env: Map<Name, Val>)
    ensures
        ast::terminates(sub_of(a, b)),
        ast::outcome(sub_of(a, b)) == Ok::<Term, ()>(Term::Int(wrapping_difference(a, b))),
        ast_closure::terminates(sub_of(a, b), env),
        ast_closure::outcome(sub_of(a, b), env) == Ok::<Val, ()>(
            Val::Int(wrapping_difference(a, b)),
        ),
        i64::MIN <= a - b <= i64::MAX ==> wrapping_difference(a, b) == a - b,
{
    reveal_with_fuel(ast::reduce, 3);
    reveal_with_fuel(ast_closure::run, 3);
    ast::lemma_outcome(sub_of(a, b), 2);
    ast_closure::lemma_outcome(sub_of(a, b), env, 2);
}

/// Negating an integer yields its difference from zero; the least integer is its own negation.
pub proof fn negation_of_integer(a: i64, env: Map<Name, Val>)
    ensures
        ast::terminates(Term::negate(Term::Int(a))),
        ast::outcome(Term::negate(Term::Int(a))) == Ok::<Term, ()>(
            Term::Int(wrapping_difference(0, a)),
        ),
        ast_closure::terminates(Term::negate(Term::Int(a)), env),
        ast_closure::outcome(Term::negate(Term::Int(a)), env) == Ok::<Val, ()>(
            Val::Int(wrapping_difference(0, a)),
        ),
        a != i64::MIN ==> wrapping_difference(0, a) == -a,
        wrapping_difference(0, i64::MIN) == i64::MIN,
{
    subtraction_of_integers(0, a, env);
}

/// Adding two integers, as the subtraction of a negation, yields their
/// sum, which wraps around where it does not fit in 64 bits.
pub proof fn addition_of_integers(a: i64, b: i64, env: Map<Name, Val>)
    ensures
        ast::terminates(Term::plus(Term::Int(a), Term::Int(b))),
        ast::outcome(Term::plus(Term::Int(a), Term::Int(b))) == Ok::<Term, ()>(
            Term::Int(wrapping_sum(a, b)),
        ),
        ast_closure::terminates(Term::plus(Term::Int(a), Term::Int(b)), env),
        ast_closure::outcome(Term::plus(Term::Int(a), Term::Int(b)), env) == Ok::<Val, ()>(
            Val::Int(wrapping_sum(a, b)),
        ),
        i64::MIN <= a + b <= i64::MAX ==> wrapping_sum(a, b) == a + b,
{
    reveal_with_fuel(ast::reduce, 4);
    reveal_with_fuel(ast_closure::run, 4);
    let t = Term::plus(Term::Int(a), Term::Int(b));
    ast::lemma_outcome(t, 3);
    ast_closure::lemma_outcome(t, env, 3);
}

/// A conditional on integers yields its third operand where the first is
/// at most the second, equality included, and its fourth operand otherwise.
pub proof fn conditional_on_integers(a: i64, b: i64, t: i64, e: i64, env: Map<Name, Val>)
    ensures
        ast::terminates(if_of(a, b, t, e)),
        ast::outcome(if_of(a, b, t, e)) == Ok::<Term, ()>(
            Term::Int(
                if a <= b {
                    t
                } else {
                    e
                },
            ),
        ),
        ast_closure::terminates(if_of(a, b, t, e), env),
        ast_closure::outcome(if_of(a, b, t, e), env) == Ok::<Val, ()>(
            Val::Int(
                if a <= b {
                    t
                } else {
                    e
                },
            ),
        ),
{
    reveal_with_fuel(ast::reduce, 3);
    reveal_with_fuel(ast_closure::run, 3);
    ast::lemma_outcome(if_of(a, b, t, e), 2);
    ast_closure::lemma_outcome(if_of(a, b, t, e), env, 2);
}

/// Applying the identity function to an integer yields that integer,
/// whatever the parameter is called.
pub proof fn identity_application(x: Name, n: i64, env: Map<Name, Val>)
    ensures
        ast::terminates(apply_to(identity(x), n)),
        ast::outcome(apply_to(identity(x), n)) == Ok::<Term, ()>(Term::Int(n)),
        ast_closure::terminates(apply_to(identity(x), n), env),
        ast_closure::outcome(apply_to(identity(x), n), env) == Ok::<Val, ()>(Val::Int(n)),
{
    reveal_with_fuel(ast::reduce, 3);
    reveal_with_fuel(ast_closure::run, 3);
    let t = apply_to(identity(x), n);
    ast::lemma_outcome(t, 2);
    ast_closure::lemma_outcome(t, env, 2);
}

/// Of two nested binders of one name the inner one counts: the function
/// that binds `x` twice, applied to `a` and then to `b`, yields `b`.
pub proof fn inner_binding_shadows(x: Name, a: i64, b: i64, env: Map<Name, Val>)
    ensures
        ast::terminates(apply_to(apply_to(twice_bound(x), a), b)),
        ast::outcome(apply_to(apply_to(twice_bound(x), a), b)) == Ok::<Term, ()>(Term::Int(b)),
        ast_closure::terminates(apply_to(apply_to(twice_bound(x), a), b), env),
        ast_closure::outcome(apply_to(apply_to(twice_bound(x), a), b), env) == Ok::<Val, ()>(
            Val::Int(b),
        ),
{
    reveal_with_fuel(ast::reduce, 4);
    reveal_with_fuel(ast_closure::run, 4);
    let inner = apply_to(twice_bound(x), a);
    let t = apply_to(inner, b);
    ast::lemma_outcome(t, 3);
    ast_closure::lemma_outcome(t, env, 3);
}

/// A variable on its own fails: by substitution always, and under an
/// environment exactly if the environment does not bind it.
pub proof fn free_variable_fails(x: Name, env: Map<Name, Val>)
    ensures
        ast::terminates(Term::Var(x)),
        ast::outcome(Term::Var(x)) == Err::<Term, ()>(()),
        ast_closure::terminates(Term::Var(x), env),
        ast_closure::outcome(Term::Var(x), env) is Err <==> !env.contains_key(x),
        ast_closure::outcome(Term::Var(x), Map::empty()) is Err,
{
    ast::lemma_outcome(Term::Var(x), 1);
    ast_closure::lemma_outcome(Term::Var(x), env, 1);
    ast_closure::lemma_outcome(Term::Var(x), Map::empty(), 1);
}

} // verus!
