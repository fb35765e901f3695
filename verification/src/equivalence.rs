//! The two evaluators agree on closed terms.

use vstd::prelude::*;

use crate::ast::reduce;
use crate::ast_closure::run;
use crate::term::{Name, Term, Val};

verus! {

/// Replaces, all at once, each free name that `sigma` binds by the term it is bound to.
pub open spec fn close(t: Term, sigma: Map<Name, Term>) -> Term
    decreases t,
{
    match t {
        Term::Int(i) => Term::Int(i),
        Term::Sub(a, b) => Term::Sub(Box::new(close(*a, sigma)), Box::new(close(*b, sigma))),
        Term::If(a, b, c, d) => Term::If(
            Box::new(close(*a, sigma)),
            Box::new(close(*b, sigma)),
            Box::new(close(*c, sigma)),
            Box::new(close(*d, sigma)),
        ),
        Term::App(a, b) => Term::App(Box::new(close(*a, sigma)), Box::new(close(*b, sigma))),
        Term::Var(y) => if sigma.contains_key(y) {
            sigma[y]
        } else {
            Term::Var(y)
        },
        Term::Fun(y, body) => Term::Fun(y, Box::new(close(*body, sigma.remove(y)))),
    }
}

/// The term that a value of the closure evaluator reads back as: an
/// integer as itself, a closure as its function literal with the captured
/// bindings put in place of the names they bind.
pub open spec fn reify(v: Val) -> Term
    decreases v,
{
    match v {
        Val::Int(i) => Term::Int(i),
        Val::Closure(x, body, env) => Term::Fun(x, Box::new(close(body, reify_env(env).remove(x)))),
    }
}

/// The bindings of `env`, each value read back as a term.
pub open spec fn reify_env(env: Map<Name, Val>) -> Map<Name, Term>
    decreases env,
{
    Map::new(
        |name: Name| env.contains_key(name),
        |name: Name|
            if env.dom().finite() && env.contains_key(name) {
                reify(env[name])
            } else {
                Term::Var(name)
            },
    )
}

/// The value is built from finite environments only, and each closure in
/// it binds every free name of its body, by its parameter or by its
/// captured environment.
pub open spec fn sound(v: Val) -> bool
    decreases v,
{
    match v {
        Val::Int(_) => true,
        Val::Closure(x, body, env) => sound_env(env) && body.free_vars().subset_of(
            env.dom().insert(x),
        ),
    }
}

/// The environment is finite and binds names to sound values only.
pub open spec fn sound_env(env: Map<Name, Val>) -> bool
    decreases env,
{
    env.dom().finite() && forall|name: Name|
        env.dom().finite() && env.contains_key(name) ==> sound(#[trigger] env[name])
}

/// Every term that `sigma` binds a name to is closed.
pub open spec fn closed_terms(sigma: Map<Name, Term>) -> bool {
    forall|name: Name| sigma.contains_key(name) ==> (#[trigger] sigma[name]).closed()
}

/// Substitution for a name that does not occur free changes nothing.
pub proof fn lemma_subst_fresh(t: Term, x: Name, w: Term)
    requires
        !t.free_vars().contains(x),
    ensures
        t.subst(x, w) == t,
    decreases t,
{
    match t {
        Term::Int(_) => {},
        Term::Var(_) => {},
        Term::Sub(a, b) => {
            lemma_subst_fresh(*a, x, w);
            lemma_subst_fresh(*b, x, w);
        },
        Term::If(a, b, c, d) => {
            lemma_subst_fresh(*a, x, w);
            lemma_subst_fresh(*b, x, w);
            lemma_subst_fresh(*c, x, w);
            lemma_subst_fresh(*d, x, w);
        },
        Term::App(a, b) => {
            lemma_subst_fresh(*a, x, w);
            lemma_subst_fresh(*b, x, w);
        },
        Term::Fun(y, body) => {
            if y != x {
                lemma_subst_fresh(*body, x, w);
            }
        },
    }
}

/// Closing a term with no bindings changes nothing.
pub proof fn lemma_close_empty(t: Term)
    ensures
        close(t, Map::empty()) == t,
    decreases t,
{
    match t {
        Term::Int(_) => {},
        Term::Var(_) => {},
        Term::Sub(a, b) => {
            lemma_close_empty(*a);
            lemma_close_empty(*b);
        },
        Term::If(a, b, c, d) => {
            lemma_close_empty(*a);
            lemma_close_empty(*b);
            lemma_close_empty(*c);
            lemma_close_empty(*d);
        },
        Term::App(a, b) => {
            lemma_close_empty(*a);
            lemma_close_empty(*b);
        },
        Term::Fun(y, body) => {
            lemma_close_empty(*body);
            assert(Map::<Name, Term>::empty().remove(y) =~= Map::empty());
        },
    }
}

/// Closing a term with closed terms leaves free exactly the names that `sigma` does not bind.
pub proof fn lemma_close_free_vars(t: Term, sigma: Map<Name, Term>)
    requires
        closed_terms(sigma),
    ensures
        close(t, sigma).free_vars() =~= t.free_vars().difference(sigma.dom()),
    decreases t,
{
    match t {
        Term::Int(_) => {},
        Term::Var(_) => {},
        Term::Sub(a, b) => {
            lemma_close_free_vars(*a, sigma);
            lemma_close_free_vars(*b, sigma);
        },
        Term::If(a, b, c, d) => {
            lemma_close_free_vars(*a, sigma);
            lemma_close_free_vars(*b, sigma);
            lemma_close_free_vars(*c, sigma);
            lemma_close_free_vars(*d, sigma);
        },
        Term::App(a, b) => {
            lemma_close_free_vars(*a, sigma);
            lemma_close_free_vars(*b, sigma);
        },
        Term::Fun(y, body) => {
            lemma_close_free_vars(*body, sigma.remove(y));
        },
    }
}

/// Closing with all bindings but that of `x`, and then substituting `w` for
/// `x`, is closing with `x` bound to `w`.
pub proof fn lemma_close_subst(t: Term, sigma: Map<Name, Term>, x: Name, w: Term)
    requires
        closed_terms(sigma),
    ensures
        close(t, sigma.remove(x)).subst(x, w) == close(t, sigma.insert(x, w)),
    decreases t,
{
    match t {
        Term::Int(_) => {},
        Term::Var(y) => {
            if y != x && sigma.contains_key(y) {
                lemma_subst_fresh(sigma[y], x, w);
            }
        },
        Term::Sub(a, b) => {
            lemma_close_subst(*a, sigma, x, w);
            lemma_close_subst(*b, sigma, x, w);
        },
        Term::If(a, b, c, d) => {
            lemma_close_subst(*a, sigma, x, w);
            lemma_close_subst(*b, sigma, x, w);
            lemma_close_subst(*c, sigma, x, w);
            lemma_close_subst(*d, sigma, x, w);
        },
        Term::App(a, b) => {
            lemma_close_subst(*a, sigma, x, w);
            lemma_close_subst(*b, sigma, x, w);
        },
        Term::Fun(y, body) => {
            if y == x {
                assert(sigma.remove(x).remove(y) =~= sigma.insert(x, w).remove(y));
            } else {
                let rest = sigma.remove(y);
                lemma_close_subst(*body, rest, x, w);
                assert(sigma.remove(x).remove(y) =~= rest.remove(x));
                assert(sigma.insert(x, w).remove(y) =~= rest.insert(x, w));
            }
        },
    }
}

/// A sound value reads back as a closed normal form.
pub proof fn lemma_reify_closed(v: Val)
    requires
        sound(v),
    ensures
        reify(v).closed(),
        reify(v).is_value(),
    decreases v,
{
    match v {
        Val::Int(_) => {},
        Val::Closure(x, body, env) => {
            lemma_reify_env_closed(env);
            let sigma = reify_env(env).remove(x);
            lemma_close_free_vars(body, sigma);
        },
    }
}

/// A sound environment reads back as bindings to closed terms.
pub proof fn lemma_reify_env_closed(env: Map<Name, Val>)
    requires
        sound_env(env),
    ensures
        closed_terms(reify_env(env)),
        reify_env(env).dom() == env.dom(),
    decreases env,
{
    assert forall|name: Name| reify_env(env).contains_key(name) implies (#[trigger] reify_env(
        env,
    )[name]).closed() by {
        lemma_reify_closed(env[name]);
    }
}

/// Reading back commutes with binding one more name: the two maps have
/// the same names and agree on each.
pub proof fn lemma_reify_env_insert(env: Map<Name, Val>, x: Name, v: Val)
    requires
        env.dom().finite(),
    ensures
        reify_env(env.insert(x, v)) == reify_env(env).insert(x, reify(v)),
{
}

/// The two results correspond: both are wanting, both are failures, or
/// the one is a sound value and the other the term it reads back as.
pub open spec fn corresponds(
    by_closure: Option<Result<Val, ()>>,
    by_substitution: Option<Result<Term, ()>>,
) -> bool {
    match by_closure {
        None => by_substitution is None,
        Some(Err(_)) => by_substitution == Some(Err::<Term, ()>(())),
        Some(Ok(v)) => sound(v) && by_substitution == Some(Ok::<Term, ()>(reify(v))),
    }
}

/// Within every depth, evaluating `t` under a sound environment that
/// binds its free names corresponds to evaluating, by substitution, `t`
/// closed with what the environment reads back as.
pub proof fn lemma_simulation(t: Term, env: Map<Name, Val>, depth: nat)
    requires
        sound_env(env),
        t.free_vars().subset_of(env.dom()),
    ensures
        corresponds(run(t, env, depth), reduce(close(t, reify_env(env)), depth)),
    decreases depth,
{
    if depth == 0 {
        return ;
    }
    let d = (depth - 1) as nat;
    lemma_reify_env_closed(env);
    match t {
        Term::Int(_) => {},
        Term::Var(x) => {
            // The name is bound, and what it reads back as is a value.
            lemma_reify_closed(env[x]);
        },
        Term::Fun(_, _) => {},
        Term::Sub(a, b) => {
            lemma_simulation(*a, env, d);
            lemma_simulation(*b, env, d);
        },
        Term::If(a, b, c, e) => {
            lemma_simulation(*a, env, d);
            lemma_simulation(*b, env, d);
            lemma_simulation(*c, env, d);
            lemma_simulation(*e, env, d);
        },
        Term::App(a, b) => {
            lemma_simulation(*a, env, d);
            lemma_simulation(*b, env, d);
            if let Some(Ok(Val::Closure(x, body, captured))) = run(*a, env, d) {
                if let Some(Ok(v)) = run(*b, env, d) {
                    // The body under the extended bindings corresponds to the
                    // body closed with them, which is the closed body of the
                    // function literal with the argument substituted.
                    let extended = captured.insert(x, v);
                    lemma_simulation(body, extended, d);
                    lemma_reify_env_closed(captured);
                    lemma_reify_env_insert(captured, x, v);
                    lemma_close_subst(body, reify_env(captured), x, reify(v));
                }
            }
        },
    }
}

/// Within every depth, evaluating a closed term under no bindings
/// corresponds to evaluating it by substitution.
pub proof fn lemma_agree_within(t: Term, depth: nat)
    requires
        t.closed(),
    ensures
        corresponds(run(t, Map::empty(), depth), reduce(t, depth)),
{
    let empty = Map::<Name, Val>::empty();
    assert(reify_env(empty) =~= Map::<Name, Term>::empty());
    lemma_close_empty(t);
    lemma_simulation(t, empty, depth);
}

/// The two evaluators agree on every closed term: the evaluation by
/// substitution comes to an end exactly if the evaluation under no
/// bindings does; then both fail, or both yield a value, and the value of
/// the one is what the value of the other reads back as. In particular
/// the one yields an integer exactly if the other yields that integer.
pub proof fn theorem_evaluators_agree(t: Term)
    requires
        t.closed(),
    ensures
        crate::ast::terminates(t) <==> crate::ast_closure::terminates(t, Map::empty()),
        crate::ast::terminates(t) ==> corresponds(
            Some(crate::ast_closure::outcome(t, Map::empty())),
            Some(crate::ast::outcome(t)),
        ),
        crate::ast::terminates(t) ==> forall|n: i64|
            crate::ast::outcome(t) == Ok::<Term, ()>(Term::Int(n)) <==> crate::ast_closure::outcome(
                t,
                Map::empty(),
            ) == Ok::<Val, ()>(Val::Int(n)),
{
    let empty = Map::<Name, Val>::empty();
    if crate::ast::terminates(t) {
        let depth = choose|d: nat| reduce(t, d) is Some;
        lemma_agree_within(t, depth);
        crate::ast::lemma_outcome(t, depth);
        crate::ast_closure::lemma_outcome(t, empty, depth);
    }
    if crate::ast_closure::terminates(t, empty) {
        let depth = choose|d: nat| run(t, empty, d) is Some;
        lemma_agree_within(t, depth);
        crate::ast::lemma_outcome(t, depth);
        crate::ast_closure::lemma_outcome(t, empty, depth);
    }
}

} // verus!
