//! The evaluator that works against an environment and turns function
//! literals into closures.

use vstd::prelude::*;

pub use self::Value::{VClosure, VInt};
pub use crate::ast::Expr;
use crate::term::{wrapping_difference, Name, Term, Val};

verus! {

/// What an expression evaluates to.
#[derive(Debug)]
pub enum Value {
    /// An integer.
    VInt(i64),
    /// A function literal's parameter and body, with a copy of the
    /// environment in which the literal was evaluated.
    VClosure(String, Expr, Env),
}

/// A finite mapping from variable names to values.
///
/// The bindings are kept in the order in which their names were first
/// bound, and no name is bound twice.
#[derive(Debug)]
pub struct Env {
    bindings: Vec<(String, Value)>,
}

/// The mapping that a sequence of bindings stands for; of two bindings of
/// one name the later counts.
spec fn bindings_model(s: Seq<(String, Value)>) -> Map<Name, Val>
    decreases s,
{
    if s.len() == 0 {
        Map::empty()
    } else {
        bindings_model(s.drop_last()).insert(s.last().0@, s.last().1.model())
    }
}

impl Value {
    /// The mathematical value that this value stands for.
    pub open spec fn model(self) -> Val
        decreases self,
    {
        match self {
            Value::VInt(i) => Val::Int(i),
            Value::VClosure(x, body, env) => Val::Closure(x@, body@, env.model()),
        }
    }
}

impl Env {
    /// The mapping that this environment stands for.
    pub closed spec fn model(self) -> Map<Name, Val>
        decreases self,
    {
        bindings_model(self.bindings@)
    }
}

impl View for Value {
    type V = Val;

    open spec fn view(&self) -> Val {
        self.model()
    }
}

impl View for Env {
    type V = Map<Name, Val>;

    open spec fn view(&self) -> Map<Name, Val> {
        self.model()
    }
}

/// No name is bound twice.
spec fn distinct_names(s: Seq<(String, Value)>) -> bool {
    forall|i: int, j: int| 0 <= i < j < s.len() ==> s[i].0@ != s[j].0@
}

/// A name that no binding has is not in the mapping.
proof fn lemma_model_absent(s: Seq<(String, Value)>, name: Name)
    requires
        forall|i: int| 0 <= i < s.len() ==> s[i].0@ != name,
    ensures
        !bindings_model(s).contains_key(name),
    decreases s.len(),
{
    if s.len() > 0 {
        lemma_model_absent(s.drop_last(), name);
    }
}

/// Where no name is bound twice, each binding is in the mapping.
proof fn lemma_model_found(s: Seq<(String, Value)>, i: int)
    requires
        distinct_names(s),
        0 <= i < s.len(),
    ensures
        bindings_model(s).contains_key(s[i].0@),
        bindings_model(s)[s[i].0@] == s[i].1.model(),
    decreases s.len(),
{
    if i < s.len() - 1 {
        lemma_model_found(s.drop_last(), i);
    }
}

/// Replacing the value of a bound name updates the mapping at that name.
proof fn lemma_model_update(s: Seq<(String, Value)>, i: int, binding: (String, Value))
    requires
        distinct_names(s),
        0 <= i < s.len(),
        s[i].0@ == binding.0@,
    ensures
        distinct_names(s.update(i, binding)),
        bindings_model(s.update(i, binding)) == bindings_model(s).insert(
            binding.0@,
            binding.1.model(),
        ),
    decreases s.len(),
{
    let t = s.update(i, binding);
    if i == s.len() - 1 {
        assert(t.drop_last() == s.drop_last());
    } else {
        lemma_model_update(s.drop_last(), i, binding);
        assert(t.drop_last() == s.drop_last().update(i, binding));
    }
}

/// Sequences of bindings that agree in the names and in what the values
/// stand for, stand for the same mapping.
proof fn lemma_model_agrees(s: Seq<(String, Value)>, t: Seq<(String, Value)>)
    requires
        s.len() == t.len(),
        forall|i: int| 0 <= i < s.len() ==> s[i].0@ == t[i].0@ && s[i].1.model() == t[i].1.model(),
    ensures
        bindings_model(s) == bindings_model(t),
    decreases s.len(),
{
    if s.len() > 0 {
        lemma_model_agrees(s.drop_last(), t.drop_last());
    }
}

impl Env {
    #[verifier::type_invariant]
    spec fn well_formed(self) -> bool {
        distinct_names(self.bindings@)
    }

    /// The environment that binds no name.
    pub fn new() -> (env: Env)
        ensures
            env@ == Map::<Name, Val>::empty(),
    {
        Env { bindings: Vec::new() }
    }

    /// The value that `name` is bound to, if it is bound.
    pub fn get(&self, name: &String) -> (found: Option<&Value>)
        ensures
            match found {
                Some(value) => self@.contains_key(name@) && self@[name@] == value@,
                None => !self@.contains_key(name@),
            },
    {
        proof {
            use_type_invariant(self);
        }
        let mut i: usize = 0;
        while i < self.bindings.len()
            invariant
                i <= self.bindings.len(),
                distinct_names(self.bindings@),
                forall|j: int| 0 <= j < i ==> self.bindings@[j].0@ != name@,
            decreases self.bindings.len() - i,
        {
            if self.bindings[i].0 == *name {
                proof {
                    lemma_model_found(self.bindings@, i as int);
                }
                return Some(&self.bindings[i].1);
            }
            i += 1;
        }
        proof {
            lemma_model_absent(self.bindings@, name@);
        }
        None
    }

    /// Binds `name` to `value`, in place of what `name` was bound to before.
    pub fn insert(&mut self, name: String, value: Value)
        ensures
            final(self)@ == old(self)@.insert(name@, value@),
    {
        proof {
            use_type_invariant(&*self);
        }
        let mut bindings: Vec<(String, Value)> = Vec::new();
        std::mem::swap(&mut bindings, &mut self.bindings);
        let ghost before = bindings@;
        let mut i: usize = 0;
        while i < bindings.len()
            invariant
                i <= bindings.len(),
                bindings@ == before,
                before == old(self).bindings@,
                distinct_names(before),
                forall|j: int| 0 <= j < i ==> before[j].0@ != name@,
            decreases bindings.len() - i,
        {
            if bindings[i].0 == name {
                proof {
                    lemma_model_update(before, i as int, (name, value));
                }
                bindings.set(i, (name, value));
                self.bindings = bindings;
                return ;
            }
            i += 1;
        }
        proof {
            assert(before.push((name, value)).drop_last() == before);
        }
        bindings.push((name, value));
        self.bindings = bindings;
    }
}

impl Clone for Value {
    /// A deep copy, which stands for the same mathematical value.
    fn clone(&self) -> (copy: Self)
        ensures
            copy@ == self@,
        decreases self,
    {
        match self {
            Value::VInt(i) => Value::VInt(*i),
            Value::VClosure(x, body, env) => Value::VClosure(x.clone(), body.clone(), env.clone()),
        }
    }
}

impl Clone for Env {
    /// A deep copy, which stands for the same mapping.
    fn clone(&self) -> (copy: Self)
        ensures
            copy@ == self@,
        decreases self,
    {
        proof {
            use_type_invariant(self);
        }
        let mut bindings: Vec<(String, Value)> = Vec::new();
        let mut i: usize = 0;
        while i < self.bindings.len()
            invariant
                i <= self.bindings.len(),
                bindings@.len() == i,
                forall|j: int|
                    0 <= j < i ==> bindings@[j].0@ == self.bindings@[j].0@ && bindings@[j].1.model()
                        == self.bindings@[j].1.model(),
            decreases self.bindings.len() - i,
        {
            let name = self.bindings[i].0.clone();
            let value = self.bindings[i].1.clone();
            bindings.push((name, value));
            i += 1;
        }
        proof {
            lemma_model_agrees(bindings@, self.bindings@);
        }
        Env { bindings }
    }
}

/// The result of evaluating `t` under the bindings `env`, as far as it can
/// be had with at most `depth` evaluations nested in one another.
///
/// `None` says that the depth did not suffice; `Some(Err(()))` that the
/// evaluation fails; `Some(Ok(v))` that it yields the value `v`.
pub open spec fn run(t: Term, env: Map<Name, Val>, depth: nat) -> Option<Result<Val, ()>>
    decreases depth,
{
    if depth == 0 {
        None
    } else {
        let d = (depth - 1) as nat;
        match t {
            Term::Int(i) => Some(Ok(Val::Int(i))),
            Term::Var(x) => if env.contains_key(x) {
                Some(Ok(env[x]))
            } else {
                Some(Err(()))
            },
            Term::Fun(x, body) => Some(Ok(Val::Closure(x, *body, env))),
            Term::Sub(a, b) => match run(*a, env, d) {
                None => None,
                Some(Ok(Val::Int(i))) => match run(*b, env, d) {
                    None => None,
                    Some(Ok(Val::Int(j))) => Some(Ok(Val::Int(wrapping_difference(i, j)))),
                    Some(_) => Some(Err(())),
                },
                Some(_) => Some(Err(())),
            },
            Term::If(a, b, c, e) => match run(*a, env, d) {
                None => None,
                Some(Ok(Val::Int(i))) => match run(*b, env, d) {
                    None => None,
                    Some(Ok(Val::Int(j))) => if i <= j {
                        run(*c, env, d)
                    } else {
                        run(*e, env, d)
                    },
                    Some(_) => Some(Err(())),
                },
                Some(_) => Some(Err(())),
            },
            Term::App(a, b) => match run(*a, env, d) {
                None => None,
                Some(Ok(Val::Closure(x, body, captured))) => match run(*b, env, d) {
                    None => None,
                    Some(Ok(v)) => run(body, captured.insert(x, v), d),
                    Some(Err(_)) => Some(Err(())),
                },
                Some(_) => Some(Err(())),
            },
        }
    }
}

/// Evaluation of `t` under `env` comes to an end, in a value or in a failure.
pub open spec fn terminates(t: Term, env: Map<Name, Val>) -> bool {
    exists|depth: nat| run(t, env, depth) is Some
}

/// What evaluation of `t` under `env` ends in, where it terminates.
pub open spec fn outcome(t: Term, env: Map<Name, Val>) -> Result<Val, ()> {
    run(t, env, choose|depth: nat| run(t, env, depth) is Some)->Some_0
}

/// The model of an evaluation result.
pub open spec fn result_model(r: Result<Value, ()>) -> Result<Val, ()> {
    match r {
        Ok(v) => Ok(v@),
        Err(_) => Err(()),
    }
}

/// A result that was reached within some depth is reached within every greater depth.
pub proof fn lemma_run_monotonic(t: Term, env: Map<Name, Val>, depth: nat, more: nat)
    requires
        run(t, env, depth) is Some,
        depth <= more,
    ensures
        run(t, env, more) == run(t, env, depth),
    decreases depth,
{
    let d = (depth - 1) as nat;
    let m = (more - 1) as nat;
    match t {
        Term::Int(_) => {},
        Term::Fun(_, _) => {},
        Term::Var(_) => {},
        Term::Sub(a, b) => {
            lemma_run_monotonic(*a, env, d, m);
            if let Some(Ok(Val::Int(_))) = run(*a, env, d) {
                lemma_run_monotonic(*b, env, d, m);
            }
        },
        Term::If(a, b, c, e) => {
            lemma_run_monotonic(*a, env, d, m);
            if let Some(Ok(Val::Int(i))) = run(*a, env, d) {
                lemma_run_monotonic(*b, env, d, m);
                if let Some(Ok(Val::Int(j))) = run(*b, env, d) {
                    if i <= j {
                        lemma_run_monotonic(*c, env, d, m);
                    } else {
                        lemma_run_monotonic(*e, env, d, m);
                    }
                }
            }
        },
        Term::App(a, b) => {
            lemma_run_monotonic(*a, env, d, m);
            if let Some(Ok(Val::Closure(x, body, captured))) = run(*a, env, d) {
                lemma_run_monotonic(*b, env, d, m);
                if let Some(Ok(v)) = run(*b, env, d) {
                    lemma_run_monotonic(body, captured.insert(x, v), d, m);
                }
            }
        },
    }
}

/// Whatever depth an evaluation was completed in, its result is the outcome.
pub proof fn lemma_outcome(t: Term, env: Map<Name, Val>, depth: nat)
    requires
        run(t, env, depth) is Some,
    ensures
        terminates(t, env),
        run(t, env, depth) == Some(outcome(t, env)),
{
    let chosen = choose|d: nat| run(t, env, d) is Some;
    if chosen <= depth {
        lemma_run_monotonic(t, env, chosen, depth);
    } else {
        lemma_run_monotonic(t, env, depth, chosen);
    }
}

/// Evaluates `expr` under the bindings of `env`.
///
/// An integer evaluates to itself, a variable to what `env` binds it to,
/// and a function literal to a closure that captures `env`. An application
/// evaluates the closure's body under the captured bindings extended by the
/// parameter, bound to the argument's value; `env` itself is not changed.
/// A subtraction or a conditional whose operand is no integer, an
/// application of what is no closure, and a variable that `env` does not
/// bind, fail. The evaluation of `expr` has to come to an end.
pub fn eval(expr: Expr, env: Env) -> (r: Result<Value, ()>)
    requires
        terminates(expr@, env@),
    ensures
        result_model(r) == outcome(expr@, env@),
{
    let ghost depth = choose|d: nat| run(expr@, env@, d) is Some;
    proof {
        lemma_outcome(expr@, env@, depth);
    }
    eval_within(expr, env, Ghost(depth))
}

/// Evaluates `expr` under `env`, given a depth that its evaluation is known to stay within.
fn eval_within(expr: Expr, env: Env, Ghost(depth): Ghost<nat>) -> (r: Result<Value, ()>)
    requires
        run(expr@, env@, depth) is Some,
    ensures
        run(expr@, env@, depth) == Some(result_model(r)),
    decreases depth,
{
    let ghost d = (depth - 1) as nat;
    match expr {
        Expr::Int(i) => Ok(Value::VInt(i)),
        Expr::Var(x) => match env.get(&x) {
            Some(value) => Ok(value.clone()),
            None => Err(()),
        },
        Expr::Sub(e1, e2) => {
            let i = match eval_within(*e1, env.clone(), Ghost(d)) {
                Ok(Value::VInt(x)) => x,
                _ => return Err(()),
            };
            let j = match eval_within(*e2, env.clone(), Ghost(d)) {
                Ok(Value::VInt(x)) => x,
                _ => return Err(()),
            };
            Ok(Value::VInt(i.wrapping_sub(j)))
        },
        Expr::If(e1, e2, e3, e4) => {
            let i = match eval_within(*e1, env.clone(), Ghost(d)) {
                Ok(Value::VInt(x)) => x,
                _ => return Err(()),
            };
            let j = match eval_within(*e2, env.clone(), Ghost(d)) {
                Ok(Value::VInt(x)) => x,
                _ => return Err(()),
            };
            if i <= j {
                eval_within(*e3, env.clone(), Ghost(d))
            } else {
                eval_within(*e4, env.clone(), Ghost(d))
            }
        },
        Expr::Fun(x, e) => Ok(Value::VClosure(x, *e, env)),
        Expr::App(e1, e2) => {
            let (x, e, mut captured) = match eval_within(*e1, env.clone(), Ghost(d)) {
                Ok(Value::VClosure(x, e, captured)) => (x, e, captured),
                _ => return Err(()),
            };
            let v = match eval_within(*e2, env.clone(), Ghost(d)) {
                Ok(v) => v,
                Err(_) => return Err(()),
            };
            captured.insert(x, v);
            eval_within(e, captured, Ghost(d))
        },
    }
}

/// The model of what a bounded evaluation returns.
pub open spec fn bounded_model(r: Option<Result<Value, ()>>) -> Option<Result<Val, ()>> {
    match r {
        Some(result) => Some(result_model(result)),
        None => None,
    }
}

/// Evaluates `expr` under `env` with at most `depth` evaluations nested in
/// one another, for callers that do not know whether the evaluation comes
/// to an end.
///
/// Returns `None` where the depth does not suffice, and otherwise what
/// [`eval`] returns.
pub fn eval_bounded(expr: Expr, env: Env, depth: usize) -> (r: Option<Result<Value, ()>>)
    ensures
        bounded_model(r) == run(expr@, env@, depth as nat),
    decreases depth,
{
    if depth == 0 {
        return None;
    }
    let d = depth - 1;
    match expr {
        Expr::Int(i) => Some(Ok(Value::VInt(i))),
        Expr::Var(x) => match env.get(&x) {
            Some(value) => Some(Ok(value.clone())),
            None => Some(Err(())),
        },
        Expr::Sub(e1, e2) => {
            let i = match eval_bounded(*e1, env.clone(), d) {
                None => return None,
                Some(Ok(Value::VInt(x))) => x,
                Some(_) => return Some(Err(())),
            };
            let j = match eval_bounded(*e2, env.clone(), d) {
                None => return None,
                Some(Ok(Value::VInt(x))) => x,
                Some(_) => return Some(Err(())),
            };
            Some(Ok(Value::VInt(i.wrapping_sub(j))))
        },
        Expr::If(e1, e2, e3, e4) => {
            let i = match eval_bounded(*e1, env.clone(), d) {
                None => return None,
                Some(Ok(Value::VInt(x))) => x,
                Some(_) => return Some(Err(())),
            };
            let j = match eval_bounded(*e2, env.clone(), d) {
                None => return None,
                Some(Ok(Value::VInt(x))) => x,
                Some(_) => return Some(Err(())),
            };
            if i <= j {
                eval_bounded(*e3, env.clone(), d)
            } else {
                eval_bounded(*e4, env.clone(), d)
            }
        },
        Expr::Fun(x, e) => Some(Ok(Value::VClosure(x, *e, env))),
        Expr::App(e1, e2) => {
            let (x, e, mut captured) = match eval_bounded(*e1, env.clone(), d) {
                None => return None,
                Some(Ok(Value::VClosure(x, e, captured))) => (x, e, captured),
                Some(_) => return Some(Err(())),
            };
            let v = match eval_bounded(*e2, env.clone(), d) {
                None => return None,
                Some(Ok(v)) => v,
                Some(Err(_)) => return Some(Err(())),
            };
            captured.insert(x, v);
            eval_bounded(e, captured, d)
        },
    }
}

} // verus!
