use lambda_eval::ast::{_app, _fun, _if, _int, _let, _negate, _plus, _sub, _var};
use lambda_eval::ast_closure::{eval, eval_bounded, Env, Expr, Value};

fn omega() -> Expr {
    let half = || _fun("x", _app(_var("x"), _var("x")));
    _app(half(), half())
}

fn abs() -> Expr {
    _fun("x", _if(_var("x"), _int(0), _negate(_var("x")), _var("x")))
}

fn int_of(r: Result<Value, ()>) -> Option<i64> {
    match r {
        Ok(Value::VInt(i)) => Some(i),
        _ => None,
    }
}

#[test]
fn closure_integer_evaluates_to_itself() {
    assert!(matches!(eval(_int(-7), Env::new()), Ok(Value::VInt(-7))));
}

#[test]
fn closure_variable_is_looked_up() {
    let mut env = Env::new();
    env.insert("x".to_string(), Value::VInt(11));
    assert_eq!(int_of(eval(_var("x"), env)), Some(11));
}

#[test]
fn closure_free_variable_fails() {
    assert!(eval(_var("x"), Env::new()).is_err());
    let mut env = Env::new();
    env.insert("y".to_string(), Value::VInt(11));
    assert!(eval(_var("x"), env).is_err());
}

#[test]
fn closure_function_literal_captures_the_environment() {
    let mut env = Env::new();
    env.insert("a".to_string(), Value::VInt(1));
    match eval(_fun("x", _var("a")), env) {
        Ok(Value::VClosure(x, body, captured)) => {
            assert_eq!(x, "x");
            assert_eq!(body, _var("a"));
            assert!(matches!(captured.get(&"a".to_string()), Some(Value::VInt(1))));
            assert!(captured.get(&"x".to_string()).is_none());
        }
        _ => panic!("a function literal evaluates to a closure"),
    }
}

#[test]
fn closure_subtraction_of_integers() {
    assert_eq!(int_of(eval(_sub(_int(10), _int(4)), Env::new())), Some(6));
    assert_eq!(int_of(eval(_sub(_int(4), _int(10)), Env::new())), Some(-6));
}

#[test]
fn closure_subtraction_wraps_around() {
    assert_eq!(int_of(eval(_sub(_int(i64::MIN), _int(1)), Env::new())), Some(i64::MAX));
    assert_eq!(int_of(eval(_sub(_int(i64::MAX), _int(-1)), Env::new())), Some(i64::MIN));
}

#[test]
fn closure_subtraction_of_a_function_fails() {
    assert!(eval(_sub(_fun("x", _var("x")), _int(1)), Env::new()).is_err());
    assert!(eval(_sub(_int(1), _fun("x", _var("x"))), Env::new()).is_err());
}

#[test]
fn closure_conditional_compares_its_first_two_operands() {
    assert_eq!(int_of(eval(_if(_int(1), _int(2), _int(10), _int(20)), Env::new())), Some(10));
    assert_eq!(int_of(eval(_if(_int(2), _int(2), _int(10), _int(20)), Env::new())), Some(10));
    assert_eq!(int_of(eval(_if(_int(3), _int(2), _int(10), _int(20)), Env::new())), Some(20));
}

#[test]
fn closure_conditional_on_a_function_fails() {
    let f = || _fun("x", _var("x"));
    assert!(eval(_if(f(), _int(2), _int(10), _int(20)), Env::new()).is_err());
    assert!(eval(_if(_int(2), f(), _int(10), _int(20)), Env::new()).is_err());
}

#[test]
fn closure_conditional_leaves_the_other_branch_alone() {
    let e = _if(_int(1), _int(2), _int(10), _var("unbound"));
    assert_eq!(int_of(eval(e, Env::new())), Some(10));
    let looping = eval_bounded(_if(_int(3), _int(2), omega(), _int(20)), Env::new(), 5);
    assert!(matches!(looping, Some(Ok(Value::VInt(20)))));
}

#[test]
fn closure_identity_application_returns_its_argument() {
    assert_eq!(int_of(eval(_app(_fun("x", _var("x")), _int(7)), Env::new())), Some(7));
}

#[test]
fn closure_application_of_an_integer_fails() {
    assert!(eval(_app(_int(1), _int(2)), Env::new()).is_err());
}

#[test]
fn closure_application_with_a_failing_argument_fails() {
    assert!(eval(_app(_fun("x", _int(1)), _var("unbound")), Env::new()).is_err());
}

#[test]
fn closure_argument_may_be_a_function() {
    let apply_to_five = _fun("f", _app(_var("f"), _int(5)));
    let pred = _fun("n", _sub(_var("n"), _int(1)));
    assert_eq!(int_of(eval(_app(apply_to_five, pred), Env::new())), Some(4));
}

#[test]
fn closure_inner_binding_shadows_outer() {
    let f = _fun("x", _fun("x", _var("x")));
    assert_eq!(int_of(eval(_app(_app(f, _int(1)), _int(2)), Env::new())), Some(2));
}

#[test]
fn closure_body_sees_the_bindings_of_its_definition() {
    let e = _let(
        "x",
        _int(1),
        _let("f", _fun("y", _var("x")), _let("x", _int(2), _app(_var("f"), _int(0)))),
    );
    assert_eq!(int_of(eval(e, Env::new())), Some(1));
}

#[test]
fn closure_body_does_not_see_the_bindings_of_its_call() {
    let f = _fun("y", _var("later"));
    let e = _let("f", f, _let("later", _int(2), _app(_var("f"), _int(0))));
    assert!(eval(e, Env::new()).is_err());
}

#[test]
fn closure_application_leaves_the_callers_bindings() {
    let e = _let(
        "x",
        _int(1),
        _sub(_app(_fun("x", _var("x")), _int(50)), _var("x")),
    );
    assert_eq!(int_of(eval(e, Env::new())), Some(49));
}

#[test]
fn closure_derived_let_binds_its_name() {
    let e = _let("x", _int(5), _sub(_var("x"), _int(2)));
    assert_eq!(int_of(eval(e, Env::new())), Some(3));
}

#[test]
fn closure_plus_of_one_and_two_is_three() {
    assert_eq!(int_of(eval(_plus(_int(1), _int(2)), Env::new())), Some(3));
}

#[test]
fn closure_derived_arithmetic_wraps_around() {
    assert_eq!(int_of(eval(_negate(_int(5)), Env::new())), Some(-5));
    assert_eq!(int_of(eval(_negate(_int(i64::MIN)), Env::new())), Some(i64::MIN));
    assert_eq!(int_of(eval(_plus(_int(i64::MAX), _int(1)), Env::new())), Some(i64::MIN));
    assert_eq!(int_of(eval(_plus(_int(7), _int(i64::MIN)), Env::new())), Some(i64::MIN + 7));
}

#[test]
fn closure_abs_of_minus_forty_two() {
    assert_eq!(int_of(eval(_app(abs(), _int(-42)), Env::new())), Some(42));
    let bound = _let("abs", abs(), _app(_var("abs"), _int(-42)));
    assert_eq!(int_of(eval(bound, Env::new())), Some(42));
}

#[test]
fn closure_bounded_evaluation_counts_nested_evaluations() {
    assert!(eval_bounded(_int(1), Env::new(), 0).is_none());
    assert!(matches!(eval_bounded(_int(1), Env::new(), 1), Some(Ok(Value::VInt(1)))));
    assert!(eval_bounded(_sub(_int(3), _int(1)), Env::new(), 1).is_none());
    assert!(matches!(
        eval_bounded(_sub(_int(3), _int(1)), Env::new(), 2),
        Some(Ok(Value::VInt(2)))
    ));
    assert!(matches!(eval_bounded(_var("x"), Env::new(), 1), Some(Err(()))));
}

#[test]
fn closure_bounded_evaluation_gives_up_on_a_loop() {
    assert!(eval_bounded(omega(), Env::new(), 0).is_none());
    assert!(eval_bounded(omega(), Env::new(), 200).is_none());
}

#[test]
fn closure_failure_of_the_first_operand_comes_before_the_second() {
    let f = || _fun("x", _var("x"));
    assert!(matches!(eval_bounded(_sub(f(), omega()), Env::new(), 2), Some(Err(()))));
    assert!(matches!(eval_bounded(_app(_int(1), omega()), Env::new(), 2), Some(Err(()))));
}

#[test]
fn value_clone_copies_the_captured_bindings() {
    let mut env = Env::new();
    env.insert("a".to_string(), Value::VInt(1));
    let closure = Value::VClosure("x".to_string(), _var("a"), env);
    match closure.clone() {
        Value::VClosure(x, body, captured) => {
            assert_eq!(x, "x");
            assert_eq!(body, _var("a"));
            assert!(matches!(captured.get(&"a".to_string()), Some(Value::VInt(1))));
        }
        _ => panic!("the copy of a closure is a closure"),
    }
    assert!(matches!(Value::VInt(3).clone(), Value::VInt(3)));
}
