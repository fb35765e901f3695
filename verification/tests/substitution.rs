use lambda_eval::ast::{
    _app, _fun, _if, _int, _let, _negate, _plus, _sub, _var, eval, eval_bounded, subst, Expr,
};

fn omega() -> Expr {
    let half = || _fun("x", _app(_var("x"), _var("x")));
    _app(half(), half())
}

fn abs() -> Expr {
    _fun("x", _if(_var("x"), _int(0), _negate(_var("x")), _var("x")))
}

#[test]
fn integer_evaluates_to_itself() {
    assert_eq!(eval(_int(-7)), Ok(Expr::Int(-7)));
}

#[test]
fn function_literal_evaluates_to_itself() {
    let f = _fun("x", _sub(_var("x"), _var("free")));
    assert_eq!(eval(f.clone()), Ok(f));
}

#[test]
fn subtraction_of_integers() {
    assert_eq!(eval(_sub(_int(10), _int(4))), Ok(Expr::Int(6)));
    assert_eq!(eval(_sub(_int(4), _int(10))), Ok(Expr::Int(-6)));
    assert_eq!(eval(_sub(_int(0), _int(0))), Ok(Expr::Int(0)));
}

#[test]
fn subtraction_wraps_around() {
    assert_eq!(eval(_sub(_int(i64::MIN), _int(1))), Ok(Expr::Int(i64::MAX)));
    assert_eq!(eval(_sub(_int(i64::MAX), _int(-1))), Ok(Expr::Int(i64::MIN)));
    assert_eq!(eval(_sub(_int(0), _int(i64::MIN))), Ok(Expr::Int(i64::MIN)));
}

#[test]
fn subtraction_of_a_function_fails() {
    assert_eq!(eval(_sub(_fun("x", _var("x")), _int(1))), Err(()));
    assert_eq!(eval(_sub(_int(1), _fun("x", _var("x")))), Err(()));
}

#[test]
fn conditional_takes_third_operand_when_not_greater() {
    assert_eq!(eval(_if(_int(1), _int(2), _int(10), _int(20))), Ok(Expr::Int(10)));
}

#[test]
fn conditional_takes_third_operand_on_equality() {
    assert_eq!(eval(_if(_int(2), _int(2), _int(10), _int(20))), Ok(Expr::Int(10)));
}

#[test]
fn conditional_takes_fourth_operand_when_greater() {
    assert_eq!(eval(_if(_int(3), _int(2), _int(10), _int(20))), Ok(Expr::Int(20)));
}

#[test]
fn conditional_on_a_function_fails() {
    let f = || _fun("x", _var("x"));
    assert_eq!(eval(_if(f(), _int(2), _int(10), _int(20))), Err(()));
    assert_eq!(eval(_if(_int(2), f(), _int(10), _int(20))), Err(()));
}

#[test]
fn conditional_leaves_the_other_branch_alone() {
    assert_eq!(eval(_if(_int(1), _int(2), _int(10), _var("unbound"))), Ok(Expr::Int(10)));
    assert_eq!(eval(_if(_int(3), _int(2), _var("unbound"), _int(20))), Ok(Expr::Int(20)));
    assert_eq!(
        eval_bounded(_if(_int(1), _int(2), _int(10), omega()), 5),
        Some(Ok(Expr::Int(10)))
    );
}

#[test]
fn conditional_may_yield_a_function() {
    let f = _fun("x", _var("x"));
    assert_eq!(eval(_if(_int(1), _int(2), f.clone(), _int(20))), Ok(f));
}

#[test]
fn identity_application_returns_its_argument() {
    assert_eq!(eval(_app(_fun("x", _var("x")), _int(7))), Ok(Expr::Int(7)));
    assert_eq!(eval(_app(_fun("x", _var("x")), _int(i64::MIN))), Ok(Expr::Int(i64::MIN)));
}

#[test]
fn application_of_an_integer_fails() {
    assert_eq!(eval(_app(_int(1), _int(2))), Err(()));
}

#[test]
fn application_with_a_failing_argument_fails() {
    assert_eq!(eval(_app(_fun("x", _int(1)), _var("unbound"))), Err(()));
}

#[test]
fn argument_may_be_a_function() {
    let apply_to_five = _fun("f", _app(_var("f"), _int(5)));
    let pred = _fun("n", _sub(_var("n"), _int(1)));
    assert_eq!(eval(_app(apply_to_five, pred)), Ok(Expr::Int(4)));
}

#[test]
fn inner_binding_shadows_outer() {
    let f = _fun("x", _fun("x", _var("x")));
    assert_eq!(eval(_app(_app(f, _int(1)), _int(2))), Ok(Expr::Int(2)));
}

#[test]
fn free_variable_fails() {
    assert_eq!(eval(_var("x")), Err(()));
}

#[test]
fn derived_let_binds_its_name() {
    let e = _let("x", _int(5), _sub(_var("x"), _int(2)));
    assert_eq!(eval(e), Ok(Expr::Int(3)));
}

#[test]
fn plus_of_one_and_two_is_three() {
    assert_eq!(eval(_plus(_int(1), _int(2))), Ok(Expr::Int(3)));
}

#[test]
fn derived_arithmetic_wraps_around() {
    assert_eq!(eval(_negate(_int(5))), Ok(Expr::Int(-5)));
    assert_eq!(eval(_negate(_int(i64::MIN))), Ok(Expr::Int(i64::MIN)));
    assert_eq!(eval(_plus(_int(i64::MAX), _int(1))), Ok(Expr::Int(i64::MIN)));
    assert_eq!(eval(_plus(_int(i64::MIN), _int(-1))), Ok(Expr::Int(i64::MAX)));
    assert_eq!(eval(_plus(_int(7), _int(i64::MIN))), Ok(Expr::Int(i64::MIN + 7)));
}

#[test]
fn abs_of_minus_forty_two() {
    assert_eq!(eval(_app(abs(), _int(-42))), Ok(Expr::Int(42)));
    assert_eq!(eval(_app(abs(), _int(42))), Ok(Expr::Int(42)));
    let bound = _let("abs", abs(), _app(_var("abs"), _int(-42)));
    assert_eq!(eval(bound), Ok(Expr::Int(42)));
}

#[test]
fn builders_build_the_tree_they_name() {
    assert_eq!(_int(3), Expr::Int(3));
    assert_eq!(_var("a"), Expr::Var("a".to_string()));
    assert_eq!(
        _sub(_int(1), _int(2)),
        Expr::Sub(Box::new(Expr::Int(1)), Box::new(Expr::Int(2)))
    );
    assert_eq!(
        _if(_int(1), _int(2), _int(3), _int(4)),
        Expr::If(
            Box::new(Expr::Int(1)),
            Box::new(Expr::Int(2)),
            Box::new(Expr::Int(3)),
            Box::new(Expr::Int(4))
        )
    );
    assert_eq!(
        _app(_var("f"), _int(2)),
        Expr::App(Box::new(Expr::Var("f".to_string())), Box::new(Expr::Int(2)))
    );
    assert_eq!(
        _fun("x", _int(2)),
        Expr::Fun("x".to_string(), Box::new(Expr::Int(2)))
    );
}

#[test]
fn derived_builders_expand_as_defined() {
    assert_eq!(_negate(_var("a")), _sub(_int(0), _var("a")));
    assert_eq!(_plus(_var("a"), _var("b")), _sub(_var("a"), _sub(_int(0), _var("b"))));
    assert_eq!(
        _let("x", _var("a"), _var("b")),
        _app(_fun("x", _var("b")), _var("a"))
    );
}

#[test]
fn clone_copies_the_whole_tree() {
    let e = _let("x", _int(5), _if(_var("x"), _int(0), _negate(_var("x")), _var("x")));
    assert_eq!(e.clone(), e);
}

#[test]
fn subst_replaces_free_occurrences() {
    let e = _sub(_var("x"), _if(_var("x"), _var("y"), _app(_var("x"), _int(1)), _int(2)));
    let expected = _sub(_int(9), _if(_int(9), _var("y"), _app(_int(9), _int(1)), _int(2)));
    assert_eq!(subst(e, "x".to_string(), _int(9)), Ok(expected));
}

#[test]
fn subst_leaves_other_names_and_integers() {
    assert_eq!(subst(_var("y"), "x".to_string(), _int(9)), Ok(_var("y")));
    assert_eq!(subst(_int(3), "x".to_string(), _int(9)), Ok(_int(3)));
}

#[test]
fn subst_stops_at_a_binder_of_the_same_name() {
    let f = _fun("x", _sub(_var("x"), _int(1)));
    assert_eq!(subst(f.clone(), "x".to_string(), _int(9)), Ok(f));
}

#[test]
fn subst_goes_under_a_binder_of_another_name() {
    let f = _fun("y", _sub(_var("x"), _var("y")));
    let expected = _fun("y", _sub(_int(9), _var("y")));
    assert_eq!(subst(f, "x".to_string(), _int(9)), Ok(expected));
}

#[test]
fn subst_does_not_rename_bound_names() {
    let f = _fun("y", _var("x"));
    let captured = _fun("y", _var("y"));
    assert_eq!(subst(f, "x".to_string(), _var("y")), Ok(captured));
}

#[test]
fn bounded_evaluation_counts_nested_evaluations() {
    assert_eq!(eval_bounded(_int(1), 0), None);
    assert_eq!(eval_bounded(_int(1), 1), Some(Ok(Expr::Int(1))));
    assert_eq!(eval_bounded(_sub(_int(3), _int(1)), 1), None);
    assert_eq!(eval_bounded(_sub(_int(3), _int(1)), 2), Some(Ok(Expr::Int(2))));
    assert_eq!(eval_bounded(_plus(_int(1), _int(2)), 2), None);
    assert_eq!(eval_bounded(_plus(_int(1), _int(2)), 3), Some(Ok(Expr::Int(3))));
    assert_eq!(eval_bounded(_var("x"), 1), Some(Err(())));
}

#[test]
fn bounded_evaluation_gives_up_on_a_loop() {
    assert_eq!(eval_bounded(omega(), 0), None);
    assert_eq!(eval_bounded(omega(), 1), None);
    assert_eq!(eval_bounded(omega(), 200), None);
}

#[test]
fn failure_of_the_first_operand_comes_before_the_second() {
    let f = || _fun("x", _var("x"));
    assert_eq!(eval_bounded(_sub(f(), omega()), 2), Some(Err(())));
    assert_eq!(eval_bounded(_if(f(), omega(), _int(1), _int(2)), 2), Some(Err(())));
    assert_eq!(eval_bounded(_app(_int(1), omega()), 2), Some(Err(())));
}

#[test]
fn bounded_evaluation_agrees_with_evaluation() {
    let e = || _let("abs", abs(), _app(_var("abs"), _int(-42)));
    assert_eq!(eval_bounded(e(), 50), Some(eval(e())));
}
