use goth::eval::{eval, Evaluator};
use goth::error::EvalError;
use goth::expr::{BinOp, Expr, MatchArm};
use goth::literal::Literal;
use goth::pattern::Pattern;
use goth::value::{Env, Value};

fn float(x: f64) -> Value {
    Value::Float(x.to_bits())
}

fn float_expr(x: f64) -> Expr {
    Expr::float(x.to_bits())
}

#[test]
fn test_int_literal() {
    assert_eq!(eval(&Expr::integer(42)).unwrap(), Value::Int(42));
}

#[test]
fn test_float_literal() {
    assert_eq!(eval(&float_expr(3.14)).unwrap(), float(3.14));
}

#[test]
fn test_bool_literals() {
    assert_eq!(eval(&Expr::bool(true)).unwrap(), Value::Bool(true));
    assert_eq!(eval(&Expr::bool(false)).unwrap(), Value::Bool(false));
}

#[test]
fn test_addition() {
    assert_eq!(eval(&Expr::add(Expr::integer(2), Expr::integer(3))).unwrap(), Value::Int(5));
}

#[test]
fn test_subtraction() {
    assert_eq!(eval(&Expr::sub(Expr::integer(10), Expr::integer(4))).unwrap(), Value::Int(6));
}

#[test]
fn test_multiplication() {
    assert_eq!(eval(&Expr::mul(Expr::integer(6), Expr::integer(7))).unwrap(), Value::Int(42));
}

#[test]
fn test_division() {
    assert_eq!(eval(&Expr::div(Expr::integer(20), Expr::integer(4))).unwrap(), Value::Int(5));
}

#[test]
fn test_division_by_zero() {
    assert!(matches!(
        eval(&Expr::div(Expr::integer(1), Expr::integer(0))),
        Err(EvalError::DivisionByZero)
    ));
}

#[test]
fn test_nested_arithmetic() {
    let e = Expr::mul(
        Expr::add(Expr::integer(2), Expr::integer(3)),
        Expr::sub(Expr::integer(4), Expr::integer(1)),
    );
    assert_eq!(eval(&e).unwrap(), Value::Int(15));
}

#[test]
fn test_equality() {
    assert_eq!(
        eval(&Expr::binop(BinOp::Eq, Expr::integer(5), Expr::integer(5))).unwrap(),
        Value::Bool(true)
    );
    assert_eq!(
        eval(&Expr::binop(BinOp::Eq, Expr::integer(5), Expr::integer(6))).unwrap(),
        Value::Bool(false)
    );
}

#[test]
fn test_less_than() {
    assert_eq!(
        eval(&Expr::binop(BinOp::Lt, Expr::integer(3), Expr::integer(5))).unwrap(),
        Value::Bool(true)
    );
}

#[test]
fn test_logical_and() {
    assert_eq!(
        eval(&Expr::binop(BinOp::And, Expr::bool(true), Expr::bool(true))).unwrap(),
        Value::Bool(true)
    );
    assert_eq!(
        eval(&Expr::binop(BinOp::And, Expr::bool(true), Expr::bool(false))).unwrap(),
        Value::Bool(false)
    );
}

#[test]
fn test_logical_or() {
    assert_eq!(
        eval(&Expr::binop(BinOp::Or, Expr::bool(false), Expr::bool(true))).unwrap(),
        Value::Bool(true)
    );
}

#[test]
fn test_logical_short_circuit() {
    let failing = Expr::binop(
        BinOp::Eq,
        Expr::div(Expr::integer(1), Expr::integer(0)),
        Expr::integer(0),
    );
    assert_eq!(
        eval(&Expr::binop(BinOp::Or, Expr::bool(true), failing)).unwrap(),
        Value::Bool(true)
    );
}

#[test]
fn test_identity_function() {
    assert_eq!(
        eval(&Expr::app(Expr::lam(Expr::idx(0)), Expr::integer(42))).unwrap(),
        Value::Int(42)
    );
}

#[test]
fn test_constant_function() {
    let e = Expr::app(
        Expr::app(Expr::lam(Expr::lam(Expr::idx(1))), Expr::integer(1)),
        Expr::integer(2),
    );
    assert_eq!(eval(&e).unwrap(), Value::Int(1));
}

#[test]
fn test_add_function() {
    let add_fn = Expr::lam(Expr::lam(Expr::add(Expr::idx(1), Expr::idx(0))));
    assert_eq!(
        eval(&Expr::app(Expr::app(add_fn, Expr::integer(3)), Expr::integer(4))).unwrap(),
        Value::Int(7)
    );
}

#[test]
fn test_closure_capture() {
    let expr = Expr::let_(
        Pattern::var("x"),
        Expr::integer(10),
        Expr::app(Expr::lam(Expr::add(Expr::idx(0), Expr::idx(1))), Expr::integer(5)),
    );
    assert_eq!(eval(&expr).unwrap(), Value::Int(15));
}

#[test]
fn test_simple_let() {
    let expr = Expr::let_(
        Pattern::var("x"),
        Expr::integer(5),
        Expr::add(Expr::idx(0), Expr::integer(3)),
    );
    assert_eq!(eval(&expr).unwrap(), Value::Int(8));
}

#[test]
fn test_nested_let() {
    let expr = Expr::let_(
        Pattern::var("x"),
        Expr::integer(5),
        Expr::let_(
            Pattern::var("y"),
            Expr::integer(3),
            Expr::add(Expr::idx(1), Expr::idx(0)),
        ),
    );
    assert_eq!(eval(&expr).unwrap(), Value::Int(8));
}

#[test]
fn test_if_true() {
    assert_eq!(
        eval(&Expr::if_(Expr::bool(true), Expr::integer(1), Expr::integer(2))).unwrap(),
        Value::Int(1)
    );
}

#[test]
fn test_if_false() {
    assert_eq!(
        eval(&Expr::if_(Expr::bool(false), Expr::integer(1), Expr::integer(2))).unwrap(),
        Value::Int(2)
    );
}

#[test]
fn test_if_with_comparison() {
    let c = Expr::binop(BinOp::Lt, Expr::integer(3), Expr::integer(5));
    assert_eq!(
        eval(&Expr::if_(c, Expr::integer(1), Expr::integer(2))).unwrap(),
        Value::Int(1)
    );
}

fn literal_or_wildcard(scrutinee: i64) -> Expr {
    Expr::match_(
        Expr::integer(scrutinee),
        vec![
            MatchArm::new(Pattern::lit(Literal::Int(1)), Expr::integer(10)),
            MatchArm::new(Pattern::wildcard(), Expr::integer(20)),
        ],
    )
}

#[test]
fn test_match_literal() {
    assert_eq!(eval(&literal_or_wildcard(1)).unwrap(), Value::Int(10));
}

#[test]
fn test_match_wildcard() {
    assert_eq!(eval(&literal_or_wildcard(99)).unwrap(), Value::Int(20));
}

#[test]
fn test_match_tuple() {
    let expr = Expr::match_(
        Expr::tuple(vec![Expr::integer(1), Expr::integer(2)]),
        vec![MatchArm::new(
            Pattern::tuple(vec![Pattern::var("a"), Pattern::var("b")]),
            Expr::add(Expr::idx(1), Expr::idx(0)),
        )],
    );
    assert_eq!(eval(&expr).unwrap(), Value::Int(3));
}

#[test]
fn test_match_variant() {
    let expr = Expr::match_(
        Expr::variant("Some", Some(Expr::integer(5))),
        vec![
            MatchArm::new(Pattern::variant("None", None), Expr::integer(0)),
            MatchArm::new(Pattern::variant("Some", Some(Pattern::var("x"))), Expr::idx(0)),
        ],
    );
    assert_eq!(eval(&expr).unwrap(), Value::Int(5));
}

#[test]
fn test_array_literal() {
    let result =
        eval(&Expr::array(vec![Expr::integer(1), Expr::integer(2), Expr::integer(3)])).unwrap();
    match result {
        Value::Tensor(t) => {
            assert_eq!(t.shape, vec![3]);
            assert_eq!(t.get_flat(0), Some(Value::Int(1)));
        }
        _ => panic!("Expected tensor"),
    }
}

#[test]
fn test_array_sum() {
    let xs = Expr::array(vec![
        Expr::integer(1),
        Expr::integer(2),
        Expr::integer(3),
        Expr::integer(4),
    ]);
    assert_eq!(eval(&Expr::sum(xs)).unwrap(), Value::Int(10));
}

#[test]
fn test_array_map() {
    let expr = Expr::map(
        Expr::array(vec![Expr::integer(1), Expr::integer(2), Expr::integer(3)]),
        Expr::lam(Expr::mul(Expr::idx(0), Expr::integer(2))),
    );
    match eval(&expr).unwrap() {
        Value::Tensor(t) => {
            assert_eq!(t.get_flat(0), Some(Value::Int(2)));
            assert_eq!(t.get_flat(1), Some(Value::Int(4)));
            assert_eq!(t.get_flat(2), Some(Value::Int(6)));
        }
        _ => panic!("Expected tensor"),
    }
}

fn one_to_five() -> Expr {
    Expr::array(vec![
        Expr::integer(1),
        Expr::integer(2),
        Expr::integer(3),
        Expr::integer(4),
        Expr::integer(5),
    ])
}

#[test]
fn test_array_filter() {
    let expr = Expr::filter(
        one_to_five(),
        Expr::lam(Expr::binop(BinOp::Gt, Expr::idx(0), Expr::integer(2))),
    );
    match eval(&expr).unwrap() {
        Value::Tensor(t) => {
            assert_eq!(t.len(), 3);
            assert_eq!(t.get_flat(0), Some(Value::Int(3)));
        }
        _ => panic!("Expected tensor"),
    }
}

#[test]
fn test_tensor_broadcasting() {
    let expr = Expr::add(
        Expr::array(vec![Expr::integer(1), Expr::integer(2), Expr::integer(3)]),
        Expr::integer(10),
    );
    match eval(&expr).unwrap() {
        Value::Tensor(t) => {
            assert_eq!(t.get_flat(0), Some(Value::Int(11)));
        }
        _ => panic!("Expected tensor"),
    }
}

#[test]
fn test_tuple_construction() {
    match eval(&Expr::tuple(vec![Expr::integer(1), Expr::bool(true), float_expr(3.14)])).unwrap() {
        Value::Tuple(vs) => {
            assert_eq!(vs.len(), 3);
            assert_eq!(vs[0], Value::Int(1));
            assert_eq!(vs[1], Value::Bool(true));
        }
        _ => panic!("Expected tuple"),
    }
}

#[test]
fn test_tuple_field_access() {
    let t = Expr::tuple(vec![Expr::integer(1), Expr::integer(2), Expr::integer(3)]);
    assert_eq!(eval(&Expr::field_idx(t, 1)).unwrap(), Value::Int(2));
}

#[test]
fn test_unit() {
    assert_eq!(eval(&Expr::tuple(vec![])).unwrap(), Value::Unit);
}

#[test]
fn test_factorial() {
    let mut e = Evaluator::new();
    let factorial_body = Expr::match_(
        Expr::idx(0),
        vec![
            MatchArm::new(Pattern::lit(Literal::Int(0)), Expr::integer(1)),
            MatchArm::new(
                Pattern::var("n"),
                Expr::mul(
                    Expr::idx(0),
                    Expr::app(Expr::name("factorial"), Expr::sub(Expr::idx(0), Expr::integer(1))),
                ),
            ),
        ],
    );
    let env = Env::with_globals(e.globals());
    e.define("factorial", Value::closure(1, factorial_body, env));
    assert_eq!(
        e.eval(&Expr::app(Expr::name("factorial"), Expr::integer(5))).unwrap(),
        Value::Int(120)
    );
}

#[test]
fn test_fibonacci() {
    let mut e = Evaluator::new();
    let fib_body = Expr::match_(
        Expr::idx(0),
        vec![
            MatchArm::new(Pattern::lit(Literal::Int(0)), Expr::integer(0)),
            MatchArm::new(Pattern::lit(Literal::Int(1)), Expr::integer(1)),
            MatchArm::new(
                Pattern::var("n"),
                Expr::add(
                    Expr::app(Expr::name("fib"), Expr::sub(Expr::idx(0), Expr::integer(1))),
                    Expr::app(Expr::name("fib"), Expr::sub(Expr::idx(0), Expr::integer(2))),
                ),
            ),
        ],
    );
    let env = Env::with_globals(e.globals());
    e.define("fib", Value::closure(1, fib_body, env));
    assert_eq!(
        e.eval(&Expr::app(Expr::name("fib"), Expr::integer(10))).unwrap(),
        Value::Int(55)
    );
}

#[test]
fn test_abs_primitive() {
    let e = Evaluator::new();
    assert_eq!(
        e.eval(&Expr::app(Expr::name("abs"), Expr::integer(-5))).unwrap(),
        Value::Int(5)
    );
}

#[test]
fn test_partial_application() {
    let e = Evaluator::new();
    let add5 = Expr::app(Expr::name("add"), Expr::integer(5));
    assert!(e.eval(&add5).unwrap().is_callable());
    assert_eq!(e.eval(&Expr::app(add5, Expr::integer(3))).unwrap(), Value::Int(8));
}

#[test]
fn test_function_composition() {
    let add1 = Expr::lam(Expr::add(Expr::idx(0), Expr::integer(1)));
    let mul2 = Expr::lam(Expr::mul(Expr::idx(0), Expr::integer(2)));
    let composed = Expr::binop(BinOp::Compose, add1, mul2);
    assert_eq!(eval(&Expr::app(composed, Expr::integer(3))).unwrap(), Value::Int(7));
}

#[test]
fn test_map_filter_sum() {
    let even = Expr::lam(Expr::binop(
        BinOp::Eq,
        Expr::binop(BinOp::Mod, Expr::idx(0), Expr::integer(2)),
        Expr::integer(0),
    ));
    let square = Expr::lam(Expr::mul(Expr::idx(0), Expr::idx(0)));
    let expr = Expr::sum(Expr::map(Expr::filter(one_to_five(), even), square));
    assert_eq!(eval(&expr).unwrap(), Value::Int(20));
}

#[test]
fn test_nested_lambdas() {
    let f = Expr::lam(Expr::lam(Expr::lam(Expr::add(
        Expr::add(Expr::idx(2), Expr::idx(1)),
        Expr::idx(0),
    ))));
    let expr = Expr::app(
        Expr::app(Expr::app(f, Expr::integer(1)), Expr::integer(2)),
        Expr::integer(3),
    );
    assert_eq!(eval(&expr).unwrap(), Value::Int(6));
}

#[test]
fn test_type_error() {
    assert!(eval(&Expr::add(Expr::integer(1), Expr::bool(true))).is_err());
}

#[test]
fn test_unbound_variable() {
    assert!(matches!(eval(&Expr::idx(999)), Err(EvalError::UnboundIndex(999))));
}

#[test]
fn test_undefined_name() {
    assert!(matches!(eval(&Expr::name("nonexistent")), Err(EvalError::UndefinedName(_))));
}

#[test]
fn test_de_bruijn_simple() {
    assert_eq!(
        eval(&Expr::app(Expr::lam(Expr::idx(0)), Expr::integer(5))).unwrap(),
        Value::Int(5)
    );
}

#[test]
fn test_de_bruijn_nested() {
    let f = Expr::lam(Expr::lam(Expr::add(Expr::idx(0), Expr::idx(1))));
    assert_eq!(
        eval(&Expr::app(Expr::app(f, Expr::integer(3)), Expr::integer(4))).unwrap(),
        Value::Int(7)
    );
}

#[test]
fn test_de_bruijn_capture_in_closure() {
    let expr = Expr::let_(
        Pattern::var("x"),
        Expr::integer(5),
        Expr::let_(
            Pattern::var("f"),
            Expr::lam(Expr::add(Expr::idx(1), Expr::idx(0))),
            Expr::app(Expr::idx(0), Expr::integer(3)),
        ),
    );
    assert_eq!(eval(&expr).unwrap(), Value::Int(8));
}

#[test]
fn division_rounds_toward_zero() {
    assert_eq!(eval(&Expr::div(Expr::integer(-7), Expr::integer(2))).unwrap(), Value::Int(-3));
    assert_eq!(
        eval(&Expr::binop(BinOp::Mod, Expr::integer(-7), Expr::integer(2))).unwrap(),
        Value::Int(-1)
    );
}

#[test]
fn division_overflow_is_reported() {
    assert!(matches!(
        eval(&Expr::div(Expr::integer(i64::MIN), Expr::integer(-1))),
        Err(EvalError::Overflow)
    ));
    assert!(matches!(
        eval(&Expr::add(Expr::integer(i64::MAX), Expr::integer(1))),
        Err(EvalError::Overflow)
    ));
}

#[test]
fn and_short_circuits() {
    let failing = Expr::div(Expr::integer(1), Expr::integer(0));
    assert_eq!(
        eval(&Expr::binop(BinOp::And, Expr::bool(false), failing)).unwrap(),
        Value::Bool(false)
    );
}

#[test]
fn currying_a_closure_matches_full_application() {
    let add = || Expr::lam(Expr::lam(Expr::add(Expr::idx(1), Expr::idx(0))));
    let partial = Expr::app(add(), Expr::integer(5));
    assert!(eval(&partial).unwrap().is_callable());
    let e = Evaluator::new();
    let full = Expr::app(Expr::app(Expr::name("add"), Expr::integer(5)), Expr::integer(3));
    assert_eq!(e.eval(&full).unwrap(), Value::Int(8));
    assert_eq!(eval(&Expr::app(partial, Expr::integer(3))).unwrap(), Value::Int(8));
}

#[test]
fn broadcasting_tensor_with_tensor() {
    let a = Expr::array(vec![Expr::integer(1), Expr::integer(2)]);
    let b = Expr::array(vec![Expr::integer(10), Expr::integer(20)]);
    match eval(&Expr::add(a, b)).unwrap() {
        Value::Tensor(t) => {
            assert_eq!(t.shape, vec![2]);
            assert_eq!(t.get_flat(1), Some(Value::Int(22)));
        }
        _ => panic!("Expected tensor"),
    }
}

#[test]
fn broadcasting_shape_mismatch() {
    let a = Expr::array(vec![Expr::integer(1), Expr::integer(2), Expr::integer(3)]);
    let b = Expr::array(vec![Expr::integer(1), Expr::integer(2)]);
    assert!(matches!(eval(&Expr::add(a, b)), Err(EvalError::ShapeMismatch)));
}

#[test]
fn empty_sum_is_integer_zero() {
    assert_eq!(eval(&Expr::sum(Expr::array(vec![]))).unwrap(), Value::Int(0));
}

#[test]
fn integer_dot_product() {
    let e = Evaluator::new();
    let a = Expr::array(vec![Expr::integer(1), Expr::integer(2), Expr::integer(3)]);
    let b = Expr::array(vec![Expr::integer(4), Expr::integer(5), Expr::integer(6)]);
    let expr = Expr::app(Expr::app(Expr::name("dot"), a), b);
    assert_eq!(e.eval(&expr).unwrap(), Value::Int(32));
    let short = Expr::array(vec![Expr::integer(1)]);
    let long = Expr::array(vec![Expr::integer(1), Expr::integer(2)]);
    let bad = Expr::app(Expr::app(Expr::name("dot"), short), long);
    assert!(matches!(e.eval(&bad), Err(EvalError::ShapeMismatch)));
}

#[test]
fn non_exhaustive_match() {
    let expr = Expr::match_(
        Expr::integer(3),
        vec![MatchArm::new(Pattern::lit(Literal::Int(1)), Expr::integer(10))],
    );
    assert!(matches!(eval(&expr), Err(EvalError::NonExhaustiveMatch)));
}

#[test]
fn field_out_of_range() {
    let t = Expr::tuple(vec![Expr::integer(1)]);
    assert!(matches!(eval(&Expr::field_idx(t, 4)), Err(EvalError::FieldOutOfRange(4))));
}

#[test]
fn applying_a_number_fails() {
    assert!(matches!(
        eval(&Expr::app(Expr::integer(1), Expr::integer(2))),
        Err(EvalError::NotCallable)
    ));
}

#[test]
fn if_needs_a_boolean() {
    assert!(matches!(
        eval(&Expr::if_(Expr::integer(1), Expr::integer(1), Expr::integer(2))),
        Err(EvalError::TypeMismatch)
    ));
}

#[test]
fn float_arithmetic_is_not_computed() {
    assert!(matches!(
        eval(&Expr::add(float_expr(1.5), float_expr(2.5))),
        Err(EvalError::FloatUnsupported)
    ));
}

#[test]
fn float_sign_operations() {
    let e = Evaluator::new();
    assert_eq!(
        eval(&Expr::unary(goth::expr::UnaryOp::Neg, float_expr(1.5))).unwrap(),
        float(-1.5)
    );
    assert_eq!(e.eval(&Expr::app(Expr::name("abs"), float_expr(-2.5))).unwrap(), float(2.5));
}

#[test]
fn float_equality_follows_ieee() {
    assert_eq!(
        eval(&Expr::binop(BinOp::Eq, float_expr(0.0), float_expr(-0.0))).unwrap(),
        Value::Bool(true)
    );
    assert_eq!(
        eval(&Expr::binop(BinOp::Eq, float_expr(f64::NAN), float_expr(f64::NAN))).unwrap(),
        Value::Bool(false)
    );
}

#[test]
fn runaway_recursion_hits_the_depth_limit() {
    let mut e = Evaluator::new();
    let body = Expr::app(Expr::name("spin"), Expr::idx(0));
    let env = Env::with_globals(e.globals());
    e.define("spin", Value::closure(1, body, env));
    assert!(matches!(
        e.eval(&Expr::app(Expr::name("spin"), Expr::integer(0))),
        Err(EvalError::DepthExceeded)
    ));
}

#[test]
fn array_split_pattern() {
    // match [1,2,3] with [h | t] -> sum t
    let expr = Expr::match_(
        Expr::array(vec![Expr::integer(1), Expr::integer(2), Expr::integer(3)]),
        vec![MatchArm::new(
            Pattern::ArraySplit { head: vec![Pattern::var("h")], tail: Box::new(Pattern::var("t")) },
            Expr::add(Expr::idx(1), Expr::sum(Expr::idx(0))),
        )],
    );
    assert_eq!(eval(&expr).unwrap(), Value::Int(6));
}

#[test]
fn guard_falls_through_to_next_arm() {
    let guarded = Pattern::Guard(
        Box::new(Pattern::var("n")),
        Box::new(Expr::binop(BinOp::Gt, Expr::idx(0), Expr::integer(5))),
    );
    let expr = Expr::match_(
        Expr::integer(3),
        vec![
            MatchArm::new(guarded, Expr::integer(1)),
            MatchArm::new(Pattern::wildcard(), Expr::integer(2)),
        ],
    );
    assert_eq!(eval(&expr).unwrap(), Value::Int(2));
}

#[test]
fn or_pattern_tries_left_then_right() {
    let p = Pattern::Or(
        Box::new(Pattern::lit(Literal::Int(1))),
        Box::new(Pattern::lit(Literal::Int(2))),
    );
    let expr = Expr::match_(
        Expr::integer(2),
        vec![
            MatchArm::new(p, Expr::integer(10)),
            MatchArm::new(Pattern::wildcard(), Expr::integer(20)),
        ],
    );
    assert_eq!(eval(&expr).unwrap(), Value::Int(10));
}

#[test]
fn globals_snapshot_holds_the_primitives() {
    let e = Evaluator::new();
    let g = e.globals();
    assert!(g.entries.iter().any(|(n, _)| n == "add"));
    let env = Env::with_globals(g).push(Value::Int(4));
    assert_eq!(env.lookup_index(0), Some(Value::Int(4)));
    assert_eq!(env.lookup_index(1), None);
}

#[test]
fn array_split_then_filter_square_sum() {
    // match [1,2,3,4,5] with [h | t] -> sum (map (filter t even) square)
    let even = Expr::lam(Expr::binop(
        BinOp::Eq,
        Expr::binop(BinOp::Mod, Expr::idx(0), Expr::integer(2)),
        Expr::integer(0),
    ));
    let square = Expr::lam(Expr::mul(Expr::idx(0), Expr::idx(0)));
    let body = Expr::sum(Expr::map(Expr::filter(Expr::idx(0), even), square));
    let expr = Expr::match_(
        one_to_five(),
        vec![MatchArm::new(
            Pattern::ArraySplit { head: vec![Pattern::var("h")], tail: Box::new(Pattern::var("t")) },
            body,
        )],
    );
    assert_eq!(eval(&expr).unwrap(), Value::Int(20));
}

#[test]
fn depth_limit_can_be_chosen() {
    let e = Evaluator::new();
    let nested = Expr::add(Expr::add(Expr::integer(1), Expr::integer(2)), Expr::integer(3));
    assert!(matches!(e.eval_with_depth(&nested, 2), Err(EvalError::DepthExceeded)));
    assert_eq!(e.eval_with_depth(&nested, 3).unwrap(), Value::Int(6));
}
