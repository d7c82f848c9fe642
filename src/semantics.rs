//! Big-step semantics of evaluation, as spec functions, and the laws proved of it.
use crate::error::EvalError;
use crate::eval::{callable_arity, literal_value};
use crate::expr::{BinOp, ExprV};
use crate::literal::Literal;
use crate::matching::literal_match_spec;
use crate::ops::{int_arith_spec, is_arith};
use crate::pattern::PatternV;
use crate::prims::{prim_spec, unary_spec};
use crate::value::{EnvV, ValueV, global_lookup};
use vstd::prelude::*;

verus! {

broadcast use vstd::std_specs::vec::group_vec_axioms, vstd::seq::group_seq_axioms;

/// `env` with the values `bs` pushed in order: the last becomes index 0.
pub open spec fn push_all_spec(env: EnvV, bs: Seq<ValueV>) -> EnvV {
    EnvV {
        frames: Seq::new(bs.len(), |i: int| bs[bs.len() - 1 - i]) + env.frames,
        globals: env.globals,
    }
}

/// Body of the closure that composition builds: `f (h x)`, with `f` at index 2,
/// `h` at index 1 and the argument `x` at index 0.
pub open spec fn compose_body() -> ExprV {
    ExprV::App(
        Box::new(ExprV::Idx(2)),
        Box::new(ExprV::App(Box::new(ExprV::Idx(1)), Box::new(ExprV::Idx(0)))),
    )
}

pub open spec fn is_callable_v(v: ValueV) -> bool {
    v is Closure || v is Prim || v is Partial
}

/// Big-step semantics of `eval_in`: the value of `e` in `env`, with `g` the
/// evaluator's table, nesting at most `fuel` deep.
pub open spec fn eval_spec(fuel: nat, e: ExprV, env: EnvV, g: Seq<(String, ValueV)>) -> Result<
    ValueV,
    EvalError,
>
    decreases fuel, 4nat, 0nat,
{
    if fuel == 0 {
        Err(EvalError::DepthExceeded)
    } else {
        let f1 = (fuel - 1) as nat;
        match e {
            ExprV::Lit(l) => Ok(literal_value(l)),
            ExprV::Idx(n) => if (n as int) < env.frames.len() {
                Ok(env.frames[n as int])
            } else {
                Err(EvalError::UnboundIndex(n))
            },
            ExprV::Name(s) => match global_lookup(env.globals, s@) {
                Some(v) => Ok(v),
                None => match global_lookup(g, s@) {
                    Some(v) => Ok(v),
                    None => Err(EvalError::UndefinedName(s)),
                },
            },
            ExprV::Lam(b) => Ok(ValueV::Closure(1, *b, env)),
            ExprV::App(func, arg) => match eval_spec(f1, *func, env, g) {
                Err(x) => Err(x),
                Ok(fv) => match eval_spec(f1, *arg, env, g) {
                    Err(x) => Err(x),
                    Ok(av) => apply_spec(f1, fv, av, g),
                },
            },
            ExprV::Let(p, v, b) => match eval_spec(f1, *v, env, g) {
                Err(x) => Err(x),
                Ok(x) => match try_match_spec(f1, p, x, env, g) {
                    Err(y) => Err(y),
                    Ok(None) => Err(EvalError::NonExhaustiveMatch),
                    Ok(Some(bs)) => eval_spec(f1, *b, push_all_spec(env, bs), g),
                },
            },
            ExprV::BinOp(op, l, r) => if op is And || op is Or {
                match eval_spec(f1, *l, env, g) {
                    Err(x) => Err(x),
                    Ok(ValueV::Bool(lb)) => if (op is And && !lb) || (op is Or && lb) {
                        Ok(ValueV::Bool(lb))
                    } else {
                        match eval_spec(f1, *r, env, g) {
                            Err(x) => Err(x),
                            Ok(ValueV::Bool(b)) => Ok(ValueV::Bool(b)),
                            Ok(_) => Err(EvalError::TypeMismatch),
                        }
                    },
                    Ok(_) => Err(EvalError::TypeMismatch),
                }
            } else if op is MapEach || op is Filter {
                match eval_spec(f1, *l, env, g) {
                    Err(x) => Err(x),
                    Ok(xs) => match eval_spec(f1, *r, env, g) {
                        Err(x) => Err(x),
                        Ok(fv) => match xs {
                            ValueV::Tensor(sh, ds) => if op is MapEach {
                                match map_spec(f1, ds, fv, g) {
                                    Ok(rs) => Ok(ValueV::Tensor(sh, rs)),
                                    Err(x) => Err(x),
                                }
                            } else {
                                match filter_spec(f1, ds, fv, g) {
                                    Ok(rs) => Ok(ValueV::Tensor(seq![rs.len() as usize], rs)),
                                    Err(x) => Err(x),
                                }
                            },
                            _ => Err(EvalError::TypeMismatch),
                        },
                    },
                }
            } else if op is Compose {
                match eval_spec(f1, *l, env, g) {
                    Err(x) => Err(x),
                    Ok(fv) => match eval_spec(f1, *r, env, g) {
                        Err(x) => Err(x),
                        Ok(hv) => if !is_callable_v(fv) || !is_callable_v(hv) {
                            Err(EvalError::NotCallable)
                        } else {
                            Ok(
                                ValueV::Closure(
                                    1,
                                    compose_body(),
                                    EnvV { frames: seq![hv, fv], globals: env.globals },
                                ),
                            )
                        },
                    },
                }
            } else {
                match eval_spec(f1, *l, env, g) {
                    Err(x) => Err(x),
                    Ok(a) => match eval_spec(f1, *r, env, g) {
                        Err(x) => Err(x),
                        Ok(b) => crate::ops::binop_values_spec(op, a, b),
                    },
                }
            },
            ExprV::UnaryOp(op, x) => match eval_spec(f1, *x, env, g) {
                Err(y) => Err(y),
                Ok(v) => unary_spec(op, v),
            },
            ExprV::If(c, t, f) => match eval_spec(f1, *c, env, g) {
                Err(x) => Err(x),
                Ok(ValueV::Bool(true)) => eval_spec(f1, *t, env, g),
                Ok(ValueV::Bool(false)) => eval_spec(f1, *f, env, g),
                Ok(_) => Err(EvalError::TypeMismatch),
            },
            ExprV::Match(s, arms) => match eval_spec(f1, *s, env, g) {
                Err(x) => Err(x),
                Ok(v) => arms_spec(f1, arms, 0, v, env, g),
            },
            ExprV::Tuple(es) => if es.len() == 0 {
                Ok(ValueV::Unit)
            } else {
                match eval_list_spec(fuel, es, env, g) {
                    Ok(vs) => Ok(ValueV::Tuple(vs)),
                    Err(x) => Err(x),
                }
            },
            ExprV::Array(es) => match eval_list_spec(fuel, es, env, g) {
                Ok(vs) => Ok(ValueV::Tensor(seq![vs.len() as usize], vs)),
                Err(x) => Err(x),
            },
            ExprV::Field(x, i) => match eval_spec(f1, *x, env, g) {
                Err(y) => Err(y),
                Ok(ValueV::Tuple(vs)) => if (i as int) < vs.len() {
                    Ok(vs[i as int])
                } else {
                    Err(EvalError::FieldOutOfRange(i))
                },
                Ok(_) => Err(EvalError::TypeMismatch),
            },
            ExprV::Variant(c, p) => match p {
                Some(x) => match eval_spec(f1, *x, env, g) {
                    Ok(v) => Ok(ValueV::Variant(c, Some(Box::new(v)))),
                    Err(y) => Err(y),
                },
                None => Ok(ValueV::Variant(c, None)),
            },
            ExprV::Annot(x, _) => eval_spec(f1, *x, env, g),
        }
    }
}

/// The elements of a tuple or array, each evaluated with `fuel - 1`, left to right.
pub open spec fn eval_list_spec(fuel: nat, es: Seq<ExprV>, env: EnvV, g: Seq<(String, ValueV)>) -> Result<
    Seq<ValueV>,
    EvalError,
>
    decreases fuel, 0nat, es.len(),
{
    if fuel == 0 {
        Err(EvalError::DepthExceeded)
    } else if es.len() == 0 {
        Ok(Seq::empty())
    } else {
        match eval_list_spec(fuel, es.subrange(0, es.len() - 1), env, g) {
            Err(x) => Err(x),
            Ok(vs) => match eval_spec((fuel - 1) as nat, es[es.len() - 1], env, g) {
                Ok(v) => Ok(vs.push(v)),
                Err(x) => Err(x),
            },
        }
    }
}

/// Application of a callable to one argument: accumulate it while the callee
/// is under-saturated; run the closure body (arguments pushed in order) or the
/// primitive once saturated.
pub open spec fn apply_spec(fuel: nat, f: ValueV, arg: ValueV, g: Seq<(String, ValueV)>) -> Result<
    ValueV,
    EvalError,
>
    decreases fuel, 2nat, 0nat,
{
    if fuel == 0 {
        Err(EvalError::DepthExceeded)
    } else if !is_callable_v(f) {
        Err(EvalError::NotCallable)
    } else {
        let callee = if f is Partial {
            *f->Partial_0
        } else {
            f
        };
        let args = if f is Partial {
            f->Partial_1.push(arg)
        } else {
            seq![arg]
        };
        if !(callee is Closure || callee is Prim) {
            Err(EvalError::NotCallable)
        } else if args.len() < callable_arity(callee) {
            Ok(ValueV::Partial(Box::new(callee), args))
        } else {
            match callee {
                ValueV::Closure(_, body, cenv) => eval_spec(
                    (fuel - 1) as nat,
                    body,
                    push_all_spec(cenv, args),
                    g,
                ),
                ValueV::Prim(p) => prim_spec(p, args),
                _ => Err(EvalError::NotCallable),
            }
        }
    }
}

/// `map`: the callable applied to each element, left to right.
pub open spec fn map_spec(fuel: nat, ds: Seq<ValueV>, f: ValueV, g: Seq<(String, ValueV)>) -> Result<
    Seq<ValueV>,
    EvalError,
>
    decreases fuel, 0nat, ds.len(),
{
    if fuel == 0 {
        Err(EvalError::DepthExceeded)
    } else if ds.len() == 0 {
        Ok(Seq::empty())
    } else {
        match map_spec(fuel, ds.subrange(0, ds.len() - 1), f, g) {
            Err(x) => Err(x),
            Ok(rs) => match apply_spec((fuel - 1) as nat, f, ds[ds.len() - 1], g) {
                Ok(v) => Ok(rs.push(v)),
                Err(x) => Err(x),
            },
        }
    }
}

/// `filter`: the elements for which the callable returns true, in order.
pub open spec fn filter_spec(fuel: nat, ds: Seq<ValueV>, f: ValueV, g: Seq<(String, ValueV)>) -> Result<
    Seq<ValueV>,
    EvalError,
>
    decreases fuel, 0nat, ds.len(),
{
    if fuel == 0 {
        Err(EvalError::DepthExceeded)
    } else if ds.len() == 0 {
        Ok(Seq::empty())
    } else {
        match filter_spec(fuel, ds.subrange(0, ds.len() - 1), f, g) {
            Err(x) => Err(x),
            Ok(rs) => match apply_spec((fuel - 1) as nat, f, ds[ds.len() - 1], g) {
                Ok(ValueV::Bool(true)) => Ok(rs.push(ds[ds.len() - 1])),
                Ok(ValueV::Bool(false)) => Ok(rs),
                Ok(_) => Err(EvalError::TypeMismatch),
                Err(x) => Err(x),
            },
        }
    }
}

/// The arms of a match from arm `i` on: the first whose pattern matches has its
/// body evaluated with the bindings pushed.
pub open spec fn arms_spec(
    fuel: nat,
    arms: Seq<crate::expr::ArmV>,
    i: int,
    v: ValueV,
    env: EnvV,
    g: Seq<(String, ValueV)>,
) -> Result<ValueV, EvalError>
    decreases fuel, 0nat, arms.len() - i,
{
    if fuel == 0 {
        Err(EvalError::DepthExceeded)
    } else if i < 0 || i >= arms.len() {
        Err(EvalError::NonExhaustiveMatch)
    } else {
        match try_match_spec((fuel - 1) as nat, arms[i].pattern, v, env, g) {
            Err(x) => Err(x),
            Ok(Some(bs)) => eval_spec((fuel - 1) as nat, arms[i].body, push_all_spec(env, bs), g),
            Ok(None) => arms_spec(fuel, arms, i + 1, v, env, g),
        }
    }
}

/// Matching with guards: as `match_spec`, a guard being evaluated in `env`
/// extended with its sub-pattern's bindings.
pub open spec fn try_match_spec(
    fuel: nat,
    p: PatternV,
    v: ValueV,
    env: EnvV,
    g: Seq<(String, ValueV)>,
) -> Result<Option<Seq<ValueV>>, EvalError>
    decreases fuel, 1nat, 0nat,
{
    if fuel == 0 {
        Err(EvalError::DepthExceeded)
    } else {
        let f1 = (fuel - 1) as nat;
        match p {
            PatternV::Wildcard => Ok(Some(Seq::empty())),
            PatternV::Var(_) => Ok(Some(seq![v])),
            PatternV::Lit(l) => match literal_match_spec(l, v) {
                Ok(true) => Ok(Some(Seq::empty())),
                Ok(false) => Ok(None),
                Err(x) => Err(x),
            },
            PatternV::Tuple(ps) => match v {
                ValueV::Tuple(vs) => if vs.len() == ps.len() {
                    match_all_spec(fuel, ps, vs, env, g)
                } else {
                    Ok(None)
                },
                ValueV::Unit => if ps.len() == 0 {
                    match_all_spec(fuel, ps, Seq::empty(), env, g)
                } else {
                    Ok(None)
                },
                _ => Ok(None),
            },
            PatternV::Array(ps) => match v {
                ValueV::Tensor(shape, data) => if shape.len() == 1 && data.len() == ps.len() {
                    match_all_spec(fuel, ps, data, env, g)
                } else {
                    Ok(None)
                },
                _ => Ok(None),
            },
            PatternV::ArraySplit(h, t) => match v {
                ValueV::Tensor(shape, data) => if shape.len() == 1 && data.len() >= h.len() {
                    match match_all_spec(fuel, h, data, env, g) {
                        Ok(Some(bs)) => match try_match_spec(
                            f1,
                            *t,
                            ValueV::Tensor(
                                seq![(data.len() - h.len()) as usize],
                                data.subrange(h.len() as int, data.len() as int),
                            ),
                            env,
                            g,
                        ) {
                            Ok(Some(bt)) => Ok(Some(bs + bt)),
                            Ok(None) => Ok(None),
                            Err(x) => Err(x),
                        },
                        other => other,
                    }
                } else {
                    Ok(None)
                },
                _ => Ok(None),
            },
            PatternV::Variant(c, pl) => match v {
                ValueV::Variant(c2, pv) => if c2@ != c@ {
                    Ok(None)
                } else {
                    match (pl, pv) {
                        (None, _) => Ok(Some(Seq::empty())),
                        (Some(pp), Some(x)) => try_match_spec(f1, *pp, *x, env, g),
                        (Some(_), None) => Ok(None),
                    }
                },
                _ => Ok(None),
            },
            PatternV::Typed(b, _) => try_match_spec(f1, *b, v, env, g),
            PatternV::Or(a, b) => match try_match_spec(f1, *a, v, env, g) {
                Ok(None) => try_match_spec(f1, *b, v, env, g),
                other => other,
            },
            PatternV::Guard(b, cond) => match try_match_spec(f1, *b, v, env, g) {
                Ok(Some(bs)) => match eval_spec(f1, *cond, push_all_spec(env, bs), g) {
                    Ok(ValueV::Bool(true)) => Ok(Some(bs)),
                    Ok(ValueV::Bool(false)) => Ok(None),
                    Ok(_) => Err(EvalError::TypeMismatch),
                    Err(x) => Err(x),
                },
                other => other,
            },
        }
    }
}

/// Positional matching of `ps` against `vs`, each with `fuel - 1`.
pub open spec fn match_all_spec(
    fuel: nat,
    ps: Seq<PatternV>,
    vs: Seq<ValueV>,
    env: EnvV,
    g: Seq<(String, ValueV)>,
) -> Result<Option<Seq<ValueV>>, EvalError>
    decreases fuel, 0nat, ps.len(),
{
    if fuel == 0 {
        Err(EvalError::DepthExceeded)
    } else if ps.len() == 0 {
        Ok(Some(Seq::empty()))
    } else {
        match match_all_spec(fuel, ps.subrange(0, ps.len() - 1), vs, env, g) {
            Ok(Some(bs)) => match try_match_spec(
                (fuel - 1) as nat,
                ps[ps.len() - 1],
                vs[ps.len() - 1],
                env,
                g,
            ) {
                Ok(Some(b2)) => Ok(Some(bs + b2)),
                other => other,
            },
            other => other,
        }
    }
}


/// Whether `e` is a closed integer arithmetic expression: integer literals
/// combined by `+ - * / %`.
pub open spec fn arith_expr(e: ExprV) -> bool
    decreases e,
{
    match e {
        ExprV::Lit(Literal::Int(_)) => true,
        ExprV::BinOp(op, l, r) => is_arith(op) && arith_expr(*l) && arith_expr(*r),
        _ => false,
    }
}

/// Nesting depth of an arithmetic expression.
pub open spec fn arith_depth(e: ExprV) -> nat
    decreases e,
{
    match e {
        ExprV::BinOp(_, l, r) => 1 + if arith_depth(*l) >= arith_depth(*r) {
            arith_depth(*l)
        } else {
            arith_depth(*r)
        },
        _ => 0,
    }
}

/// Value of an arithmetic expression: operands left to right, the first failure wins.
pub open spec fn arith_value(e: ExprV) -> Result<ValueV, EvalError>
    decreases e,
{
    match e {
        ExprV::Lit(Literal::Int(n)) => Ok(ValueV::Int(n)),
        ExprV::BinOp(op, l, r) => match arith_value(*l) {
            Err(x) => Err(x),
            Ok(a) => match arith_value(*r) {
                Err(x) => Err(x),
                Ok(b) => match (a, b) {
                    (ValueV::Int(x), ValueV::Int(y)) => int_arith_spec(op, x, y),
                    _ => Err(EvalError::TypeMismatch),
                },
            },
        },
        _ => Err(EvalError::TypeMismatch),
    }
}

/// `a / b` as an expression of two integer literals.
pub open spec fn div_expr(a: i64, b: i64) -> ExprV {
    ExprV::BinOp(
        BinOp::Div,
        Box::new(ExprV::Lit(Literal::Int(a))),
        Box::new(ExprV::Lit(Literal::Int(b))),
    )
}

/// Integer division: `a / b` evaluates to the quotient rounded toward zero when
/// `b != 0` (and the quotient fits, i.e. not `i64::MIN / -1`), and fails with
/// division by zero when `b == 0`.
pub proof fn law_integer_division(a: i64, b: i64)
    ensures
        arith_expr(div_expr(a, b)),
        arith_depth(div_expr(a, b)) == 1,
        b != 0 && !(a == i64::MIN && b == -1) ==> arith_value(div_expr(a, b)) == Ok::<
            ValueV,
            EvalError,
        >(ValueV::Int(crate::ops::trunc_div(a as int, b as int) as i64)),
        b == 0 ==> arith_value(div_expr(a, b)) == Err::<ValueV, EvalError>(
            EvalError::DivisionByZero,
        ),
{
    let e = div_expr(a, b);
    assert(arith_expr(ExprV::Lit(Literal::Int(a))));
    assert(arith_expr(ExprV::Lit(Literal::Int(b))));
    assert(arith_depth(ExprV::Lit(Literal::Int(a))) == 0);
    assert(arith_value(ExprV::Lit(Literal::Int(a))) == Ok::<ValueV, EvalError>(ValueV::Int(a)));
    assert(arith_value(ExprV::Lit(Literal::Int(b))) == Ok::<ValueV, EvalError>(ValueV::Int(b)));
    assert(arith_depth(ExprV::Lit(Literal::Int(b))) == 0);
    if b != 0 && !(a == i64::MIN && b == -1) {
        let q = crate::ops::trunc_div(a as int, b as int);
        let x = vstd::math::abs(a as int);
        let d = vstd::math::abs(b as int);
        assert(x / d <= x) by (nonlinear_arith)
            requires
                x >= 0,
                d >= 1,
        ;
        if a == i64::MIN && d >= 2 {
            assert(x / d <= x / 2) by (nonlinear_arith)
                requires
                    x >= 0,
                    d >= 2,
            ;
        }
        if a == i64::MIN && d == 1 {
            assert(b == 1);
            assert(x / d == x) by (nonlinear_arith)
                requires
                    d == 1,
            ;
        }
        assert(crate::ops::in_i64(q));
    }
}

/// For `true or _` and `false and _`, the value the left operand alone decides.
pub open spec fn short_circuit(e: ExprV) -> Option<bool> {
    if e is BinOp && *e->BinOp_1 == ExprV::Lit(Literal::True) && e->BinOp_0 is Or {
        Some(true)
    } else if e is BinOp && *e->BinOp_1 == ExprV::Lit(Literal::False) && e->BinOp_0 is And {
        Some(false)
    } else {
        None
    }
}


/// Closed integer arithmetic evaluates to its arithmetic value, given enough depth.
pub proof fn lemma_arith_eval(fuel: nat, e: ExprV, env: EnvV, g: Seq<(String, ValueV)>)
    requires
        arith_expr(e),
        fuel > arith_depth(e),
    ensures
        eval_spec(fuel, e, env, g) == arith_value(e),
    decreases e,
{
    match e {
        ExprV::BinOp(op, l, r) => {
            let f1 = (fuel - 1) as nat;
            lemma_arith_eval(f1, *l, env, g);
            lemma_arith_eval(f1, *r, env, g);
            lemma_arith_int(*l);
            lemma_arith_int(*r);
        },
        _ => {},
    }
}

/// An arithmetic value is an integer.
proof fn lemma_arith_int(e: ExprV)
    ensures
        arith_value(e) is Ok ==> arith_value(e)->Ok_0 is Int,
{
}

/// Short-circuit: `true or X` is true and `false and X` is false without
/// evaluating `X`, whatever `X` is.
pub proof fn law_short_circuit(fuel: nat, x: ExprV, env: EnvV, g: Seq<(String, ValueV)>)
    requires
        fuel > 1,
    ensures
        eval_spec(
            fuel,
            ExprV::BinOp(BinOp::Or, Box::new(ExprV::Lit(Literal::True)), Box::new(x)),
            env,
            g,
        ) == Ok::<ValueV, EvalError>(ValueV::Bool(true)),
        eval_spec(
            fuel,
            ExprV::BinOp(BinOp::And, Box::new(ExprV::Lit(Literal::False)), Box::new(x)),
            env,
            g,
        ) == Ok::<ValueV, EvalError>(ValueV::Bool(false)),
{
    assert(eval_spec((fuel - 1) as nat, ExprV::Lit(Literal::True), env, g) == Ok::<ValueV, EvalError>(ValueV::Bool(true)));
    assert(eval_spec((fuel - 1) as nat, ExprV::Lit(Literal::False), env, g) == Ok::<ValueV, EvalError>(ValueV::Bool(false)));
}

/// Result of running a callable on its full argument list at once.
pub open spec fn saturated(fuel: nat, f: ValueV, args: Seq<ValueV>, g: Seq<(String, ValueV)>) -> Result<
    ValueV,
    EvalError,
> {
    match f {
        ValueV::Closure(_, body, cenv) => eval_spec(
            (fuel - 1) as nat,
            body,
            push_all_spec(cenv, args),
            g,
        ),
        ValueV::Prim(p) => prim_spec(p, args),
        _ => Err(EvalError::NotCallable),
    }
}

/// Currying: applying a two-argument closure or primitive to one argument gives
/// a callable partial application; applying that to the second argument gives
/// the same result as running the callable on both arguments at once.
pub proof fn law_currying(fuel: nat, f: ValueV, a: ValueV, b: ValueV, g: Seq<(String, ValueV)>)
    requires
        fuel > 0,
        f is Closure || f is Prim,
        callable_arity(f) == 2,
    ensures
        apply_spec(fuel, f, a, g) == Ok::<ValueV, EvalError>(ValueV::Partial(Box::new(f), seq![a])),
        is_callable_v(ValueV::Partial(Box::new(f), seq![a])),
        apply_spec(fuel, ValueV::Partial(Box::new(f), seq![a]), b, g) == saturated(
            fuel,
            f,
            seq![a, b],
            g,
        ),
{
    assert(seq![a].push(b) =~= seq![a, b]);
}

/// Closures capture their creation-time environment: a lambda evaluates to a
/// closure over the environment it was evaluated in, and applying it evaluates
/// the body in that environment extended by the argument, whatever the
/// caller's environment is.
pub proof fn law_closure_capture(
    fuel: nat,
    body: ExprV,
    env: EnvV,
    arg: ValueV,
    g: Seq<(String, ValueV)>,
)
    requires
        fuel > 1,
    ensures
        eval_spec(fuel, ExprV::Lam(Box::new(body)), env, g) == Ok::<ValueV, EvalError>(
            ValueV::Closure(1, body, env),
        ),
        apply_spec(fuel, ValueV::Closure(1, body, env), arg, g) == eval_spec(
            (fuel - 1) as nat,
            body,
            EnvV { frames: seq![arg] + env.frames, globals: env.globals },
            g,
        ),
{
    assert(push_all_spec(env, seq![arg]).frames =~= seq![arg] + env.frames);
}

/// Recursion through globals: when `name` is bound to a closure in the
/// evaluator's table and the closure's own snapshot lacks `name`, the name
/// evaluated in the closure's body (after its arguments are pushed) is the
/// closure itself, so the body can call itself.
pub proof fn law_recursion_through_globals(
    fuel: nat,
    name: String,
    c: ValueV,
    args: Seq<ValueV>,
    table: Seq<(String, ValueV)>,
)
    requires
        fuel > 0,
        c is Closure,
        global_lookup(c->Closure_2.globals, name@) is None,
        global_lookup(table, name@) == Some(c),
    ensures
        eval_spec(fuel, ExprV::Name(name), push_all_spec(c->Closure_2, args), table) == Ok::<
            ValueV,
            EvalError,
        >(c),
{
}

/// Whether `e` is a closed flat expression: literals combined by unary
/// operators, by binary operators other than the short-circuiting `and`/`or`,
/// map, filter and composition, and by array construction. These lower to
/// straight-line code in one function.
pub open spec fn flat_expr(e: ExprV) -> bool
    decreases e,
{
    match e {
        ExprV::Lit(_) => true,
        ExprV::BinOp(op, l, r) => !(op is And || op is Or || op is MapEach || op is Filter
            || op is Compose) && flat_expr(*l) && flat_expr(*r),
        ExprV::UnaryOp(_, x) => flat_expr(*x),
        ExprV::Array(es) => all_flat(es),
        _ => false,
    }
}

pub open spec fn all_flat(es: Seq<ExprV>) -> bool
    decreases es,
{
    if es.len() == 0 {
        true
    } else {
        all_flat(es.subrange(0, es.len() - 1)) && flat_expr(es[es.len() - 1])
    }
}

/// Nesting depth of a flat expression.
pub open spec fn flat_depth(e: ExprV) -> nat
    decreases e,
{
    match e {
        ExprV::BinOp(_, l, r) => 1 + if flat_depth(*l) >= flat_depth(*r) {
            flat_depth(*l)
        } else {
            flat_depth(*r)
        },
        ExprV::UnaryOp(_, x) => 1 + flat_depth(*x),
        ExprV::Array(es) => 1 + flat_depth_list(es),
        _ => 0,
    }
}

pub open spec fn flat_depth_list(es: Seq<ExprV>) -> nat
    decreases es,
{
    if es.len() == 0 {
        0
    } else {
        let a = flat_depth_list(es.subrange(0, es.len() - 1));
        let b = flat_depth(es[es.len() - 1]);
        if a >= b {
            a
        } else {
            b
        }
    }
}

/// Number of operators and arrays in a flat expression.
pub open spec fn flat_size(e: ExprV) -> nat
    decreases e,
{
    match e {
        ExprV::BinOp(_, l, r) => 1 + flat_size(*l) + flat_size(*r),
        ExprV::UnaryOp(_, x) => 1 + flat_size(*x),
        ExprV::Array(es) => 1 + flat_size_list(es),
        _ => 0,
    }
}

pub open spec fn flat_size_list(es: Seq<ExprV>) -> nat
    decreases es,
{
    if es.len() == 0 {
        0
    } else {
        flat_size_list(es.subrange(0, es.len() - 1)) + flat_size(es[es.len() - 1])
    }
}

/// Value of a flat expression: operands left to right, the first failure wins.
pub open spec fn flat_value(e: ExprV) -> Result<ValueV, EvalError>
    decreases e,
{
    match e {
        ExprV::Lit(l) => Ok(literal_value(l)),
        ExprV::BinOp(op, l, r) => match flat_value(*l) {
            Err(x) => Err(x),
            Ok(a) => match flat_value(*r) {
                Err(x) => Err(x),
                Ok(b) => crate::ops::binop_values_spec(op, a, b),
            },
        },
        ExprV::UnaryOp(op, x) => match flat_value(*x) {
            Err(y) => Err(y),
            Ok(v) => unary_spec(op, v),
        },
        ExprV::Array(es) => match flat_list_value(es) {
            Ok(vs) => Ok(ValueV::Tensor(seq![vs.len() as usize], vs)),
            Err(x) => Err(x),
        },
        _ => Err(EvalError::TypeMismatch),
    }
}

/// Values of a list of expressions, left to right; the first failure wins.
pub open spec fn flat_list_value(es: Seq<ExprV>) -> Result<Seq<ValueV>, EvalError>
    decreases es,
{
    if es.len() == 0 {
        Ok(Seq::empty())
    } else {
        match flat_list_value(es.subrange(0, es.len() - 1)) {
            Err(x) => Err(x),
            Ok(vs) => match flat_value(es[es.len() - 1]) {
                Ok(v) => Ok(vs.push(v)),
                Err(x) => Err(x),
            },
        }
    }
}

/// A flat expression evaluates to its flat value, given enough depth.
pub proof fn lemma_flat_eval(fuel: nat, e: ExprV, env: EnvV, g: Seq<(String, ValueV)>)
    requires
        flat_expr(e),
        fuel > flat_depth(e),
    ensures
        eval_spec(fuel, e, env, g) == flat_value(e),
    decreases e,
{
    match e {
        ExprV::BinOp(op, l, r) => {
            let f1 = (fuel - 1) as nat;
            lemma_flat_eval(f1, *l, env, g);
            lemma_flat_eval(f1, *r, env, g);
        },
        ExprV::UnaryOp(op, x) => {
            lemma_flat_eval((fuel - 1) as nat, *x, env, g);
        },
        ExprV::Array(es) => {
            lemma_list_eval(fuel, es, env, g);
        },
        _ => {},
    }
}

/// A list of flat expressions evaluates to its values, given enough depth.
proof fn lemma_list_eval(fuel: nat, es: Seq<ExprV>, env: EnvV, g: Seq<(String, ValueV)>)
    requires
        all_flat(es),
        fuel > 1 + flat_depth_list(es),
    ensures
        eval_list_spec(fuel, es, env, g) == flat_list_value(es),
    decreases es,
{
    if es.len() > 0 {
        let pre = es.subrange(0, es.len() - 1);
        lemma_list_eval(fuel, pre, env, g);
        lemma_flat_eval((fuel - 1) as nat, es[es.len() - 1], env, g);
    }
}

} // verus!
