//! The evaluator: environments, application with currying, and evaluation of
//! every expression form, each proved to follow `semantics::eval_spec`.
use crate::error::EvalError;
use crate::expr::{BinOp, Expr, ExprV, MatchArm};
use crate::literal::Literal;
use crate::matching::try_match;
use crate::ops::same_result;
use crate::prims::{binop_values, call_prim, dot, unary_value};
use crate::semantics::{apply_spec, arith_depth, arith_expr, arith_value, arms_spec, compose_body, eval_list_spec, eval_spec, filter_spec, law_short_circuit, lemma_arith_eval, map_spec, push_all_spec, short_circuit};
use crate::value::{Closure, Env, EnvV, Globals, Prim, Tensor, Value, ValueV, global_lookup, globals_view, prim_arity, share, values_view};
use std::rc::Rc;
use vstd::prelude::*;

verus! {

broadcast use vstd::std_specs::vec::group_vec_axioms, vstd::seq::group_seq_axioms;

/// How deeply `Evaluator::eval` and `eval` let evaluation nest before it fails
/// with `DepthExceeded`; `Evaluator::eval_with_depth` takes the limit instead.
pub const MAX_DEPTH: u64 = 1000;

/// Value of a literal.
pub open spec fn literal_value(l: Literal) -> ValueV {
    match l {
        Literal::Int(n) => ValueV::Int(n),
        Literal::Float(b) => ValueV::Float(b),
        Literal::True => ValueV::Bool(true),
        Literal::False => ValueV::Bool(false),
        Literal::Unit => ValueV::Unit,
        Literal::Char(c) => ValueV::Char(c),
    }
}

pub fn literal_to_value(l: &Literal) -> (r: Value)
    ensures
        r@ == literal_value(*l),
{
    match l {
        Literal::Int(n) => Value::Int(*n),
        Literal::Float(b) => Value::Float(*b),
        Literal::True => Value::Bool(true),
        Literal::False => Value::Bool(false),
        Literal::Unit => Value::Unit,
        Literal::Char(c) => Value::Char(*c),
    }
}

/// `env` extended by the values of `bs`, pushed in order: the last becomes index 0.
pub fn push_all(env: &Env, bs: &Vec<Value>) -> (r: Env)
    ensures
        r@.globals == env@.globals,
        r@.frames.len() == env@.frames.len() + bs@.len(),
        forall|j: int| 0 <= j < bs@.len() ==> r@.frames[bs@.len() - 1 - j] == bs@[j]@,
        forall|j: int|
            0 <= j < env@.frames.len() ==> r@.frames[bs@.len() + j] == env@.frames[j],
        r@ == push_all_spec(env@, values_view(bs@)),
{
    let mut cur = env.share();
    let mut i: usize = 0;
    while i < bs.len()
        invariant
            i <= bs@.len(),
            cur@.globals == env@.globals,
            cur@.frames.len() == env@.frames.len() + i,
            forall|j: int| 0 <= j < i ==> cur@.frames[i - 1 - j] == bs@[j]@,
            forall|j: int| 0 <= j < env@.frames.len() ==> cur@.frames[i + j] == env@.frames[j],
        decreases bs@.len() - i,
    {
        cur = cur.push(bs[i].dup());
        i = i + 1;
    }
    proof {
        let bv = values_view(bs@);
        let want = push_all_spec(env@, bv);
        assert(cur@.frames =~= want.frames) by {
            assert forall|k: int| 0 <= k < cur@.frames.len() implies cur@.frames[k] == want.frames[k] by {
                if k < bs@.len() {
                    let j = bs@.len() - 1 - k;
                    assert(cur@.frames[bs@.len() - 1 - j] == bs@[j]@);
                    assert(bv[j] == bs@[j]@);
                } else {
                    assert(cur@.frames[bs@.len() + (k - bs@.len())] == env@.frames[k - bs@.len()]);
                }
            }
        }
    }
    cur
}

/// Number of arguments a callable takes in all.
pub open spec fn callable_arity(v: ValueV) -> int {
    match v {
        ValueV::Closure(a, _, _) => a as int,
        ValueV::Prim(p) => prim_arity(p) as int,
        _ => 0,
    }
}

/// Applies a callable to one argument: a closure or primitive whose arity this
/// argument completes runs; otherwise the argument is accumulated in a partial application.
pub fn apply(f: Value, arg: Value, g: &Globals, fuel: u64) -> (r: Result<Value, EvalError>)
    ensures
        !(f@ is Closure || f@ is Prim || f@ is Partial) && fuel > 0 ==> r == Err::<
            Value,
            EvalError,
        >(EvalError::NotCallable),
        fuel > 0 && (f@ is Closure || f@ is Prim) && 1 < callable_arity(f@) ==> (r matches Ok(v)
            && v@ == ValueV::Partial(Box::new(f@), seq![arg@])),
        fuel > 0 && f@ is Partial && (*f@->Partial_0 is Closure || *f@->Partial_0 is Prim)
            && f@->Partial_1.len() + 1 < callable_arity(*f@->Partial_0) ==> (r matches Ok(v) && v@
            == ValueV::Partial(f@->Partial_0, f@->Partial_1.push(arg@))),
        same_result(r, apply_spec(fuel as nat, f@, arg@, g@)),
    decreases fuel, 2nat,
{
    if fuel == 0 {
        return Err(EvalError::DepthExceeded);
    }
    let ghost fv = f@;
    let ghost av = arg@;
    let (callee, mut args) = match f {
        Value::Partial(c, a) => (*c, a),
        Value::Closure(_) | Value::Prim(_) => (f, Vec::new()),
        _ => {
            return Err(EvalError::NotCallable);
        },
    };
    let ghost before = values_view(args@);
    args.push(arg);
    proof {
        assert(values_view(args@) =~= before.push(av));
        if fv is Partial {
            assert(*fv->Partial_0 == callee@);
            assert(fv->Partial_1 == before);
        } else {
            assert(fv == callee@);
            assert(before.len() == 0);
            assert(before.push(av) =~= seq![av]);
        }
        assert(callee@ is Closure <==> callee is Closure);
        assert(callee@ is Prim <==> callee is Prim);
    }
    let arity = match &callee {
        Value::Closure(c) => c.arity,
        Value::Prim(p) => p.arity(),
        _ => {
            return Err(EvalError::NotCallable);
        },
    };
    if (args.len() as u64) < (arity as u64) {
        return Ok(Value::Partial(Box::new(callee), args));
    }
    match &callee {
        Value::Closure(c) => {
            let env = push_all(&c.env, &args);
            eval_in(&c.body, &env, g, fuel - 1)
        },
        Value::Prim(p) => call_prim(*p, &args),
        _ => Err(EvalError::NotCallable),
    }
}

proof fn lemma_list_stops(fuel: nat, es: Seq<ExprV>, env: EnvV, g: Seq<(String, ValueV)>, i: int)
    requires
        0 <= i <= es.len(),
        eval_list_spec(fuel, es.subrange(0, i), env, g) is Err,
    ensures
        eval_list_spec(fuel, es, env, g) == eval_list_spec(fuel, es.subrange(0, i), env, g),
    decreases es.len() - i,
{
    if i < es.len() {
        let t = es.subrange(0, i + 1);
        assert(t.subrange(0, t.len() - 1) =~= es.subrange(0, i));
        lemma_list_stops(fuel, es, env, g, i + 1);
    } else {
        assert(es.subrange(0, i) =~= es);
    }
}

/// Evaluates each of `es` left to right; the first failure aborts.
fn eval_list(es: &Vec<Expr>, env: &Env, g: &Globals, fuel: u64) -> (r: Result<
    Vec<Value>,
    EvalError,
>)
    requires
        fuel > 0,
    ensures
        r matches Ok(vs) ==> vs@.len() == es@.len(),
        match eval_list_spec(fuel as nat, crate::expr::exprs_view(es@), env@, g@) {
            Ok(vs) => r is Ok && values_view(r->Ok_0@) == vs,
            Err(e) => r == Err::<Vec<Value>, EvalError>(e),
        },
    decreases fuel, 0nat,
{
    let ghost ev = crate::expr::exprs_view(es@);
    let mut out: Vec<Value> = Vec::new();
    let mut i: usize = 0;
    assert(ev.subrange(0, 0) =~= Seq::<ExprV>::empty());
    assert(values_view(out@) =~= Seq::<ValueV>::empty());
    while i < es.len()
        invariant
            i <= es@.len(),
            out@.len() == i,
            fuel > 0,
            ev == crate::expr::exprs_view(es@),
            eval_list_spec(fuel as nat, ev.subrange(0, i as int), env@, g@) == Ok::<Seq<ValueV>, EvalError>(values_view(out@)),
        decreases es@.len() - i,
    {
        proof {
            let t = ev.subrange(0, i + 1);
            assert(t.subrange(0, t.len() - 1) =~= ev.subrange(0, i as int));
            assert(t[t.len() - 1] == es@[i as int]@);
        }
        let ghost before = out@;
        match eval_in(&es[i], env, g, fuel - 1) {
            Ok(v) => {
                out.push(v);
                proof {
                    assert(values_view(out@) =~= values_view(before).push(out@[i as int]@));
                }
            },
            Err(e) => {
                proof {
                    lemma_list_stops(fuel as nat, ev, env@, g@, i + 1);
                }
                return Err(e);
            },
        }
        i = i + 1;
    }
    assert(ev.subrange(0, ev.len() as int) =~= ev);
    Ok(out)
}

/// Result of `map` over a tensor of shape `shape`.
pub open spec fn map_result(fuel: nat, shape: Seq<usize>, ds: Seq<ValueV>, f: ValueV, g: Seq<(String, ValueV)>) -> Result<ValueV, EvalError> {
    match map_spec(fuel, ds, f, g) {
        Ok(rs) => Ok(ValueV::Tensor(shape, rs)),
        Err(e) => Err(e),
    }
}

/// Result of `filter` over a tensor.
pub open spec fn filter_result(fuel: nat, ds: Seq<ValueV>, f: ValueV, g: Seq<(String, ValueV)>) -> Result<ValueV, EvalError> {
    match filter_spec(fuel, ds, f, g) {
        Ok(rs) => Ok(ValueV::Tensor(seq![rs.len() as usize], rs)),
        Err(e) => Err(e),
    }
}

proof fn lemma_map_err(fuel: nat, ds: Seq<ValueV>, f: ValueV, g: Seq<(String, ValueV)>, i: int)
    requires
        0 <= i <= ds.len(),
        map_spec(fuel, ds.subrange(0, i), f, g) is Err,
    ensures
        map_spec(fuel, ds, f, g) == map_spec(fuel, ds.subrange(0, i), f, g),
    decreases ds.len() - i,
{
    if i < ds.len() {
        let t = ds.subrange(0, i + 1);
        assert(t.subrange(0, t.len() - 1) =~= ds.subrange(0, i));
        lemma_map_err(fuel, ds, f, g, i + 1);
    } else {
        assert(ds.subrange(0, i) =~= ds);
    }
}

proof fn lemma_filter_err(fuel: nat, ds: Seq<ValueV>, f: ValueV, g: Seq<(String, ValueV)>, i: int)
    requires
        0 <= i <= ds.len(),
        filter_spec(fuel, ds.subrange(0, i), f, g) is Err,
    ensures
        filter_spec(fuel, ds, f, g) == filter_spec(fuel, ds.subrange(0, i), f, g),
    decreases ds.len() - i,
{
    if i < ds.len() {
        let t = ds.subrange(0, i + 1);
        assert(t.subrange(0, t.len() - 1) =~= ds.subrange(0, i));
        lemma_filter_err(fuel, ds, f, g, i + 1);
    } else {
        assert(ds.subrange(0, i) =~= ds);
    }
}

/// `map` over a tensor: the callable applied to every element, shape kept.
fn map_tensor(t: &Tensor, f: &Value, g: &Globals, fuel: u64) -> (r: Result<Value, EvalError>)
    requires
        fuel > 0,
    ensures
        same_result(r, map_result(fuel as nat, t.shape@, values_view(t.data@), f@, g@)),
    decreases fuel, 0nat,
{
    let ghost dv = values_view(t.data@);
    let mut data: Vec<Value> = Vec::new();
    let mut i: usize = 0;
    assert(dv.subrange(0, 0) =~= Seq::<ValueV>::empty());
    assert(values_view(data@) =~= Seq::<ValueV>::empty());
    while i < t.data.len()
        invariant
            i <= t.data@.len(),
            fuel > 0,
            data@.len() == i,
            dv == values_view(t.data@),
            map_spec(fuel as nat, dv.subrange(0, i as int), f@, g@) == Ok::<Seq<ValueV>, EvalError>(values_view(data@)),
        decreases t.data@.len() - i,
    {
        proof {
            let q = dv.subrange(0, i + 1);
            assert(q.subrange(0, q.len() - 1) =~= dv.subrange(0, i as int));
            assert(q[q.len() - 1] == t.data@[i as int]@);
        }
        let ghost before = data@;
        match apply(f.dup(), t.data[i].dup(), g, fuel - 1) {
            Ok(x) => {
                data.push(x);
                proof {
                    assert(values_view(data@) =~= values_view(before).push(data@[i as int]@));
                }
            },
            Err(e) => {
                proof {
                    lemma_map_err(fuel as nat, dv, f@, g@, i + 1);
                }
                return Err(e);
            },
        }
        i = i + 1;
    }
    assert(dv.subrange(0, dv.len() as int) =~= dv);
    let shape = t.shape.clone();
    let ghost sh = shape@;
    let ghost rv = values_view(data@);
    let r = Value::Tensor(Tensor { shape, data });
    assert(r@ == ValueV::Tensor(sh, rv));
    Ok(r)
}

/// `filter` over a tensor: the elements for which the callable returns true, in
/// order, as a rank-1 tensor.
fn filter_tensor(t: &Tensor, f: &Value, g: &Globals, fuel: u64) -> (r: Result<Value, EvalError>)
    requires
        fuel > 0,
    ensures
        same_result(r, filter_result(fuel as nat, values_view(t.data@), f@, g@)),
    decreases fuel, 0nat,
{
    let ghost dv = values_view(t.data@);
    let mut data: Vec<Value> = Vec::new();
    let mut i: usize = 0;
    assert(dv.subrange(0, 0) =~= Seq::<ValueV>::empty());
    assert(values_view(data@) =~= Seq::<ValueV>::empty());
    while i < t.data.len()
        invariant
            i <= t.data@.len(),
            data@.len() <= i,
            fuel > 0,
            dv == values_view(t.data@),
            filter_spec(fuel as nat, dv.subrange(0, i as int), f@, g@) == Ok::<Seq<ValueV>, EvalError>(values_view(data@)),
        decreases t.data@.len() - i,
    {
        proof {
            let q = dv.subrange(0, i + 1);
            assert(q.subrange(0, q.len() - 1) =~= dv.subrange(0, i as int));
            assert(q[q.len() - 1] == t.data@[i as int]@);
        }
        let ghost before = data@;
        match apply(f.dup(), t.data[i].dup(), g, fuel - 1) {
            Ok(Value::Bool(true)) => {
                data.push(t.data[i].dup());
                proof {
                    assert(values_view(data@) =~= values_view(before).push(dv[i as int]));
                }
            },
            Ok(Value::Bool(false)) => {},
            Ok(_) => {
                proof {
                    lemma_filter_err(fuel as nat, dv, f@, g@, i + 1);
                }
                return Err(EvalError::TypeMismatch);
            },
            Err(e) => {
                proof {
                    lemma_filter_err(fuel as nat, dv, f@, g@, i + 1);
                }
                return Err(e);
            },
        }
        i = i + 1;
    }
    assert(dv.subrange(0, dv.len() as int) =~= dv);
    let mut shape: Vec<usize> = Vec::new();
    shape.push(data.len());
    let ghost sh = shape@;
    let ghost rv = values_view(data@);
    let r = Value::Tensor(Tensor { shape, data });
    proof {
        assert(sh =~= seq![rv.len() as usize]);
    }
    assert(r@ == ValueV::Tensor(sh, rv));
    Ok(r)
}

/// Evaluates the arms of a match in order against `v`.
fn eval_arms(arms: &Vec<MatchArm>, v: &Value, env: &Env, g: &Globals, fuel: u64) -> (r: Result<
    Value,
    EvalError,
>)
    requires
        fuel > 0,
    ensures
        same_result(r, arms_spec(fuel as nat, crate::expr::arms_view(arms@), 0, v@, env@, g@)),
    decreases fuel, 0nat,
{
    let ghost av = crate::expr::arms_view(arms@);
    let mut i: usize = 0;
    while i < arms.len()
        invariant
            i <= arms@.len(),
            fuel > 0,
            av == crate::expr::arms_view(arms@),
            arms_spec(fuel as nat, av, 0, v@, env@, g@) == arms_spec(fuel as nat, av, i as int, v@, env@, g@),
        decreases arms@.len() - i,
    {
        proof {
            assert(av[i as int] == arms@[i as int]@);
        }
        match try_match(&arms[i].pattern, v, env, g, fuel - 1) {
            Ok(Some(bs)) => {
                let inner = push_all(env, &bs);
                return eval_in(&arms[i].body, &inner, g, fuel - 1);
            },
            Ok(None) => {},
            Err(e) => {
                return Err(e);
            },
        }
        i = i + 1;
    }
    Err(EvalError::NonExhaustiveMatch)
}

/// Evaluates `expr` in `env`. A global name is looked up in the environment's
/// snapshot first, then in the evaluator's table `g`. Nesting deeper than `fuel`
/// fails with `DepthExceeded`.
pub fn eval_in(expr: &Expr, env: &Env, g: &Globals, fuel: u64) -> (r: Result<Value, EvalError>)
    ensures
        same_result(r, eval_spec(fuel as nat, expr@, env@, g@)),
    decreases fuel, 4nat,
{
    if fuel == 0 {
        return Err(EvalError::DepthExceeded);
    }
    match expr {
        Expr::Lit(l) => Ok(literal_to_value(l)),
        Expr::Idx(n) => match env.lookup_index(*n) {
            Some(v) => Ok(v),
            None => Err(EvalError::UnboundIndex(*n)),
        },
        Expr::Name(s) => match env.globals.get(s) {
            Some(v) => Ok(v),
            None => match g.get(s) {
                Some(v) => Ok(v),
                None => Err(EvalError::UndefinedName(s.clone())),
            },
        },
        Expr::Lam(body) => Ok(Value::closure(1, body.dup(), env.share())),
        Expr::App(_, _) => eval_app(expr, env, g, fuel),
        Expr::Let { .. } => eval_let(expr, env, g, fuel),
        Expr::BinOp(_, _, _) => eval_binop(expr, env, g, fuel),
        Expr::UnaryOp(op, x) => {
            let v = match eval_in(x, env, g, fuel - 1) {
                Ok(v) => v,
                Err(e) => {
                    return Err(e);
                },
            };
            unary_value(*op, &v)
        },
        Expr::If { cond, then_, else_ } => match eval_in(cond, env, g, fuel - 1) {
            Ok(Value::Bool(true)) => eval_in(then_, env, g, fuel - 1),
            Ok(Value::Bool(false)) => eval_in(else_, env, g, fuel - 1),
            Ok(_) => Err(EvalError::TypeMismatch),
            Err(e) => Err(e),
        },
        Expr::Match(scrutinee, arms) => {
            let v = match eval_in(scrutinee, env, g, fuel - 1) {
                Ok(v) => v,
                Err(e) => {
                    return Err(e);
                },
            };
            eval_arms(arms, &v, env, g, fuel - 1)
        },
        Expr::Tuple(_) | Expr::Array(_) => eval_aggregate(expr, env, g, fuel),
        Expr::Field(x, i) => match eval_in(x, env, g, fuel - 1) {
            Ok(Value::Tuple(vs)) => {
                proof {
                    assert(values_view(vs@).len() == vs@.len());
                }
                if (*i as usize) < vs.len() {
                    proof {
                        assert(values_view(vs@)[*i as int] == vs@[*i as int]@);
                    }
                    Ok(vs[*i as usize].dup())
                } else {
                    Err(EvalError::FieldOutOfRange(*i))
                }
            },
            Ok(_) => Err(EvalError::TypeMismatch),
            Err(e) => Err(e),
        },
        Expr::Variant(c, p) => {
            let payload = match p {
                Some(x) => match eval_in(x, env, g, fuel - 1) {
                    Ok(v) => Some(Box::new(v)),
                    Err(e) => {
                        return Err(e);
                    },
                },
                None => None,
            };
            Ok(Value::Variant(c.clone(), payload))
        },
        Expr::Annot(x, _) => eval_in(x, env, g, fuel - 1),
    }
}

/// Evaluates an application: function, then argument, then `apply`.
fn eval_app(expr: &Expr, env: &Env, g: &Globals, fuel: u64) -> (r: Result<Value, EvalError>)
    requires
        fuel > 0,
        expr is App,
    ensures
        same_result(r, eval_spec(fuel as nat, expr@, env@, g@)),
    decreases fuel, 3nat,
{
    match expr {
        Expr::App(func, arg) => {
            let f = match eval_in(func, env, g, fuel - 1) {
                Ok(v) => v,
                Err(e) => {
                    return Err(e);
                },
            };
            let a = match eval_in(arg, env, g, fuel - 1) {
                Ok(v) => v,
                Err(e) => {
                    return Err(e);
                },
            };
            apply(f, a, g, fuel - 1)
        },
        _ => Err(EvalError::TypeMismatch),
    }
}

/// Evaluates a let: the value, matched against the pattern, then the body with
/// the bindings pushed.
fn eval_let(expr: &Expr, env: &Env, g: &Globals, fuel: u64) -> (r: Result<Value, EvalError>)
    requires
        fuel > 0,
        expr is Let,
    ensures
        same_result(r, eval_spec(fuel as nat, expr@, env@, g@)),
    decreases fuel, 3nat,
{
    match expr {
        Expr::Let { pattern, value, body } => {
            let v = match eval_in(value, env, g, fuel - 1) {
                Ok(v) => v,
                Err(e) => {
                    return Err(e);
                },
            };
            match try_match(pattern, &v, env, g, fuel - 1) {
                Ok(Some(bs)) => {
                    let inner = push_all(env, &bs);
                    eval_in(body, &inner, g, fuel - 1)
                },
                Ok(None) => Err(EvalError::NonExhaustiveMatch),
                Err(e) => Err(e),
            }
        },
        _ => Err(EvalError::TypeMismatch),
    }
}

/// Evaluates a tuple or an array construction.
fn eval_aggregate(expr: &Expr, env: &Env, g: &Globals, fuel: u64) -> (r: Result<Value, EvalError>)
    requires
        fuel > 0,
        expr is Tuple || expr is Array,
    ensures
        same_result(r, eval_spec(fuel as nat, expr@, env@, g@)),
    decreases fuel, 3nat,
{
    match expr {
        Expr::Tuple(es) => {
            proof {
                assert(expr@ == ExprV::Tuple(crate::expr::exprs_view(es@)));
                assert(crate::expr::exprs_view(es@).len() == es@.len());
            }
            if es.len() == 0 {
                return Ok(Value::Unit);
            }
            let vs = match eval_list(es, env, g, fuel) {
                Ok(v) => v,
                Err(e) => {
                    return Err(e);
                },
            };
            let ghost vsv = vs@;
            let t = Value::Tuple(vs);
            assert(t@ == ValueV::Tuple(values_view(vsv)));
            Ok(t)
        },
        Expr::Array(es) => {
            let vs = match eval_list(es, env, g, fuel) {
                Ok(v) => v,
                Err(e) => {
                    return Err(e);
                },
            };
            let mut shape: Vec<usize> = Vec::new();
            shape.push(vs.len());
            let ghost vsv = vs@;
            let ghost sh = shape@;
            let t = Value::Tensor(Tensor { shape, data: vs });
            proof {
                assert(values_view(vsv).len() == vsv.len());
                assert(sh =~= seq![values_view(vsv).len() as usize]);
            }
            assert(t@ == ValueV::Tensor(sh, values_view(vsv)));
            Ok(t)
        },
        _ => Err(EvalError::TypeMismatch),
    }
}

/// Evaluates a binary operator: `and`/`or` short-circuit, map and filter apply
/// a callable over a tensor, composition builds a closure, the others
/// evaluate both operands and combine them.
fn eval_binop(expr: &Expr, env: &Env, g: &Globals, fuel: u64) -> (r: Result<Value, EvalError>)
    requires
        fuel > 0,
        expr is BinOp,
    ensures
        same_result(r, eval_spec(fuel as nat, expr@, env@, g@)),
    decreases fuel, 3nat,
{
    match expr {
        Expr::BinOp(op, left, right) => {
            match op {
                BinOp::And | BinOp::Or => {
                    let l = match eval_in(left, env, g, fuel - 1) {
                        Ok(v) => v,
                        Err(e) => {
                            return Err(e);
                        },
                    };
                    let lb = match l {
                        Value::Bool(b) => b,
                        _ => {
                            return Err(EvalError::TypeMismatch);
                        },
                    };
                    if (*op == BinOp::And && !lb) || (*op == BinOp::Or && lb) {
                        return Ok(Value::Bool(lb));
                    }
                    match eval_in(right, env, g, fuel - 1) {
                        Ok(Value::Bool(b)) => Ok(Value::Bool(b)),
                        Ok(_) => Err(EvalError::TypeMismatch),
                        Err(e) => Err(e),
                    }
                },
                BinOp::MapEach | BinOp::Filter => {
                    let xs = match eval_in(left, env, g, fuel - 1) {
                        Ok(v) => v,
                        Err(e) => {
                            return Err(e);
                        },
                    };
                    let f = match eval_in(right, env, g, fuel - 1) {
                        Ok(v) => v,
                        Err(e) => {
                            return Err(e);
                        },
                    };
                    match &xs {
                        Value::Tensor(t) => {
                            proof {
                                assert(xs@ == ValueV::Tensor(t.shape@, values_view(t.data@)));
                            }
                            if *op == BinOp::MapEach {
                                map_tensor(t, &f, g, fuel - 1)
                            } else {
                                filter_tensor(t, &f, g, fuel - 1)
                            }
                        },
                        _ => Err(EvalError::TypeMismatch),
                    }
                },
                BinOp::Compose => {
                    let f = match eval_in(left, env, g, fuel - 1) {
                        Ok(v) => v,
                        Err(e) => {
                            return Err(e);
                        },
                    };
                    let h = match eval_in(right, env, g, fuel - 1) {
                        Ok(v) => v,
                        Err(e) => {
                            return Err(e);
                        },
                    };
                    if !f.is_callable() || !h.is_callable() {
                        return Err(EvalError::NotCallable);
                    }
                    let ghost fv = f@;
                    let ghost hv = h@;
                    let base = Env::with_globals(share(&env.globals));
                    let inner = base.push(f).push(h);
                    proof {
                        assert(inner@.frames =~= seq![hv, fv]);
                    }
                    let inner_app = Expr::app(Expr::idx(1), Expr::idx(0));
                    let body = Expr::app(Expr::idx(2), inner_app);
                    assert(body@ == compose_body());
                    assert(inner@.globals == env@.globals);
                    Ok(Value::closure(1, body, inner))
                },
                _ => {
                    let a = match eval_in(left, env, g, fuel - 1) {
                        Ok(v) => v,
                        Err(e) => {
                            return Err(e);
                        },
                    };
                    let b = match eval_in(right, env, g, fuel - 1) {
                        Ok(v) => v,
                        Err(e) => {
                            return Err(e);
                        },
                    };
                    binop_values(*op, &a, &b)
                },
            }
        },
        _ => Err(EvalError::TypeMismatch),
    }
}


/// The table `g` without its bindings of `name`.
pub open spec fn without(g: Seq<(String, ValueV)>, name: Seq<char>) -> Seq<(String, ValueV)>
    decreases g.len(),
{
    if g.len() == 0 {
        g
    } else if g[0].0@ == name {
        without(g.subrange(1, g.len() as int), name)
    } else {
        seq![g[0]] + without(g.subrange(1, g.len() as int), name)
    }
}

/// Removing the bindings of one name changes no other name's lookup.
proof fn lemma_without_lookup(g: Seq<(String, ValueV)>, name: Seq<char>, n: Seq<char>)
    requires
        n != name,
    ensures
        global_lookup(without(g, name), n) == global_lookup(g, n),
    decreases g.len(),
{
    if g.len() > 0 {
        let t = g.subrange(1, g.len() as int);
        lemma_without_lookup(t, name, n);
        if g[0].0@ != name {
            let w = seq![g[0]] + without(t, name);
            assert(w[0] == g[0]);
            assert(w.subrange(1, w.len() as int) =~= without(t, name));
        }
    }
}

/// A stateful evaluator owning a global name table that starts with the primitives.
pub struct Evaluator {
    globals: Rc<Globals>,
}

impl View for Evaluator {
    type V = Seq<(String, ValueV)>;

    closed spec fn view(&self) -> Seq<(String, ValueV)> {
        self.globals@
    }
}

/// The primitives, in the order a new evaluator's table lists them.
pub open spec fn prim_order() -> Seq<Prim> {
    seq![
        Prim::Add,
        Prim::Sub,
        Prim::Mul,
        Prim::Div,
        Prim::Mod,
        Prim::Abs,
        Prim::Neg,
        Prim::Max,
        Prim::Min,
        Prim::Sqrt,
        Prim::Floor,
        Prim::Ceil,
        Prim::Dot,
        Prim::Sum,
        Prim::Len,
    ]
}

/// Name of a primitive in the global table.
pub open spec fn prim_name_spec(p: Prim) -> Seq<char> {
    match p {
        Prim::Add => "add"@,
        Prim::Sub => "sub"@,
        Prim::Mul => "mul"@,
        Prim::Div => "div"@,
        Prim::Mod => "mod"@,
        Prim::Abs => "abs"@,
        Prim::Neg => "neg"@,
        Prim::Max => "max"@,
        Prim::Min => "min"@,
        Prim::Sqrt => "sqrt"@,
        Prim::Floor => "floor"@,
        Prim::Ceil => "ceil"@,
        Prim::Dot => "dot"@,
        Prim::Sum => "sum"@,
        Prim::Len => "len"@,
    }
}

/// Whether `t` is a new evaluator's table: each primitive under its name, in order.
pub open spec fn prim_table(t: Seq<(String, ValueV)>) -> bool {
    &&& t.len() == prim_order().len()
    &&& forall|i: int|
        0 <= i < t.len() ==> (#[trigger] t[i]).0@ == prim_name_spec(prim_order()[i]) && t[i].1
            == ValueV::Prim(prim_order()[i])
}

/// Name of a primitive in the global table.
pub fn prim_name(p: Prim) -> (r: String)
    ensures
        r@ == prim_name_spec(p),
{
    let s = match p {
        Prim::Add => "add",
        Prim::Sub => "sub",
        Prim::Mul => "mul",
        Prim::Div => "div",
        Prim::Mod => "mod",
        Prim::Abs => "abs",
        Prim::Neg => "neg",
        Prim::Max => "max",
        Prim::Min => "min",
        Prim::Sqrt => "sqrt",
        Prim::Floor => "floor",
        Prim::Ceil => "ceil",
        Prim::Dot => "dot",
        Prim::Sum => "sum",
        Prim::Len => "len",
    };
    s.to_string()
}

impl Evaluator {
    /// An evaluator whose global table holds the primitives.
    pub fn new() -> (r: Evaluator)
        ensures
            prim_table(r@),
    {
        let prims = [
            Prim::Add,
            Prim::Sub,
            Prim::Mul,
            Prim::Div,
            Prim::Mod,
            Prim::Abs,
            Prim::Neg,
            Prim::Max,
            Prim::Min,
            Prim::Sqrt,
            Prim::Floor,
            Prim::Ceil,
            Prim::Dot,
            Prim::Sum,
            Prim::Len,
        ];
        assert(prims@ =~= prim_order());
        let mut entries: Vec<(String, Value)> = Vec::new();
        let mut i: usize = 0;
        while i < prims.len()
            invariant
                i <= prims@.len(),
                prims@ == prim_order(),
                entries@.len() == i,
                forall|j: int|
                    0 <= j < i ==> (#[trigger] entries@[j]).0@ == prim_name_spec(prim_order()[j])
                        && entries@[j].1@ == ValueV::Prim(prim_order()[j]),
            decreases prims@.len() - i,
        {
            entries.push((prim_name(prims[i]), Value::Prim(prims[i])));
            i = i + 1;
        }
        let ghost e = entries@;
        let r = Evaluator { globals: Rc::new(Globals { entries }) };
        proof {
            assert(r@ == globals_view(e));
            assert forall|j: int| 0 <= j < r@.len() implies (#[trigger] r@[j]).0@ == prim_name_spec(prim_order()[j]) && r@[j].1 == ValueV::Prim(prim_order()[j]) by {
                assert(r@[j] == (e[j].0, e[j].1@));
            }
        }
        r
    }

    /// The current global table, shared.
    pub fn globals(&self) -> (r: Rc<Globals>)
        ensures
            r@ == self@,
    {
        share(&self.globals)
    }

    /// Binds `name` to `value` in the global table, replacing an earlier binding;
    /// every other name keeps its binding. Environments that hold the previous
    /// table keep seeing it.
    pub fn define(&mut self, name: &str, value: Value)
        ensures
            global_lookup(final(self)@, name@) == Some(value@),
            forall|n: Seq<char>|
                n != name@ ==> #[trigger] global_lookup(final(self)@, n) == global_lookup(
                    old(self)@,
                    n,
                ),
    {
        let key = name.to_string();
        let probe = key.clone();
        let ghost v0 = value@;
        let ghost g = self@;
        let mut entries: Vec<(String, Value)> = Vec::new();
        entries.push((key, value));
        let old = &self.globals.entries;
        let mut i: usize = 0;
        proof {
            assert(g.subrange(0, g.len() as int) =~= g);
            assert(globals_view(entries@).subrange(1, 1) + without(g, name@) =~= without(g, name@));
        }
        while i < old.len()
            invariant
                i <= old@.len(),
                g == globals_view(old@),
                probe@ == name@,
                entries@.len() >= 1,
                entries@[0].0@ == name@,
                entries@[0].1@ == v0,
                globals_view(entries@).subrange(1, entries@.len() as int) + without(
                    g.subrange(i as int, g.len() as int),
                    name@,
                ) == without(g, name@),
            decreases old@.len() - i,
        {
            let ghost rest = g.subrange(i as int, g.len() as int);
            let ghost before = globals_view(entries@).subrange(1, entries@.len() as int);
            proof {
                assert(rest[0] == g[i as int]);
                assert(rest.subrange(1, rest.len() as int) =~= g.subrange(i + 1, g.len() as int));
                assert(g[i as int].0 == old@[i as int].0);
            }
            if !(old[i].0 == probe) {
                entries.push((old[i].0.clone(), old[i].1.dup()));
                proof {
                    assert(globals_view(entries@).subrange(1, entries@.len() as int) =~= before.push(g[i as int]));
                    assert(before.push(g[i as int]) + without(g.subrange(i + 1, g.len() as int), name@)
                        =~= before + without(rest, name@));
                }
            } else {
                proof {
                    assert(globals_view(entries@).subrange(1, entries@.len() as int) == before);
                }
            }
            i = i + 1;
        }
        let ghost e = entries@;
        self.globals = Rc::new(Globals { entries });
        proof {
            assert(g.subrange(g.len() as int, g.len() as int) =~= Seq::<(String, ValueV)>::empty());
            assert(self@ == globals_view(e));
            assert(self@[0].0@ == name@);
            let w = without(g, name@);
            assert(self@.subrange(1, self@.len() as int) =~= w);
            assert forall|n: Seq<char>| n != name@ implies #[trigger] global_lookup(self@, n) == global_lookup(g, n) by {
                lemma_without_lookup(g, name@, n);
            }
        }
    }

    /// Evaluates `expr` in an empty environment over the current global table,
    /// failing with `DepthExceeded` past `depth` nested evaluations.
    pub fn eval_with_depth(&self, expr: &Expr, depth: u64) -> (r: Result<Value, EvalError>)
        ensures
            same_result(
                r,
                eval_spec(depth as nat, expr@, EnvV { frames: Seq::empty(), globals: self@ }, self@),
            ),
    {
        let env = Env::with_globals(share(&self.globals));
        assert(env@ =~= EnvV { frames: Seq::empty(), globals: self@ });
        eval_in(expr, &env, &self.globals, depth)
    }

    /// Evaluates `expr` in an empty environment over the current global table,
    /// with the nesting limit `MAX_DEPTH` (see `eval_with_depth` for another).
    pub fn eval(&self, expr: &Expr) -> (r: Result<Value, EvalError>)
        ensures
            same_result(
                r,
                eval_spec(
                    MAX_DEPTH as nat,
                    expr@,
                    EnvV { frames: Seq::empty(), globals: self@ },
                    self@,
                ),
            ),
            expr@ is Lit ==> (r matches Ok(v) && v@ == literal_value(expr@->Lit_0)),
            expr@ is Idx ==> r == Err::<Value, EvalError>(EvalError::UnboundIndex(expr@->Idx_0)),
            arith_expr(expr@) && arith_depth(expr@) < MAX_DEPTH ==> same_result(
                r,
                arith_value(expr@),
            ),
            short_circuit(expr@) is Some ==> (r matches Ok(v) && v@ == ValueV::Bool(
                short_circuit(expr@)->0,
            )),
    {
        let env = Env::with_globals(share(&self.globals));
        proof {
            assert(env@ =~= EnvV { frames: Seq::empty(), globals: self@ });
            if arith_expr(expr@) && arith_depth(expr@) < MAX_DEPTH {
                lemma_arith_eval(MAX_DEPTH as nat, expr@, env@, self@);
            }
            if short_circuit(expr@) is Some {
                let e = expr@;
                law_short_circuit(MAX_DEPTH as nat, *e->BinOp_2, env@, self@);
            }
        }
        eval_in(expr, &env, &self.globals, MAX_DEPTH)
    }
}

/// Evaluates `expr` with a fresh evaluator, whose table holds the primitives.
pub fn eval(expr: &Expr) -> (r: Result<Value, EvalError>)
    ensures
        exists|t: Seq<(String, ValueV)>|
            prim_table(t) && same_result(
                r,
                #[trigger] eval_spec(MAX_DEPTH as nat, expr@, EnvV { frames: Seq::empty(), globals: t }, t),
            ),
        expr@ is Lit ==> (r matches Ok(v) && v@ == literal_value(expr@->Lit_0)),
        expr@ is Idx ==> r == Err::<Value, EvalError>(EvalError::UnboundIndex(expr@->Idx_0)),
        arith_expr(expr@) && arith_depth(expr@) < MAX_DEPTH ==> same_result(r, arith_value(expr@)),
        short_circuit(expr@) is Some ==> (r matches Ok(v) && v@ == ValueV::Bool(
            short_circuit(expr@)->0,
        )),
{
    let e = Evaluator::new();
    let r = e.eval(expr);
    proof {
        let t = e@;
        assert(prim_table(t) && same_result(
            r,
            eval_spec(MAX_DEPTH as nat, expr@, EnvV { frames: Seq::empty(), globals: t }, t),
        ));
    }
    r
}

} // verus!
