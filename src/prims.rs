//! Primitive functions and the value-level operators they share with evaluation.
use crate::error::EvalError;
use crate::expr::{BinOp, UnaryOp};
use crate::ops::{abs_value, broadcast_binop, int_arith_spec, is_arith, same_result, scalar_binop, scalar_unary};
use crate::value::{Prim, Tensor, Value, ValueV, values_view};
use vstd::prelude::*;

verus! {

broadcast use vstd::std_specs::vec::group_vec_axioms, vstd::seq::group_seq_axioms;

/// The operator a binary arithmetic primitive stands for.
pub open spec fn prim_binop(p: Prim) -> BinOp {
    match p {
        Prim::Add => BinOp::Add,
        Prim::Sub => BinOp::Sub,
        Prim::Mul => BinOp::Mul,
        Prim::Div => BinOp::Div,
        _ => BinOp::Mod,
    }
}

/// Result of a primitive on its argument list.
pub open spec fn prim_spec(p: Prim, args: Seq<ValueV>) -> Result<ValueV, EvalError> {
    if args.len() == 0 {
        Err(EvalError::TypeMismatch)
    } else {
        let a = args[0];
        match p {
            Prim::Add | Prim::Sub | Prim::Mul | Prim::Div | Prim::Mod => if args.len() < 2 {
                Err(EvalError::TypeMismatch)
            } else {
                crate::ops::binop_values_spec(prim_binop(p), a, args[1])
            },
            Prim::Max | Prim::Min => if args.len() < 2 {
                Err(EvalError::TypeMismatch)
            } else {
                match (a, args[1]) {
                    (ValueV::Int(x), ValueV::Int(y)) => Ok(
                        ValueV::Int(
                            if (p is Max && x >= y) || (p is Min && x <= y) {
                                x
                            } else {
                                y
                            },
                        ),
                    ),
                    (ValueV::Float(_), ValueV::Float(_)) | (ValueV::Float(_), ValueV::Int(_)) | (
                        ValueV::Int(_),
                        ValueV::Float(_),
                    ) => Err(EvalError::FloatUnsupported),
                    _ => Err(EvalError::TypeMismatch),
                }
            },
            Prim::Abs => crate::ops::abs_spec(a),
            Prim::Neg => unary_spec(UnaryOp::Neg, a),
            Prim::Sqrt => unary_spec(UnaryOp::Sqrt, a),
            Prim::Floor => unary_spec(UnaryOp::Floor, a),
            Prim::Ceil => unary_spec(UnaryOp::Ceil, a),
            Prim::Sum => unary_spec(UnaryOp::Sum, a),
                Prim::Len => match a {
                ValueV::Tensor(_, d) => if d.len() > i64::MAX {
                    Err(EvalError::Overflow)
                } else {
                    Ok(ValueV::Int(d.len() as i64))
                },
                ValueV::Tuple(vs) => if vs.len() > i64::MAX {
                    Err(EvalError::Overflow)
                } else {
                    Ok(ValueV::Int(vs.len() as i64))
                },
                _ => Err(EvalError::TypeMismatch),
            },
        Prim::Dot => if args.len() < 2 {
                Err(EvalError::TypeMismatch)
            } else {
                dot_value_spec(a, args[1])
            },
        }
    }
}

/// Runs a primitive on its full argument list.
pub(crate) fn call_prim(p: Prim, args: &Vec<Value>) -> (r: Result<Value, EvalError>)
    ensures
        same_result(r, prim_spec(p, values_view(args@))),
{
    proof {
        assert(values_view(args@).len() == args@.len());
        if args@.len() > 0 {
            assert(values_view(args@)[0] == args@[0]@);
        }
        if args@.len() > 1 {
            assert(values_view(args@)[1] == args@[1]@);
        }
    }
    if args.len() == 0 {
        return Err(EvalError::TypeMismatch);
    }
    let a = &args[0];
    match p {
        Prim::Add | Prim::Sub | Prim::Mul | Prim::Div | Prim::Mod => {
            if args.len() < 2 {
                return Err(EvalError::TypeMismatch);
            }
            let op = match p {
                Prim::Add => BinOp::Add,
                Prim::Sub => BinOp::Sub,
                Prim::Mul => BinOp::Mul,
                Prim::Div => BinOp::Div,
                _ => BinOp::Mod,
            };
            binop_values(op, a, &args[1])
        },
        Prim::Max | Prim::Min => {
            if args.len() < 2 {
                return Err(EvalError::TypeMismatch);
            }
            match (a, &args[1]) {
                (Value::Int(x), Value::Int(y)) => {
                    let pick_x = if p == Prim::Max {
                        *x >= *y
                    } else {
                        *x <= *y
                    };
                    Ok(Value::Int(
                        if pick_x {
                            *x
                        } else {
                            *y
                        },
                    ))
                },
                (Value::Float(_), Value::Float(_)) | (Value::Float(_), Value::Int(_)) | (
                    Value::Int(_),
                    Value::Float(_),
                ) => Err(EvalError::FloatUnsupported),
                _ => Err(EvalError::TypeMismatch),
            }
        },
        Prim::Abs => abs_value(a),
        Prim::Neg => unary_value(UnaryOp::Neg, a),
        Prim::Sqrt => unary_value(UnaryOp::Sqrt, a),
        Prim::Floor => unary_value(UnaryOp::Floor, a),
        Prim::Ceil => unary_value(UnaryOp::Ceil, a),
        Prim::Sum => unary_value(UnaryOp::Sum, a),
        Prim::Len => match a {
            Value::Tensor(t) => {
                let n = t.data.len();
                proof {
                    assert(a@ == ValueV::Tensor(t.shape@, values_view(t.data@)));
                    assert(values_view(t.data@).len() == n);
                }
                if (n as u128) > (i64::MAX as u128) {
                    return Err(EvalError::Overflow);
                }
                Ok(Value::Int(n as i64))
            },
            Value::Tuple(vs) => {
                let n = vs.len();
                proof {
                    assert(a@ == ValueV::Tuple(values_view(vs@)));
                    assert(values_view(vs@).len() == n);
                }
                if (n as u128) > (i64::MAX as u128) {
                    return Err(EvalError::Overflow);
                }
                Ok(Value::Int(n as i64))
            },
            _ => Err(EvalError::TypeMismatch),
        },
        Prim::Dot => {
            if args.len() < 2 {
                return Err(EvalError::TypeMismatch);
            }
            dot(a, &args[1])
        },
    }
}

/// Sum of the elementwise products of `xs` and `ys`, left to right, with
/// integer overflow checked.
pub open spec fn dot_spec(xs: Seq<ValueV>, ys: Seq<ValueV>) -> Result<i64, EvalError>
    decreases xs.len(),
{
    if xs.len() == 0 {
        Ok(0)
    } else {
        match dot_spec(xs.subrange(0, xs.len() - 1), ys) {
            Err(e) => Err(e),
            Ok(acc) => match (xs[xs.len() - 1], ys[xs.len() - 1]) {
                (ValueV::Int(p), ValueV::Int(q)) => if !crate::ops::in_i64(p * q) {
                    Err(EvalError::Overflow)
                } else if !crate::ops::in_i64(acc + p * q) {
                    Err(EvalError::Overflow)
                } else {
                    Ok((acc + p * q) as i64)
                },
                (ValueV::Float(_), _) | (_, ValueV::Float(_)) => Err(EvalError::FloatUnsupported),
                _ => Err(EvalError::TypeMismatch),
            },
        }
    }
}

proof fn lemma_dot_err(xs: Seq<ValueV>, ys: Seq<ValueV>, i: int)
    requires
        0 <= i <= xs.len(),
        dot_spec(xs.subrange(0, i), ys) is Err,
    ensures
        dot_spec(xs, ys) == dot_spec(xs.subrange(0, i), ys),
    decreases xs.len() - i,
{
    if i < xs.len() {
        let t = xs.subrange(0, i + 1);
        assert(t.subrange(0, t.len() - 1) =~= xs.subrange(0, i));
        lemma_dot_err(xs, ys, i + 1);
    } else {
        assert(xs.subrange(0, i) =~= xs);
    }
}

/// Result of `dot`.
pub open spec fn dot_value_spec(a: ValueV, b: ValueV) -> Result<ValueV, EvalError> {
    match (a, b) {
        (ValueV::Tensor(sa, da), ValueV::Tensor(sb, db)) => if sa.len() != 1 || sb.len() != 1
            || da.len() != db.len() {
            Err(EvalError::ShapeMismatch)
        } else {
            match dot_spec(da, db) {
                Ok(n) => Ok(ValueV::Int(n)),
                Err(e) => Err(e),
            }
        },
        _ => Err(EvalError::TypeMismatch),
    }
}

/// Elementwise product sum of two equal-length rank-1 tensors.
pub fn dot(a: &Value, b: &Value) -> (r: Result<Value, EvalError>)
    ensures
        same_result(r, dot_value_spec(a@, b@)),
        !(a@ is Tensor && b@ is Tensor) ==> r == Err::<Value, EvalError>(EvalError::TypeMismatch),
        a@ is Tensor && b@ is Tensor && (a@->Tensor_0.len() != 1 || b@->Tensor_0.len() != 1
            || a@->Tensor_1.len() != b@->Tensor_1.len()) ==> r == Err::<Value, EvalError>(
            EvalError::ShapeMismatch,
        ),
        a@ is Tensor && b@ is Tensor && a@->Tensor_0.len() == 1 && b@->Tensor_0.len() == 1
            && a@->Tensor_1.len() == b@->Tensor_1.len() ==> match dot_spec(
            a@->Tensor_1,
            b@->Tensor_1,
        ) {
            Ok(n) => r is Ok && r->Ok_0@ == ValueV::Int(n),
            Err(e) => r == Err::<Value, EvalError>(e),
        },
{
    match (a, b) {
        (Value::Tensor(x), Value::Tensor(y)) => {
            proof {
                assert(a@ == ValueV::Tensor(x.shape@, values_view(x.data@)));
                assert(b@ == ValueV::Tensor(y.shape@, values_view(y.data@)));
                assert(values_view(x.data@).len() == x.data@.len());
                assert(values_view(y.data@).len() == y.data@.len());
            }
            if x.shape.len() != 1 || y.shape.len() != 1 || x.data.len() != y.data.len() {
                return Err(EvalError::ShapeMismatch);
            }
            let ghost xv = values_view(x.data@);
            let ghost yv = values_view(y.data@);
            let mut acc: i64 = 0;
            let mut i: usize = 0;
            assert(xv.subrange(0, 0) =~= Seq::<ValueV>::empty());
            while i < x.data.len()
                invariant
                    i <= x.data@.len(),
                    x.data@.len() == y.data@.len(),
                    xv == values_view(x.data@),
                    yv == values_view(y.data@),
                    a@ == ValueV::Tensor(x.shape@, xv),
                    b@ == ValueV::Tensor(y.shape@, yv),
                    x.shape@.len() == 1,
                    y.shape@.len() == 1,
                    xv.len() == yv.len(),
                    dot_spec(xv.subrange(0, i as int), yv) == Ok::<i64, EvalError>(acc),
                decreases x.data@.len() - i,
            {
                proof {
                    let t = xv.subrange(0, i + 1);
                    assert(t.subrange(0, t.len() - 1) =~= xv.subrange(0, i as int));
                    assert(t[t.len() - 1] == x.data@[i as int]@);
                    assert(yv[i as int] == y.data@[i as int]@);
                }
                match (&x.data[i], &y.data[i]) {
                    (Value::Int(p), Value::Int(q)) => {
                        let prod = match p.checked_mul(*q) {
                            Some(v) => v,
                            None => {
                                proof {
                                    lemma_dot_err(xv, yv, i + 1);
                                }
                                return Err(EvalError::Overflow);
                            },
                        };
                        acc = match acc.checked_add(prod) {
                            Some(v) => v,
                            None => {
                                proof {
                                    lemma_dot_err(xv, yv, i + 1);
                                }
                                return Err(EvalError::Overflow);
                            },
                        };
                    },
                    (Value::Float(_), _) | (_, Value::Float(_)) => {
                        proof {
                            lemma_dot_err(xv, yv, i + 1);
                        }
                        return Err(EvalError::FloatUnsupported);
                    },
                    _ => {
                        proof {
                            lemma_dot_err(xv, yv, i + 1);
                        }
                        return Err(EvalError::TypeMismatch);
                    },
                }
                i = i + 1;
            }
            assert(xv.subrange(0, xv.len() as int) =~= xv);
            Ok(Value::Int(acc))
        },
        _ => Err(EvalError::TypeMismatch),
    }
}

/// A binary operator (other than `and`, `or`, map, filter and composition) on two
/// values; a tensor operand is broadcast.
pub fn binop_values(op: BinOp, a: &Value, b: &Value) -> (r: Result<Value, EvalError>)
    ensures
        a@ is Int && b@ is Int && is_arith(op) ==> same_result(
            r,
            int_arith_spec(op, a@->Int_0, b@->Int_0),
        ),
        !(a@ is Tensor || b@ is Tensor) ==> same_result(
            r,
            crate::ops::scalar_binop_spec(op, a@, b@),
        ),
        a@ is Tensor || b@ is Tensor ==> crate::ops::broadcast_post(op, a@, b@, r),
        same_result(r, crate::ops::binop_values_spec(op, a@, b@)),
{
    if matches!(a, Value::Tensor(_)) || matches!(b, Value::Tensor(_)) {
        broadcast_binop(op, a, b)
    } else {
        scalar_binop(op, a, b)
    }
}

/// Sum of tensor elements, left to right: integers with overflow checked; a
/// float element needs float arithmetic; anything else is a type mismatch.
pub open spec fn sum_spec(ds: Seq<ValueV>) -> Result<i64, EvalError>
    decreases ds.len(),
{
    if ds.len() == 0 {
        Ok(0)
    } else {
        match sum_spec(ds.subrange(0, ds.len() - 1)) {
            Err(e) => Err(e),
            Ok(acc) => match ds[ds.len() - 1] {
                ValueV::Int(x) => if crate::ops::in_i64(acc + x) {
                    Ok((acc + x) as i64)
                } else {
                    Err(EvalError::Overflow)
                },
                ValueV::Float(_) => Err(EvalError::FloatUnsupported),
                _ => Err(EvalError::TypeMismatch),
            },
        }
    }
}

proof fn lemma_sum_err(ds: Seq<ValueV>, i: int)
    requires
        0 <= i <= ds.len(),
        sum_spec(ds.subrange(0, i)) is Err,
    ensures
        sum_spec(ds) == sum_spec(ds.subrange(0, i)),
    decreases ds.len() - i,
{
    if i < ds.len() {
        let t = ds.subrange(0, i + 1);
        assert(t.subrange(0, t.len() - 1) =~= ds.subrange(0, i));
        lemma_sum_err(ds, i + 1);
    } else {
        assert(ds.subrange(0, i) =~= ds);
    }
}

/// A unary operator on each element, left to right; the first failure wins.
pub open spec fn unary_map_spec(op: UnaryOp, ds: Seq<ValueV>) -> Result<Seq<ValueV>, EvalError>
    decreases ds.len(),
{
    if ds.len() == 0 {
        Ok(Seq::empty())
    } else {
        match unary_map_spec(op, ds.subrange(0, ds.len() - 1)) {
            Err(e) => Err(e),
            Ok(rs) => match crate::ops::scalar_unary_spec(op, ds[ds.len() - 1]) {
                Ok(v) => Ok(rs.push(v)),
                Err(e) => Err(e),
            },
        }
    }
}

proof fn lemma_unary_err(op: UnaryOp, ds: Seq<ValueV>, i: int)
    requires
        0 <= i <= ds.len(),
        unary_map_spec(op, ds.subrange(0, i)) is Err,
    ensures
        unary_map_spec(op, ds) == unary_map_spec(op, ds.subrange(0, i)),
    decreases ds.len() - i,
{
    if i < ds.len() {
        let t = ds.subrange(0, i + 1);
        assert(t.subrange(0, t.len() - 1) =~= ds.subrange(0, i));
        lemma_unary_err(op, ds, i + 1);
    } else {
        assert(ds.subrange(0, i) =~= ds);
    }
}

/// Result of a unary operator on a value.
pub open spec fn unary_spec(op: UnaryOp, a: ValueV) -> Result<ValueV, EvalError> {
    match a {
        ValueV::Tensor(sh, ds) => if op is Sum {
            match sum_spec(ds) {
                Ok(n) => Ok(ValueV::Int(n)),
                Err(e) => Err(e),
            }
        } else {
            match unary_map_spec(op, ds) {
                Ok(rs) => Ok(ValueV::Tensor(sh, rs)),
                Err(e) => Err(e),
            }
        },
        _ => crate::ops::scalar_unary_spec(op, a),
    }
}

/// A unary operator on a value: elementwise on a tensor, except `Sum`, which
/// reduces every element (an empty tensor sums to integer 0).
pub fn unary_value(op: UnaryOp, a: &Value) -> (r: Result<Value, EvalError>)
    ensures
        !(a@ is Tensor) ==> same_result(r, crate::ops::scalar_unary_spec(op, a@)),
        a@ is Tensor && op is Sum ==> match sum_spec(a@->Tensor_1) {
            Ok(n) => r is Ok && r->Ok_0@ == ValueV::Int(n),
            Err(e) => r == Err::<Value, EvalError>(e),
        },
        a@ is Tensor && !(op is Sum) && r is Ok ==> (r->Ok_0@ is Tensor && r->Ok_0@->Tensor_0
            == a@->Tensor_0 && r->Ok_0@->Tensor_1.len() == a@->Tensor_1.len()),
        same_result(r, unary_spec(op, a@)),
{
    match a {
        Value::Tensor(t) => {
            if op == UnaryOp::Sum {
                let ghost dv = values_view(t.data@);
                let mut acc: i64 = 0;
                let mut i: usize = 0;
                assert(dv.subrange(0, 0) =~= Seq::<ValueV>::empty());
                while i < t.data.len()
                    invariant
                        i <= t.data@.len(),
                        a@ is Tensor,
                        op == UnaryOp::Sum,
                        a@->Tensor_1 == dv,
                        dv == values_view(t.data@),
                        sum_spec(dv.subrange(0, i as int)) == Ok::<i64, EvalError>(acc),
                    decreases t.data@.len() - i,
                {
                    proof {
                        let q = dv.subrange(0, i + 1);
                        assert(q.subrange(0, q.len() - 1) =~= dv.subrange(0, i as int));
                        assert(q[q.len() - 1] == t.data@[i as int]@);
                    }
                    match &t.data[i] {
                        Value::Int(x) => {
                            acc = match acc.checked_add(*x) {
                                Some(s) => s,
                                None => {
                                    proof {
                                        lemma_sum_err(dv, i + 1);
                                    }
                                    return Err(EvalError::Overflow);
                                },
                            };
                        },
                        Value::Float(_) => {
                            proof {
                                lemma_sum_err(dv, i + 1);
                            }
                            return Err(EvalError::FloatUnsupported);
                        },
                        _ => {
                            proof {
                                lemma_sum_err(dv, i + 1);
                            }
                            return Err(EvalError::TypeMismatch);
                        },
                    }
                    i = i + 1;
                }
                assert(dv.subrange(0, dv.len() as int) =~= dv);
                Ok(Value::Int(acc))
            } else {
                let ghost dv0 = values_view(t.data@);
                let mut data: Vec<Value> = Vec::new();
                let mut i: usize = 0;
                assert(dv0.subrange(0, 0) =~= Seq::<ValueV>::empty());
                assert(values_view(data@) =~= Seq::<ValueV>::empty());
                while i < t.data.len()
                    invariant
                        i <= t.data@.len(),
                        data@.len() == i,
                        a@ is Tensor,
                        op != UnaryOp::Sum,
                        a@ == ValueV::Tensor(t.shape@, dv0),
                        dv0 == values_view(t.data@),
                        unary_map_spec(op, dv0.subrange(0, i as int)) == Ok::<Seq<ValueV>, EvalError>(values_view(data@)),
                    decreases t.data@.len() - i,
                {
                    proof {
                        let q = dv0.subrange(0, i + 1);
                        assert(q.subrange(0, q.len() - 1) =~= dv0.subrange(0, i as int));
                        assert(q[q.len() - 1] == t.data@[i as int]@);
                    }
                    let ghost before = data@;
                    match scalar_unary(op, &t.data[i]) {
                        Ok(x) => {
                            data.push(x);
                            proof {
                                assert(values_view(data@) =~= values_view(before).push(data@[i as int]@));
                            }
                        },
                        Err(e) => {
                            proof {
                                lemma_unary_err(op, dv0, i + 1);
                            }
                            return Err(e);
                        },
                    }
                    i = i + 1;
                }
                assert(dv0.subrange(0, dv0.len() as int) =~= dv0);
                let ghost n = data@.len();
                let ghost dv = values_view(data@);
                let shape = t.shape.clone();
                assert(shape@ == t.shape@);
                assert(a@ == ValueV::Tensor(t.shape@, values_view(t.data@)));
                let ghost sh = shape@;
                let r = Value::Tensor(Tensor { shape, data });
                assert(r@ == ValueV::Tensor(sh, dv));
                assert(dv.len() == n);
                Ok(r)
            }
        },
        _ => scalar_unary(op, a),
    }
}

} // verus!
