use crate::error::EvalError;
use crate::expr::{BinOp, UnaryOp};
use crate::value::{values_view, Tensor, Value, ValueV};
use vstd::prelude::*;

verus! {

broadcast use vstd::std_specs::vec::group_vec_axioms, vstd::seq::group_seq_axioms;

/// Integer quotient rounded toward zero.
pub open spec fn trunc_div(a: int, b: int) -> int {
    if (a >= 0) == (b > 0) || a == 0 {
        (vstd::math::abs(a) / vstd::math::abs(b)) as int
    } else {
        -(vstd::math::abs(a) / vstd::math::abs(b))
    }
}

/// Remainder of `trunc_div`: it has the sign of `a`.
pub open spec fn trunc_rem(a: int, b: int) -> int {
    if a >= 0 {
        (vstd::math::abs(a) % vstd::math::abs(b)) as int
    } else {
        -(vstd::math::abs(a) % vstd::math::abs(b))
    }
}

pub open spec fn is_arith(op: BinOp) -> bool {
    op is Add || op is Sub || op is Mul || op is Div || op is Mod
}

pub open spec fn in_i64(x: int) -> bool {
    i64::MIN <= x <= i64::MAX
}

/// Result of an arithmetic operator on two integers.
pub open spec fn int_arith_spec(op: BinOp, a: i64, b: i64) -> Result<ValueV, EvalError> {
    let x: int = match op {
        BinOp::Add => a + b,
        BinOp::Sub => a - b,
        BinOp::Mul => a * b,
        BinOp::Div => if b == 0 { 0 } else { trunc_div(a as int, b as int) },
        _ => if b == 0 { 0 } else { trunc_rem(a as int, b as int) },
    };
    if (op is Div || op is Mod) && b == 0 {
        Err(EvalError::DivisionByZero)
    } else if !in_i64(x) {
        Err(EvalError::Overflow)
    } else {
        Ok(ValueV::Int(x as i64))
    }
}

/// Result of a comparison operator on two integers.
pub open spec fn int_cmp_spec(op: BinOp, a: i64, b: i64) -> bool {
    match op {
        BinOp::Eq => a == b,
        BinOp::Neq => a != b,
        BinOp::Lt => a < b,
        BinOp::Le => a <= b,
        BinOp::Gt => a > b,
        _ => a >= b,
    }
}

proof fn lemma_checked_div(a: i64, b: i64)
    requires
        b != 0,
    ensures
        a.checked_div(b) == (if in_i64(trunc_div(a as int, b as int)) {
            Some(trunc_div(a as int, b as int) as i64)
        } else {
            None
        }),
{
}

proof fn lemma_checked_rem(a: i64, b: i64)
    requires
        b != 0,
        !(a == i64::MIN && b == -1),
    ensures
        in_i64(trunc_rem(a as int, b as int)),
        a.checked_rem(b) == Some(trunc_rem(a as int, b as int) as i64),
{
    let x = vstd::math::abs(a as int);
    let d = vstd::math::abs(b as int);
    assert(0 <= x % d < d) by (nonlinear_arith)
        requires
            d > 0,
    ;
    let ai = a as int;
    let bi = b as int;
    if ai == 0 {
        assert(x % d == 0) by (nonlinear_arith)
            requires
                x == 0,
                d > 0,
        ;
    } else if ai > 0 && bi > 0 {
        assert(x == ai && d == bi);
    } else if ai < 0 && bi < 0 {
        assert(ai * -1 == x && bi * -1 == d);
    } else if ai < 0 {
        assert(ai * -1 == x && bi == d);
    } else {
        assert(ai == x && bi * -1 == d);
    }
}

/// Arithmetic on two integers: checked, with division rounding toward zero.
pub fn int_arith(op: BinOp, a: i64, b: i64) -> (r: Result<Value, EvalError>)
    requires
        is_arith(op),
    ensures
        match (r, int_arith_spec(op, a, b)) {
            (Ok(v), Ok(w)) => v@ == w,
            (Err(e), Err(f)) => e == f,
            _ => false,
        },
{
    match op {
        BinOp::Add => match a.checked_add(b) {
            Some(x) => Ok(Value::Int(x)),
            None => Err(EvalError::Overflow),
        },
        BinOp::Sub => match a.checked_sub(b) {
            Some(x) => Ok(Value::Int(x)),
            None => Err(EvalError::Overflow),
        },
        BinOp::Mul => match a.checked_mul(b) {
            Some(x) => Ok(Value::Int(x)),
            None => Err(EvalError::Overflow),
        },
        BinOp::Div => {
            if b == 0 {
                return Err(EvalError::DivisionByZero);
            }
            proof {
                lemma_checked_div(a, b);
            }
            match a.checked_div(b) {
                Some(x) => Ok(Value::Int(x)),
                None => Err(EvalError::Overflow),
            }
        },
        _ => {
            if b == 0 {
                return Err(EvalError::DivisionByZero);
            }
            if a == i64::MIN && b == -1 {
                assert(trunc_rem(a as int, b as int) == 0) by (nonlinear_arith)
                    requires
                        a == i64::MIN,
                        b == -1,
                ;
                return Ok(Value::Int(0));
            }
            proof {
                lemma_checked_rem(a, b);
            }
            match a.checked_rem(b) {
                Some(x) => Ok(Value::Int(x)),
                None => Err(EvalError::Overflow),
            }
        },
    }
}

pub const SIGN_BIT: u64 = 0x8000_0000_0000_0000;

pub const EXP_MASK: u64 = 0x7ff0_0000_0000_0000;

pub const FRAC_MASK: u64 = 0x000f_ffff_ffff_ffff;

/// Whether a binary64 bit pattern is a NaN.
pub open spec fn is_nan(x: u64) -> bool {
    x & EXP_MASK == EXP_MASK && x & FRAC_MASK != 0
}

/// IEEE-754 equality of two binary64 bit patterns: NaN equals nothing, and the
/// two zeros are equal.
pub open spec fn float_eq_spec(x: u64, y: u64) -> bool {
    !is_nan(x) && !is_nan(y) && (x == y || (x & !SIGN_BIT == 0 && y & !SIGN_BIT == 0))
}

pub fn float_eq(x: u64, y: u64) -> (r: bool)
    ensures
        r == float_eq_spec(x, y),
{
    let nan_x = x & EXP_MASK == EXP_MASK && x & FRAC_MASK != 0;
    let nan_y = y & EXP_MASK == EXP_MASK && y & FRAC_MASK != 0;
    !nan_x && !nan_y && (x == y || (x & !SIGN_BIT == 0 && y & !SIGN_BIT == 0))
}

pub open spec fn is_cmp(op: BinOp) -> bool {
    op is Eq || op is Neq || op is Lt || op is Le || op is Gt || op is Ge
}

/// Result of a binary operator on two values that are not tensors.
pub open spec fn scalar_binop_spec(op: BinOp, a: ValueV, b: ValueV) -> Result<ValueV, EvalError> {
    match (a, b) {
        (ValueV::Int(x), ValueV::Int(y)) => if is_arith(op) {
            int_arith_spec(op, x, y)
        } else if is_cmp(op) {
            Ok(ValueV::Bool(int_cmp_spec(op, x, y)))
        } else {
            Err(EvalError::TypeMismatch)
        },
        (ValueV::Bool(x), ValueV::Bool(y)) => match op {
            BinOp::Eq => Ok(ValueV::Bool(x == y)),
            BinOp::Neq => Ok(ValueV::Bool(x != y)),
            BinOp::And => Ok(ValueV::Bool(x && y)),
            BinOp::Or => Ok(ValueV::Bool(x || y)),
            _ => Err(EvalError::TypeMismatch),
        },
        (ValueV::Char(x), ValueV::Char(y)) => match op {
            BinOp::Eq => Ok(ValueV::Bool(x == y)),
            BinOp::Neq => Ok(ValueV::Bool(x != y)),
            _ => Err(EvalError::TypeMismatch),
        },
        (ValueV::Unit, ValueV::Unit) => match op {
            BinOp::Eq => Ok(ValueV::Bool(true)),
            BinOp::Neq => Ok(ValueV::Bool(false)),
            _ => Err(EvalError::TypeMismatch),
        },
        (ValueV::Float(x), ValueV::Float(y)) => match op {
            BinOp::Eq => Ok(ValueV::Bool(float_eq_spec(x, y))),
            BinOp::Neq => Ok(ValueV::Bool(!float_eq_spec(x, y))),
            _ => if is_arith(op) || is_cmp(op) {
                Err(EvalError::FloatUnsupported)
            } else {
                Err(EvalError::TypeMismatch)
            },
        },
        (ValueV::Float(_), ValueV::Int(_)) | (ValueV::Int(_), ValueV::Float(_)) => if is_arith(op)
            || is_cmp(op) {
            Err(EvalError::FloatUnsupported)
        } else {
            Err(EvalError::TypeMismatch)
        },
        _ => Err(EvalError::TypeMismatch),
    }
}

pub open spec fn same_result(r: Result<Value, EvalError>, s: Result<ValueV, EvalError>) -> bool {
    match (r, s) {
        (Ok(v), Ok(w)) => v@ == w,
        (Err(e), Err(f)) => e == f,
        _ => false,
    }
}

/// A binary operator on two values that are not tensors.
pub fn scalar_binop(op: BinOp, a: &Value, b: &Value) -> (r: Result<Value, EvalError>)
    ensures
        same_result(r, scalar_binop_spec(op, a@, b@)),
{
    let arith = matches!(op, BinOp::Add | BinOp::Sub | BinOp::Mul | BinOp::Div | BinOp::Mod);
    let cmp = matches!(op, BinOp::Eq | BinOp::Neq | BinOp::Lt | BinOp::Le | BinOp::Gt | BinOp::Ge);
    match (a, b) {
        (Value::Int(x), Value::Int(y)) => {
            if arith {
                int_arith(op, *x, *y)
            } else if cmp {
                let c = match op {
                    BinOp::Eq => *x == *y,
                    BinOp::Neq => *x != *y,
                    BinOp::Lt => *x < *y,
                    BinOp::Le => *x <= *y,
                    BinOp::Gt => *x > *y,
                    _ => *x >= *y,
                };
                Ok(Value::Bool(c))
            } else {
                Err(EvalError::TypeMismatch)
            }
        },
        (Value::Bool(x), Value::Bool(y)) => match op {
            BinOp::Eq => Ok(Value::Bool(*x == *y)),
            BinOp::Neq => Ok(Value::Bool(*x != *y)),
            BinOp::And => Ok(Value::Bool(*x && *y)),
            BinOp::Or => Ok(Value::Bool(*x || *y)),
            _ => Err(EvalError::TypeMismatch),
        },
        (Value::Char(x), Value::Char(y)) => match op {
            BinOp::Eq => Ok(Value::Bool(*x == *y)),
            BinOp::Neq => Ok(Value::Bool(*x != *y)),
            _ => Err(EvalError::TypeMismatch),
        },
        (Value::Unit, Value::Unit) => match op {
            BinOp::Eq => Ok(Value::Bool(true)),
            BinOp::Neq => Ok(Value::Bool(false)),
            _ => Err(EvalError::TypeMismatch),
        },
        (Value::Float(x), Value::Float(y)) => match op {
            BinOp::Eq => Ok(Value::Bool(float_eq(*x, *y))),
            BinOp::Neq => Ok(Value::Bool(!float_eq(*x, *y))),
            _ => if arith || cmp {
                Err(EvalError::FloatUnsupported)
            } else {
                Err(EvalError::TypeMismatch)
            },
        },
        (Value::Float(_), Value::Int(_)) | (Value::Int(_), Value::Float(_)) => {
            if arith || cmp {
                Err(EvalError::FloatUnsupported)
            } else {
                Err(EvalError::TypeMismatch)
            }
        },
        _ => Err(EvalError::TypeMismatch),
    }
}

/// Result of a unary operator on a value that is not a tensor. `Sum` of a scalar is the scalar.
pub open spec fn scalar_unary_spec(op: UnaryOp, a: ValueV) -> Result<ValueV, EvalError> {
    match (op, a) {
        (UnaryOp::Neg, ValueV::Int(x)) => if x == i64::MIN {
            Err(EvalError::Overflow)
        } else {
            Ok(ValueV::Int(-x as i64))
        },
        (UnaryOp::Neg, ValueV::Float(x)) => Ok(ValueV::Float(x ^ SIGN_BIT)),
        (UnaryOp::Not, ValueV::Bool(b)) => Ok(ValueV::Bool(!b)),
        (UnaryOp::Floor, ValueV::Int(x)) => Ok(ValueV::Int(x)),
        (UnaryOp::Ceil, ValueV::Int(x)) => Ok(ValueV::Int(x)),
        (UnaryOp::Sum, ValueV::Int(x)) => Ok(ValueV::Int(x)),
        (UnaryOp::Sum, ValueV::Float(x)) => Ok(ValueV::Float(x)),
        (UnaryOp::Floor, ValueV::Float(_)) | (UnaryOp::Ceil, ValueV::Float(_)) | (
            UnaryOp::Sqrt,
            ValueV::Float(_),
        ) | (UnaryOp::Sqrt, ValueV::Int(_)) => Err(EvalError::FloatUnsupported),
        _ => Err(EvalError::TypeMismatch),
    }
}

/// A unary operator on a value that is not a tensor.
pub fn scalar_unary(op: UnaryOp, a: &Value) -> (r: Result<Value, EvalError>)
    ensures
        same_result(r, scalar_unary_spec(op, a@)),
{
    match (op, a) {
        (UnaryOp::Neg, Value::Int(x)) => {
            if *x == i64::MIN {
                Err(EvalError::Overflow)
            } else {
                Ok(Value::Int(-*x))
            }
        },
        (UnaryOp::Neg, Value::Float(x)) => Ok(Value::Float(*x ^ SIGN_BIT)),
        (UnaryOp::Not, Value::Bool(b)) => Ok(Value::Bool(!*b)),
        (UnaryOp::Floor, Value::Int(x)) => Ok(Value::Int(*x)),
        (UnaryOp::Ceil, Value::Int(x)) => Ok(Value::Int(*x)),
        (UnaryOp::Sum, Value::Int(x)) => Ok(Value::Int(*x)),
        (UnaryOp::Sum, Value::Float(x)) => Ok(Value::Float(*x)),
        (UnaryOp::Floor, Value::Float(_)) | (UnaryOp::Ceil, Value::Float(_)) | (
            UnaryOp::Sqrt,
            Value::Float(_),
        ) | (UnaryOp::Sqrt, Value::Int(_)) => Err(EvalError::FloatUnsupported),
        _ => Err(EvalError::TypeMismatch),
    }
}

/// Absolute value of a number; a float loses its sign bit.
pub open spec fn abs_spec(a: ValueV) -> Result<ValueV, EvalError> {
    match a {
        ValueV::Int(x) => if x == i64::MIN {
            Err(EvalError::Overflow)
        } else if x < 0 {
            Ok(ValueV::Int(-x as i64))
        } else {
            Ok(ValueV::Int(x))
        },
        ValueV::Float(x) => Ok(ValueV::Float(x & !SIGN_BIT)),
        _ => Err(EvalError::TypeMismatch),
    }
}

pub fn abs_value(a: &Value) -> (r: Result<Value, EvalError>)
    ensures
        same_result(r, abs_spec(a@)),
{
    match a {
        Value::Int(x) => {
            if *x == i64::MIN {
                Err(EvalError::Overflow)
            } else if *x < 0 {
                Ok(Value::Int(-*x))
            } else {
                Ok(Value::Int(*x))
            }
        },
        Value::Float(x) => Ok(Value::Float(*x & !SIGN_BIT)),
        _ => Err(EvalError::TypeMismatch),
    }
}

/// Size of dimension `k`, counted from the trailing end; a missing dimension has size 1.
pub open spec fn dim_from_end(s: Seq<usize>, k: int) -> usize {
    if 0 <= k < s.len() {
        s[s.len() - 1 - k]
    } else {
        1
    }
}

pub open spec fn max_len(a: Seq<usize>, b: Seq<usize>) -> nat {
    if a.len() >= b.len() {
        a.len()
    } else {
        b.len()
    }
}

/// Whether two shapes can be broadcast together: aligned from the trailing
/// dimension, each pair of sizes is equal or one of them is 1.
pub open spec fn broadcastable(a: Seq<usize>, b: Seq<usize>) -> bool {
    forall|k: int|
        0 <= k < max_len(a, b) ==> {
            let x = #[trigger] dim_from_end(a, k);
            let y = dim_from_end(b, k);
            x == y || x == 1 || y == 1
        }
}

/// The broadcast shape of two broadcastable shapes.
pub open spec fn broadcast_shape(a: Seq<usize>, b: Seq<usize>) -> Seq<usize> {
    let n = max_len(a, b);
    Seq::new(
        n,
        |i: int|
            if dim_from_end(a, n - 1 - i) == 1 {
                dim_from_end(b, n - 1 - i)
            } else {
                dim_from_end(a, n - 1 - i)
            },
    )
}

/// The broadcast of two shapes, if they are broadcastable.
pub fn broadcast_shapes(a: &Vec<usize>, b: &Vec<usize>) -> (r: Option<Vec<usize>>)
    ensures
        broadcastable(a@, b@) ==> (r matches Some(s) && s@ == broadcast_shape(a@, b@)),
        !broadcastable(a@, b@) ==> r is None,
{
    let n = if a.len() >= b.len() {
        a.len()
    } else {
        b.len()
    };
    let mut out: Vec<usize> = Vec::new();
    let mut i: usize = 0;
    while i < n
        invariant
            n == max_len(a@, b@),
            i <= n,
            out@.len() == i,
            forall|j: int| 0 <= j < i ==> out@[j] == broadcast_shape(a@, b@)[j],
            forall|k: int|
                n - i <= k < n ==> {
                    let x = #[trigger] dim_from_end(a@, k);
                    let y = dim_from_end(b@, k);
                    x == y || x == 1 || y == 1
                },
        decreases n - i,
    {
        let k = n - 1 - i;
        let x = if k < a.len() {
            a[a.len() - 1 - k]
        } else {
            1
        };
        let y = if k < b.len() {
            b[b.len() - 1 - k]
        } else {
            1
        };
        if x != y && x != 1 && y != 1 {
            assert(!broadcastable(a@, b@)) by {
                assert(dim_from_end(a@, k as int) == x);
            }
            return None;
        }
        out.push(if x == 1 {
            y
        } else {
            x
        });
        i = i + 1;
    }
    assert(out@ =~= broadcast_shape(a@, b@));
    Some(out)
}

/// Product of the dimensions of a shape.
pub open spec fn shape_size(s: Seq<usize>) -> nat
    decreases s.len(),
{
    if s.len() == 0 {
        1
    } else {
        shape_size(s.subrange(0, s.len() - 1)) * (s[s.len() - 1] as nat)
    }
}

/// Product of the dimensions, left to right; `None` once a partial product
/// leaves `usize`.
pub open spec fn checked_size_spec(s: Seq<usize>) -> Option<usize>
    decreases s.len(),
{
    if s.len() == 0 {
        Some(1)
    } else {
        match checked_size_spec(s.subrange(0, s.len() - 1)) {
            None => None,
            Some(acc) => if acc * s[s.len() - 1] > usize::MAX {
                None
            } else {
                Some((acc * s[s.len() - 1]) as usize)
            },
        }
    }
}

proof fn lemma_size_none(s: Seq<usize>, i: int)
    requires
        0 <= i <= s.len(),
        checked_size_spec(s.subrange(0, i)) is None,
    ensures
        checked_size_spec(s) is None,
    decreases s.len() - i,
{
    if i < s.len() {
        let t = s.subrange(0, i + 1);
        assert(t.subrange(0, t.len() - 1) =~= s.subrange(0, i));
        lemma_size_none(s, i + 1);
    } else {
        assert(s.subrange(0, i) =~= s);
    }
}

/// Product of the dimensions of a shape, if it fits in a `usize`.
pub fn checked_size(s: &Vec<usize>) -> (r: Option<usize>)
    ensures
        r matches Some(n) ==> n == shape_size(s@),
        r == checked_size_spec(s@),
{
    let mut acc: usize = 1;
    let mut i: usize = 0;
    while i < s.len()
        invariant
            i <= s@.len(),
            acc == shape_size(s@.subrange(0, i as int)),
            checked_size_spec(s@.subrange(0, i as int)) == Some(acc),
        decreases s@.len() - i,
    {
        proof {
            let t = s@.subrange(0, i + 1);
            assert(t.subrange(0, t.len() - 1) =~= s@.subrange(0, i as int));
        }
        match acc.checked_mul(s[i]) {
            Some(p) => {
                acc = p;
            },
            None => {
                proof {
                    lemma_size_none(s@, i + 1);
                }
                return None;
            },
        }
        i = i + 1;
    }
    assert(s@.subrange(0, s@.len() as int) =~= s@);
    Some(acc)
}

/// The walk of `source_index` over the dimensions `out[..j]`, from the last,
/// with the remaining flat index `rem`, the index built so far and the stride.
pub open spec fn src_walk(out: Seq<usize>, src: Seq<usize>, j: int, rem: nat, idx: nat, stride: nat) -> Option<usize>
    decreases j,
{
    if j <= 0 {
        if idx <= usize::MAX {
            Some(idx as usize)
        } else {
            None
        }
    } else {
        let jj = j - 1;
        let d = out[jj] as nat;
        if d == 0 {
            None
        } else {
            let coord = rem % d;
            let rem2 = rem / d;
            let offset = out.len() - src.len();
            if jj >= offset {
                let sd = src[jj - offset] as nat;
                let c: nat = if sd == 1 {
                    0
                } else {
                    coord
                };
                if c * stride > usize::MAX || idx + c * stride > usize::MAX || stride * sd > usize::MAX {
                    None
                } else {
                    src_walk(out, src, jj, rem2, idx + c * stride, stride * sd)
                }
            } else {
                src_walk(out, src, jj, rem2, idx, stride)
            }
        }
    }
}

/// `source_index`'s result.
pub open spec fn src_index_spec(k: nat, out: Seq<usize>, src: Seq<usize>) -> Option<usize> {
    src_walk(out, src, out.len() as int, k, 0, 1)
}

/// Flat index, in an operand of shape `src`, of the element that broadcasting
/// pairs with flat index `k` of the result of shape `out`.
pub fn source_index(k: usize, out: &Vec<usize>, src: &Vec<usize>) -> (r: Option<usize>)
    requires
        src@.len() <= out@.len(),
    ensures
        r == src_index_spec(k as nat, out@, src@),
{
    let mut rem: usize = k;
    let mut idx: usize = 0;
    let mut stride: usize = 1;
    let mut j: usize = out.len();
    let offset = out.len() - src.len();
    while j > 0
        invariant
            j <= out@.len(),
            offset == out@.len() - src@.len(),
            src_index_spec(k as nat, out@, src@) == src_walk(out@, src@, j as int, rem as nat, idx as nat, stride as nat),
        decreases j,
    {
        j = j - 1;
        let d = out[j];
        if d == 0 {
            return None;
        }
        let coord = rem % d;
        rem = rem / d;
        if j >= offset {
            let sd = src[j - offset];
            let c = if sd == 1 {
                0
            } else {
                coord
            };
            match c.checked_mul(stride) {
                Some(p) => match idx.checked_add(p) {
                    Some(q) => {
                        idx = q;
                    },
                    None => {
                        return None;
                    },
                },
                None => {
                    return None;
                },
            }
            match stride.checked_mul(sd) {
                Some(p) => {
                    stride = p;
                },
                None => {
                    return None;
                },
            }
        }
    }
    Some(idx)
}

/// Shape and elements of an operand; a scalar is a rank-0 tensor of one element.
pub open spec fn tensor_parts(v: ValueV) -> (Seq<usize>, Seq<ValueV>) {
    match v {
        ValueV::Tensor(s, d) => (s, d),
        _ => (Seq::empty(), seq![v]),
    }
}

/// Elements `0..n` of a general broadcast: for each result position, the
/// operand positions `src_index_spec` pairs with it, combined by `op`.
pub open spec fn gen_elems(
    op: BinOp,
    shape: Seq<usize>,
    sa: Seq<usize>,
    da: Seq<ValueV>,
    sb: Seq<usize>,
    db: Seq<ValueV>,
    n: nat,
) -> Result<Seq<ValueV>, EvalError>
    decreases n,
{
    if n == 0 {
        Ok(Seq::empty())
    } else {
        match gen_elems(op, shape, sa, da, sb, db, (n - 1) as nat) {
            Err(e) => Err(e),
            Ok(rs) => match (
                src_index_spec((n - 1) as nat, shape, sa),
                src_index_spec((n - 1) as nat, shape, sb),
            ) {
                (Some(i), Some(j)) => if i >= da.len() || j >= db.len() {
                    Err(EvalError::ShapeMismatch)
                } else {
                    match scalar_binop_spec(op, da[i as int], db[j as int]) {
                        Ok(v) => Ok(rs.push(v)),
                        Err(e) => Err(e),
                    }
                },
                _ => Err(EvalError::ShapeMismatch),
            },
        }
    }
}

proof fn lemma_gen_err(
    op: BinOp,
    shape: Seq<usize>,
    sa: Seq<usize>,
    da: Seq<ValueV>,
    sb: Seq<usize>,
    db: Seq<ValueV>,
    i: nat,
    n: nat,
)
    requires
        i <= n,
        gen_elems(op, shape, sa, da, sb, db, i) is Err,
    ensures
        gen_elems(op, shape, sa, da, sb, db, n) == gen_elems(op, shape, sa, da, sb, db, i),
    decreases n - i,
{
    if i < n {
        lemma_gen_err(op, shape, sa, da, sb, db, i, (n - 1) as nat);
    }
}

/// Broadcasting of operands whose shapes differ.
pub open spec fn general_spec(op: BinOp, a: ValueV, b: ValueV) -> Result<ValueV, EvalError> {
    let (sa, da) = tensor_parts(a);
    let (sb, db) = tensor_parts(b);
    if !broadcastable(sa, sb) {
        Err(EvalError::ShapeMismatch)
    } else {
        let shape = broadcast_shape(sa, sb);
        match checked_size_spec(shape) {
            None => Err(EvalError::Overflow),
            Some(n) => match gen_elems(op, shape, sa, da, sb, db, n as nat) {
                Ok(ds) => Ok(ValueV::Tensor(shape, ds)),
                Err(e) => Err(e),
            },
        }
    }
}

/// Result of `op` on two operands at least one of which is a tensor.
pub open spec fn broadcast_spec(op: BinOp, a: ValueV, b: ValueV) -> Result<ValueV, EvalError> {
    match (a, b) {
        (ValueV::Tensor(s1, d1), ValueV::Tensor(s2, d2)) => if s1 == s2 && d1.len() == d2.len() {
            match zip_spec(op, d1, d2) {
                Ok(ds) => Ok(ValueV::Tensor(s1, ds)),
                Err(e) => Err(e),
            }
        } else {
            general_spec(op, a, b)
        },
        (ValueV::Tensor(s1, d1), _) => match zip_spec(op, d1, repeated(b, d1.len())) {
            Ok(ds) => Ok(ValueV::Tensor(s1, ds)),
            Err(e) => Err(e),
        },
        (_, ValueV::Tensor(s2, d2)) => match zip_spec(op, repeated(a, d2.len()), d2) {
            Ok(ds) => Ok(ValueV::Tensor(s2, ds)),
            Err(e) => Err(e),
        },
        _ => general_spec(op, a, b),
    }
}

/// Result of a binary operator (other than `and`, `or`, map, filter and
/// composition) on two values.
pub open spec fn binop_values_spec(op: BinOp, a: ValueV, b: ValueV) -> Result<ValueV, EvalError> {
    if a is Tensor || b is Tensor {
        broadcast_spec(op, a, b)
    } else {
        scalar_binop_spec(op, a, b)
    }
}

/// Shape and elements of a tensor operand; a scalar is a rank-0 tensor of one element.
pub fn as_tensor(v: &Value) -> (r: (Vec<usize>, Vec<Value>))
    ensures
        (r.0@, values_view(r.1@)) == tensor_parts(v@),
        v@ matches ValueV::Tensor(s, d) ==> r.0@ == s && values_view(r.1@) == d,
        !(v@ is Tensor) ==> r.0@ == Seq::<usize>::empty() && r.1@.len() == 1 && r.1@[0]@ == v@,
{
    match v {
        Value::Tensor(t) => {
            let data = crate::value::dup_values(v, &t.data);
            (t.shape.clone(), data)
        },
        _ => {
            let mut d: Vec<Value> = Vec::new();
            d.push(v.dup());
            assert(values_view(d@) =~= seq![v@]);
            let e: Vec<usize> = Vec::new();
            assert(e@ =~= Seq::<usize>::empty());
            (e, d)
        },
    }
}

/// Elementwise results of `op` on aligned operands `xs[i]`, `ys[i]`, computed
/// left to right; the first failure wins.
pub open spec fn zip_spec(op: BinOp, xs: Seq<ValueV>, ys: Seq<ValueV>) -> Result<Seq<ValueV>, EvalError>
    decreases xs.len(),
{
    if xs.len() == 0 {
        Ok(Seq::empty())
    } else {
        match zip_spec(op, xs.subrange(0, xs.len() - 1), ys) {
            Err(e) => Err(e),
            Ok(rs) => match scalar_binop_spec(op, xs[xs.len() - 1], ys[xs.len() - 1]) {
                Ok(v) => Ok(rs.push(v)),
                Err(e) => Err(e),
            },
        }
    }
}

/// Whether `r` is the tensor of shape `shape` whose elements `z` gives, or its failure.
pub open spec fn zipped(r: Result<Value, EvalError>, shape: Seq<usize>, z: Result<Seq<ValueV>, EvalError>) -> bool {
    match z {
        Ok(ds) => r is Ok && r->Ok_0@ == ValueV::Tensor(shape, ds),
        Err(e) => r == Err::<Value, EvalError>(e),
    }
}

/// The scalar `v` repeated `n` times.
pub open spec fn repeated(v: ValueV, n: nat) -> Seq<ValueV> {
    Seq::new(n, |i: int| v)
}

proof fn lemma_zip_err(op: BinOp, xs: Seq<ValueV>, ys: Seq<ValueV>, i: int)
    requires
        0 <= i <= xs.len(),
        zip_spec(op, xs.subrange(0, i), ys) is Err,
    ensures
        zip_spec(op, xs, ys) == zip_spec(op, xs.subrange(0, i), ys),
    decreases xs.len() - i,
{
    if i < xs.len() {
        let t = xs.subrange(0, i + 1);
        assert(t.subrange(0, t.len() - 1) =~= xs.subrange(0, i));
        lemma_zip_err(op, xs, ys, i + 1);
    } else {
        assert(xs.subrange(0, i) =~= xs);
    }
}

/// `op` on aligned elements of `xs` and `ys`.
fn zip_elements(op: BinOp, xs: &Vec<Value>, ys: &Vec<Value>) -> (r: Result<Vec<Value>, EvalError>)
    requires
        xs@.len() == ys@.len(),
    ensures
        match zip_spec(op, values_view(xs@), values_view(ys@)) {
            Ok(ds) => r is Ok && values_view(r->Ok_0@) == ds,
            Err(e) => r == Err::<Vec<Value>, EvalError>(e),
        },
{
    let ghost xv = values_view(xs@);
    let ghost yv = values_view(ys@);
    let mut out: Vec<Value> = Vec::new();
    let mut i: usize = 0;
    assert(xv.subrange(0, 0) =~= Seq::<ValueV>::empty());
    assert(values_view(out@) =~= Seq::<ValueV>::empty());
    while i < xs.len()
        invariant
            i <= xs@.len(),
            xs@.len() == ys@.len(),
            xv == values_view(xs@),
            yv == values_view(ys@),
            out@.len() == i,
            zip_spec(op, xv.subrange(0, i as int), yv) == Ok::<Seq<ValueV>, EvalError>(values_view(out@)),
        decreases xs@.len() - i,
    {
        let ghost before = out@;
        proof {
            let t = xv.subrange(0, i + 1);
            assert(t.subrange(0, t.len() - 1) =~= xv.subrange(0, i as int));
            assert(t[t.len() - 1] == xs@[i as int]@);
            assert(yv[i as int] == ys@[i as int]@);
        }
        match scalar_binop(op, &xs[i], &ys[i]) {
            Ok(v) => {
                out.push(v);
                proof {
                    assert(values_view(out@) =~= values_view(before).push(out@[i as int]@));
                }
            },
            Err(e) => {
                proof {
                    lemma_zip_err(op, xv, yv, i + 1);
                }
                return Err(e);
            },
        }
        i = i + 1;
    }
    assert(xv.subrange(0, xv.len() as int) =~= xv);
    Ok(out)
}

/// `n` copies of `v`.
fn repeat_value(v: &Value, n: usize) -> (r: Vec<Value>)
    ensures
        r@.len() == n,
        values_view(r@) == repeated(v@, n as nat),
{
    let mut out: Vec<Value> = Vec::new();
    let mut i: usize = 0;
    while i < n
        invariant
            i <= n,
            out@.len() == i,
            forall|j: int| 0 <= j < i ==> (#[trigger] out@[j])@ == v@,
        decreases n - i,
    {
        out.push(v.dup());
        i = i + 1;
    }
    assert(values_view(out@) =~= repeated(v@, n as nat));
    out
}

fn same_shape(a: &Vec<usize>, b: &Vec<usize>) -> (r: bool)
    ensures
        r == (a@ == b@),
{
    if a.len() != b.len() {
        return false;
    }
    let mut i: usize = 0;
    while i < a.len()
        invariant
            i <= a@.len(),
            a@.len() == b@.len(),
            forall|j: int| 0 <= j < i ==> a@[j] == b@[j],
        decreases a@.len() - i,
    {
        if a[i] != b[i] {
            return false;
        }
        i = i + 1;
    }
    assert(a@ =~= b@);
    true
}

/// What broadcasting `op` over `a` and `b` gives: a tensor of the broadcast
/// shape; `ShapeMismatch` for shapes that cannot be broadcast; and, element by
/// element, `op` on a tensor's elements paired with a scalar, or with the
/// elements of a tensor of the same shape.
pub open spec fn broadcast_post(op: BinOp, a: ValueV, b: ValueV, r: Result<Value, EvalError>) -> bool {
    &&& r is Ok ==> (r->Ok_0@ is Tensor && r->Ok_0@->Tensor_0 == broadcast_shape(
        shape_of(a),
        shape_of(b),
    ))
    &&& !broadcastable(shape_of(a), shape_of(b)) ==> r == Err::<Value, EvalError>(
        EvalError::ShapeMismatch,
    )
    &&& a is Tensor && !(b is Tensor) ==> zipped(
        r,
        a->Tensor_0,
        zip_spec(op, a->Tensor_1, repeated(b, a->Tensor_1.len())),
    )
    &&& !(a is Tensor) && b is Tensor ==> zipped(
        r,
        b->Tensor_0,
        zip_spec(op, repeated(a, b->Tensor_1.len()), b->Tensor_1),
    )
    &&& a is Tensor && b is Tensor && a->Tensor_0 == b->Tensor_0 && a->Tensor_1.len()
        == b->Tensor_1.len() ==> zipped(r, a->Tensor_0, zip_spec(op, a->Tensor_1, b->Tensor_1))
}

/// Scalar broadcasting: an arithmetic operator between a tensor of integers and
/// an integer scalar, when it succeeds, gives at each position the operator on
/// that element and the scalar.
pub proof fn law_scalar_broadcast(op: BinOp, ds: Seq<ValueV>, c: i64)
    requires
        is_arith(op),
        forall|i: int| 0 <= i < ds.len() ==> (#[trigger] ds[i]) is Int,
        zip_spec(op, ds, repeated(ValueV::Int(c), ds.len())) is Ok,
    ensures
        ({
            let rs = zip_spec(op, ds, repeated(ValueV::Int(c), ds.len()))->Ok_0;
            &&& rs.len() == ds.len()
            &&& forall|k: int|
                0 <= k < ds.len() ==> int_arith_spec(op, ds[k]->Int_0, c) == Ok::<ValueV, EvalError>(
                    #[trigger] rs[k],
                )
        }),
{
    assert(ds.subrange(0, ds.len() as int) =~= ds);
    lemma_scalar_broadcast(op, ds, ds.len(), c);
}

proof fn lemma_scalar_broadcast(op: BinOp, ds: Seq<ValueV>, n: nat, c: i64)
    requires
        is_arith(op),
        n <= ds.len(),
        forall|i: int| 0 <= i < ds.len() ==> (#[trigger] ds[i]) is Int,
        zip_spec(op, ds.subrange(0, n as int), repeated(ValueV::Int(c), ds.len())) is Ok,
    ensures
        ({
            let rs = zip_spec(op, ds.subrange(0, n as int), repeated(ValueV::Int(c), ds.len()))->Ok_0;
            &&& rs.len() == n
            &&& forall|k: int|
                0 <= k < n ==> int_arith_spec(op, ds[k]->Int_0, c) == Ok::<ValueV, EvalError>(
                    #[trigger] rs[k],
                )
        }),
    decreases n,
{
    let ys = repeated(ValueV::Int(c), ds.len());
    let xs = ds.subrange(0, n as int);
    if n == 0 {
    } else {
        assert(xs.subrange(0, xs.len() - 1) =~= ds.subrange(0, n - 1));
        let prev = zip_spec(op, ds.subrange(0, n - 1), ys);
        assert(prev is Ok);
        lemma_scalar_broadcast(op, ds, (n - 1) as nat, c);
        assert(xs[n - 1] == ds[n - 1]);
        assert(ys[n - 1] == ValueV::Int(c));
    }
    if n == ds.len() {
        assert(ds.subrange(0, n as int) =~= ds);
    }
}

proof fn lemma_broadcast_same(s: Seq<usize>)
    ensures
        broadcastable(s, s),
        broadcastable(s, Seq::empty()),
        broadcastable(Seq::empty(), s),
        broadcast_shape(s, s) == s,
        broadcast_shape(s, Seq::empty()) == s,
        broadcast_shape(Seq::empty(), s) == s,
{
    assert(broadcast_shape(s, s) =~= s);
    assert(broadcast_shape(s, Seq::empty()) =~= s);
    assert(broadcast_shape(Seq::empty(), s) =~= s);
}

/// A binary operator between two operands at least one of which is a tensor,
/// applied elementwise after broadcasting the two shapes. A scalar operand is
/// paired with every element; equal shapes are paired element by element.
pub fn broadcast_binop(op: BinOp, a: &Value, b: &Value) -> (r: Result<Value, EvalError>)
    requires
        a@ is Tensor || b@ is Tensor,
    ensures
        broadcast_post(op, a@, b@, r),
        same_result(r, broadcast_spec(op, a@, b@)),
{
    let pair: Option<(Vec<usize>, Result<Vec<Value>, EvalError>)> = match (a, b) {
        (Value::Tensor(t), Value::Tensor(u)) => {
            if same_shape(&t.shape, &u.shape) && t.data.len() == u.data.len() {
                Some((t.shape.clone(), zip_elements(op, &t.data, &u.data)))
            } else {
                None
            }
        },
        (Value::Tensor(t), _) => {
            let ys = repeat_value(b, t.data.len());
            Some((t.shape.clone(), zip_elements(op, &t.data, &ys)))
        },
        (_, Value::Tensor(u)) => {
            let xs = repeat_value(a, u.data.len());
            Some((u.shape.clone(), zip_elements(op, &xs, &u.data)))
        },
        _ => None,
    };
    match pair {
        Some((shape, Ok(data))) => {
            proof {
                lemma_broadcast_same(shape@);
            }
            let ghost sh = shape@;
            let ghost dv = values_view(data@);
            let t = Value::Tensor(Tensor { shape, data });
            assert(t@ == ValueV::Tensor(sh, dv));
            Ok(t)
        },
        Some((shape, Err(e))) => {
            proof {
                lemma_broadcast_same(shape@);
            }
            Err(e)
        },
        None => broadcast_general(op, a, b),
    }
}

/// Broadcasting of two operands with different shapes.
fn broadcast_general(op: BinOp, a: &Value, b: &Value) -> (r: Result<Value, EvalError>)
    requires
        a@ is Tensor || b@ is Tensor,
    ensures
        r is Ok ==> (r->Ok_0@ is Tensor && r->Ok_0@->Tensor_0 == broadcast_shape(
            shape_of(a@),
            shape_of(b@),
        )),
        !broadcastable(shape_of(a@), shape_of(b@)) ==> r == Err::<Value, EvalError>(
            EvalError::ShapeMismatch,
        ),
        same_result(r, general_spec(op, a@, b@)),
{
    let (sa, da) = as_tensor(a);
    let (sb, db) = as_tensor(b);
    let shape = match broadcast_shapes(&sa, &sb) {
        Some(s) => s,
        None => {
            return Err(EvalError::ShapeMismatch);
        },
    };
    let n = match checked_size(&shape) {
        Some(n) => n,
        None => {
            return Err(EvalError::Overflow);
        },
    };
    let mut data: Vec<Value> = Vec::new();
    assert(values_view(data@) =~= Seq::<ValueV>::empty());
    let mut k: usize = 0;
    while k < n
        invariant
            k <= n,
            data@.len() == k,
            sa@.len() <= shape@.len(),
            sb@.len() <= shape@.len(),
            sa@ == shape_of(a@),
            sb@ == shape_of(b@),
            broadcastable(sa@, sb@),
            shape@ == broadcast_shape(sa@, sb@),
            n == shape_size(shape@),
            checked_size_spec(shape@) == Some(n),
            (sa@, values_view(da@)) == tensor_parts(a@),
            (sb@, values_view(db@)) == tensor_parts(b@),
            gen_elems(op, shape@, sa@, values_view(da@), sb@, values_view(db@), k as nat) == Ok::<Seq<ValueV>, EvalError>(values_view(data@)),
        decreases n - k,
    {
        let ghost dav = values_view(da@);
        let ghost dbv = values_view(db@);
        let ghost before = data@;
        let ia = source_index(k, &shape, &sa);
        let ib = source_index(k, &shape, &sb);
        match (ia, ib) {
            (Some(i), Some(j)) => {
                if i >= da.len() || j >= db.len() {
                    proof {
                        lemma_gen_err(op, shape@, sa@, dav, sb@, dbv, k as nat + 1, n as nat);
                    }
                    return Err(EvalError::ShapeMismatch);
                }
                proof {
                    assert(dav[i as int] == da@[i as int]@);
                    assert(dbv[j as int] == db@[j as int]@);
                }
                match scalar_binop(op, &da[i], &db[j]) {
                    Ok(x) => {
                        data.push(x);
                        proof {
                            assert(values_view(data@) =~= values_view(before).push(data@[k as int]@));
                        }
                    },
                    Err(e) => {
                        proof {
                            lemma_gen_err(op, shape@, sa@, dav, sb@, dbv, k as nat + 1, n as nat);
                        }
                        return Err(e);
                    },
                }
            },
            _ => {
                proof {
                    lemma_gen_err(op, shape@, sa@, dav, sb@, dbv, k as nat + 1, n as nat);
                }
                return Err(EvalError::ShapeMismatch);
            },
        }
        k = k + 1;
    }
    let ghost sh = shape@;
    let ghost dv = values_view(data@);
    let t = Value::Tensor(Tensor { shape, data });
    assert(t@ == ValueV::Tensor(sh, dv));
    assert(dv.len() == n);
    Ok(t)
}

/// Shape of an operand: a tensor's own, a scalar's empty.
pub open spec fn shape_of(v: ValueV) -> Seq<usize> {
    match v {
        ValueV::Tensor(s, _) => s,
        _ => Seq::empty(),
    }
}

} // verus!
