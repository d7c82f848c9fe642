//! Pattern matching: the guard-free matching relation, its guarded form used by
//! evaluation, and the executable matcher.
use crate::error::EvalError;
use crate::eval::{eval_in, push_all};
use crate::literal::Literal;
use crate::pattern::{Pattern, PatternV};
use crate::semantics::{match_all_spec, try_match_spec};
use crate::value::{Env, EnvV, Globals, Tensor, Value, ValueV, values_view};
use vstd::prelude::*;

verus! {

broadcast use vstd::std_specs::vec::group_vec_axioms, vstd::seq::group_seq_axioms;

/// Whether a value equals a literal pattern: integers and characters by value,
/// floats by IEEE equality; an integer against a float needs float arithmetic.
pub open spec fn literal_match_spec(l: Literal, v: ValueV) -> Result<bool, EvalError> {
    match (l, v) {
        (Literal::Int(a), ValueV::Int(b)) => Ok(a == b),
        (Literal::Float(a), ValueV::Float(b)) => Ok(crate::ops::float_eq_spec(a, b)),
        (Literal::Int(_), ValueV::Float(_)) | (Literal::Float(_), ValueV::Int(_)) => Err(
            EvalError::FloatUnsupported,
        ),
        (Literal::True, ValueV::Bool(b)) => Ok(b),
        (Literal::False, ValueV::Bool(b)) => Ok(!b),
        (Literal::Unit, ValueV::Unit) => Ok(true),
        (Literal::Char(a), ValueV::Char(b)) => Ok(a == b),
        _ => Ok(false),
    }
}

fn literal_matches(l: &Literal, v: &Value) -> (r: Result<bool, EvalError>)
    ensures
        r == literal_match_spec(*l, v@),
{
    match (l, v) {
        (Literal::Int(a), Value::Int(b)) => Ok(*a == *b),
        (Literal::Float(a), Value::Float(b)) => Ok(crate::ops::float_eq(*a, *b)),
        (Literal::Int(_), Value::Float(_)) | (Literal::Float(_), Value::Int(_)) => Err(
            EvalError::FloatUnsupported,
        ),
        (Literal::True, Value::Bool(b)) => Ok(*b),
        (Literal::False, Value::Bool(b)) => Ok(!*b),
        (Literal::Unit, Value::Unit) => Ok(true),
        (Literal::Char(a), Value::Char(b)) => Ok(*a == *b),
        _ => Ok(false),
    }
}

/// Whether a pattern has no guard anywhere.
pub open spec fn guard_free(p: PatternV) -> bool
    decreases p,
{
    match p {
        PatternV::Array(ps) => all_guard_free(ps),
        PatternV::Tuple(ps) => all_guard_free(ps),
        PatternV::ArraySplit(h, t) => all_guard_free(h) && guard_free(*t),
        PatternV::Variant(_, pl) => match pl {
            Some(b) => guard_free(*b),
            None => true,
        },
        PatternV::Typed(b, _) => guard_free(*b),
        PatternV::Or(a, b) => guard_free(*a) && guard_free(*b),
        PatternV::Guard(_, _) => false,
        _ => true,
    }
}

pub open spec fn all_guard_free(ps: Seq<PatternV>) -> bool
    decreases ps,
{
    if ps.len() == 0 {
        true
    } else {
        all_guard_free(ps.subrange(0, ps.len() - 1)) && guard_free(ps[ps.len() - 1])
    }
}

pub open spec fn max_nat(a: nat, b: nat) -> nat {
    if a >= b {
        a
    } else {
        b
    }
}

/// Nesting depth of a pattern.
pub open spec fn pattern_depth(p: PatternV) -> nat
    decreases p,
{
    match p {
        PatternV::Array(ps) => 1 + depth_list(ps),
        PatternV::Tuple(ps) => 1 + depth_list(ps),
        PatternV::ArraySplit(h, t) => 1 + max_nat(depth_list(h), pattern_depth(*t)),
        PatternV::Variant(_, pl) => match pl {
            Some(b) => 1 + pattern_depth(*b),
            None => 0,
        },
        PatternV::Typed(b, _) => 1 + pattern_depth(*b),
        PatternV::Or(a, b) => 1 + max_nat(pattern_depth(*a), pattern_depth(*b)),
        PatternV::Guard(b, _) => 1 + pattern_depth(*b),
        _ => 0,
    }
}

pub open spec fn depth_list(ps: Seq<PatternV>) -> nat
    decreases ps,
{
    if ps.len() == 0 {
        0
    } else {
        max_nat(depth_list(ps.subrange(0, ps.len() - 1)), pattern_depth(ps[ps.len() - 1]))
    }
}

/// Matching of a guard-free pattern: the bindings in order, `None` on a
/// mismatch, or the failure of a literal comparison.
pub open spec fn match_spec(p: PatternV, v: ValueV) -> Result<Option<Seq<ValueV>>, EvalError>
    decreases p,
{
    match p {
        PatternV::Wildcard => Ok(Some(Seq::empty())),
        PatternV::Var(_) => Ok(Some(seq![v])),
        PatternV::Lit(l) => match literal_match_spec(l, v) {
            Ok(true) => Ok(Some(Seq::empty())),
            Ok(false) => Ok(None),
            Err(x) => Err(x),
        },
        PatternV::Tuple(ps) => match v {
            ValueV::Tuple(vs) => if vs.len() == ps.len() {
                match_list_spec(ps, vs)
            } else {
                Ok(None)
            },
            ValueV::Unit => if ps.len() == 0 {
                Ok(Some(Seq::empty()))
            } else {
                Ok(None)
            },
            _ => Ok(None),
        },
        PatternV::Array(ps) => match v {
            ValueV::Tensor(shape, data) => if shape.len() == 1 && data.len() == ps.len() {
                match_list_spec(ps, data)
            } else {
                Ok(None)
            },
            _ => Ok(None),
        },
        PatternV::ArraySplit(h, t) => match v {
            ValueV::Tensor(shape, data) => if shape.len() == 1 && data.len() >= h.len() {
                match match_list_spec(h, data) {
                    Ok(Some(bs)) => match match_spec(
                        *t,
                        ValueV::Tensor(
                            seq![(data.len() - h.len()) as usize],
                            data.subrange(h.len() as int, data.len() as int),
                        ),
                    ) {
                        Ok(Some(bt)) => Ok(Some(bs + bt)),
                        Ok(None) => Ok(None),
                        Err(x) => Err(x),
                    },
                    other => other,
                }
            } else {
                Ok(None)
            },
            _ => Ok(None),
        },
        PatternV::Variant(c, pl) => match v {
            ValueV::Variant(c2, pv) => if c2@ != c@ {
                Ok(None)
            } else {
                match (pl, pv) {
                    (None, _) => Ok(Some(Seq::empty())),
                    (Some(pp), Some(x)) => match_spec(*pp, *x),
                    (Some(_), None) => Ok(None),
                }
            },
            _ => Ok(None),
        },
        PatternV::Typed(b, _) => match_spec(*b, v),
        PatternV::Or(a, b) => match match_spec(*a, v) {
            Ok(None) => match_spec(*b, v),
            other => other,
        },
        PatternV::Guard(_, _) => Ok(None),
    }
}

/// Positional matching of `ps` against the first `ps.len()` values of `vs`,
/// bindings concatenated left to right.
pub open spec fn match_list_spec(ps: Seq<PatternV>, vs: Seq<ValueV>) -> Result<
    Option<Seq<ValueV>>,
    EvalError,
>
    decreases ps,
{
    if ps.len() == 0 {
        Ok(Some(Seq::empty()))
    } else {
        match match_list_spec(ps.subrange(0, ps.len() - 1), vs) {
            Ok(Some(bs)) => match match_spec(ps[ps.len() - 1], vs[ps.len() - 1]) {
                Ok(Some(b2)) => Ok(Some(bs + b2)),
                other => other,
            },
            other => other,
        }
    }
}

/// Matching variables against values binds each value, in order.
proof fn lemma_vars_bind_in_order(ps: Seq<PatternV>, vs: Seq<ValueV>)
    requires
        ps.len() <= vs.len(),
        forall|i: int| 0 <= i < ps.len() ==> (#[trigger] ps[i]) is Var,
    ensures
        match_list_spec(ps, vs) == Ok::<Option<Seq<ValueV>>, EvalError>(
            Some(vs.subrange(0, ps.len() as int)),
        ),
    decreases ps.len(),
{
    if ps.len() > 0 {
        let q = ps.subrange(0, ps.len() - 1);
        assert forall|i: int| 0 <= i < q.len() implies (#[trigger] q[i]) is Var by {
            assert(q[i] == ps[i]);
        }
        lemma_vars_bind_in_order(q, vs);
        assert(ps[ps.len() - 1] is Var);
        assert(match_spec(ps[ps.len() - 1], vs[ps.len() - 1]) == Ok::<Option<Seq<ValueV>>, EvalError>(
            Some(seq![vs[ps.len() - 1]]),
        ));
        assert(vs.subrange(0, q.len() as int) + seq![vs[q.len() as int]] =~= vs.subrange(
            0,
            ps.len() as int,
        ));
    } else {
        assert(vs.subrange(0, 0) =~= Seq::<ValueV>::empty());
    }
}

/// Tuple destructuring binds the fields in declared order: a tuple pattern of
/// variables matches a tuple of as many values and binds exactly those values.
pub proof fn law_tuple_binds_in_order(ps: Seq<PatternV>, vs: Seq<ValueV>)
    requires
        ps.len() == vs.len(),
        forall|i: int| 0 <= i < ps.len() ==> (#[trigger] ps[i]) is Var,
    ensures
        match_spec(PatternV::Tuple(ps), ValueV::Tuple(vs)) == Ok::<Option<Seq<ValueV>>, EvalError>(
            Some(vs),
        ),
{
    lemma_vars_bind_in_order(ps, vs);
    assert(vs.subrange(0, ps.len() as int) =~= vs);
}

/// View of a matching result.
pub open spec fn bindings_view(r: Result<Option<Vec<Value>>, EvalError>) -> Result<
    Option<Seq<ValueV>>,
    EvalError,
> {
    match r {
        Ok(Some(bs)) => Ok(Some(values_view(bs@))),
        Ok(None) => Ok(None),
        Err(e) => Err(e),
    }
}

proof fn lemma_values_view_append(a: Seq<Value>, b: Seq<Value>)
    ensures
        values_view(a + b) == values_view(a) + values_view(b),
{
    assert(values_view(a + b) =~= values_view(a) + values_view(b));
}

/// A failing or mismatching prefix decides the whole list.
proof fn lemma_match_list_stop(ps: Seq<PatternV>, vs: Seq<ValueV>, i: int)
    requires
        0 <= i <= ps.len(),
        !(match_list_spec(ps.subrange(0, i), vs) is Ok && match_list_spec(ps.subrange(0, i), vs)->Ok_0 is Some),
    ensures
        match_list_spec(ps, vs) == match_list_spec(ps.subrange(0, i), vs),
    decreases ps.len() - i,
{
    if i < ps.len() {
        let t = ps.subrange(0, i + 1);
        assert(t.subrange(0, t.len() - 1) =~= ps.subrange(0, i));
        lemma_match_list_stop(ps, vs, i + 1);
    } else {
        assert(ps.subrange(0, i) =~= ps);
    }
}

proof fn lemma_match_all_stop(
    fuel: nat,
    ps: Seq<PatternV>,
    vs: Seq<ValueV>,
    env: EnvV,
    g: Seq<(String, ValueV)>,
    i: int,
)
    requires
        fuel > 0,
        0 <= i <= ps.len(),
        !(match_all_spec(fuel, ps.subrange(0, i), vs, env, g) is Ok && match_all_spec(fuel, ps.subrange(0, i), vs, env, g)->Ok_0 is Some),
    ensures
        match_all_spec(fuel, ps, vs, env, g) == match_all_spec(fuel, ps.subrange(0, i), vs, env, g),
    decreases ps.len() - i,
{
    if i < ps.len() {
        let t = ps.subrange(0, i + 1);
        assert(t.subrange(0, t.len() - 1) =~= ps.subrange(0, i));
        lemma_match_all_stop(fuel, ps, vs, env, g, i + 1);
    } else {
        assert(ps.subrange(0, i) =~= ps);
    }
}

/// Every element is no deeper than the list, and guard-free if the list is.
proof fn lemma_list_elem(ps: Seq<PatternV>, i: int)
    requires
        0 <= i < ps.len(),
    ensures
        pattern_depth(ps[i]) <= depth_list(ps),
        all_guard_free(ps) ==> guard_free(ps[i]),
    decreases ps.len(),
{
    if i < ps.len() - 1 {
        let q = ps.subrange(0, ps.len() - 1);
        assert(q[i] == ps[i]);
        lemma_list_elem(q, i);
    }
}

/// Matches `vs[start..]` against `pats` positionally, appending the bindings
/// to `out`. `Ok(false)` on a mismatch.
fn match_all(
    pats: &Vec<Pattern>,
    vs: &Vec<Value>,
    start: usize,
    env: &Env,
    g: &Globals,
    out: &mut Vec<Value>,
    fuel: u64,
) -> (r: Result<bool, EvalError>)
    requires
        fuel > 0,
        start + pats@.len() <= vs@.len(),
    ensures
        start == 0 && all_guard_free(crate::pattern::patterns_view(pats@)) && fuel > 1 + depth_list(
            crate::pattern::patterns_view(pats@),
        ) ==> match match_list_spec(crate::pattern::patterns_view(pats@), values_view(vs@)) {
            Ok(Some(bs)) => r == Ok::<bool, EvalError>(true) && values_view(final(out)@)
                == values_view(old(out)@) + bs,
            Ok(None) => r == Ok::<bool, EvalError>(false),
            Err(e) => r == Err::<bool, EvalError>(e),
        },
        start == 0 ==> match match_all_spec(fuel as nat, crate::pattern::patterns_view(pats@), values_view(vs@), env@, g@) {
            Ok(Some(bs)) => r == Ok::<bool, EvalError>(true) && values_view(final(out)@)
                == values_view(old(out)@) + bs,
            Ok(None) => r == Ok::<bool, EvalError>(false),
            Err(e) => r == Err::<bool, EvalError>(e),
        },
    decreases fuel, 0nat,
{
    let ghost ps = crate::pattern::patterns_view(pats@);
    let ghost vv = values_view(vs@);
    let ghost out0 = values_view(out@);
    let ghost exact = start == 0 && all_guard_free(ps) && fuel > 1 + depth_list(ps);
    let total = vs.len();
    let mut i: usize = 0;
    proof {
        assert(ps.subrange(0, 0) =~= Seq::<PatternV>::empty());
        assert(out0 + Seq::<ValueV>::empty() =~= out0);
    }
    while i < pats.len()
        invariant
            i <= pats@.len(),
            start as int + pats@.len() <= vs@.len(),
            vs@.len() == total,
            fuel > 0,
            ps == crate::pattern::patterns_view(pats@),
            vv == values_view(vs@),
            exact == (start == 0 && all_guard_free(ps) && fuel > 1 + depth_list(ps)),
            exact ==> (match_list_spec(ps.subrange(0, i as int), vv) matches Ok(Some(acc))
                && values_view(out@) == out0 + acc),
            start == 0 ==> (match_all_spec(fuel as nat, ps.subrange(0, i as int), vv, env@, g@) matches Ok(Some(acc))
                && values_view(out@) == out0 + acc),
        decreases pats@.len() - i,
    {
        proof {
            if exact {
                lemma_list_elem(ps, i as int);
            }
            let t = ps.subrange(0, i + 1);
            assert(t.subrange(0, t.len() - 1) =~= ps.subrange(0, i as int));
            assert(t[t.len() - 1] == pats@[i as int]@);
            if start == 0 {
                assert(vv[i as int] == vs@[i as int]@);
            }
        }
        let m = try_match(&pats[i], &vs[start + i], env, g, fuel - 1);
        match m {
            Ok(Some(bs)) => {
                let mut bs = bs;
                let ghost bsv = bs@;
                let ghost ob = out@;
                out.append(&mut bs);
                proof {
                    lemma_values_view_append(ob, bsv);
                    if exact {
                        let acc = match_list_spec(ps.subrange(0, i as int), vv)->Ok_0->Some_0;
                        assert(values_view(out@) =~= out0 + (acc + values_view(bsv)));
                    }
                    if start == 0 {
                        let acc = match_all_spec(fuel as nat, ps.subrange(0, i as int), vv, env@, g@)->Ok_0->Some_0;
                        assert(values_view(out@) =~= out0 + (acc + values_view(bsv)));
                    }
                }
            },
            Ok(None) => {
                proof {
                    if exact {
                        lemma_match_list_stop(ps, vv, i + 1);
                    }
                    if start == 0 {
                        lemma_match_all_stop(fuel as nat, ps, vv, env@, g@, i + 1);
                    }
                }
                return Ok(false);
            },
            Err(e) => {
                proof {
                    if exact {
                        lemma_match_list_stop(ps, vv, i + 1);
                    }
                    if start == 0 {
                        lemma_match_all_stop(fuel as nat, ps, vv, env@, g@, i + 1);
                    }
                }
                return Err(e);
            },
        }
        i = i + 1;
    }
    proof {
        assert(ps.subrange(0, ps.len() as int) =~= ps);
    }
    Ok(true)
}

/// Matches `v` against `p`: the bindings in order on success, `None` on mismatch.
/// A guard is evaluated in `env` extended with its sub-pattern's bindings; a
/// false guard is a mismatch.
pub fn try_match(p: &Pattern, v: &Value, env: &Env, g: &Globals, fuel: u64) -> (r: Result<
    Option<Vec<Value>>,
    EvalError,
>)
    ensures
        guard_free(p@) && fuel > pattern_depth(p@) ==> bindings_view(r) == match_spec(p@, v@),
        bindings_view(r) == try_match_spec(fuel as nat, p@, v@, env@, g@),
    decreases fuel, 1nat,
{
    if fuel == 0 {
        return Err(EvalError::DepthExceeded);
    }
    match p {
        Pattern::Wildcard => {
            let r: Vec<Value> = Vec::new();
            assert(values_view(r@) =~= Seq::<ValueV>::empty());
            Ok(Some(r))
        },
        Pattern::Var(_) => {
            let mut bs: Vec<Value> = Vec::new();
            bs.push(v.dup());
            assert(values_view(bs@) =~= seq![v@]);
            Ok(Some(bs))
        },
        Pattern::Lit(l) => match literal_matches(l, v) {
            Ok(true) => {
                let r: Vec<Value> = Vec::new();
                assert(values_view(r@) =~= Seq::<ValueV>::empty());
                Ok(Some(r))
            },
            Ok(false) => Ok(None),
            Err(e) => Err(e),
        },
        Pattern::Tuple(ps) => {
            let empty: Vec<Value> = Vec::new();
            let elems = match v {
                Value::Tuple(vs) => vs,
                Value::Unit => &empty,
                _ => {
                    return Ok(None);
                },
            };
            if elems.len() != ps.len() {
                return Ok(None);
            }
            let mut out: Vec<Value> = Vec::new();
            proof {
                assert(values_view(out@) =~= Seq::<ValueV>::empty());
                assert(values_view(empty@) =~= Seq::<ValueV>::empty());
            }
            match match_all(ps, elems, 0, env, g, &mut out, fuel) {
                Ok(true) => {
                    proof {
                        if guard_free(p@) && fuel > pattern_depth(p@) {
                            let m = match_list_spec(
                                crate::pattern::patterns_view(ps@),
                                values_view(elems@),
                            )->Ok_0->Some_0;
                            assert(Seq::<ValueV>::empty() + m =~= m);
                        }
                    }
                    Ok(Some(out))
                },
                Ok(false) => Ok(None),
                Err(e) => Err(e),
            }
        },
        Pattern::Array(ps) => match v {
            Value::Tensor(t) => {
                if t.shape.len() != 1 || t.data.len() != ps.len() {
                    return Ok(None);
                }
                let mut out: Vec<Value> = Vec::new();
                proof {
                    assert(values_view(out@) =~= Seq::<ValueV>::empty());
                }
                match match_all(ps, &t.data, 0, env, g, &mut out, fuel) {
                    Ok(true) => {
                        proof {
                            if guard_free(p@) && fuel > pattern_depth(p@) {
                                let m = match_list_spec(
                                    crate::pattern::patterns_view(ps@),
                                    values_view(t.data@),
                                )->Ok_0->Some_0;
                                assert(Seq::<ValueV>::empty() + m =~= m);
                            }
                        }
                        Ok(Some(out))
                    },
                    Ok(false) => Ok(None),
                    Err(e) => Err(e),
                }
            },
            _ => Ok(None),
        },
        Pattern::ArraySplit { head, tail } => match v {
            Value::Tensor(t) => {
                if t.shape.len() != 1 || t.data.len() < head.len() {
                    return Ok(None);
                }
                let mut out: Vec<Value> = Vec::new();
                proof {
                    assert(values_view(out@) =~= Seq::<ValueV>::empty());
                }
                let hm = match_all(head, &t.data, 0, env, g, &mut out, fuel);
                proof {
                    if guard_free(p@) && fuel > pattern_depth(p@) {
                        let hs = match_list_spec(crate::pattern::patterns_view(head@), values_view(t.data@));
                        if hm == Ok::<bool, EvalError>(false) {
                            assert(hs == Ok::<Option<Seq<ValueV>>, EvalError>(None));
                        }
                    }
                }
                match hm {
                    Ok(true) => {},
                    Ok(false) => {
                        return Ok(None);
                    },
                    Err(e) => {
                        return Err(e);
                    },
                }
                let ghost dv = values_view(t.data@);
                let ghost hb = values_view(out@);
                let mut rest: Vec<Value> = Vec::new();
                let mut i: usize = head.len();
                proof {
                    assert(values_view(rest@) =~= dv.subrange(head@.len() as int, i as int));
                }
                while i < t.data.len()
                    invariant
                        head@.len() <= i <= t.data@.len(),
                        dv == values_view(t.data@),
                        values_view(rest@) == dv.subrange(head@.len() as int, i as int),
                    decreases t.data@.len() - i,
                {
                    let ghost before = rest@;
                    rest.push(t.data[i].dup());
                    proof {
                        assert(values_view(rest@) =~= values_view(before).push(dv[i as int]));
                        assert(dv.subrange(head@.len() as int, i + 1) =~= dv.subrange(
                            head@.len() as int,
                            i as int,
                        ).push(dv[i as int]));
                    }
                    i = i + 1;
                }
                let mut shape: Vec<usize> = Vec::new();
                shape.push(rest.len());
                proof {
                    assert(shape@ =~= seq![(dv.len() - head@.len()) as usize]);
                }
                let rest_value = Value::Tensor(Tensor { shape, data: rest });
                match try_match(tail, &rest_value, env, g, fuel - 1) {
                    Ok(Some(bs)) => {
                        let mut bs = bs;
                        let ghost bsv = bs@;
                        let ghost ob = out@;
                        out.append(&mut bs);
                        proof {
                            lemma_values_view_append(ob, bsv);
                            if guard_free(p@) && fuel > pattern_depth(p@) {
                                let hv = match_list_spec(
                                    crate::pattern::patterns_view(head@),
                                    dv,
                                )->Ok_0->Some_0;
                                assert(Seq::<ValueV>::empty() + hv =~= hv);
                            }
                        }
                        Ok(Some(out))
                    },
                    Ok(None) => Ok(None),
                    Err(e) => Err(e),
                }
            },
            _ => Ok(None),
        },
        Pattern::Variant { constructor, payload } => match v {
            Value::Variant(c, pv) => {
                if !(*c == *constructor) {
                    return Ok(None);
                }
                match (payload, pv) {
                    (None, _) => {
                        let r: Vec<Value> = Vec::new();
                        assert(values_view(r@) =~= Seq::<ValueV>::empty());
                        Ok(Some(r))
                    },
                    (Some(pp), Some(x)) => try_match(pp, x, env, g, fuel - 1),
                    (Some(_), None) => Ok(None),
                }
            },
            _ => Ok(None),
        },
        Pattern::Typed(b, _) => try_match(b, v, env, g, fuel - 1),
        Pattern::Or(a, b) => match try_match(a, v, env, g, fuel - 1) {
            Ok(Some(bs)) => Ok(Some(bs)),
            Ok(None) => try_match(b, v, env, g, fuel - 1),
            Err(e) => Err(e),
        },
        Pattern::Guard(b, cond) => match try_match(b, v, env, g, fuel - 1) {
            Ok(Some(bs)) => {
                let inner = push_all(env, &bs);
                match eval_in(cond, &inner, g, fuel - 1) {
                    Ok(Value::Bool(true)) => Ok(Some(bs)),
                    Ok(Value::Bool(false)) => Ok(None),
                    Ok(_) => Err(EvalError::TypeMismatch),
                    Err(e) => Err(e),
                }
            },
            Ok(None) => Ok(None),
            Err(e) => Err(e),
        },
    }
}

} // verus!
