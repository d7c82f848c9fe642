//! A reference interpreter for straight-line MIR, written as spec functions, and the
//! theorem that lowering flat expressions preserves their value.
use crate::error::EvalError;
use crate::eval::literal_value;
use crate::semantics::{all_flat, eval_spec, lemma_flat_eval, flat_list_value, flat_depth, flat_expr, flat_size, flat_value, flat_size_list};
use crate::expr::ExprV;
use crate::lower::{literal_lowering, lower_expr_spec, lower_list_spec, lower_spec, initial_state, LowerState};
use crate::mir::{Constant, Operand, ProgramV, RhsV, StmtV, Terminator};
use crate::ops::binop_values_spec;
use crate::prims::unary_spec;
use crate::value::{EnvV, ValueV};
use vstd::prelude::*;

verus! {

pub open spec fn constant_value(c: Constant) -> ValueV {
    match c {
        Constant::Int(n) => ValueV::Int(n),
        Constant::Float(b) => ValueV::Float(b),
        Constant::Bool(b) => ValueV::Bool(b),
        Constant::Char(c) => ValueV::Char(c),
        Constant::Unit => ValueV::Unit,
    }
}

/// Value of an operand under the local values `env`.
pub open spec fn operand_value(env: Map<u32, ValueV>, o: Operand) -> ValueV {
    match o {
        Operand::Const(c) => constant_value(c),
        Operand::Local(id) => env[id.0],
    }
}

/// Values of a list of operands.
pub open spec fn operand_values(env: Map<u32, ValueV>, os: Seq<Operand>) -> Seq<ValueV> {
    Seq::new(os.len(), |i: int| operand_value(env, os[i]))
}

/// One statement: its value is bound to its destination. Moves, operators (with
/// the evaluator's meaning, broadcasting included) and array construction are
/// interpreted.
pub open spec fn step(env: Map<u32, ValueV>, st: StmtV) -> Result<Map<u32, ValueV>, EvalError> {
    match st.rhs {
        RhsV::Use(o) => Ok(env.insert(st.dest.0, operand_value(env, o))),
        RhsV::BinOp(op, a, b) => match binop_values_spec(
            op,
            operand_value(env, a),
            operand_value(env, b),
        ) {
            Ok(v) => Ok(env.insert(st.dest.0, v)),
            Err(x) => Err(x),
        },
        RhsV::UnaryOp(op, a) => match unary_spec(op, operand_value(env, a)) {
            Ok(v) => Ok(env.insert(st.dest.0, v)),
            Err(x) => Err(x),
        },
        RhsV::Array(os) => Ok(
            env.insert(
                st.dest.0,
                ValueV::Tensor(seq![os.len() as usize], operand_values(env, os)),
            ),
        ),
        _ => Err(EvalError::TypeMismatch),
    }
}

/// Runs `stmts[i..]` from `env`; the first failure stops the run.
pub open spec fn run_from(env: Map<u32, ValueV>, stmts: Seq<StmtV>, i: int) -> Result<
    Map<u32, ValueV>,
    EvalError,
>
    decreases stmts.len() - i,
{
    if i < 0 || i >= stmts.len() {
        Ok(env)
    } else {
        match step(env, stmts[i]) {
            Ok(e1) => run_from(e1, stmts, i + 1),
            Err(x) => Err(x),
        }
    }
}

/// Runs the first function of `p` from no locals and returns the value of its
/// returned operand.
pub open spec fn run_program(p: ProgramV) -> Result<ValueV, EvalError> {
    let f = p.functions[0];
    match run_from(Map::empty(), f.body.stmts, 0) {
        Ok(env) => match f.body.term {
            Terminator::Return(o) => Ok(operand_value(env, o)),
        },
        Err(x) => Err(x),
    }
}

/// Running an extension of `xs` first runs `xs`.
proof fn lemma_run_prefix(env: Map<u32, ValueV>, xs: Seq<StmtV>, ys: Seq<StmtV>, i: int)
    requires
        0 <= i <= xs.len() <= ys.len(),
        ys.subrange(0, xs.len() as int) == xs,
    ensures
        match run_from(env, xs, i) {
            Ok(e1) => run_from(env, ys, i) == run_from(e1, ys, xs.len() as int),
            Err(x) => run_from(env, ys, i) == Err::<Map<u32, ValueV>, EvalError>(x),
        },
    decreases xs.len() - i,
{
    if i < xs.len() {
        assert(ys[i] == xs[i]);
        match step(env, xs[i]) {
            Ok(e1) => lemma_run_prefix(e1, xs, ys, i + 1),
            Err(_) => {},
        }
    }
}

/// Whether `b` agrees with `a` on every local below `k`.
pub open spec fn agrees_below(a: Map<u32, ValueV>, b: Map<u32, ValueV>, k: u32) -> bool {
    forall|j: u32|
        #![trigger a.contains_key(j)]
        #![trigger b.contains_key(j)]
        #![trigger b[j]]
        j < k ==> ((a.contains_key(j) <==> b.contains_key(j)) && (a.contains_key(j) ==> b[j] == a[j]))
}

pub open spec fn operand_below(o: Operand, k: u32) -> bool {
    match o {
        Operand::Const(_) => true,
        Operand::Local(id) => id.0 < k,
    }
}

/// A flat expression lowers, without lifting anything, using one fresh local
/// per operator or array, when the counter leaves room for them.
proof fn lemma_flat_lowers(s: LowerState, e: ExprV)
    requires
        flat_expr(e),
        s.next_local + flat_size(e) <= u32::MAX,
    ensures
        lower_spec(s, e, None) is Ok,
        lower_spec(s, e, None)->Ok_0.0.next_local == s.next_local + flat_size(e),
    decreases e, 1nat,
{
    match e {
        ExprV::BinOp(op, l, r) => {
            lemma_flat_lowers(s, *l);
            let s1 = lower_spec(s, *l, None)->Ok_0.0;
            lemma_flat_lowers(s1, *r);
        },
        ExprV::UnaryOp(op, x) => {
            lemma_flat_lowers(s, *x);
        },
        ExprV::Array(es) => {
            lemma_list_lowers(s, es);
        },
        _ => {},
    }
}

proof fn lemma_list_lowers(s: LowerState, es: Seq<ExprV>)
    requires
        all_flat(es),
        s.next_local + flat_size_list(es) <= u32::MAX,
    ensures
        lower_list_spec(s, es) is Ok,
        lower_list_spec(s, es)->Ok_0.0.next_local == s.next_local + flat_size_list(es),
    decreases es, 0nat,
{
    if es.len() > 0 {
        let pre = es.subrange(0, es.len() - 1);
        lemma_list_lowers(s, pre);
        let s1 = lower_list_spec(s, pre)->Ok_0.0;
        lemma_flat_lowers(s1, es[es.len() - 1]);
    }
}

/// What lowering `e` from `s` guarantees when run from locals `env`: it only
/// appends statements, uses fresh locals, lifts nothing, and the appended
/// statements compute the expression's value into the returned operand (or
/// fail as evaluation does), leaving older locals untouched.
pub open spec fn lowering_post(s: LowerState, e: ExprV, env: Map<u32, ValueV>) -> bool {
    let (s2, op, _) = lower_spec(s, e, None)->Ok_0;
    &&& s2.functions == s.functions
    &&& s2.locals == s.locals
    &&& s2.next_fn == s.next_fn
    &&& s.next_local <= s2.next_local
    &&& s.stmts.len() <= s2.stmts.len()
    &&& s2.stmts.subrange(0, s.stmts.len() as int) == s.stmts
    &&& operand_below(op, s2.next_local)
    &&& match flat_value(e) {
        Ok(v) => run_from(env, s2.stmts, s.stmts.len() as int) matches Ok(env2) && agrees_below(
            env,
            env2,
            s.next_local,
        ) && operand_value(env2, op) == v && (op is Local ==> env2.contains_key(op->Local_0.0)),
        Err(x) => run_from(env, s2.stmts, s.stmts.len() as int) == Err::<
            Map<u32, ValueV>,
            EvalError,
        >(x),
    }
}

/// The same for the elements of an array.
pub open spec fn list_lowering_post(s: LowerState, es: Seq<ExprV>, env: Map<u32, ValueV>) -> bool {
    let (s2, ops, _) = lower_list_spec(s, es)->Ok_0;
    &&& s2.functions == s.functions
    &&& s2.locals == s.locals
    &&& s2.next_fn == s.next_fn
    &&& s.next_local <= s2.next_local
    &&& s.stmts.len() <= s2.stmts.len()
    &&& s2.stmts.subrange(0, s.stmts.len() as int) == s.stmts
    &&& ops.len() == es.len()
    &&& forall|j: int| 0 <= j < ops.len() ==> operand_below(#[trigger] ops[j], s2.next_local)
    &&& match flat_list_value(es) {
        Ok(vs) => run_from(env, s2.stmts, s.stmts.len() as int) matches Ok(env2) && agrees_below(
            env,
            env2,
            s.next_local,
        ) && operand_values(env2, ops) == vs && (forall|j: int|
            0 <= j < ops.len() && (#[trigger] ops[j]) is Local ==> env2.contains_key(
                ops[j]->Local_0.0,
            )),
        Err(x) => run_from(env, s2.stmts, s.stmts.len() as int) == Err::<
            Map<u32, ValueV>,
            EvalError,
        >(x),
    }
}

proof fn lemma_flat_lowering(s: LowerState, e: ExprV, env: Map<u32, ValueV>)
    requires
        flat_expr(e),
        lower_spec(s, e, None) is Ok,
    ensures
        lowering_post(s, e, env),
    decreases e, 1nat,
{
    match e {
        ExprV::Lit(l) => {
            assert(s.stmts.subrange(0, s.stmts.len() as int) =~= s.stmts);
            assert(constant_value(literal_lowering(l).0) == literal_value(l));
        },
        ExprV::BinOp(op, l, r) => lemma_binop_lowering(s, e, env),
        ExprV::UnaryOp(op, x) => lemma_unary_lowering(s, e, env),
        ExprV::Array(es) => lemma_array_lowering(s, e, env),
        _ => {},
    }
}

proof fn lemma_binop_lowering(s: LowerState, e: ExprV, env: Map<u32, ValueV>)
    requires
        flat_expr(e),
        e is BinOp,
        lower_spec(s, e, None) is Ok,
    ensures
        lowering_post(s, e, env),
    decreases e, 0nat,
{
    match e {
        ExprV::BinOp(op, l, r) => {
            let (s1, lop, _) = lower_spec(s, *l, None)->Ok_0;
            lemma_flat_lowering(s, *l, env);
            let (s2, rop, _) = lower_spec(s1, *r, None)->Ok_0;
            lemma_flat_lowering(s1, *r, env);
            let (s3, _, _) = lower_spec(s, e, None)->Ok_0;
            let st = s3.stmts.last();
            assert(s3.stmts == s2.stmts.push(st));
            assert(s3.stmts.subrange(0, s2.stmts.len() as int) =~= s2.stmts);
            assert(s2.stmts.subrange(0, s1.stmts.len() as int) == s1.stmts);
            assert(s3.stmts.subrange(0, s1.stmts.len() as int) =~= s1.stmts) by {
                assert(s3.stmts.subrange(0, s1.stmts.len() as int) =~= s2.stmts.subrange(0, s1.stmts.len() as int));
            }
            assert(s3.stmts.subrange(0, s.stmts.len() as int) =~= s.stmts) by {
                assert(s3.stmts.subrange(0, s.stmts.len() as int) =~= s1.stmts.subrange(0, s.stmts.len() as int));
            }
            lemma_run_prefix(env, s1.stmts, s3.stmts, s.stmts.len() as int);
            match flat_value(*l) {
                Err(x) => {},
                Ok(a) => {
                    let env1 = run_from(env, s1.stmts, s.stmts.len() as int)->Ok_0;
                    lemma_flat_lowering(s1, *r, env1);
                    lemma_run_prefix(env1, s2.stmts, s3.stmts, s1.stmts.len() as int);
                    match flat_value(*r) {
                        Err(x) => {},
                        Ok(b) => {
                            let env2 = run_from(env1, s2.stmts, s1.stmts.len() as int)->Ok_0;
                            assert(operand_value(env2, lop) == a) by {
                                match lop {
                                    Operand::Local(id) => {
                                        assert(env2[id.0] == env1[id.0]);
                                    },
                                    _ => {},
                                }
                            }
                            assert(st.dest.0 == s2.next_local);
                            assert(run_from(env2, s3.stmts, s2.stmts.len() as int) == match step(env2, st) {
                                Ok(e3) => run_from(e3, s3.stmts, s2.stmts.len() as int + 1),
                                Err(x) => Err(x),
                            });
                            match step(env2, st) {
                                Ok(e3) => {
                                    assert(run_from(e3, s3.stmts, s2.stmts.len() as int + 1) == Ok::<Map<u32, ValueV>, EvalError>(e3));
                                    assert forall|j: u32| #![trigger e3.contains_key(j)] j < s.next_local implies (env.contains_key(j) <==> e3.contains_key(j)) && (env.contains_key(j) ==> e3[j] == env[j]) by {
                                        assert(env1.contains_key(j) <==> env.contains_key(j));
                                        assert(env2.contains_key(j) <==> env1.contains_key(j));
                                        assert(j < s1.next_local);
                                        assert(j != st.dest.0);
                                        if env.contains_key(j) {
                                            assert(env1[j] == env[j]);
                                            assert(env2[j] == env1[j]);
                                        }
                                    }
                                },
                                Err(_) => {},
                            }
                        },
                    }
                },
            }
        },
        _ => {},
    }
}

proof fn lemma_unary_lowering(s: LowerState, e: ExprV, env: Map<u32, ValueV>)
    requires
        flat_expr(e),
        e is UnaryOp,
        lower_spec(s, e, None) is Ok,
    ensures
        lowering_post(s, e, env),
    decreases e, 0nat,
{
    match e {
        ExprV::UnaryOp(op, x) => {
            let (s1, xop, _) = lower_spec(s, *x, None)->Ok_0;
            lemma_flat_lowering(s, *x, env);
            let (s3, _, _) = lower_spec(s, e, None)->Ok_0;
            let st = s3.stmts.last();
            assert(s3.stmts == s1.stmts.push(st));
            assert(s3.stmts.subrange(0, s1.stmts.len() as int) =~= s1.stmts);
            assert(s3.stmts.subrange(0, s.stmts.len() as int) =~= s.stmts) by {
                assert(s3.stmts.subrange(0, s.stmts.len() as int) =~= s1.stmts.subrange(0, s.stmts.len() as int));
            }
            lemma_run_prefix(env, s1.stmts, s3.stmts, s.stmts.len() as int);
            match flat_value(*x) {
                Err(y) => {},
                Ok(v) => {
                    let env1 = run_from(env, s1.stmts, s.stmts.len() as int)->Ok_0;
                    assert(st.dest.0 == s1.next_local);
                    assert(run_from(env1, s3.stmts, s1.stmts.len() as int) == match step(env1, st) {
                        Ok(e3) => run_from(e3, s3.stmts, s1.stmts.len() as int + 1),
                        Err(y) => Err(y),
                    });
                    match step(env1, st) {
                        Ok(e3) => {
                            assert(run_from(e3, s3.stmts, s1.stmts.len() as int + 1) == Ok::<Map<u32, ValueV>, EvalError>(e3));
                            assert forall|j: u32| #![trigger e3.contains_key(j)] j < s.next_local implies (env.contains_key(j) <==> e3.contains_key(j)) && (env.contains_key(j) ==> e3[j] == env[j]) by {
                                assert(env1.contains_key(j) <==> env.contains_key(j));
                                assert(j != st.dest.0);
                                if env.contains_key(j) {
                                    assert(env1[j] == env[j]);
                                }
                            }
                        },
                        Err(_) => {},
                    }
                },
            }
        },
        _ => {},
    }
}

proof fn lemma_list_lowering(s: LowerState, es: Seq<ExprV>, env: Map<u32, ValueV>)
    requires
        all_flat(es),
        lower_list_spec(s, es) is Ok,
    ensures
        list_lowering_post(s, es, env),
    decreases es, 0nat,
{
    if es.len() == 0 {
        assert(s.stmts.subrange(0, s.stmts.len() as int) =~= s.stmts);
        let (s2, ops, _) = lower_list_spec(s, es)->Ok_0;
        assert(operand_values(env, ops) =~= Seq::<ValueV>::empty());
    } else {
        let pre = es.subrange(0, es.len() - 1);
        let last = es[es.len() - 1];
        lemma_list_lowering(s, pre, env);
        let (s1, ops1, _) = lower_list_spec(s, pre)->Ok_0;
        lemma_flat_lowering(s1, last, env);
        let (s2, op, _) = lower_spec(s1, last, None)->Ok_0;
        let ops = ops1.push(op);
        assert(lower_list_spec(s, es)->Ok_0.0 == s2);
        assert(lower_list_spec(s, es)->Ok_0.1 == ops);
        assert(s2.stmts.subrange(0, s.stmts.len() as int) =~= s.stmts) by {
            assert(s2.stmts.subrange(0, s.stmts.len() as int) =~= s2.stmts.subrange(0, s1.stmts.len() as int).subrange(0, s.stmts.len() as int));
        }
        assert forall|j: int| 0 <= j < ops.len() implies operand_below(#[trigger] ops[j], s2.next_local) by {
            if j < ops1.len() {
                assert(ops[j] == ops1[j]);
            }
        }
        lemma_run_prefix(env, s1.stmts, s2.stmts, s.stmts.len() as int);
        match flat_list_value(pre) {
            Err(x) => {},
            Ok(vs1) => {
                let env1 = run_from(env, s1.stmts, s.stmts.len() as int)->Ok_0;
                lemma_flat_lowering(s1, last, env1);
                match flat_value(last) {
                    Err(x) => {},
                    Ok(v) => {
                        let env2 = run_from(env1, s2.stmts, s1.stmts.len() as int)->Ok_0;
                        assert forall|j: int| 0 <= j < ops.len() && (#[trigger] ops[j]) is Local implies env2.contains_key(ops[j]->Local_0.0) by {
                            if j < ops1.len() {
                                assert(ops[j] == ops1[j]);
                                assert(env1.contains_key(ops1[j]->Local_0.0));
                            }
                        }
                        assert(operand_values(env2, ops) =~= vs1.push(v)) by {
                            assert forall|j: int| 0 <= j < ops.len() implies operand_values(env2, ops)[j] == vs1.push(v)[j] by {
                                if j < ops1.len() {
                                    assert(ops[j] == ops1[j]);
                                    assert(operand_values(env1, ops1)[j] == vs1[j]);
                                    match ops1[j] {
                                        Operand::Local(id) => {
                                            assert(env1.contains_key(id.0));
                                            assert(env2[id.0] == env1[id.0]);
                                        },
                                        _ => {},
                                    }
                                }
                            }
                        }
                        assert forall|j: u32| #![trigger env2.contains_key(j)] j < s.next_local implies (env.contains_key(j) <==> env2.contains_key(j)) && (env.contains_key(j) ==> env2[j] == env[j]) by {
                            assert(env1.contains_key(j) <==> env.contains_key(j));
                            assert(env2.contains_key(j) <==> env1.contains_key(j));
                            if env.contains_key(j) {
                                assert(env1[j] == env[j]);
                                assert(env2[j] == env1[j]);
                            }
                        }
                    },
                }
            },
        }
    }
}

proof fn lemma_array_lowering(s: LowerState, e: ExprV, env: Map<u32, ValueV>)
    requires
        flat_expr(e),
        e is Array,
        lower_spec(s, e, None) is Ok,
    ensures
        lowering_post(s, e, env),
    decreases e, 0nat,
{
    match e {
        ExprV::Array(es) => {
            lemma_list_lowering(s, es, env);
            let (s2, ops, _) = lower_list_spec(s, es)->Ok_0;
            let (s3, _, _) = lower_spec(s, e, None)->Ok_0;
            let st = s3.stmts.last();
            assert(s3.stmts == s2.stmts.push(st));
            assert(s3.stmts.subrange(0, s2.stmts.len() as int) =~= s2.stmts);
            assert(s3.stmts.subrange(0, s.stmts.len() as int) =~= s.stmts) by {
                assert(s3.stmts.subrange(0, s.stmts.len() as int) =~= s2.stmts.subrange(0, s.stmts.len() as int));
            }
            lemma_run_prefix(env, s2.stmts, s3.stmts, s.stmts.len() as int);
            match flat_list_value(es) {
                Err(x) => {},
                Ok(vs) => {
                    let env2 = run_from(env, s2.stmts, s.stmts.len() as int)->Ok_0;
                    assert(st.dest.0 == s2.next_local);
                    let e3 = env2.insert(st.dest.0, ValueV::Tensor(seq![ops.len() as usize], operand_values(env2, ops)));
                    assert(step(env2, st) == Ok::<Map<u32, ValueV>, EvalError>(e3));
                    assert(run_from(env2, s3.stmts, s2.stmts.len() as int) == run_from(e3, s3.stmts, s2.stmts.len() as int + 1));
                    assert(run_from(e3, s3.stmts, s2.stmts.len() as int + 1) == Ok::<Map<u32, ValueV>, EvalError>(e3));
                    assert forall|j: u32| #![trigger e3.contains_key(j)] j < s.next_local implies (env.contains_key(j) <==> e3.contains_key(j)) && (env.contains_key(j) ==> e3[j] == env[j]) by {
                        assert(env2.contains_key(j) <==> env.contains_key(j));
                        assert(j != st.dest.0);
                        if env.contains_key(j) {
                            assert(env2[j] == env[j]);
                        }
                    }
                },
            }
        },
        _ => {},
    }
}

/// Lowering round trip: a closed flat expression (literals of any kind under
/// unary operators, under binary operators other than the short-circuiting
/// ones, map, filter and composition, and in arrays; broadcasting included)
/// with fewer operators than there are local ids lowers to a single function,
/// and running it with the reference interpreter gives what evaluating the
/// expression gives (the same value, or the same failure), in any environment
/// with enough depth.
pub proof fn law_lowering_round_trip(e: ExprV, fuel: nat, env: EnvV, g: Seq<(String, ValueV)>)
    requires
        flat_expr(e),
        flat_size(e) <= u32::MAX,
        fuel > flat_depth(e),
    ensures
        lower_expr_spec(e) is Ok,
        lower_expr_spec(e)->Ok_0.functions.len() == 1,
        run_program(lower_expr_spec(e)->Ok_0) == flat_value(e),
        run_program(lower_expr_spec(e)->Ok_0) == eval_spec(fuel, e, env, g),
{
    lemma_flat_lowers(initial_state(), e);
    lemma_flat_lowering(initial_state(), e, Map::empty());
    lemma_flat_eval(fuel, e, env, g);
    let (s, op, ty) = lower_spec(initial_state(), e, None)->Ok_0;
    let p = lower_expr_spec(e)->Ok_0;
    assert(p.functions[0].body.stmts == s.stmts);
    assert(s.functions =~= Seq::<crate::mir::FunctionV>::empty());
}

/// Lowering is deterministic, with counters that start afresh on each call: two
/// lowerings of the same expression give the same program.
pub proof fn law_lowering_deterministic(e1: ExprV, e2: ExprV)
    requires
        e1 == e2,
    ensures
        lower_expr_spec(e1) == lower_expr_spec(e2),
        lower_expr_spec(e1) is Ok ==> lower_expr_spec(e1)->Ok_0.functions[0].name == "main"@,
{
}

} // verus!
