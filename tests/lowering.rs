use goth::decl::{Decl, FnDecl, LetDecl, Module};
use goth::error::MirError;
use goth::expr::{BinOp, Expr};
use goth::lower::{lower_expr, lower_expr_to_operand, lower_literal, lower_module, LoweringContext};
use goth::literal::Literal;
use goth::mir::{Constant, LocalId, Operand, Rhs, Terminator};
use goth::pattern::Pattern;
use goth::types::{PrimType, Type};
use std::collections::HashMap;

fn i64_ty() -> Type {
    Type::Prim(PrimType::I64)
}

#[test]
fn lowers_arithmetic_to_single_main() {
    // 1 + 2 * 3
    let e = Expr::add(Expr::integer(1), Expr::mul(Expr::integer(2), Expr::integer(3)));
    let p = lower_expr(&e).unwrap();
    assert_eq!(p.entry, "main");
    assert_eq!(p.functions.len(), 1);
    let main = &p.functions[0];
    assert_eq!(main.name, "main");
    assert!(!main.is_closure);
    assert_eq!(main.ret_ty, i64_ty());
    assert_eq!(main.body.stmts.len(), 2);
    assert_eq!(main.body.stmts[0].dest, LocalId(0));
    assert_eq!(
        main.body.stmts[0].rhs,
        Rhs::BinOp(BinOp::Mul, Operand::Const(Constant::Int(2)), Operand::Const(Constant::Int(3)))
    );
    assert_eq!(
        main.body.stmts[1].rhs,
        Rhs::BinOp(BinOp::Add, Operand::Const(Constant::Int(1)), Operand::Local(LocalId(0)))
    );
    assert_eq!(main.body.term, Terminator::Return(Operand::Local(LocalId(1))));
}

#[test]
fn lowering_twice_gives_identical_programs() {
    let make = || {
        Expr::let_(
            Pattern::var("x"),
            Expr::integer(10),
            Expr::app(Expr::lam(Expr::add(Expr::idx(0), Expr::idx(1))), Expr::integer(5)),
        )
    };
    let a = lower_expr(&make()).unwrap();
    let b = lower_expr(&make()).unwrap();
    assert_eq!(a, b);
}

#[test]
fn lambda_is_lifted_with_its_capture() {
    // let x = 10 in (λ→ ₀ + x) 5
    let e = Expr::let_(
        Pattern::var("x"),
        Expr::integer(10),
        Expr::app(Expr::lam(Expr::add(Expr::idx(0), Expr::idx(1))), Expr::integer(5)),
    );
    let p = lower_expr(&e).unwrap();
    assert_eq!(p.functions.len(), 2);
    let main = &p.functions[0];
    let lifted = &p.functions[1];
    assert_eq!(lifted.name, "lambda_0");
    assert!(lifted.is_closure);
    assert_eq!(lifted.params.len(), 2);
    assert_eq!(lifted.params[0].ty, Type::Tuple(vec![i64_ty()]));
    assert_eq!(lifted.params[1].ty, i64_ty());
    // The captured x is unpacked from the environment tuple first.
    assert_eq!(lifted.body.stmts[0].rhs, Rhs::TupleField(Operand::Local(LocalId(0)), 0));
    // main: x = 10; closure over x; call it with 5.
    assert_eq!(main.body.stmts.len(), 3);
    assert_eq!(main.body.stmts[0].rhs, Rhs::Use(Operand::Const(Constant::Int(10))));
    assert_eq!(
        main.body.stmts[1].rhs,
        Rhs::MakeClosure("lambda_0".to_string(), vec![Operand::Local(LocalId(0))])
    );
    assert_eq!(
        main.body.stmts[2].rhs,
        Rhs::ClosureCall(Operand::Local(LocalId(1)), vec![Operand::Const(Constant::Int(5))])
    );
    assert_eq!(main.ret_ty, i64_ty());
}

#[test]
fn closed_lambda_captures_nothing() {
    let e = Expr::app(Expr::lam(Expr::idx(0)), Expr::integer(1));
    let p = lower_expr(&e).unwrap();
    assert_eq!(p.functions[1].params[0].ty, Type::Tuple(vec![]));
    assert_eq!(p.functions[0].body.stmts[0].rhs, Rhs::MakeClosure("lambda_0".to_string(), vec![]));
}

#[test]
fn unbound_index_is_reported() {
    assert_eq!(lower_expr(&Expr::idx(0)), Err(MirError::UnboundVariable(0)));
}

#[test]
fn unknown_global_is_reported() {
    assert_eq!(
        lower_expr(&Expr::name("f")),
        Err(MirError::UndefinedName("f".to_string()))
    );
}

#[test]
fn conditional_cannot_be_lowered() {
    let e = Expr::if_(Expr::bool(true), Expr::integer(1), Expr::integer(2));
    assert!(matches!(lower_expr(&e), Err(MirError::CannotLower(_))));
}

#[test]
fn bare_lambda_needs_a_parameter_type() {
    assert!(matches!(lower_expr(&Expr::lam(Expr::idx(0))), Err(MirError::TypeError(_))));
}

#[test]
fn ascribed_lambda_gets_its_parameter_type() {
    let t = Type::func(Type::Prim(PrimType::Bool), Type::Prim(PrimType::Bool));
    let e = Expr::annot(Expr::lam(Expr::idx(0)), t);
    let p = lower_expr(&e).unwrap();
    assert_eq!(p.functions[1].params[1].ty, Type::Prim(PrimType::Bool));
}

#[test]
fn tuple_field_types() {
    let e = Expr::field_idx(Expr::tuple(vec![Expr::integer(1), Expr::bool(true)]), 1);
    let p = lower_expr(&e).unwrap();
    assert_eq!(p.functions[0].ret_ty, Type::Prim(PrimType::Bool));
    let bad = Expr::field_idx(Expr::integer(1), 0);
    assert!(matches!(lower_expr(&bad), Err(MirError::TypeError(_))));
}

#[test]
fn array_type_is_a_vector_of_its_first_element() {
    let e = Expr::array(vec![Expr::integer(1), Expr::integer(2)]);
    let p = lower_expr(&e).unwrap();
    assert_eq!(
        p.functions[0].ret_ty,
        Type::vector(goth::shape::Dim::Const(2), i64_ty())
    );
    let empty = lower_expr(&Expr::array(vec![])).unwrap();
    assert_eq!(empty.functions[0].ret_ty, Type::vector(goth::shape::Dim::Const(0), i64_ty()));
}

#[test]
fn comparison_and_unary_types() {
    let cmp = Expr::binop(BinOp::Lt, Expr::integer(1), Expr::integer(2));
    assert_eq!(lower_expr(&cmp).unwrap().functions[0].ret_ty, Type::Prim(PrimType::Bool));
    let root = Expr::unary(goth::expr::UnaryOp::Sqrt, Expr::integer(4));
    assert_eq!(lower_expr(&root).unwrap().functions[0].ret_ty, Type::Prim(PrimType::F64));
    let neg = Expr::unary(goth::expr::UnaryOp::Neg, Expr::integer(4));
    assert_eq!(lower_expr(&neg).unwrap().functions[0].ret_ty, i64_ty());
}

#[test]
fn literals_lower_to_constants() {
    assert_eq!(lower_literal(&Literal::Int(7)), (Constant::Int(7), i64_ty()));
    assert_eq!(lower_literal(&Literal::True), (Constant::Bool(true), Type::Prim(PrimType::Bool)));
    assert_eq!(lower_literal(&Literal::Unit), (Constant::Unit, Type::Tuple(vec![])));
    assert_eq!(lower_literal(&Literal::Char('a')), (Constant::Char('a'), Type::Prim(PrimType::Char)));
}

#[test]
fn operand_lowering_leaves_statements_in_the_context() {
    let mut ctx = LoweringContext::new();
    let (op, ty) = lower_expr_to_operand(&mut ctx, &Expr::integer(3)).unwrap();
    assert_eq!(op, Operand::Const(Constant::Int(3)));
    assert_eq!(ty, i64_ty());
}

#[test]
fn module_lowering_registers_and_emits_main() {
    let m = Module {
        name: Some("m".to_string()),
        decls: vec![
            Decl::Fn(FnDecl {
                name: "f".to_string(),
                signature: Type::func(i64_ty(), i64_ty()),
                body: Expr::lam(Expr::idx(0)),
            }),
            Decl::Let(LetDecl { name: "x".to_string(), type_: Some(i64_ty()), value: Expr::integer(1) }),
        ],
    };
    let p = lower_module(&m).unwrap();
    assert_eq!(p.entry, "main");
    assert_eq!(p.functions.len(), 1);
    assert_eq!(p.functions[0].body.term, Terminator::Return(Operand::Const(Constant::Unit)));
    assert_eq!(p.functions[0].ret_ty, Type::Tuple(vec![]));
    let mut ctx = LoweringContext::new();
    ctx.register_globals(&m);
    assert!(matches!(
        lower_expr_to_operand(&mut ctx, &Expr::name("f")),
        Err(MirError::CannotLower(_))
    ));
}

/// A direct interpreter for the straight-line integer programs lowering produces.
fn run_main(p: &goth::mir::Program) -> i64 {
    let main = &p.functions[0];
    let mut locals: HashMap<u32, i64> = HashMap::new();
    let val = |locals: &HashMap<u32, i64>, o: &Operand| match o {
        Operand::Const(Constant::Int(n)) => *n,
        Operand::Local(LocalId(id)) => locals[id],
        other => panic!("unexpected operand {:?}", other),
    };
    for st in &main.body.stmts {
        let v = match &st.rhs {
            Rhs::BinOp(BinOp::Add, a, b) => val(&locals, a) + val(&locals, b),
            Rhs::BinOp(BinOp::Sub, a, b) => val(&locals, a) - val(&locals, b),
            Rhs::BinOp(BinOp::Mul, a, b) => val(&locals, a) * val(&locals, b),
            Rhs::BinOp(BinOp::Div, a, b) => val(&locals, a) / val(&locals, b),
            Rhs::Use(a) => val(&locals, a),
            other => panic!("unexpected statement {:?}", other),
        };
        locals.insert(st.dest.0, v);
    }
    match &main.body.term {
        Terminator::Return(o) => val(&locals, o),
    }
}

#[test]
fn lowered_arithmetic_computes_what_evaluation_computes() {
    // (7 - 2) * (9 / 3) + 4
    let e = Expr::add(
        Expr::mul(
            Expr::sub(Expr::integer(7), Expr::integer(2)),
            Expr::div(Expr::integer(9), Expr::integer(3)),
        ),
        Expr::integer(4),
    );
    let p = lower_expr(&e).unwrap();
    assert_eq!(p.functions.len(), 1);
    let direct = goth::eval::eval(&e).unwrap();
    assert_eq!(direct, goth::value::Value::Int(19));
    assert_eq!(run_main(&p), 19);
}

#[test]
fn sum_is_lowered_with_the_element_type() {
    let e = Expr::sum(Expr::array(vec![Expr::integer(1), Expr::integer(2)]));
    let p = lower_expr(&e).unwrap();
    let main = &p.functions[0];
    assert_eq!(main.body.stmts.len(), 2);
    assert_eq!(
        main.body.stmts[1].rhs,
        Rhs::UnaryOp(goth::expr::UnaryOp::Sum, Operand::Local(LocalId(0)))
    );
    assert_eq!(main.ret_ty, i64_ty());
    let scalar = lower_expr(&Expr::sum(Expr::integer(3))).unwrap();
    assert_eq!(scalar.functions[0].ret_ty, i64_ty());
}

#[test]
fn failed_lookups_emit_nothing() {
    let mut ctx = LoweringContext::new();
    let (op, _) = lower_expr_to_operand(&mut ctx, &Expr::add(Expr::integer(1), Expr::integer(2))).unwrap();
    assert_eq!(op, Operand::Local(LocalId(0)));
    assert_eq!(lower_expr_to_operand(&mut ctx, &Expr::idx(3)), Err(MirError::UnboundVariable(3)));
    assert!(matches!(lower_expr_to_operand(&mut ctx, &Expr::name("g")), Err(MirError::UndefinedName(_))));
    // The next fresh local is still 1: nothing was emitted by the failures.
    let (op2, _) = lower_expr_to_operand(&mut ctx, &Expr::add(Expr::integer(1), Expr::integer(2))).unwrap();
    assert_eq!(op2, Operand::Local(LocalId(1)));
}

#[test]
fn comparison_under_not_lowers_to_one_function() {
    // not (3 < 5)
    let e = Expr::unary(
        goth::expr::UnaryOp::Not,
        Expr::binop(BinOp::Lt, Expr::integer(3), Expr::integer(5)),
    );
    let p = lower_expr(&e).unwrap();
    assert_eq!(p.functions.len(), 1);
    let main = &p.functions[0];
    assert_eq!(
        main.body.stmts[0].rhs,
        Rhs::BinOp(BinOp::Lt, Operand::Const(Constant::Int(3)), Operand::Const(Constant::Int(5)))
    );
    assert_eq!(
        main.body.stmts[1].rhs,
        Rhs::UnaryOp(goth::expr::UnaryOp::Not, Operand::Local(LocalId(0)))
    );
    assert_eq!(main.ret_ty, Type::Prim(PrimType::Bool));
    assert_eq!(goth::eval::eval(&e).unwrap(), goth::value::Value::Bool(false));
}

#[test]
fn short_circuit_operators_are_not_lowered() {
    let failing = Expr::binop(
        BinOp::Eq,
        Expr::div(Expr::integer(1), Expr::integer(0)),
        Expr::integer(0),
    );
    let e = Expr::binop(BinOp::Or, Expr::bool(true), failing);
    assert!(matches!(lower_expr(&e), Err(MirError::CannotLower(_))));
    let a = Expr::binop(BinOp::And, Expr::bool(false), Expr::bool(true));
    assert!(matches!(lower_expr(&a), Err(MirError::CannotLower(_))));
    assert_eq!(goth::eval::eval(&e).unwrap(), goth::value::Value::Bool(true));
}

/// Values of a small MIR interpreter that also runs closures.
#[derive(Debug, Clone, PartialEq)]
enum Mv {
    Int(i64),
    Tuple(Vec<Mv>),
    Closure(String, Vec<Mv>),
}

fn mir_operand(locals: &HashMap<u32, Mv>, o: &Operand) -> Mv {
    match o {
        Operand::Const(Constant::Int(n)) => Mv::Int(*n),
        Operand::Local(LocalId(id)) => locals[id].clone(),
        other => panic!("unexpected operand {:?}", other),
    }
}

fn mir_call(p: &goth::mir::Program, name: &str, args: Vec<Mv>) -> Mv {
    let f = p.functions.iter().find(|f| f.name == name).unwrap();
    let mut locals: HashMap<u32, Mv> = HashMap::new();
    for (param, a) in f.params.iter().zip(args) {
        locals.insert(param.local.0, a);
    }
    for st in &f.body.stmts {
        let v = match &st.rhs {
            Rhs::Use(a) => mir_operand(&locals, a),
            Rhs::BinOp(op, a, b) => match (mir_operand(&locals, a), mir_operand(&locals, b)) {
                (Mv::Int(x), Mv::Int(y)) => Mv::Int(match op {
                    BinOp::Add => x + y,
                    BinOp::Sub => x - y,
                    BinOp::Mul => x * y,
                    _ => panic!("unexpected operator"),
                }),
                _ => panic!("non-integer operands"),
            },
            Rhs::TupleField(t, i) => match mir_operand(&locals, t) {
                Mv::Tuple(vs) => vs[*i as usize].clone(),
                _ => panic!("field of a non-tuple"),
            },
            Rhs::Tuple(os) => Mv::Tuple(os.iter().map(|o| mir_operand(&locals, o)).collect()),
            Rhs::MakeClosure(n, os) => {
                Mv::Closure(n.clone(), os.iter().map(|o| mir_operand(&locals, o)).collect())
            }
            Rhs::ClosureCall(c, os) => match mir_operand(&locals, c) {
                Mv::Closure(n, env) => {
                    let mut args = vec![Mv::Tuple(env)];
                    args.extend(os.iter().map(|o| mir_operand(&locals, o)));
                    mir_call(p, &n, args)
                }
                _ => panic!("call of a non-closure"),
            },
            other => panic!("unexpected statement {:?}", other),
        };
        locals.insert(st.dest.0, v);
    }
    match &f.body.term {
        Terminator::Return(o) => mir_operand(&locals, o),
    }
}

#[test]
fn lowered_closure_program_computes_what_evaluation_computes() {
    // let x = 10 in (λ→ ₀ + x) 5
    let e = Expr::let_(
        Pattern::var("x"),
        Expr::integer(10),
        Expr::app(Expr::lam(Expr::add(Expr::idx(0), Expr::idx(1))), Expr::integer(5)),
    );
    let p = lower_expr(&e).unwrap();
    assert_eq!(mir_call(&p, &p.entry, vec![]), Mv::Int(15));
    assert_eq!(goth::eval::eval(&e).unwrap(), goth::value::Value::Int(15));
}

#[test]
fn lowered_nested_closures_capture_correctly() {
    // let a = 1 in let b = 2 in (λ→ (λ→ ₀ + ₁ + ₃) 4) 3  ==  4 + 3 + 1 = 8
    let inner = Expr::lam(Expr::add(Expr::add(Expr::idx(0), Expr::idx(1)), Expr::idx(3)));
    let outer = Expr::lam(Expr::app(inner, Expr::integer(4)));
    let e = Expr::let_(
        Pattern::var("a"),
        Expr::integer(1),
        Expr::let_(Pattern::var("b"), Expr::integer(2), Expr::app(outer, Expr::integer(3))),
    );
    let p = lower_expr(&e).unwrap();
    assert_eq!(p.functions.len(), 3);
    let expected = goth::eval::eval(&e).unwrap();
    assert_eq!(expected, goth::value::Value::Int(8));
    assert_eq!(mir_call(&p, &p.entry, vec![]), Mv::Int(8));
}

#[test]
fn array_plus_scalar_lowers_to_array_then_operator() {
    let e = Expr::add(
        Expr::array(vec![Expr::integer(1), Expr::integer(2), Expr::integer(3)]),
        Expr::integer(10),
    );
    let p = lower_expr(&e).unwrap();
    assert_eq!(p.functions.len(), 1);
    let main = &p.functions[0];
    assert_eq!(
        main.body.stmts[0].rhs,
        Rhs::Array(vec![
            Operand::Const(Constant::Int(1)),
            Operand::Const(Constant::Int(2)),
            Operand::Const(Constant::Int(3)),
        ])
    );
    assert_eq!(
        main.body.stmts[1].rhs,
        Rhs::BinOp(BinOp::Add, Operand::Local(LocalId(0)), Operand::Const(Constant::Int(10)))
    );
    match goth::eval::eval(&e).unwrap() {
        goth::value::Value::Tensor(t) => assert_eq!(t.get_flat(0), Some(goth::value::Value::Int(11))),
        _ => panic!("Expected tensor"),
    }
}
