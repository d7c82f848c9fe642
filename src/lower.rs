use crate::closure::{free_in, free_variables};
use crate::decl::{declared_globals, Decl, Module};
use crate::error::MirError;
use crate::expr::{BinOp, Expr, ExprV, UnaryOp};
use crate::literal::Literal;
use crate::mir::{
    functions_view, stmts_view, Block, BlockV, Constant, Function, FunctionV, LocalId, Operand,
    Param, Program, ProgramV, Rhs, RhsV, Stmt, StmtV, Terminator,
};
use crate::ops::is_cmp;
use crate::shape::Dim;
use crate::types::{types_view, PrimType, Type, TypeV};
use vstd::prelude::*;

verus! {

broadcast use vstd::std_specs::vec::group_vec_axioms, vstd::seq::group_seq_axioms;

/// Mathematical model of a `MirError`.
pub enum MirErrorV {
    UnboundVariable(u32),
    UndefinedName(Seq<char>),
    CannotLower(Seq<char>),
    ClosureError(Seq<char>),
    PatternError(Seq<char>),
    TypeError(Seq<char>),
    Internal(Seq<char>),
}

impl View for MirError {
    type V = MirErrorV;

    open spec fn view(&self) -> MirErrorV {
        match self {
            MirError::UnboundVariable(n) => MirErrorV::UnboundVariable(*n),
            MirError::UndefinedName(s) => MirErrorV::UndefinedName(s@),
            MirError::CannotLower(s) => MirErrorV::CannotLower(s@),
            MirError::ClosureError(s) => MirErrorV::ClosureError(s@),
            MirError::PatternError(s) => MirErrorV::PatternError(s@),
            MirError::TypeError(s) => MirErrorV::TypeError(s@),
            MirError::Internal(s) => MirErrorV::Internal(s@),
        }
    }
}

/// State of the lowering pass: the local stack (last = de Bruijn index 0; a
/// `None` slot is an enclosing binding a lifted body did not capture), the two
/// counters, the statements of the function being built, the lifted functions,
/// and the declared globals.
pub struct LowerState {
    pub locals: Seq<Option<(LocalId, TypeV)>>,
    pub next_local: u32,
    pub next_fn: u32,
    pub stmts: Seq<StmtV>,
    pub functions: Seq<FunctionV>,
    pub globals: Seq<(Seq<char>, TypeV)>,
}

pub type Lowered = Result<(LowerState, Operand, TypeV), MirErrorV>;

pub open spec fn i64_type() -> TypeV {
    TypeV::Prim(PrimType::I64)
}

/// Constant and type of a literal.
pub open spec fn literal_lowering(l: Literal) -> (Constant, TypeV) {
    match l {
        Literal::Int(n) => (Constant::Int(n), TypeV::Prim(PrimType::I64)),
        Literal::Float(b) => (Constant::Float(b), TypeV::Prim(PrimType::F64)),
        Literal::True => (Constant::Bool(true), TypeV::Prim(PrimType::Bool)),
        Literal::False => (Constant::Bool(false), TypeV::Prim(PrimType::Bool)),
        Literal::Unit => (Constant::Unit, TypeV::Tuple(Seq::empty())),
        Literal::Char(c) => (Constant::Char(c), TypeV::Prim(PrimType::Char)),
    }
}

/// Result type of a binary operator: comparisons and logical operators give
/// `Bool`; arithmetic gives `F64` when either side is `F64`, else the left type.
pub open spec fn binop_type(op: BinOp, l: TypeV, r: TypeV) -> TypeV {
    if is_cmp(op) || op is And || op is Or {
        TypeV::Prim(PrimType::Bool)
    } else if l == TypeV::Prim(PrimType::F64) || r == TypeV::Prim(PrimType::F64) {
        TypeV::Prim(PrimType::F64)
    } else {
        l
    }
}

/// Result type of a unary operator: `floor`, `ceil` and `sqrt` give `F64`, `not`
/// gives `Bool`, `sum` of a tensor gives its element type, the others keep the
/// operand's type.
pub open spec fn unary_type(op: UnaryOp, t: TypeV) -> TypeV {
    if op is Sum && t is Tensor {
        *t->Tensor_1
    } else if op is Floor || op is Ceil || op is Sqrt {
        TypeV::Prim(PrimType::F64)
    } else if op is Not {
        TypeV::Prim(PrimType::Bool)
    } else {
        t
    }
}

/// Statement `ty = rhs` into a fresh local.
pub open spec fn emit(s: LowerState, ty: TypeV, rhs: RhsV) -> Lowered {
    if s.next_local == u32::MAX {
        Err(MirErrorV::Internal("out of local ids"@))
    } else {
        let id = LocalId(s.next_local);
        Ok(
            (
                LowerState {
                    locals: s.locals,
                    next_local: (s.next_local + 1) as u32,
                    next_fn: s.next_fn,
                    stmts: s.stmts.push(StmtV { dest: id, ty, rhs }),
                    functions: s.functions,
                    globals: s.globals,
                },
                Operand::Local(id),
                ty,
            ),
        )
    }
}

/// Resolution of de Bruijn index `n` against the local stack.
pub open spec fn lookup_slot(s: LowerState, n: u32) -> Result<(Operand, TypeV), MirErrorV> {
    if (n as int) < s.locals.len() {
        match s.locals[s.locals.len() - 1 - n] {
            Some((id, t)) => Ok((Operand::Local(id), t)),
            None => Err(MirErrorV::Internal("variable not captured"@)),
        }
    } else {
        Err(MirErrorV::UnboundVariable(n))
    }
}

pub open spec fn with_locals(s: LowerState, locals: Seq<Option<(LocalId, TypeV)>>) -> LowerState {
    LowerState {
        locals,
        next_local: s.next_local,
        next_fn: s.next_fn,
        stmts: s.stmts,
        functions: s.functions,
        globals: s.globals,
    }
}

/// The stack without its top slot.
pub open spec fn pop(l: Seq<Option<(LocalId, TypeV)>>) -> Seq<Option<(LocalId, TypeV)>> {
    if l.len() > 0 {
        l.drop_last()
    } else {
        l
    }
}

/// Decimal digits of `n`.
pub open spec fn decimal(n: nat) -> Seq<char>
    decreases n,
{
    if n < 10 {
        seq![digit_char(n)]
    } else {
        decimal(n / 10).push(digit_char(n % 10))
    }
}

pub open spec fn digit_char(d: nat) -> char {
    if d == 0 {
        '0'
    } else if d == 1 {
        '1'
    } else if d == 2 {
        '2'
    } else if d == 3 {
        '3'
    } else if d == 4 {
        '4'
    } else if d == 5 {
        '5'
    } else if d == 6 {
        '6'
    } else if d == 7 {
        '7'
    } else if d == 8 {
        '8'
    } else {
        '9'
    }
}

/// Name of the `k`-th lifted function: `lambda_k`.
pub open spec fn lambda_name(k: nat) -> Seq<char> {
    seq!['l', 'a', 'm', 'b', 'd', 'a', '_'] + decimal(k)
}

/// Scan of the enclosing offsets `0..m` of the lambda `lam` over the stack
/// `locals`: for the free ones, in increasing order, the captured operands and
/// types; for every offset, the slot the lifted body sees for it (the capture's
/// field local, or `None`). `None` overall when a free offset hits an
/// uncaptured slot.
pub open spec fn capture_scan(locals: Seq<Option<(LocalId, TypeV)>>, lam: ExprV, m: nat) -> Option<
    (Seq<Operand>, Seq<TypeV>, Seq<Option<(LocalId, TypeV)>>),
>
    decreases m,
{
    if m == 0 {
        Some((Seq::empty(), Seq::empty(), Seq::empty()))
    } else {
        match capture_scan(locals, lam, (m - 1) as nat) {
            None => None,
            Some((ops, tys, slots)) => {
                let o = (m - 1) as nat;
                if free_in(lam, 0, o) {
                    match locals[locals.len() - 1 - o] {
                        Some((id, t)) => Some(
                            (
                                ops.push(Operand::Local(id)),
                                tys.push(t),
                                slots.push(Some((LocalId((2 + tys.len()) as u32), t))),
                            ),
                        ),
                        None => None,
                    }
                } else {
                    Some((ops, tys, slots.push(None)))
                }
            },
        }
    }
}

/// Local stack of a lifted body: the enclosing slots (outermost first), then the parameter.
pub open spec fn inner_stack(slots: Seq<Option<(LocalId, TypeV)>>, pt: TypeV) -> Seq<
    Option<(LocalId, TypeV)>,
> {
    Seq::new(
        slots.len() + 1,
        |p: int|
            if p < slots.len() {
                slots[slots.len() - 1 - p]
            } else {
                Some((LocalId(1), pt))
            },
    )
}

/// Statements of a lifted body that unpack the environment tuple (local 0).
pub open spec fn field_stmts(tys: Seq<TypeV>) -> Seq<StmtV> {
    Seq::new(
        tys.len(),
        |k: int|
            StmtV {
                dest: LocalId((2 + k) as u32),
                ty: tys[k],
                rhs: RhsV::TupleField(Operand::Local(LocalId(0)), k as u32),
            },
    )
}

/// Parameter type a type ascription gives a lambda.
pub open spec fn param_hint(t: TypeV) -> Option<TypeV> {
    match t {
        TypeV::Fn(a, _) => Some(*a),
        _ => None,
    }
}

/// Whether `name` is a declared global.
pub open spec fn declared(g: Seq<(Seq<char>, TypeV)>, name: Seq<char>) -> bool {
    exists|i: int| 0 <= i < g.len() && g[i].0 == name
}

/// Lowering of `e` in state `s`: the state after, the operand holding the
/// value, and its type. `hint` is the parameter type for a lambda. `and`/`or`
/// are refused: a block runs all its statements, so it cannot skip the right
/// operand the way evaluation does.
pub open spec fn lower_spec(s: LowerState, e: ExprV, hint: Option<TypeV>) -> Lowered
    decreases e, 1nat,
{
    match e {
        ExprV::Lit(l) => Ok((s, Operand::Const(literal_lowering(l).0), literal_lowering(l).1)),
        ExprV::Idx(n) => match lookup_slot(s, n) {
            Ok((op, t)) => Ok((s, op, t)),
            Err(x) => Err(x),
        },
        ExprV::Name(x) => if declared(s.globals, x@) {
            Err(MirErrorV::CannotLower("global reference"@))
        } else {
            Err(MirErrorV::UndefinedName(x@))
        },
        ExprV::Lam(_) => match hint {
            None => Err(MirErrorV::TypeError("lambda parameter type unknown"@)),
            Some(pt) => lower_lambda_spec(s, e, pt),
        },
        ExprV::App(f, a) => match lower_spec(s, *a, None) {
            // The argument's type is the parameter type of a lambda in function position.
            Err(x) => Err(x),
            Ok((s1, aop, aty)) => match lower_spec(s1, *f, Some(aty)) {
                Err(x) => Err(x),
                Ok((s2, fop, fty)) => match fty {
                    TypeV::Fn(_, r) => emit(s2, *r, RhsV::ClosureCall(fop, seq![aop])),
                    _ => Err(MirErrorV::TypeError("application of a non-function"@)),
                },
            },
        },
        ExprV::Let(p, v, b) => if !(p is Var) {
            Err(MirErrorV::PatternError("let binds one variable"@))
        } else {
            match lower_spec(s, *v, None) {
                Err(x) => Err(x),
                Ok((s1, vop, vty)) => match emit(s1, vty, RhsV::Use(vop)) {
                    Err(x) => Err(x),
                    Ok((s2, lop, _)) => match lop {
                        Operand::Local(id) => match lower_spec(
                            with_locals(s2, s2.locals.push(Some((id, vty)))),
                            *b,
                            hint,
                        ) {
                            Err(x) => Err(x),
                            Ok((s3, bop, bty)) => Ok((with_locals(s3, pop(s3.locals)), bop, bty)),
                        },
                        _ => Err(MirErrorV::Internal("out of local ids"@)),
                    },
                },
            }
        },
        ExprV::BinOp(op, l, r) => if op is And || op is Or {
            Err(MirErrorV::CannotLower("short-circuit operator"@))
        } else if op is MapEach || op is Filter || op is Compose {
            Err(MirErrorV::CannotLower("tensor or higher-order operator"@))
        } else {
            match lower_spec(s, *l, None) {
                Err(x) => Err(x),
                Ok((s1, lop, lt)) => match lower_spec(s1, *r, None) {
                    Err(x) => Err(x),
                    Ok((s2, rop, rt)) => emit(s2, binop_type(op, lt, rt), RhsV::BinOp(op, lop, rop)),
                },
            }
        },
        ExprV::UnaryOp(op, x) => match lower_spec(s, *x, None) {
            Err(err) => Err(err),
            Ok((s1, xop, xt)) => emit(s1, unary_type(op, xt), RhsV::UnaryOp(op, xop)),
        },
        ExprV::If(_, _, _) => Err(MirErrorV::CannotLower("conditional"@)),
        ExprV::Match(_, _) => Err(MirErrorV::CannotLower("match"@)),
        ExprV::Tuple(es) => match lower_list_spec(s, es) {
            Err(x) => Err(x),
            Ok((s1, ops, tys)) => emit(s1, TypeV::Tuple(tys), RhsV::Tuple(ops)),
        },
        ExprV::Array(es) => match lower_list_spec(s, es) {
            Err(x) => Err(x),
            Ok((s1, ops, tys)) => emit(
                s1,
                TypeV::Tensor(
                    seq![Dim::Const(es.len() as u64)],
                    Box::new(
                        if tys.len() > 0 {
                            tys[0]
                        } else {
                            i64_type()
                        },
                    ),
                ),
                RhsV::Array(ops),
            ),
        },
        ExprV::Field(x, i) => match lower_spec(s, *x, None) {
            Err(err) => Err(err),
            Ok((s1, xop, xt)) => match xt {
                TypeV::Tuple(ts) => if (i as int) < ts.len() {
                    emit(s1, ts[i as int], RhsV::TupleField(xop, i))
                } else {
                    Err(MirErrorV::TypeError("field index out of range"@))
                },
                _ => Err(MirErrorV::TypeError("field of a non-tuple"@)),
            },
        },
        ExprV::Variant(_, _) => Err(MirErrorV::CannotLower("variant"@)),
        ExprV::Annot(x, t) => match lower_spec(s, *x, param_hint(t)) {
            Err(err) => Err(err),
            Ok((s1, op, _)) => Ok((s1, op, t)),
        },
    }
}

/// Lowering of the elements of a tuple or array, left to right.
pub open spec fn lower_list_spec(s: LowerState, es: Seq<ExprV>) -> Result<
    (LowerState, Seq<Operand>, Seq<TypeV>),
    MirErrorV,
>
    decreases es, 0nat,
{
    if es.len() == 0 {
        Ok((s, Seq::empty(), Seq::empty()))
    } else {
        match lower_list_spec(s, es.subrange(0, es.len() - 1)) {
            Err(x) => Err(x),
            Ok((s1, ops, tys)) => match lower_spec(s1, es[es.len() - 1], None) {
                Err(x) => Err(x),
                Ok((s2, op, ty)) => Ok((s2, ops.push(op), tys.push(ty))),
            },
        }
    }
}

/// Closure conversion of the lambda `lam` with parameter type `pt`: its free
/// offsets are captured, in increasing order, into the environment tuple; its
/// body becomes the lifted function `lambda_k`; a closure of it is built here.
pub open spec fn lower_lambda_spec(s: LowerState, lam: ExprV, pt: TypeV) -> Lowered
    decreases lam, 0nat,
{
    if !(lam is Lam) {
        Err(MirErrorV::Internal("not a lambda"@))
    } else {
        let n = s.locals.len();
        if n > u32::MAX - 2 {
            Err(MirErrorV::Internal("too many locals"@))
        } else {
            match capture_scan(s.locals, lam, n) {
                None => Err(MirErrorV::Internal("variable not captured"@)),
                Some((ops, tys, slots)) => if s.next_fn == u32::MAX {
                    Err(MirErrorV::Internal("out of function names"@))
                } else {
                    let name = lambda_name(s.next_fn as nat);
                    let inner = LowerState {
                        locals: inner_stack(slots, pt),
                        next_local: (2 + tys.len()) as u32,
                        next_fn: (s.next_fn + 1) as u32,
                        stmts: field_stmts(tys),
                        functions: s.functions,
                        globals: s.globals,
                    };
                    match lower_spec(inner, *lam->Lam_0, None) {
                        Err(x) => Err(x),
                        Ok((s1, rop, rty)) => {
                            let f = FunctionV {
                                name,
                                params: seq![(LocalId(0), TypeV::Tuple(tys)), (LocalId(1), pt)],
                                ret_ty: rty,
                                body: BlockV { stmts: s1.stmts, term: Terminator::Return(rop) },
                                is_closure: true,
                            };
                            let s2 = LowerState {
                                locals: s.locals,
                                next_local: s.next_local,
                                next_fn: s1.next_fn,
                                stmts: s.stmts,
                                functions: s1.functions.push(f),
                                globals: s1.globals,
                            };
                            emit(
                                s2,
                                TypeV::Fn(Box::new(pt), Box::new(rty)),
                                RhsV::MakeClosure(name, ops),
                            )
                        },
                    }
                },
            }
        }
    }
}

/// The state a fresh lowering starts from.
pub open spec fn initial_state() -> LowerState {
    LowerState {
        locals: Seq::empty(),
        next_local: 0,
        next_fn: 0,
        stmts: Seq::empty(),
        functions: Seq::empty(),
        globals: Seq::empty(),
    }
}

/// The program for a whole expression: `main` (no parameters, the expression's
/// statements, returning its operand) followed by the lifted functions.
pub open spec fn lower_expr_spec(e: ExprV) -> Result<ProgramV, MirErrorV> {
    match lower_spec(initial_state(), e, None) {
        Err(x) => Err(x),
        Ok((s, op, ty)) => Ok(
            ProgramV {
                functions: seq![
                    FunctionV {
                        name: "main"@,
                        params: Seq::empty(),
                        ret_ty: ty,
                        body: BlockV { stmts: s.stmts, term: Terminator::Return(op) },
                        is_closure: false,
                    },
                ] + s.functions,
                entry: "main"@,
            },
        ),
    }
}

pub open spec fn slot_view(o: Option<(LocalId, Type)>) -> Option<(LocalId, TypeV)> {
    match o {
        Some((id, t)) => Some((id, t@)),
        None => None,
    }
}

pub open spec fn slots_view(s: Seq<Option<(LocalId, Type)>>) -> Seq<Option<(LocalId, TypeV)>> {
    s.map_values(|o: Option<(LocalId, Type)>| slot_view(o))
}

/// Lowering context: the local stack mirroring the evaluator's environment
/// (with a type per local), counters for fresh locals and lifted functions, the
/// statements of the function being built, the lifted functions, and the
/// declared globals.
pub struct LoweringContext {
    locals: Vec<Option<(LocalId, Type)>>,
    next_local: u32,
    next_fn: u32,
    stmts: Vec<Stmt>,
    functions: Vec<Function>,
    globals: Vec<(String, Type)>,
}

impl View for LoweringContext {
    type V = LowerState;

    closed spec fn view(&self) -> LowerState {
        LowerState {
            locals: slots_view(self.locals@),
            next_local: self.next_local,
            next_fn: self.next_fn,
            stmts: stmts_view(self.stmts@),
            functions: functions_view(self.functions@),
            globals: self.globals@.map_values(|g: (String, Type)| (g.0@, g.1@)),
        }
    }
}

/// Whether an executable lowering result, with the context left in `after`,
/// is the one `spec` describes. On failure the context is left unspecified,
/// except where a function says otherwise.
pub open spec fn lowered_as(
    r: Result<(Operand, Type), MirError>,
    after: LowerState,
    spec: Lowered,
) -> bool {
    match spec {
        Ok((s, op, t)) => r is Ok && r->Ok_0.0 == op && r->Ok_0.1@ == t && after == s,
        Err(e) => r is Err && r->Err_0@ == e,
    }
}

fn dup_slot(o: &Option<(LocalId, Type)>) -> (r: Option<(LocalId, Type)>)
    ensures
        slot_view(r) == slot_view(*o),
{
    match o {
        Some((id, t)) => Some((*id, t.dup())),
        None => None,
    }
}

fn digit_str(d: u32) -> (r: &'static str)
    requires
        d < 10,
    ensures
        r@ == seq![digit_char(d as nat)],
{
    proof {
        reveal_strlit("0");
        reveal_strlit("1");
        reveal_strlit("2");
        reveal_strlit("3");
        reveal_strlit("4");
        reveal_strlit("5");
        reveal_strlit("6");
        reveal_strlit("7");
        reveal_strlit("8");
        reveal_strlit("9");
    }
    match d {
        0 => "0",
        1 => "1",
        2 => "2",
        3 => "3",
        4 => "4",
        5 => "5",
        6 => "6",
        7 => "7",
        8 => "8",
        _ => "9",
    }
}

fn push_decimal(s: &mut String, n: u32)
    ensures
        final(s)@ == old(s)@ + decimal(n as nat),
    decreases n,
{
    if n >= 10 {
        push_decimal(s, n / 10);
    }
    s.append(digit_str(n % 10));
    proof {
        if n >= 10 {
            assert(decimal(n as nat) == decimal((n / 10) as nat).push(digit_char((n % 10) as nat)));
        }
        assert(final(s)@ =~= old(s)@ + decimal(n as nat));
    }
}

/// Name of the `k`-th lifted function.
fn lambda_fn_name(k: u32) -> (r: String)
    ensures
        r@ == lambda_name(k as nat),
{
    let mut s = String::new();
    proof {
        reveal_strlit("lambda_");
    }
    s.append("lambda_");
    push_decimal(&mut s, k);
    assert(s@ =~= lambda_name(k as nat));
    s
}

fn internal(msg: &str) -> (r: MirError)
    ensures
        r@ == MirErrorV::Internal(msg@),
{
    MirError::Internal(msg.to_string())
}

/// Constant and type of a literal.
pub fn lower_literal(lit: &Literal) -> (r: (Constant, Type))
    ensures
        (r.0, r.1@) == literal_lowering(*lit),
{
    match lit {
        Literal::Int(n) => (Constant::Int(*n), Type::Prim(PrimType::I64)),
        Literal::Float(x) => (Constant::Float(*x), Type::Prim(PrimType::F64)),
        Literal::True => (Constant::Bool(true), Type::Prim(PrimType::Bool)),
        Literal::False => (Constant::Bool(false), Type::Prim(PrimType::Bool)),
        Literal::Unit => {
            let t = Type::Tuple(Vec::new());
            assert(t@ == TypeV::Tuple(Seq::empty())) by {
                assert(types_view(Seq::<Type>::empty()) =~= Seq::<TypeV>::empty());
            }
            (Constant::Unit, t)
        },
        Literal::Char(c) => (Constant::Char(*c), Type::Prim(PrimType::Char)),
    }
}

impl LoweringContext {
    pub fn new() -> (r: LoweringContext)
        ensures
            r@ == initial_state(),
    {
        let r = LoweringContext {
            locals: Vec::new(),
            next_local: 0,
            next_fn: 0,
            stmts: Vec::new(),
            functions: Vec::new(),
            globals: Vec::new(),
        };
        assert(r@.locals =~= Seq::<Option<(LocalId, TypeV)>>::empty());
        assert(r@.stmts =~= Seq::<StmtV>::empty());
        assert(r@.functions =~= Seq::<FunctionV>::empty());
        assert(r@.globals =~= Seq::<(Seq<char>, TypeV)>::empty());
        r
    }

    /// Emits `ty = rhs` into a fresh local.
    fn emit_fresh(&mut self, ty: Type, rhs: Rhs) -> (r: Result<(Operand, Type), MirError>)
        ensures
            lowered_as(r, final(self)@, emit(old(self)@, ty@, rhs@)),
    {
        if self.next_local == u32::MAX {
            return Err(internal("out of local ids"));
        }
        let id = LocalId(self.next_local);
        self.next_local = self.next_local + 1;
        let ghost before = self.stmts@;
        self.stmts.push(Stmt { dest: id, ty: ty.dup(), rhs });
        proof {
            assert(stmts_view(self.stmts@) =~= stmts_view(before).push(
                StmtV { dest: id, ty: ty@, rhs: rhs@ },
            ));
        }
        Ok((Operand::Local(id), ty))
    }

    /// Resolves a de Bruijn index against the local stack.
    fn lookup_index(&self, idx: u32) -> (r: Result<(Operand, Type), MirError>)
        ensures
            match lookup_slot(self@, idx) {
                Ok((op, t)) => r is Ok && r->Ok_0.0 == op && r->Ok_0.1@ == t,
                Err(e) => r is Err && r->Err_0@ == e,
            },
    {
        let n = self.locals.len();
        if (idx as usize) < n {
            match &self.locals[n - 1 - idx as usize] {
                Some((id, t)) => Ok((Operand::Local(*id), t.dup())),
                None => Err(internal("variable not captured")),
            }
        } else {
            Err(MirError::UnboundVariable(idx))
        }
    }

    /// Whether `name` is a declared global.
    fn is_declared(&self, name: &String) -> (r: bool)
        ensures
            r == declared(self@.globals, name@),
    {
        let mut i: usize = 0;
        while i < self.globals.len()
            invariant
                i <= self.globals@.len(),
                forall|j: int| 0 <= j < i ==> self.globals@[j].0@ != name@,
            decreases self.globals@.len() - i,
        {
            if self.globals[i].0 == *name {
                assert(self@.globals[i as int].0 == name@);
                return true;
            }
            i = i + 1;
        }
        proof {
            if declared(self@.globals, name@) {
                let j = choose|j: int| 0 <= j < self@.globals.len() && self@.globals[j].0 == name@;
                assert(self.globals@[j].0@ == name@);
            }
        }
        false
    }
}

/// Lowers `expr`, returning the operand that holds its value and its type.
pub fn lower_expr_to_operand(ctx: &mut LoweringContext, expr: &Expr) -> (r: Result<(Operand, Type), MirError>)
    ensures
        lowered_as(r, final(ctx)@, lower_spec(old(ctx)@, expr@, None)),
        expr@ is Idx || expr@ is Name ==> final(ctx)@ == old(ctx)@,
{
    lower_with_hint(ctx, expr, None)
}

pub open spec fn hint_view(h: Option<Type>) -> Option<TypeV> {
    match h {
        Some(t) => Some(t@),
        None => None,
    }
}

/// Lowers `expr`; `hint` is the parameter type should `expr` be a lambda.
fn lower_with_hint(ctx: &mut LoweringContext, expr: &Expr, hint: Option<Type>) -> (r: Result<
    (Operand, Type),
    MirError,
>)
    ensures
        lowered_as(r, final(ctx)@, lower_spec(old(ctx)@, expr@, hint_view(hint))),
        expr@ is Idx || expr@ is Name ==> final(ctx)@ == old(ctx)@,
    decreases expr, 2nat,
{
    match expr {
        Expr::Lit(lit) => {
            let (c, ty) = lower_literal(lit);
            Ok((Operand::Const(c), ty))
        },
        Expr::Idx(idx) => ctx.lookup_index(*idx),
        Expr::Name(name) => {
            if ctx.is_declared(name) {
                Err(MirError::CannotLower("global reference".to_string()))
            } else {
                Err(MirError::UndefinedName(name.clone()))
            }
        },
        Expr::Lam(_) => match hint {
            None => Err(MirError::TypeError("lambda parameter type unknown".to_string())),
            Some(pt) => lower_lambda(ctx, expr, pt),
        },
        Expr::App(_, _) => lower_app(ctx, expr, hint),
        Expr::Let { .. } => lower_let(ctx, expr, hint),
        Expr::BinOp(_, _, _) => lower_binop(ctx, expr, hint),
        Expr::UnaryOp(_, _) => lower_unary(ctx, expr, hint),
        Expr::If { .. } => Err(MirError::CannotLower("conditional".to_string())),
        Expr::Match(_, _) => Err(MirError::CannotLower("match".to_string())),
        Expr::Tuple(_) => lower_tuple(ctx, expr, hint),
        Expr::Array(_) => lower_array(ctx, expr, hint),
        Expr::Field(_, _) => lower_field(ctx, expr, hint),
        Expr::Variant(_, _) => Err(MirError::CannotLower("variant".to_string())),
        Expr::Annot(x, t) => {
            let h = match t {
                Type::Fn(a, _) => Some(a.dup()),
                _ => None,
            };
            match lower_with_hint(ctx, x, h) {
                Ok((op, _)) => Ok((op, t.dup())),
                Err(e) => Err(e),
            }
        },
    }
}

/// Lowers an application: the argument first, because its type is the parameter
/// type a lambda in function position needs; then the function; then a closure
/// call. (Evaluation runs the function first; when both sides fail, the two
/// report their own side's failure.)
fn lower_app(ctx: &mut LoweringContext, expr: &Expr, hint: Option<Type>) -> (r: Result<
    (Operand, Type),
    MirError,
>)
    requires
        expr is App,
    ensures
        lowered_as(r, final(ctx)@, lower_spec(old(ctx)@, expr@, hint_view(hint))),
    decreases expr, 1nat,
{
    match expr {
    Expr::App(func, arg) => {
        let (aop, aty) = match lower_with_hint(ctx, arg, None) {
            Ok(x) => x,
            Err(e) => {
                return Err(e);
            },
        };
        let (fop, fty) = match lower_with_hint(ctx, func, Some(aty)) {
            Ok(x) => x,
            Err(e) => {
                return Err(e);
            },
        };
        match fty {
            Type::Fn(_, ret) => {
                let args = vec![aop];
                assert(args@ == seq![aop]);
                ctx.emit_fresh(*ret, Rhs::ClosureCall(fop, args))
            },
            _ => Err(MirError::TypeError("application of a non-function".to_string())),
        }
    },
        _ => Err(internal("unreachable")),
    }
}

/// Lowers a let binding one variable.
fn lower_let(ctx: &mut LoweringContext, expr: &Expr, hint: Option<Type>) -> (r: Result<
    (Operand, Type),
    MirError,
>)
    requires
        expr is Let,
    ensures
        lowered_as(r, final(ctx)@, lower_spec(old(ctx)@, expr@, hint_view(hint))),
    decreases expr, 1nat,
{
    match expr {
    Expr::Let { pattern, value, body } => {
        proof {
            assert(expr@ == ExprV::Let(pattern@, Box::new(value@), Box::new(body@)));
            assert(pattern@ is Var <==> pattern is Var);
        }
        if !matches!(pattern, crate::pattern::Pattern::Var(_)) {
            return Err(MirError::PatternError("let binds one variable".to_string()));
        }
        let (vop, vty) = match lower_with_hint(ctx, value, None) {
            Ok(x) => x,
            Err(e) => {
                return Err(e);
            },
        };
        let (lop, lty) = match ctx.emit_fresh(vty, Rhs::Use(vop)) {
            Ok(x) => x,
            Err(e) => {
                return Err(e);
            },
        };
        let id = match lop {
            Operand::Local(id) => id,
            _ => {
                return Err(internal("out of local ids"));
            },
        };
        let ghost before = ctx.locals@;
        ctx.locals.push(Some((id, lty)));
        proof {
            assert(slots_view(ctx.locals@) =~= slots_view(before).push(slot_view(Some((id, lty)))));
        }
        let res = lower_with_hint(ctx, body, hint);
        match res {
            Ok((bop, bty)) => {
                let ghost l = ctx.locals@;
                ctx.locals.pop();
                proof {
                    if l.len() > 0 {
                        assert(slots_view(ctx.locals@) =~= slots_view(l).drop_last());
                    }
                }
                Ok((bop, bty))
            },
            Err(e) => Err(e),
        }
    },
        _ => Err(internal("unreachable")),
    }
}

/// Lowers a binary operator.
fn lower_binop(ctx: &mut LoweringContext, expr: &Expr, hint: Option<Type>) -> (r: Result<
    (Operand, Type),
    MirError,
>)
    requires
        expr is BinOp,
    ensures
        lowered_as(r, final(ctx)@, lower_spec(old(ctx)@, expr@, hint_view(hint))),
    decreases expr, 1nat,
{
    match expr {
    Expr::BinOp(op, left, right) => {
        if matches!(op, BinOp::And | BinOp::Or) {
            return Err(MirError::CannotLower("short-circuit operator".to_string()));
        }
        if matches!(op, BinOp::MapEach | BinOp::Filter | BinOp::Compose) {
            return Err(MirError::CannotLower("tensor or higher-order operator".to_string()));
        }
        let (lop, lty) = match lower_with_hint(ctx, left, None) {
            Ok(x) => x,
            Err(e) => {
                return Err(e);
            },
        };
        let (rop, rty) = match lower_with_hint(ctx, right, None) {
            Ok(x) => x,
            Err(e) => {
                return Err(e);
            },
        };
        let cmp = matches!(
            op,
            BinOp::Eq | BinOp::Neq | BinOp::Lt | BinOp::Le | BinOp::Gt | BinOp::Ge | BinOp::And
                | BinOp::Or
        );
        let lf = matches!(lty, Type::Prim(PrimType::F64));
        let rf = matches!(rty, Type::Prim(PrimType::F64));
        let result_ty = if cmp {
            Type::Prim(PrimType::Bool)
        } else if lf || rf {
            Type::Prim(PrimType::F64)
        } else {
            lty
        };
        ctx.emit_fresh(result_ty, Rhs::BinOp(*op, lop, rop))
    },
        _ => Err(internal("unreachable")),
    }
}

/// Lowers a unary operator.
fn lower_unary(ctx: &mut LoweringContext, expr: &Expr, hint: Option<Type>) -> (r: Result<
    (Operand, Type),
    MirError,
>)
    requires
        expr is UnaryOp,
    ensures
        lowered_as(r, final(ctx)@, lower_spec(old(ctx)@, expr@, hint_view(hint))),
    decreases expr, 1nat,
{
    match expr {
    Expr::UnaryOp(op, operand) => {
        let (xop, xty) = match lower_with_hint(ctx, operand, None) {
            Ok(x) => x,
            Err(e) => {
                return Err(e);
            },
        };
        let result_ty = match (op, xty) {
            (UnaryOp::Sum, Type::Tensor(_, elem)) => *elem,
            (UnaryOp::Floor, _) | (UnaryOp::Ceil, _) | (UnaryOp::Sqrt, _) => Type::Prim(PrimType::F64),
            (UnaryOp::Not, _) => Type::Prim(PrimType::Bool),
            (_, t) => t,
        };
        ctx.emit_fresh(result_ty, Rhs::UnaryOp(*op, xop))
    },
        _ => Err(internal("unreachable")),
    }
}

/// Lowers a tuple construction.
fn lower_tuple(ctx: &mut LoweringContext, expr: &Expr, hint: Option<Type>) -> (r: Result<
    (Operand, Type),
    MirError,
>)
    requires
        expr is Tuple,
    ensures
        lowered_as(r, final(ctx)@, lower_spec(old(ctx)@, expr@, hint_view(hint))),
    decreases expr, 1nat,
{
    match expr {
    Expr::Tuple(exprs) => {
        proof {
            assert forall|j: int| 0 <= j < exprs@.len() implies decreases_to!(*expr => exprs@[j]) by {
                assert(decreases_to!(*expr => expr->Tuple_0));
                assert(decreases_to!(*exprs => exprs@));
                assert(decreases_to!(exprs@ => exprs@[j]));
            }
        }
        let (ops, tys) = match lower_list(ctx, expr, exprs) {
            Ok(x) => x,
            Err(e) => {
                return Err(e);
            },
        };
        ctx.emit_fresh(Type::Tuple(tys), Rhs::Tuple(ops))
    },
        _ => Err(internal("unreachable")),
    }
}

/// Lowers an array construction.
fn lower_array(ctx: &mut LoweringContext, expr: &Expr, hint: Option<Type>) -> (r: Result<
    (Operand, Type),
    MirError,
>)
    requires
        expr is Array,
    ensures
        lowered_as(r, final(ctx)@, lower_spec(old(ctx)@, expr@, hint_view(hint))),
    decreases expr, 1nat,
{
    match expr {
    Expr::Array(exprs) => {
        proof {
            assert forall|j: int| 0 <= j < exprs@.len() implies decreases_to!(*expr => exprs@[j]) by {
                assert(decreases_to!(*expr => expr->Array_0));
                assert(decreases_to!(*exprs => exprs@));
                assert(decreases_to!(exprs@ => exprs@[j]));
            }
        }
        let (ops, mut tys) = match lower_list(ctx, expr, exprs) {
            Ok(x) => x,
            Err(e) => {
                return Err(e);
            },
        };
        let elem = if tys.len() > 0 {
            tys.swap_remove(0)
        } else {
            Type::Prim(PrimType::I64)
        };
        let ty = Type::vector(Dim::Const(exprs.len() as u64), elem);
        ctx.emit_fresh(ty, Rhs::Array(ops))
    },
        _ => Err(internal("unreachable")),
    }
}

/// Lowers a tuple field projection.
fn lower_field(ctx: &mut LoweringContext, expr: &Expr, hint: Option<Type>) -> (r: Result<
    (Operand, Type),
    MirError,
>)
    requires
        expr is Field,
    ensures
        lowered_as(r, final(ctx)@, lower_spec(old(ctx)@, expr@, hint_view(hint))),
    decreases expr, 1nat,
{
    match expr {
    Expr::Field(x, i) => {
        let (xop, xty) = match lower_with_hint(ctx, x, None) {
            Ok(v) => v,
            Err(e) => {
                return Err(e);
            },
        };
        match &xty {
            Type::Tuple(ts) => {
                proof {
                    assert(xty@ == TypeV::Tuple(types_view(ts@)));
                    assert(types_view(ts@).len() == ts@.len());
                }
                if (*i as usize) < ts.len() {
                    proof {
                        assert(types_view(ts@)[*i as int] == ts@[*i as int]@);
                    }
                    ctx.emit_fresh(ts[*i as usize].dup(), Rhs::TupleField(xop, *i))
                } else {
                    Err(MirError::TypeError("field index out of range".to_string()))
                }
            },
            _ => Err(MirError::TypeError("field of a non-tuple".to_string())),
        }
    },
        _ => Err(internal("unreachable")),
    }
}

/// A failure in a prefix of the list is the failure of the whole list.
proof fn lemma_list_err(s: LowerState, es: Seq<ExprV>, i: int)
    requires
        0 <= i <= es.len(),
        lower_list_spec(s, es.subrange(0, i)) is Err,
    ensures
        lower_list_spec(s, es) == lower_list_spec(s, es.subrange(0, i)),
    decreases es.len() - i,
{
    if i < es.len() {
        let t = es.subrange(0, i + 1);
        assert(t.subrange(0, t.len() - 1) =~= es.subrange(0, i));
        lemma_list_err(s, es, i + 1);
    } else {
        assert(es.subrange(0, i) =~= es);
    }
}

/// Lowers the elements `exprs` of `parent` left to right.
fn lower_list(ctx: &mut LoweringContext, parent: &Expr, exprs: &Vec<Expr>) -> (r: Result<
    (Vec<Operand>, Vec<Type>),
    MirError,
>)
    requires
        forall|j: int| 0 <= j < exprs@.len() ==> decreases_to!(*parent => exprs@[j]),
    ensures
        match lower_list_spec(old(ctx)@, crate::expr::exprs_view(exprs@)) {
            Ok((s, ops, tys)) => r is Ok && r->Ok_0.0@ == ops && types_view(r->Ok_0.1@) == tys
                && final(ctx)@ == s,
            Err(e) => r is Err && r->Err_0@ == e,
        },
    decreases parent, 0nat,
{
    let ghost s0 = ctx@;
    let ghost es = crate::expr::exprs_view(exprs@);
    let mut ops: Vec<Operand> = Vec::new();
    let mut tys: Vec<Type> = Vec::new();
    let mut i: usize = 0;
    assert(es.subrange(0, 0) =~= Seq::<ExprV>::empty());
    assert(types_view(tys@) =~= Seq::<TypeV>::empty());
    while i < exprs.len()
        invariant
            i <= exprs@.len(),
            s0 == old(ctx)@,
            es == crate::expr::exprs_view(exprs@),
            forall|j: int| 0 <= j < exprs@.len() ==> decreases_to!(*parent => exprs@[j]),
            lower_list_spec(s0, es.subrange(0, i as int)) == Ok::<
                (LowerState, Seq<Operand>, Seq<TypeV>),
                MirErrorV,
            >((ctx@, ops@, types_view(tys@))),
        decreases exprs@.len() - i,
    {
        let ghost before = ctx@;
        let res = lower_with_hint(ctx, &exprs[i], None);
        proof {
            let t = es.subrange(0, i + 1);
            assert(t.subrange(0, t.len() - 1) =~= es.subrange(0, i as int));
            assert(t[t.len() - 1] == exprs@[i as int]@);
        }
        match res {
            Ok((op, ty)) => {
                let ghost tv = types_view(tys@);
                ops.push(op);
                tys.push(ty);
                proof {
                    assert(types_view(tys@) =~= tv.push(ty@));
                }
            },
            Err(e) => {
                proof {
                    let t = es.subrange(0, i + 1);
                    assert(lower_list_spec(s0, t) == Err::<(LowerState, Seq<Operand>, Seq<TypeV>), MirErrorV>(e@));
                    lemma_list_err(s0, es, i + 1);
                }
                return Err(e);
            },
        }
        i = i + 1;
    }
    assert(es.subrange(0, es.len() as int) =~= es);
    Ok((ops, tys))
}

/// Once the scan fails it stays failed.
proof fn lemma_scan_none(locals: Seq<Option<(LocalId, TypeV)>>, lam: ExprV, m: nat, k: nat)
    requires
        m <= k,
        capture_scan(locals, lam, m) is None,
    ensures
        capture_scan(locals, lam, k) is None,
    decreases k - m,
{
    if m < k {
        lemma_scan_none(locals, lam, m, (k - 1) as nat);
    }
}

/// Closure conversion of `lam` with parameter type `pt`.
fn lower_lambda(ctx: &mut LoweringContext, lam: &Expr, pt: Type) -> (r: Result<
    (Operand, Type),
    MirError,
>)
    ensures
        lowered_as(r, final(ctx)@, lower_lambda_spec(old(ctx)@, lam@, pt@)),
    decreases lam, 0nat,
{
    let body = match lam {
        Expr::Lam(b) => b,
        _ => {
            return Err(internal("not a lambda"));
        },
    };
    let ghost s0 = ctx@;
    let n = ctx.locals.len();
    if n > (u32::MAX - 2) as usize {
        return Err(internal("too many locals"));
    }
    let free = free_variables(lam);
    let mut ops: Vec<Operand> = Vec::new();
    let mut tys: Vec<Type> = Vec::new();
    let mut slots: Vec<Option<(LocalId, Type)>> = Vec::new();
    let mut o: usize = 0;
    assert(types_view(tys@) =~= Seq::<TypeV>::empty());
    assert(slots_view(slots@) =~= Seq::<Option<(LocalId, TypeV)>>::empty());
    while o < n
        invariant
            o <= n,
            s0 == old(ctx)@,
            lam@ is Lam,
            n == ctx.locals@.len(),
            n <= u32::MAX - 2,
            s0 == ctx@,
            free@ == crate::closure::free_set(lam@, 0),
            capture_scan(s0.locals, lam@, o as nat) == Some((ops@, types_view(tys@), slots_view(slots@))),
            tys@.len() <= o,
            slots@.len() == o,
        decreases n - o,
    {
        let ghost pre_t = types_view(tys@);
        let ghost pre_s = slots_view(slots@);
        let is_free = free.contains(&(o as u32));
        proof {
            assert(((o as u32) as nat) == o as nat);
            assert(is_free == free_in(lam@, 0, o as nat));
        }
        if is_free {
            match &ctx.locals[n - 1 - o] {
                Some((id, t)) => {
                    let k = tys.len();
                    ops.push(Operand::Local(*id));
                    slots.push(Some((LocalId((2 + k) as u32), t.dup())));
                    tys.push(t.dup());
                    proof {
                        assert(s0.locals[n - 1 - o] == Some((*id, t@)));
                        assert(types_view(tys@) =~= pre_t.push(t@));
                        assert(slots_view(slots@) =~= pre_s.push(Some((LocalId((2 + k) as u32), t@))));
                    }
                },
                None => {
                    proof {
                        assert(s0.locals[n - 1 - o] == None::<(LocalId, TypeV)>);
                        lemma_scan_none(s0.locals, lam@, o as nat + 1, n as nat);
                    }
                    return Err(internal("variable not captured"));
                },
            }
        } else {
            slots.push(None);
            proof {
                assert(slots_view(slots@) =~= pre_s.push(None));
            }
        }
        o = o + 1;
    }
    if ctx.next_fn == u32::MAX {
        return Err(internal("out of function names"));
    }
    let name = lambda_fn_name(ctx.next_fn);
    let ghost sv = slots_view(slots@);
    let mut inner_locals: Vec<Option<(LocalId, Type)>> = Vec::new();
    let mut p: usize = 0;
    while p < n
        invariant
            p <= n,
            slots@.len() == n,
            sv == slots_view(slots@),
            inner_locals@.len() == p,
            forall|q: int| 0 <= q < p ==> slot_view(#[trigger] inner_locals@[q]) == sv[n - 1 - q],
        decreases n - p,
    {
        inner_locals.push(dup_slot(&slots[n - 1 - p]));
        p = p + 1;
    }
    inner_locals.push(Some((LocalId(1), pt.dup())));
    assert(slots_view(inner_locals@) =~= inner_stack(sv, pt@));
    let ghost tv = types_view(tys@);
    let mut fstmts: Vec<Stmt> = Vec::new();
    let mut k: usize = 0;
    while k < tys.len()
        invariant
            k <= tys@.len(),
            tys@.len() <= n,
            n <= u32::MAX - 2,
            tv == types_view(tys@),
            fstmts@.len() == k,
            forall|q: int| 0 <= q < k ==> (#[trigger] fstmts@[q])@ == field_stmts(tv)[q],
        decreases tys@.len() - k,
    {
        fstmts.push(
            Stmt {
                dest: LocalId((2 + k) as u32),
                ty: tys[k].dup(),
                rhs: Rhs::TupleField(Operand::Local(LocalId(0)), k as u32),
            },
        );
        k = k + 1;
    }
    assert(stmts_view(fstmts@) =~= field_stmts(tv));
    let mut inner = LoweringContext {
        locals: inner_locals,
        next_local: (2 + tys.len()) as u32,
        next_fn: ctx.next_fn + 1,
        stmts: fstmts,
        functions: Vec::new(),
        globals: Vec::new(),
    };
    core::mem::swap(&mut inner.functions, &mut ctx.functions);
    core::mem::swap(&mut inner.globals, &mut ctx.globals);
    let res = lower_with_hint(&mut inner, body, None);
    let (rop, rty) = match res {
        Ok(x) => x,
        Err(e) => {
            return Err(e);
        },
    };
    let ghost fv_before = functions_view(inner.functions@);
    let mut params: Vec<Param> = Vec::new();
    params.push(Param { local: LocalId(0), ty: Type::Tuple(tys) });
    params.push(Param { local: LocalId(1), ty: pt.dup() });
    let mut stmts: Vec<Stmt> = Vec::new();
    core::mem::swap(&mut stmts, &mut inner.stmts);
    let f = Function {
        name: name.clone(),
        params,
        ret_ty: rty.dup(),
        body: Block { stmts, term: Terminator::Return(rop) },
        is_closure: true,
    };
    ctx.next_fn = inner.next_fn;
    core::mem::swap(&mut inner.functions, &mut ctx.functions);
    core::mem::swap(&mut inner.globals, &mut ctx.globals);
    ctx.functions.push(f);
    proof {
        assert(f@.params =~= seq![(LocalId(0), TypeV::Tuple(tv)), (LocalId(1), pt@)]);
        assert(functions_view(ctx.functions@) =~= fv_before.push(f@));
    }
    ctx.emit_fresh(Type::Fn(Box::new(pt), Box::new(rty)), Rhs::MakeClosure(name, ops))
}

/// Lowers a closed top-level expression to a program whose entry is `main`.
pub fn lower_expr(expr: &Expr) -> (r: Result<Program, MirError>)
    ensures
        match lower_expr_spec(expr@) {
            Ok(p) => r is Ok && r->Ok_0@ == p,
            Err(e) => r is Err && r->Err_0@ == e,
        },
{
    let mut ctx = LoweringContext::new();
    let (op, ty) = match lower_expr_to_operand(&mut ctx, expr) {
        Ok(x) => x,
        Err(e) => {
            return Err(e);
        },
    };
    let mut stmts: Vec<Stmt> = Vec::new();
    core::mem::swap(&mut stmts, &mut ctx.stmts);
    let main_fn = Function {
        name: "main".to_string(),
        params: Vec::new(),
        ret_ty: ty,
        body: Block { stmts, term: Terminator::Return(op) },
        is_closure: false,
    };
    let ghost lifted = functions_view(ctx.functions@);
    let mut functions: Vec<Function> = Vec::new();
    functions.push(main_fn);
    functions.append(&mut ctx.functions);
    let r = Program { functions, entry: "main".to_string() };
    proof {
        assert(main_fn@.params =~= Seq::<(LocalId, TypeV)>::empty());
        match lower_expr_spec(expr@) {
            Ok(p) => {
                assert(r@.functions =~= p.functions);
            },
            Err(_) => {},
        }
    }
    Ok(r)
}

/// The program `lower_module` produces: a `main` that returns unit.
pub open spec fn module_program() -> ProgramV {
    ProgramV {
        functions: seq![
            FunctionV {
                name: "main"@,
                params: Seq::empty(),
                ret_ty: TypeV::Tuple(Seq::empty()),
                body: BlockV { stmts: Seq::empty(), term: Terminator::Return(Operand::Const(Constant::Unit)) },
                is_closure: false,
            },
        ],
        entry: "main"@,
    }
}

impl LoweringContext {
    /// Registers the name and declared type of every function declaration, and
    /// of every let declaration with a declared type, as globals.
    pub fn register_globals(&mut self, module: &Module)
        ensures
            final(self)@.globals == old(self)@.globals + declared_globals(module.decls@),
            final(self)@.locals == old(self)@.locals,
            final(self)@.stmts == old(self)@.stmts,
            final(self)@.functions == old(self)@.functions,
            final(self)@.next_local == old(self)@.next_local,
            final(self)@.next_fn == old(self)@.next_fn,
    {
        let ghost g0 = self@.globals;
        let mut i: usize = 0;
        assert(module.decls@.subrange(0, 0) =~= Seq::<Decl>::empty());
        assert(g0 + declared_globals(Seq::<Decl>::empty()) =~= g0);
        while i < module.decls.len()
            invariant
                i <= module.decls@.len(),
                self@.globals == g0 + declared_globals(module.decls@.subrange(0, i as int)),
                self@.locals == old(self)@.locals,
                self@.stmts == old(self)@.stmts,
                self@.functions == old(self)@.functions,
                self@.next_local == old(self)@.next_local,
                self@.next_fn == old(self)@.next_fn,
            decreases module.decls@.len() - i,
        {
            let ghost before = self.globals@;
            proof {
                let t = module.decls@.subrange(0, i + 1);
                assert(t.subrange(0, t.len() - 1) =~= module.decls@.subrange(0, i as int));
                assert(t[t.len() - 1] == module.decls@[i as int]);
            }
            match &module.decls[i] {
                Decl::Fn(f) => {
                    self.globals.push((f.name.clone(), f.signature.dup()));
                    proof {
                        assert(declared_globals(module.decls@.subrange(0, i + 1)) == declared_globals(module.decls@.subrange(0, i as int)).push((f.name@, f.signature@)));
                        assert(self@.globals =~= before.map_values(|g: (String, Type)| (g.0@, g.1@)).push((f.name@, f.signature@)));
                        assert(self@.globals =~= g0 + declared_globals(module.decls@.subrange(0, i + 1)));
                    }
                },
                Decl::Let(l) => {
                    match &l.type_ {
                        Some(t) => {
                            self.globals.push((l.name.clone(), t.dup()));
                            proof {
                                assert(declared_globals(module.decls@.subrange(0, i + 1)) == declared_globals(module.decls@.subrange(0, i as int)).push((l.name@, t@)));
                                assert(self@.globals =~= before.map_values(|g: (String, Type)| (g.0@, g.1@)).push((l.name@, t@)));
                                assert(self@.globals =~= g0 + declared_globals(module.decls@.subrange(0, i + 1)));
                            }
                        },
                        None => {},
                    }
                },
                Decl::Type(_) => {},
            }
            i = i + 1;
        }
        assert(module.decls@.subrange(0, module.decls@.len() as int) =~= module.decls@);
    }
}

/// Lowers a module: its declarations are registered as globals, and the
/// program's entry is a `main` that returns unit (declaration bodies are not lowered).
pub fn lower_module(module: &Module) -> (r: Result<Program, MirError>)
    ensures
        r is Ok && r->Ok_0@ == module_program(),
{
    let mut ctx = LoweringContext::new();
    ctx.register_globals(module);
    let main_fn = Function {
        name: "main".to_string(),
        params: Vec::new(),
        ret_ty: Type::Tuple(Vec::new()),
        body: Block::with_return(Operand::Const(Constant::Unit)),
        is_closure: false,
    };
    let mut functions: Vec<Function> = Vec::new();
    functions.push(main_fn);
    let r = Program { functions, entry: "main".to_string() };
    proof {
        assert(types_view(Seq::<Type>::empty()) =~= Seq::<TypeV>::empty());
        assert(main_fn@.params =~= Seq::<(LocalId, TypeV)>::empty());
        assert(r@.functions =~= module_program().functions);
    }
    Ok(r)
}

/// Destinations strictly increase along the statements, and stay below `bound`:
/// no statement redefines a local.
pub open spec fn single_assignment(stmts: Seq<StmtV>, bound: u32) -> bool {
    &&& forall|i: int, j: int|
        0 <= i < j < stmts.len() ==> (#[trigger] stmts[i]).dest.0 < (#[trigger] stmts[j]).dest.0
    &&& forall|i: int| 0 <= i < stmts.len() ==> (#[trigger] stmts[i]).dest.0 < bound
}

/// Every function's body assigns each local at most once.
pub open spec fn functions_single_assignment(fs: Seq<FunctionV>) -> bool {
    forall|k: int|
        0 <= k < fs.len() ==> single_assignment((#[trigger] fs[k]).body.stmts, u32::MAX)
}

pub open spec fn state_wf(s: LowerState) -> bool {
    single_assignment(s.stmts, s.next_local) && functions_single_assignment(s.functions)
}

proof fn lemma_emit_wf(s: LowerState, ty: TypeV, rhs: RhsV)
    requires
        state_wf(s),
    ensures
        emit(s, ty, rhs) is Ok ==> state_wf(emit(s, ty, rhs)->Ok_0.0),
{
}

proof fn lemma_field_stmts_wf(tys: Seq<TypeV>)
    requires
        tys.len() <= u32::MAX - 2,
    ensures
        single_assignment(field_stmts(tys), (2 + tys.len()) as u32),
{
}

/// Lowering keeps every function single-assignment.
proof fn lemma_lower_wf(s: LowerState, e: ExprV, hint: Option<TypeV>)
    requires
        state_wf(s),
    ensures
        lower_spec(s, e, hint) is Ok ==> state_wf(lower_spec(s, e, hint)->Ok_0.0),
    decreases e, 1nat,
{
    match e {
        ExprV::Lam(_) => {
            if let Some(pt) = hint {
                lemma_lambda_wf(s, e, pt);
            }
        },
        ExprV::App(f, a) => {
            lemma_lower_wf(s, *a, None);
            if let Ok((s1, _, aty)) = lower_spec(s, *a, None) {
                lemma_lower_wf(s1, *f, Some(aty));
                if let Ok((s2, fop, fty)) = lower_spec(s1, *f, Some(aty)) {
                    if let TypeV::Fn(_, r) = fty {
                        lemma_emit_wf(s2, *r, RhsV::ClosureCall(fop, seq![lower_spec(s, *a, None)->Ok_0.1]));
                    }
                }
            }
        },
        ExprV::Let(p, v, b) => {
            lemma_lower_wf(s, *v, None);
            if let Ok((s1, vop, vty)) = lower_spec(s, *v, None) {
                lemma_emit_wf(s1, vty, RhsV::Use(vop));
                if let Ok((s2, lop, _)) = emit(s1, vty, RhsV::Use(vop)) {
                    if let Operand::Local(id) = lop {
                        let s2b = with_locals(s2, s2.locals.push(Some((id, vty))));
                        lemma_lower_wf(s2b, *b, hint);
                    }
                }
            }
        },
        ExprV::BinOp(op, l, r) => {
            lemma_lower_wf(s, *l, None);
            if let Ok((s1, lop, lt)) = lower_spec(s, *l, None) {
                lemma_lower_wf(s1, *r, None);
                if let Ok((s2, rop, rt)) = lower_spec(s1, *r, None) {
                    lemma_emit_wf(s2, binop_type(op, lt, rt), RhsV::BinOp(op, lop, rop));
                }
            }
        },
        ExprV::UnaryOp(op, x) => {
            lemma_lower_wf(s, *x, None);
            if let Ok((s1, xop, xt)) = lower_spec(s, *x, None) {
                lemma_emit_wf(s1, unary_type(op, xt), RhsV::UnaryOp(op, xop));
            }
        },
        ExprV::Tuple(es) => {
            lemma_list_wf(s, es);
            if let Ok((s1, ops, tys)) = lower_list_spec(s, es) {
                lemma_emit_wf(s1, TypeV::Tuple(tys), RhsV::Tuple(ops));
            }
        },
        ExprV::Array(es) => {
            lemma_list_wf(s, es);
            if let Ok((s1, ops, tys)) = lower_list_spec(s, es) {
                let elem = if tys.len() > 0 {
                    tys[0]
                } else {
                    i64_type()
                };
                lemma_emit_wf(
                    s1,
                    TypeV::Tensor(seq![Dim::Const(es.len() as u64)], Box::new(elem)),
                    RhsV::Array(ops),
                );
            }
        },
        ExprV::Field(x, i) => {
            lemma_lower_wf(s, *x, None);
            if let Ok((s1, xop, xt)) = lower_spec(s, *x, None) {
                if let TypeV::Tuple(ts) = xt {
                    if (i as int) < ts.len() {
                        lemma_emit_wf(s1, ts[i as int], RhsV::TupleField(xop, i));
                    }
                }
            }
        },
        ExprV::Annot(x, t) => {
            lemma_lower_wf(s, *x, param_hint(t));
        },
        _ => {},
    }
}

proof fn lemma_list_wf(s: LowerState, es: Seq<ExprV>)
    requires
        state_wf(s),
    ensures
        lower_list_spec(s, es) is Ok ==> state_wf(lower_list_spec(s, es)->Ok_0.0),
    decreases es, 0nat,
{
    if es.len() > 0 {
        let pre = es.subrange(0, es.len() - 1);
        lemma_list_wf(s, pre);
        if let Ok((s1, _, _)) = lower_list_spec(s, pre) {
            lemma_lower_wf(s1, es[es.len() - 1], None);
        }
    }
}

proof fn lemma_lambda_wf(s: LowerState, lam: ExprV, pt: TypeV)
    requires
        state_wf(s),
    ensures
        lower_lambda_spec(s, lam, pt) is Ok ==> state_wf(lower_lambda_spec(s, lam, pt)->Ok_0.0),
    decreases lam, 0nat,
{
    if lam is Lam {
        let n = s.locals.len();
        if n <= u32::MAX - 2 {
            if let Some((ops, tys, slots)) = capture_scan(s.locals, lam, n) {
                if s.next_fn != u32::MAX {
                    lemma_capture_len(s.locals, lam, n);
                    lemma_field_stmts_wf(tys);
                    let inner = LowerState {
                        locals: inner_stack(slots, pt),
                        next_local: (2 + tys.len()) as u32,
                        next_fn: (s.next_fn + 1) as u32,
                        stmts: field_stmts(tys),
                        functions: s.functions,
                        globals: s.globals,
                    };
                    lemma_lower_wf(inner, *lam->Lam_0, None);
                    if let Ok((s1, rop, rty)) = lower_spec(inner, *lam->Lam_0, None) {
                        let name = lambda_name(s.next_fn as nat);
                        let f = FunctionV {
                            name,
                            params: seq![(LocalId(0), TypeV::Tuple(tys)), (LocalId(1), pt)],
                            ret_ty: rty,
                            body: BlockV { stmts: s1.stmts, term: Terminator::Return(rop) },
                            is_closure: true,
                        };
                        let s2 = LowerState {
                            locals: s.locals,
                            next_local: s.next_local,
                            next_fn: s1.next_fn,
                            stmts: s.stmts,
                            functions: s1.functions.push(f),
                            globals: s1.globals,
                        };
                        assert(functions_single_assignment(s2.functions)) by {
                            assert forall|k: int| 0 <= k < s2.functions.len() implies single_assignment(
                                (#[trigger] s2.functions[k]).body.stmts,
                                u32::MAX,
                            ) by {
                                if k < s1.functions.len() {
                                    assert(s2.functions[k] == s1.functions[k]);
                                }
                            }
                        }
                        lemma_emit_wf(s2, TypeV::Fn(Box::new(pt), Box::new(rty)), RhsV::MakeClosure(name, ops));
                    }
                }
            }
        }
    }
}

/// The scan captures at most as many offsets as it visits.
proof fn lemma_capture_len(locals: Seq<Option<(LocalId, TypeV)>>, lam: ExprV, m: nat)
    ensures
        capture_scan(locals, lam, m) is Some ==> capture_scan(locals, lam, m)->Some_0.1.len() <= m,
    decreases m,
{
    if m > 0 {
        lemma_capture_len(locals, lam, (m - 1) as nat);
    }
}

/// Locals are single-assignment: in every function of a lowered program, no
/// statement writes a local that an earlier statement wrote.
pub proof fn law_single_assignment(e: ExprV)
    ensures
        lower_expr_spec(e) is Ok ==> functions_single_assignment(lower_expr_spec(e)->Ok_0.functions),
{
    let s0 = initial_state();
    assert(state_wf(s0));
    lemma_lower_wf(s0, e, None);
    if let Ok((s, op, ty)) = lower_spec(s0, e, None) {
        let p = lower_expr_spec(e)->Ok_0;
        assert forall|k: int| 0 <= k < p.functions.len() implies single_assignment(
            (#[trigger] p.functions[k]).body.stmts,
            u32::MAX,
        ) by {
            if k > 0 {
                assert(p.functions[k] == s.functions[k - 1]);
            }
        }
    }
}

/// Whether an operand is a constant or a local numbered below `k`.
pub open spec fn refers_below(o: Operand, k: u32) -> bool {
    match o {
        Operand::Const(_) => true,
        Operand::Local(id) => id.0 < k,
    }
}

pub open spec fn all_below(os: Seq<Operand>, k: u32) -> bool {
    forall|j: int| 0 <= j < os.len() ==> refers_below(#[trigger] os[j], k)
}

/// Whether every operand of a right-hand side is a constant or a local below `k`.
pub open spec fn rhs_below(r: RhsV, k: u32) -> bool {
    match r {
        RhsV::Use(o) => refers_below(o, k),
        RhsV::BinOp(_, a, b) => refers_below(a, k) && refers_below(b, k),
        RhsV::UnaryOp(_, a) => refers_below(a, k),
        RhsV::Tuple(os) => all_below(os, k),
        RhsV::Array(os) => all_below(os, k),
        RhsV::TupleField(o, _) => refers_below(o, k),
        RhsV::MakeClosure(_, os) => all_below(os, k),
        RhsV::ClosureCall(f, os) => refers_below(f, k) && all_below(os, k),
    }
}

/// Statement `i` writes local `base + i` and reads only locals below it: the
/// parameters (numbered below `base`) and what earlier statements wrote.
pub open spec fn well_scoped(stmts: Seq<StmtV>, base: u32) -> bool {
    forall|i: int|
        0 <= i < stmts.len() ==> (#[trigger] stmts[i]).dest.0 == base + i && rhs_below(
            stmts[i].rhs,
            stmts[i].dest.0,
        )
}

pub open spec fn stack_below(locals: Seq<Option<(LocalId, TypeV)>>, k: u32) -> bool {
    forall|j: int|
        0 <= j < locals.len() && (#[trigger] locals[j]) is Some ==> locals[j]->Some_0.0.0 < k
}

/// Parameters are locals `0..n`; statements are well scoped after them; the
/// returned operand is a parameter, a local some statement wrote, or a constant.
pub open spec fn function_well_scoped(f: FunctionV) -> bool {
    &&& forall|i: int| 0 <= i < f.params.len() ==> (#[trigger] f.params[i]).0.0 == i
    &&& f.params.len() + f.body.stmts.len() <= u32::MAX
    &&& well_scoped(f.body.stmts, f.params.len() as u32)
    &&& match f.body.term {
        Terminator::Return(o) => refers_below(o, (f.params.len() + f.body.stmts.len()) as u32),
    }
}

pub open spec fn functions_well_scoped(fs: Seq<FunctionV>) -> bool {
    forall|k: int| 0 <= k < fs.len() ==> function_well_scoped(#[trigger] fs[k])
}

pub open spec fn scoped_state(s: LowerState, base: u32) -> bool {
    &&& well_scoped(s.stmts, base)
    &&& base + s.stmts.len() == s.next_local
    &&& stack_below(s.locals, s.next_local)
    &&& functions_well_scoped(s.functions)
}

proof fn lemma_emit_scoped(s: LowerState, base: u32, ty: TypeV, rhs: RhsV)
    requires
        scoped_state(s, base),
        rhs_below(rhs, s.next_local),
    ensures
        emit(s, ty, rhs) is Ok ==> ({
            let (s2, op, _) = emit(s, ty, rhs)->Ok_0;
            &&& scoped_state(s2, base)
            &&& refers_below(op, s2.next_local)
            &&& s2.locals == s.locals
            &&& s.next_local <= s2.next_local
        }),
{
}

proof fn lemma_below_mono(o: Operand, k: u32, k2: u32)
    requires
        refers_below(o, k),
        k <= k2,
    ensures
        refers_below(o, k2),
{
}

/// Properties of the capture scan: one slot per visited offset, each captured
/// slot naming the next field local, and captured operands taken from the stack.
proof fn lemma_capture_scoped(locals: Seq<Option<(LocalId, TypeV)>>, lam: ExprV, m: nat, k: u32)
    requires
        m <= locals.len(),
        m <= u32::MAX - 2,
        stack_below(locals, k),
    ensures
        capture_scan(locals, lam, m) is Some ==> ({
            let (ops, tys, slots) = capture_scan(locals, lam, m)->Some_0;
            &&& ops.len() == tys.len()
            &&& tys.len() <= m
            &&& slots.len() == m
            &&& all_below(ops, k)
            &&& forall|j: int|
                0 <= j < slots.len() && (#[trigger] slots[j]) is Some ==> 2 <= slots[j]->Some_0.0.0
                    < 2 + tys.len()
        }),
    decreases m,
{
    if m > 0 {
        lemma_capture_scoped(locals, lam, (m - 1) as nat, k);
        if let Some((ops, tys, slots)) = capture_scan(locals, lam, (m - 1) as nat) {
            let o = (m - 1) as nat;
            let idx = locals.len() - 1 - o;
            if free_in(lam, 0, o) {
                if let Some((id, t)) = locals[idx] {
                    assert(locals[idx] is Some);
                    let ops2 = ops.push(Operand::Local(id));
                    assert forall|j: int| 0 <= j < ops2.len() implies refers_below(#[trigger] ops2[j], k) by {
                        if j < ops.len() {
                            assert(ops2[j] == ops[j]);
                        }
                    }
                    let slots2 = slots.push(Some((LocalId((2 + tys.len()) as u32), t)));
                    assert forall|j: int| 0 <= j < slots2.len() && (#[trigger] slots2[j]) is Some implies 2 <= slots2[j]->Some_0.0.0 < 2 + tys.len() + 1 by {
                        if j < slots.len() {
                            assert(slots2[j] == slots[j]);
                        }
                    }
                }
            } else {
                let slots2 = slots.push(None);
                assert forall|j: int| 0 <= j < slots2.len() && (#[trigger] slots2[j]) is Some implies 2 <= slots2[j]->Some_0.0.0 < 2 + tys.len() by {
                    if j < slots.len() {
                        assert(slots2[j] == slots[j]);
                    }
                }
            }
        }
    }
}

/// Lowering keeps the state well scoped, returns an operand below the new
/// counter, and leaves the local stack as it found it.
proof fn lemma_lower_scoped(s: LowerState, base: u32, e: ExprV, hint: Option<TypeV>)
    requires
        scoped_state(s, base),
    ensures
        lower_spec(s, e, hint) is Ok ==> ({
            let (s2, op, _) = lower_spec(s, e, hint)->Ok_0;
            &&& scoped_state(s2, base)
            &&& refers_below(op, s2.next_local)
            &&& s2.locals == s.locals
            &&& s.next_local <= s2.next_local
        }),
    decreases e, 1nat,
{
    match e {
        ExprV::Idx(n) => {
            if (n as int) < s.locals.len() {
                let j = s.locals.len() - 1 - n;
                if s.locals[j] is Some {
                    assert(s.locals[j]->Some_0.0.0 < s.next_local);
                }
            }
        },
        ExprV::Lam(_) => {
            if let Some(pt) = hint {
                lemma_lambda_scoped(s, base, e, pt);
            }
        },
        ExprV::App(f, a) => {
            lemma_lower_scoped(s, base, *a, None);
            if let Ok((s1, aop, aty)) = lower_spec(s, *a, None) {
                lemma_lower_scoped(s1, base, *f, Some(aty));
                if let Ok((s2, fop, fty)) = lower_spec(s1, *f, Some(aty)) {
                    lemma_below_mono(aop, s1.next_local, s2.next_local);
                    if let TypeV::Fn(_, r) = fty {
                        let args = seq![aop];
                        assert(all_below(args, s2.next_local)) by {
                            assert forall|j: int| 0 <= j < args.len() implies refers_below(#[trigger] args[j], s2.next_local) by {
                                assert(args[j] == aop);
                            }
                        }
                        lemma_emit_scoped(s2, base, *r, RhsV::ClosureCall(fop, args));
                    }
                }
            }
        },
        ExprV::Let(p, v, b) => {
            lemma_lower_scoped(s, base, *v, None);
            if let Ok((s1, vop, vty)) = lower_spec(s, *v, None) {
                lemma_emit_scoped(s1, base, vty, RhsV::Use(vop));
                if let Ok((s2, lop, _)) = emit(s1, vty, RhsV::Use(vop)) {
                    if let Operand::Local(id) = lop {
                        let s2b = with_locals(s2, s2.locals.push(Some((id, vty))));
                        assert(stack_below(s2b.locals, s2b.next_local)) by {
                            assert forall|j: int| 0 <= j < s2b.locals.len() && (#[trigger] s2b.locals[j]) is Some implies s2b.locals[j]->Some_0.0.0 < s2b.next_local by {
                                if j < s2.locals.len() {
                                    assert(s2b.locals[j] == s2.locals[j]);
                                }
                            }
                        }
                        lemma_lower_scoped(s2b, base, *b, hint);
                        if let Ok((s3, bop, bty)) = lower_spec(s2b, *b, hint) {
                            assert(pop(s3.locals) =~= s2.locals);
                        }
                    }
                }
            }
        },
        ExprV::BinOp(op, l, r) => {
            lemma_lower_scoped(s, base, *l, None);
            if let Ok((s1, lop, lt)) = lower_spec(s, *l, None) {
                lemma_lower_scoped(s1, base, *r, None);
                if let Ok((s2, rop, rt)) = lower_spec(s1, *r, None) {
                    lemma_below_mono(lop, s1.next_local, s2.next_local);
                    lemma_emit_scoped(s2, base, binop_type(op, lt, rt), RhsV::BinOp(op, lop, rop));
                }
            }
        },
        ExprV::UnaryOp(op, x) => {
            lemma_lower_scoped(s, base, *x, None);
            if let Ok((s1, xop, xt)) = lower_spec(s, *x, None) {
                lemma_emit_scoped(s1, base, unary_type(op, xt), RhsV::UnaryOp(op, xop));
            }
        },
        ExprV::Tuple(es) => {
            lemma_list_scoped(s, base, es);
            if let Ok((s1, ops, tys)) = lower_list_spec(s, es) {
                lemma_emit_scoped(s1, base, TypeV::Tuple(tys), RhsV::Tuple(ops));
            }
        },
        ExprV::Array(es) => {
            lemma_list_scoped(s, base, es);
            if let Ok((s1, ops, tys)) = lower_list_spec(s, es) {
                let elem = if tys.len() > 0 {
                    tys[0]
                } else {
                    i64_type()
                };
                lemma_emit_scoped(
                    s1,
                    base,
                    TypeV::Tensor(seq![Dim::Const(es.len() as u64)], Box::new(elem)),
                    RhsV::Array(ops),
                );
            }
        },
        ExprV::Field(x, i) => {
            lemma_lower_scoped(s, base, *x, None);
            if let Ok((s1, xop, xt)) = lower_spec(s, *x, None) {
                if let TypeV::Tuple(ts) = xt {
                    if (i as int) < ts.len() {
                        lemma_emit_scoped(s1, base, ts[i as int], RhsV::TupleField(xop, i));
                    }
                }
            }
        },
        ExprV::Annot(x, t) => {
            lemma_lower_scoped(s, base, *x, param_hint(t));
        },
        _ => {},
    }
}

proof fn lemma_list_scoped(s: LowerState, base: u32, es: Seq<ExprV>)
    requires
        scoped_state(s, base),
    ensures
        lower_list_spec(s, es) is Ok ==> ({
            let (s2, ops, _) = lower_list_spec(s, es)->Ok_0;
            &&& scoped_state(s2, base)
            &&& all_below(ops, s2.next_local)
            &&& s2.locals == s.locals
            &&& s.next_local <= s2.next_local
        }),
    decreases es, 0nat,
{
    if es.len() == 0 {
    } else {
        let pre = es.subrange(0, es.len() - 1);
        lemma_list_scoped(s, base, pre);
        if let Ok((s1, ops, tys)) = lower_list_spec(s, pre) {
            lemma_lower_scoped(s1, base, es[es.len() - 1], None);
            if let Ok((s2, op, ty)) = lower_spec(s1, es[es.len() - 1], None) {
                let ops2 = ops.push(op);
                assert forall|j: int| 0 <= j < ops2.len() implies refers_below(#[trigger] ops2[j], s2.next_local) by {
                    if j < ops.len() {
                        assert(ops2[j] == ops[j]);
                        lemma_below_mono(ops[j], s1.next_local, s2.next_local);
                    }
                }
            }
        }
    }
}

proof fn lemma_lambda_scoped(s: LowerState, base: u32, lam: ExprV, pt: TypeV)
    requires
        scoped_state(s, base),
    ensures
        lower_lambda_spec(s, lam, pt) is Ok ==> ({
            let (s2, op, _) = lower_lambda_spec(s, lam, pt)->Ok_0;
            &&& scoped_state(s2, base)
            &&& refers_below(op, s2.next_local)
            &&& s2.locals == s.locals
            &&& s.next_local <= s2.next_local
        }),
    decreases lam, 0nat,
{
    if lam is Lam {
        let n = s.locals.len();
        if n <= u32::MAX - 2 {
            lemma_capture_scoped(s.locals, lam, n, s.next_local);
            if let Some((ops, tys, slots)) = capture_scan(s.locals, lam, n) {
                if s.next_fn != u32::MAX {
                    let inner = LowerState {
                        locals: inner_stack(slots, pt),
                        next_local: (2 + tys.len()) as u32,
                        next_fn: (s.next_fn + 1) as u32,
                        stmts: field_stmts(tys),
                        functions: s.functions,
                        globals: s.globals,
                    };
                    assert(stack_below(inner.locals, inner.next_local)) by {
                        assert forall|j: int| 0 <= j < inner.locals.len() && (#[trigger] inner.locals[j]) is Some implies inner.locals[j]->Some_0.0.0 < inner.next_local by {
                            if j < slots.len() {
                                assert(inner.locals[j] == slots[slots.len() - 1 - j]);
                            }
                        }
                    }
                    assert(well_scoped(inner.stmts, 2)) by {
                        assert forall|i: int| 0 <= i < inner.stmts.len() implies (#[trigger] inner.stmts[i]).dest.0 == 2 + i && rhs_below(inner.stmts[i].rhs, inner.stmts[i].dest.0) by {
                            assert(refers_below(Operand::Local(LocalId(0)), inner.stmts[i].dest.0));
                        }
                    }
                    assert(scoped_state(inner, 2));
                    lemma_lower_scoped(inner, 2, *lam->Lam_0, None);
                    if let Ok((s1, rop, rty)) = lower_spec(inner, *lam->Lam_0, None) {
                        let name = lambda_name(s.next_fn as nat);
                        let f = FunctionV {
                            name,
                            params: seq![(LocalId(0), TypeV::Tuple(tys)), (LocalId(1), pt)],
                            ret_ty: rty,
                            body: BlockV { stmts: s1.stmts, term: Terminator::Return(rop) },
                            is_closure: true,
                        };
                        assert(function_well_scoped(f));
                        let s2 = LowerState {
                            locals: s.locals,
                            next_local: s.next_local,
                            next_fn: s1.next_fn,
                            stmts: s.stmts,
                            functions: s1.functions.push(f),
                            globals: s1.globals,
                        };
                        assert(functions_well_scoped(s2.functions)) by {
                            assert forall|k: int| 0 <= k < s2.functions.len() implies function_well_scoped(#[trigger] s2.functions[k]) by {
                                if k < s1.functions.len() {
                                    assert(s2.functions[k] == s1.functions[k]);
                                }
                            }
                        }
                        lemma_emit_scoped(
                            s2,
                            base,
                            TypeV::Fn(Box::new(pt), Box::new(rty)),
                            RhsV::MakeClosure(name, ops),
                        );
                    }
                }
            }
        }
    }
}

/// Every operand of a lowered program refers to something defined before it:
/// in each function the parameters are locals `0..n`, statement `i` writes
/// local `n + i` and reads only constants and locals below it, and the
/// returned operand is a constant, a parameter or a written local.
pub proof fn law_operands_defined_before_use(e: ExprV)
    ensures
        lower_expr_spec(e) is Ok ==> functions_well_scoped(lower_expr_spec(e)->Ok_0.functions),
{
    let s0 = initial_state();
    assert(scoped_state(s0, 0));
    lemma_lower_scoped(s0, 0, e, None);
    if let Ok((s, op, ty)) = lower_spec(s0, e, None) {
        let p = lower_expr_spec(e)->Ok_0;
        assert(function_well_scoped(p.functions[0]));
        assert forall|k: int| 0 <= k < p.functions.len() implies function_well_scoped(#[trigger] p.functions[k]) by {
            if k > 0 {
                assert(p.functions[k] == s.functions[k - 1]);
            }
        }
    }
}

proof fn lemma_decimal_len(n: nat)
    ensures
        decimal(n).len() >= 1,
        n >= 10 ==> decimal(n).len() >= 2,
    decreases n,
{
    if n >= 10 {
        lemma_decimal_len(n / 10);
    }
}

/// Different numbers have different decimal digits.
proof fn lemma_decimal_injective(a: nat, b: nat)
    requires
        decimal(a) == decimal(b),
    ensures
        a == b,
    decreases a,
{
    lemma_decimal_len(a);
    lemma_decimal_len(b);
    if a >= 10 && b >= 10 {
        let da = decimal(a);
        let db = decimal(b);
        assert(da.last() == digit_char(a % 10));
        assert(db.last() == digit_char(b % 10));
        assert(da.drop_last() == decimal(a / 10));
        assert(db.drop_last() == decimal(b / 10));
        lemma_decimal_injective(a / 10, b / 10);
        assert(a % 10 == b % 10);
        assert(a == 10 * (a / 10) + a % 10) by (nonlinear_arith);
        assert(b == 10 * (b / 10) + b % 10) by (nonlinear_arith);
    } else if a < 10 && b < 10 {
        assert(decimal(a)[0] == digit_char(a));
        assert(decimal(b)[0] == digit_char(b));
    }
}

proof fn lemma_lambda_name_injective(a: nat, b: nat)
    requires
        lambda_name(a) == lambda_name(b),
    ensures
        a == b,
{
    assert(lambda_name(a).subrange(7, lambda_name(a).len() as int) =~= decimal(a));
    assert(lambda_name(b).subrange(7, lambda_name(b).len() as int) =~= decimal(b));
    lemma_decimal_injective(a, b);
}

proof fn lemma_main_not_lambda(k: nat)
    ensures
        "main"@ != lambda_name(k),
{
    reveal_strlit("main");
    assert("main"@[0] == 'm');
    assert(lambda_name(k)[0] == 'l');
}

/// Whether `f` is the lifted function `lambda_k` for some `lo <= k < hi`.
pub open spec fn named_between(f: FunctionV, lo: nat, hi: nat) -> bool {
    exists|k: nat| #![trigger lambda_name(k)] lo <= k < hi && f.name == lambda_name(k)
}

/// Lifted functions are named `lambda_k` with `k` below the counter, all names distinct.
pub open spec fn names_ok(s: LowerState) -> bool {
    &&& forall|j: int|
        0 <= j < s.functions.len() ==> named_between(#[trigger] s.functions[j], 0, s.next_fn as nat)
    &&& forall|i: int, j: int|
        0 <= i < j < s.functions.len() ==> (#[trigger] s.functions[i]).name != (#[trigger] s.functions[j]).name
}

/// `s2` keeps the functions of `s` and adds only functions numbered from `s`'s counter on.
pub open spec fn grows(s: LowerState, s2: LowerState) -> bool {
    &&& s.next_fn <= s2.next_fn
    &&& s.functions.len() <= s2.functions.len()
    &&& forall|j: int| 0 <= j < s.functions.len() ==> #[trigger] s2.functions[j] == s.functions[j]
    &&& forall|j: int|
        s.functions.len() <= j < s2.functions.len() ==> named_between(
            #[trigger] s2.functions[j],
            s.next_fn as nat,
            s2.next_fn as nat,
        )
}

proof fn lemma_grows_trans(s: LowerState, s1: LowerState, s2: LowerState)
    requires
        grows(s, s1),
        grows(s1, s2),
    ensures
        grows(s, s2),
{
    assert forall|j: int| s.functions.len() <= j < s2.functions.len() implies named_between(
        #[trigger] s2.functions[j],
        s.next_fn as nat,
        s2.next_fn as nat,
    ) by {
        if j < s1.functions.len() {
            assert(s2.functions[j] == s1.functions[j]);
            assert(named_between(s1.functions[j], s.next_fn as nat, s1.next_fn as nat));
            let k = choose|k: nat| #![trigger lambda_name(k)] s.next_fn <= k < s1.next_fn && s1.functions[j].name == lambda_name(k);
            assert(s2.functions[j].name == lambda_name(k));
        } else {
            assert(named_between(s2.functions[j], s1.next_fn as nat, s2.next_fn as nat));
            let k = choose|k: nat| #![trigger lambda_name(k)] s1.next_fn <= k < s2.next_fn && s2.functions[j].name == lambda_name(k);
            assert(s.next_fn <= k);
        }
    }
}

proof fn lemma_emit_names(s: LowerState, ty: TypeV, rhs: RhsV)
    requires
        names_ok(s),
    ensures
        emit(s, ty, rhs) is Ok ==> names_ok(emit(s, ty, rhs)->Ok_0.0) && grows(s, emit(s, ty, rhs)->Ok_0.0),
{
}

/// Lowering keeps lifted-function names distinct and only adds newly numbered ones.
proof fn lemma_lower_names(s: LowerState, e: ExprV, hint: Option<TypeV>)
    requires
        names_ok(s),
    ensures
        lower_spec(s, e, hint) is Ok ==> names_ok(lower_spec(s, e, hint)->Ok_0.0) && grows(
            s,
            lower_spec(s, e, hint)->Ok_0.0,
        ),
    decreases e, 1nat,
{
    match e {
        ExprV::Lam(_) => {
            if let Some(pt) = hint {
                lemma_lambda_names(s, e, pt);
            }
        },
        ExprV::App(f, a) => {
            lemma_lower_names(s, *a, None);
            if let Ok((s1, aop, aty)) = lower_spec(s, *a, None) {
                lemma_lower_names(s1, *f, Some(aty));
                if let Ok((s2, fop, fty)) = lower_spec(s1, *f, Some(aty)) {
                    lemma_grows_trans(s, s1, s2);
                    if let TypeV::Fn(_, r) = fty {
                        lemma_emit_names(s2, *r, RhsV::ClosureCall(fop, seq![aop]));
                        if let Ok((s3, _, _)) = emit(s2, *r, RhsV::ClosureCall(fop, seq![aop])) {
                            lemma_grows_trans(s, s2, s3);
                        }
                    }
                }
            }
        },
        ExprV::Let(p, v, b) => {
            lemma_lower_names(s, *v, None);
            if let Ok((s1, vop, vty)) = lower_spec(s, *v, None) {
                lemma_emit_names(s1, vty, RhsV::Use(vop));
                if let Ok((s2, lop, _)) = emit(s1, vty, RhsV::Use(vop)) {
                    lemma_grows_trans(s, s1, s2);
                    if let Operand::Local(id) = lop {
                        let s2b = with_locals(s2, s2.locals.push(Some((id, vty))));
                        lemma_lower_names(s2b, *b, hint);
                        if let Ok((s3, _, _)) = lower_spec(s2b, *b, hint) {
                            lemma_grows_trans(s, s2b, s3);
                        }
                    }
                }
            }
        },
        ExprV::BinOp(op, l, r) => {
            lemma_lower_names(s, *l, None);
            if let Ok((s1, lop, lt)) = lower_spec(s, *l, None) {
                lemma_lower_names(s1, *r, None);
                if let Ok((s2, rop, rt)) = lower_spec(s1, *r, None) {
                    lemma_grows_trans(s, s1, s2);
                    lemma_emit_names(s2, binop_type(op, lt, rt), RhsV::BinOp(op, lop, rop));
                    if let Ok((s3, _, _)) = emit(s2, binop_type(op, lt, rt), RhsV::BinOp(op, lop, rop)) {
                        lemma_grows_trans(s, s2, s3);
                    }
                }
            }
        },
        ExprV::UnaryOp(op, x) => {
            lemma_lower_names(s, *x, None);
            if let Ok((s1, xop, xt)) = lower_spec(s, *x, None) {
                lemma_emit_names(s1, unary_type(op, xt), RhsV::UnaryOp(op, xop));
                if let Ok((s2, _, _)) = emit(s1, unary_type(op, xt), RhsV::UnaryOp(op, xop)) {
                    lemma_grows_trans(s, s1, s2);
                }
            }
        },
        ExprV::Tuple(es) => {
            lemma_list_names(s, es);
            if let Ok((s1, ops, tys)) = lower_list_spec(s, es) {
                lemma_emit_names(s1, TypeV::Tuple(tys), RhsV::Tuple(ops));
                if let Ok((s2, _, _)) = emit(s1, TypeV::Tuple(tys), RhsV::Tuple(ops)) {
                    lemma_grows_trans(s, s1, s2);
                }
            }
        },
        ExprV::Array(es) => {
            lemma_list_names(s, es);
            if let Ok((s1, ops, tys)) = lower_list_spec(s, es) {
                let elem = if tys.len() > 0 {
                    tys[0]
                } else {
                    i64_type()
                };
                let ty = TypeV::Tensor(seq![Dim::Const(es.len() as u64)], Box::new(elem));
                lemma_emit_names(s1, ty, RhsV::Array(ops));
                if let Ok((s2, _, _)) = emit(s1, ty, RhsV::Array(ops)) {
                    lemma_grows_trans(s, s1, s2);
                }
            }
        },
        ExprV::Field(x, i) => {
            lemma_lower_names(s, *x, None);
            if let Ok((s1, xop, xt)) = lower_spec(s, *x, None) {
                if let TypeV::Tuple(ts) = xt {
                    if (i as int) < ts.len() {
                        lemma_emit_names(s1, ts[i as int], RhsV::TupleField(xop, i));
                        if let Ok((s2, _, _)) = emit(s1, ts[i as int], RhsV::TupleField(xop, i)) {
                            lemma_grows_trans(s, s1, s2);
                        }
                    }
                }
            }
        },
        ExprV::Annot(x, t) => {
            lemma_lower_names(s, *x, param_hint(t));
        },
        _ => {},
    }
}

proof fn lemma_list_names(s: LowerState, es: Seq<ExprV>)
    requires
        names_ok(s),
    ensures
        lower_list_spec(s, es) is Ok ==> names_ok(lower_list_spec(s, es)->Ok_0.0) && grows(
            s,
            lower_list_spec(s, es)->Ok_0.0,
        ),
    decreases es, 0nat,
{
    if es.len() > 0 {
        let pre = es.subrange(0, es.len() - 1);
        lemma_list_names(s, pre);
        if let Ok((s1, _, _)) = lower_list_spec(s, pre) {
            lemma_lower_names(s1, es[es.len() - 1], None);
            if let Ok((s2, _, _)) = lower_spec(s1, es[es.len() - 1], None) {
                lemma_grows_trans(s, s1, s2);
            }
        }
    }
}

proof fn lemma_lambda_names(s: LowerState, lam: ExprV, pt: TypeV)
    requires
        names_ok(s),
    ensures
        lower_lambda_spec(s, lam, pt) is Ok ==> names_ok(lower_lambda_spec(s, lam, pt)->Ok_0.0)
            && grows(s, lower_lambda_spec(s, lam, pt)->Ok_0.0),
    decreases lam, 0nat,
{
    if lam is Lam {
        let n = s.locals.len();
        if n <= u32::MAX - 2 {
            if let Some((ops, tys, slots)) = capture_scan(s.locals, lam, n) {
                if s.next_fn != u32::MAX {
                    let n0 = s.next_fn as nat;
                    let inner = LowerState {
                        locals: inner_stack(slots, pt),
                        next_local: (2 + tys.len()) as u32,
                        next_fn: (s.next_fn + 1) as u32,
                        stmts: field_stmts(tys),
                        functions: s.functions,
                        globals: s.globals,
                    };
                    assert(names_ok(inner)) by {
                        assert forall|j: int| 0 <= j < inner.functions.len() implies named_between(#[trigger] inner.functions[j], 0, inner.next_fn as nat) by {
                            assert(named_between(s.functions[j], 0, n0));
                            let k = choose|k: nat| #![trigger lambda_name(k)] 0 <= k < n0 && s.functions[j].name == lambda_name(k);
                            assert(inner.functions[j].name == lambda_name(k));
                        }
                    }
                    lemma_lower_names(inner, *lam->Lam_0, None);
                    if let Ok((s1, rop, rty)) = lower_spec(inner, *lam->Lam_0, None) {
                        let name = lambda_name(n0);
                        let f = FunctionV {
                            name,
                            params: seq![(LocalId(0), TypeV::Tuple(tys)), (LocalId(1), pt)],
                            ret_ty: rty,
                            body: BlockV { stmts: s1.stmts, term: Terminator::Return(rop) },
                            is_closure: true,
                        };
                        let s2 = LowerState {
                            locals: s.locals,
                            next_local: s.next_local,
                            next_fn: s1.next_fn,
                            stmts: s.stmts,
                            functions: s1.functions.push(f),
                            globals: s1.globals,
                        };
                        let m = s.functions.len();
                        assert forall|j: int| 0 <= j < s1.functions.len() implies (#[trigger] s1.functions[j]).name != name by {
                            if j < m {
                                assert(s1.functions[j] == s.functions[j]);
                                assert(named_between(s.functions[j], 0, n0));
                                let k = choose|k: nat| #![trigger lambda_name(k)] 0 <= k < n0 && s.functions[j].name == lambda_name(k);
                                if s1.functions[j].name == name {
                                    lemma_lambda_name_injective(k, n0);
                                }
                            } else {
                                assert(named_between(s1.functions[j], n0 + 1, s1.next_fn as nat));
                                let k = choose|k: nat| #![trigger lambda_name(k)] n0 + 1 <= k < s1.next_fn && s1.functions[j].name == lambda_name(k);
                                if s1.functions[j].name == name {
                                    lemma_lambda_name_injective(k, n0);
                                }
                            }
                        }
                        assert(names_ok(s2)) by {
                            assert forall|j: int| 0 <= j < s2.functions.len() implies named_between(#[trigger] s2.functions[j], 0, s2.next_fn as nat) by {
                                if j < s1.functions.len() {
                                    assert(s2.functions[j] == s1.functions[j]);
                                } else {
                                    assert(s2.functions[j].name == lambda_name(n0));
                                }
                            }
                            assert forall|i: int, j: int| 0 <= i < j < s2.functions.len() implies (#[trigger] s2.functions[i]).name != (#[trigger] s2.functions[j]).name by {
                                assert(s2.functions[i] == s1.functions[i]);
                                if j < s1.functions.len() {
                                    assert(s2.functions[j] == s1.functions[j]);
                                }
                            }
                        }
                        assert(grows(s, s2)) by {
                            assert forall|j: int| 0 <= j < m implies #[trigger] s2.functions[j] == s.functions[j] by {
                                assert(s2.functions[j] == s1.functions[j]);
                                assert(s1.functions[j] == inner.functions[j]);
                            }
                            assert forall|j: int| m <= j < s2.functions.len() implies named_between(#[trigger] s2.functions[j], n0, s2.next_fn as nat) by {
                                if j < s1.functions.len() {
                                    assert(s2.functions[j] == s1.functions[j]);
                                    assert(named_between(s1.functions[j], n0 + 1, s1.next_fn as nat));
                                    let k = choose|k: nat| #![trigger lambda_name(k)] n0 + 1 <= k < s1.next_fn && s1.functions[j].name == lambda_name(k);
                                    assert(s2.functions[j].name == lambda_name(k));
                                } else {
                                    assert(s2.functions[j].name == lambda_name(n0));
                                }
                            }
                        }
                        let mc = RhsV::MakeClosure(name, ops);
                        let fty = TypeV::Fn(Box::new(pt), Box::new(rty));
                        lemma_emit_names(s2, fty, mc);
                        if let Ok((s3, _, _)) = emit(s2, fty, mc) {
                            lemma_grows_trans(s, s2, s3);
                        }
                    }
                }
            }
        }
    }
}

/// Function names are unique: in a lowered program, `main` and the lifted
/// functions all have different names.
pub proof fn law_unique_function_names(e: ExprV)
    ensures
        lower_expr_spec(e) is Ok ==> forall|i: int, j: int|
            0 <= i < j < lower_expr_spec(e)->Ok_0.functions.len() ==> (#[trigger] lower_expr_spec(
                e,
            )->Ok_0.functions[i]).name != (#[trigger] lower_expr_spec(e)->Ok_0.functions[j]).name,
{
    let s0 = initial_state();
    assert(names_ok(s0));
    lemma_lower_names(s0, e, None);
    if let Ok((s, op, ty)) = lower_spec(s0, e, None) {
        let p = lower_expr_spec(e)->Ok_0;
        assert forall|i: int, j: int| 0 <= i < j < p.functions.len() implies (#[trigger] p.functions[i]).name != (#[trigger] p.functions[j]).name by {
            assert(p.functions[j] == s.functions[j - 1]);
            if i == 0 {
                assert(named_between(s.functions[j - 1], 0, s.next_fn as nat));
                let k = choose|k: nat| #![trigger lambda_name(k)] 0 <= k < s.next_fn && s.functions[j - 1].name == lambda_name(k);
                lemma_main_not_lambda(k);
            } else {
                assert(p.functions[i] == s.functions[i - 1]);
            }
        }
    }
}

/// Short-circuit operators are never lowered: `and`/`or` give `CannotLower`,
/// so no lowered program computes a right operand that evaluation would skip.
pub proof fn law_short_circuit_refused(s: LowerState, op: BinOp, l: ExprV, r: ExprV, hint: Option<TypeV>)
    requires
        op is And || op is Or,
    ensures
        lower_spec(s, ExprV::BinOp(op, Box::new(l), Box::new(r)), hint) == Err::<
            (LowerState, Operand, TypeV),
            MirErrorV,
        >(MirErrorV::CannotLower("short-circuit operator"@)),
{
}

} // verus!
