use crate::expr::{BinOp, UnaryOp};
use crate::types::{Type, TypeV};
use vstd::prelude::*;

verus! {

broadcast use vstd::std_specs::vec::group_vec_axioms, vstd::seq::group_seq_axioms;

/// A local of a MIR function. Locals are single-assignment.
#[derive(Debug, Clone, Copy, PartialEq, Eq, Structural)]
pub struct LocalId(pub u32);

impl LocalId {
    pub fn new(n: u32) -> (r: LocalId)
        ensures
            r == LocalId(n),
    {
        LocalId(n)
    }
}

/// A constant operand. A float is its IEEE-754 binary64 bit pattern.
#[derive(Debug, Clone, Copy, PartialEq, Eq, Structural)]
pub enum Constant {
    Int(i64),
    Float(u64),
    Bool(bool),
    Char(char),
    Unit,
}

/// An operand: a constant or a previously defined local.
#[derive(Debug, Clone, Copy, PartialEq, Eq, Structural)]
pub enum Operand {
    Const(Constant),
    Local(LocalId),
}

/// The right-hand side of a statement.
#[derive(Debug, PartialEq)]
pub enum Rhs {
    Use(Operand),
    BinOp(BinOp, Operand, Operand),
    UnaryOp(UnaryOp, Operand),
    Tuple(Vec<Operand>),
    Array(Vec<Operand>),
    TupleField(Operand, u32),
    /// A closure of the named lifted function over the captured operands.
    MakeClosure(String, Vec<Operand>),
    ClosureCall(Operand, Vec<Operand>),
}

/// `dest: ty = rhs`.
#[derive(Debug, PartialEq)]
pub struct Stmt {
    pub dest: LocalId,
    pub ty: Type,
    pub rhs: Rhs,
}

#[derive(Debug, Clone, Copy, PartialEq, Eq, Structural)]
pub enum Terminator {
    Return(Operand),
}

/// Statements followed by exactly one terminator.
#[derive(Debug, PartialEq)]
pub struct Block {
    pub stmts: Vec<Stmt>,
    pub term: Terminator,
}

/// A typed parameter.
#[derive(Debug, PartialEq)]
pub struct Param {
    pub local: LocalId,
    pub ty: Type,
}

/// A MIR function. A lifted closure body (`is_closure`) takes the captured
/// environment tuple as its first parameter.
#[derive(Debug, PartialEq)]
pub struct Function {
    pub name: String,
    pub params: Vec<Param>,
    pub ret_ty: Type,
    pub body: Block,
    pub is_closure: bool,
}

/// Functions with unique names and the name of the entry function.
#[derive(Debug, PartialEq)]
pub struct Program {
    pub functions: Vec<Function>,
    pub entry: String,
}

pub enum RhsV {
    Use(Operand),
    BinOp(BinOp, Operand, Operand),
    UnaryOp(UnaryOp, Operand),
    Tuple(Seq<Operand>),
    Array(Seq<Operand>),
    TupleField(Operand, u32),
    MakeClosure(Seq<char>, Seq<Operand>),
    ClosureCall(Operand, Seq<Operand>),
}

pub struct StmtV {
    pub dest: LocalId,
    pub ty: TypeV,
    pub rhs: RhsV,
}

pub struct BlockV {
    pub stmts: Seq<StmtV>,
    pub term: Terminator,
}

pub struct FunctionV {
    pub name: Seq<char>,
    pub params: Seq<(LocalId, TypeV)>,
    pub ret_ty: TypeV,
    pub body: BlockV,
    pub is_closure: bool,
}

pub struct ProgramV {
    pub functions: Seq<FunctionV>,
    pub entry: Seq<char>,
}

impl View for Rhs {
    type V = RhsV;

    open spec fn view(&self) -> RhsV {
        match self {
            Rhs::Use(o) => RhsV::Use(*o),
            Rhs::BinOp(op, a, b) => RhsV::BinOp(*op, *a, *b),
            Rhs::UnaryOp(op, a) => RhsV::UnaryOp(*op, *a),
            Rhs::Tuple(os) => RhsV::Tuple(os@),
            Rhs::Array(os) => RhsV::Array(os@),
            Rhs::TupleField(o, i) => RhsV::TupleField(*o, *i),
            Rhs::MakeClosure(n, os) => RhsV::MakeClosure(n@, os@),
            Rhs::ClosureCall(f, os) => RhsV::ClosureCall(*f, os@),
        }
    }
}

impl View for Stmt {
    type V = StmtV;

    open spec fn view(&self) -> StmtV {
        StmtV { dest: self.dest, ty: self.ty@, rhs: self.rhs@ }
    }
}

pub open spec fn stmts_view(s: Seq<Stmt>) -> Seq<StmtV> {
    s.map_values(|x: Stmt| x@)
}

impl View for Block {
    type V = BlockV;

    open spec fn view(&self) -> BlockV {
        BlockV { stmts: stmts_view(self.stmts@), term: self.term }
    }
}

impl View for Function {
    type V = FunctionV;

    open spec fn view(&self) -> FunctionV {
        FunctionV {
            name: self.name@,
            params: self.params@.map_values(|p: Param| (p.local, p.ty@)),
            ret_ty: self.ret_ty@,
            body: self.body@,
            is_closure: self.is_closure,
        }
    }
}

pub open spec fn functions_view(s: Seq<Function>) -> Seq<FunctionV> {
    s.map_values(|f: Function| f@)
}

impl View for Program {
    type V = ProgramV;

    open spec fn view(&self) -> ProgramV {
        ProgramV { functions: functions_view(self.functions@), entry: self.entry@ }
    }
}

impl Block {
    /// A block with no statements that returns `op`.
    pub fn with_return(op: Operand) -> (r: Block)
        ensures
            r@ == (BlockV { stmts: Seq::empty(), term: Terminator::Return(op) }),
    {
        let r = Block { stmts: Vec::new(), term: Terminator::Return(op) };
        assert(r@.stmts =~= Seq::<StmtV>::empty());
        r
    }
}

} // verus!
