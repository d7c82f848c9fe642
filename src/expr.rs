use crate::literal::Literal;
use crate::pattern::{pattern_view, Pattern, PatternV};
use crate::types::{Type, TypeV};
use vstd::prelude::*;

verus! {

broadcast use vstd::std_specs::vec::group_vec_axioms, vstd::seq::group_seq_axioms;

/// Binary operators.
#[derive(Debug, Clone, Copy, PartialEq, Eq, Structural)]
pub enum BinOp {
    Add,
    Sub,
    Mul,
    Div,
    Mod,
    Eq,
    Neq,
    Lt,
    Le,
    Gt,
    Ge,
    And,
    Or,
    /// Elementwise application of a unary callable over a tensor.
    MapEach,
    /// Keep the elements of a tensor for which a callable returns true.
    Filter,
    /// Function composition: `(f ∘ g) x = f (g x)`.
    Compose,
}

/// Unary operators.
#[derive(Debug, Clone, Copy, PartialEq, Eq, Structural)]
pub enum UnaryOp {
    Neg,
    Not,
    /// Sum of all elements of a tensor.
    Sum,
    Floor,
    Ceil,
    Sqrt,
}

/// Surface expressions; variables are de Bruijn indices.
#[derive(Debug, PartialEq)]
pub enum Expr {
    Lit(Literal),
    /// Variable bound `n` binders out (0 = innermost).
    Idx(u32),
    /// Global name.
    Name(String),
    /// Single-argument lambda; its body sees the argument as index 0.
    Lam(Box<Expr>),
    App(Box<Expr>, Box<Expr>),
    Let { pattern: Pattern, value: Box<Expr>, body: Box<Expr> },
    BinOp(BinOp, Box<Expr>, Box<Expr>),
    UnaryOp(UnaryOp, Box<Expr>),
    If { cond: Box<Expr>, then_: Box<Expr>, else_: Box<Expr> },
    Match(Box<Expr>, Vec<MatchArm>),
    Tuple(Vec<Expr>),
    Array(Vec<Expr>),
    /// Tuple field projection by 0-based index.
    Field(Box<Expr>, u32),
    /// Variant construction: constructor tag and optional payload.
    Variant(String, Option<Box<Expr>>),
    /// Type ascription, consumed by the lowering pass.
    Annot(Box<Expr>, Type),
}

/// One arm of a `match`.
#[derive(Debug, PartialEq)]
pub struct MatchArm {
    pub pattern: Pattern,
    pub body: Expr,
}

/// Mathematical model of an `Expr`.
pub enum ExprV {
    Lit(Literal),
    Idx(u32),
    Name(String),
    Lam(Box<ExprV>),
    App(Box<ExprV>, Box<ExprV>),
    Let(PatternV, Box<ExprV>, Box<ExprV>),
    BinOp(BinOp, Box<ExprV>, Box<ExprV>),
    UnaryOp(UnaryOp, Box<ExprV>),
    If(Box<ExprV>, Box<ExprV>, Box<ExprV>),
    Match(Box<ExprV>, Seq<ArmV>),
    Tuple(Seq<ExprV>),
    Array(Seq<ExprV>),
    Field(Box<ExprV>, u32),
    Variant(String, Option<Box<ExprV>>),
    Annot(Box<ExprV>, TypeV),
}

/// Mathematical model of a `MatchArm`.
pub struct ArmV {
    pub pattern: PatternV,
    pub body: ExprV,
}

pub open spec fn expr_view(e: Expr) -> ExprV
    decreases e,
{
    match e {
        Expr::Lit(l) => ExprV::Lit(l),
        Expr::Idx(n) => ExprV::Idx(n),
        Expr::Name(s) => ExprV::Name(s),
        Expr::Lam(b) => ExprV::Lam(Box::new(expr_view(*b))),
        Expr::App(f, a) => ExprV::App(Box::new(expr_view(*f)), Box::new(expr_view(*a))),
        Expr::Let { pattern, value, body } => ExprV::Let(
            pattern_view(pattern),
            Box::new(expr_view(*value)),
            Box::new(expr_view(*body)),
        ),
        Expr::BinOp(op, l, r) => ExprV::BinOp(op, Box::new(expr_view(*l)), Box::new(expr_view(*r))),
        Expr::UnaryOp(op, x) => ExprV::UnaryOp(op, Box::new(expr_view(*x))),
        Expr::If { cond, then_, else_ } => ExprV::If(
            Box::new(expr_view(*cond)),
            Box::new(expr_view(*then_)),
            Box::new(expr_view(*else_)),
        ),
        Expr::Match(s, arms) => ExprV::Match(Box::new(expr_view(*s)), arms_view(arms@)),
        Expr::Tuple(es) => ExprV::Tuple(exprs_view(es@)),
        Expr::Array(es) => ExprV::Array(exprs_view(es@)),
        Expr::Field(x, i) => ExprV::Field(Box::new(expr_view(*x)), i),
        Expr::Variant(c, p) => ExprV::Variant(
            c,
            match p {
                Some(b) => Some(Box::new(expr_view(*b))),
                None => None,
            },
        ),
        Expr::Annot(x, t) => ExprV::Annot(Box::new(expr_view(*x)), t@),
    }
}

pub open spec fn exprs_view(s: Seq<Expr>) -> Seq<ExprV>
    decreases s,
{
    Seq::new(
        s.len(),
        |i: int|
            if 0 <= i < s.len() {
                expr_view(s[i])
            } else {
                ExprV::Idx(0)
            },
    )
}

pub open spec fn arm_view(a: MatchArm) -> ArmV
    decreases a,
{
    ArmV { pattern: pattern_view(a.pattern), body: expr_view(a.body) }
}

pub open spec fn arms_view(s: Seq<MatchArm>) -> Seq<ArmV>
    decreases s,
{
    Seq::new(
        s.len(),
        |i: int|
            if 0 <= i < s.len() {
                arm_view(s[i])
            } else {
                ArmV { pattern: PatternV::Wildcard, body: ExprV::Idx(0) }
            },
    )
}

impl View for Expr {
    type V = ExprV;

    open spec fn view(&self) -> ExprV {
        expr_view(*self)
    }
}

impl View for MatchArm {
    type V = ArmV;

    open spec fn view(&self) -> ArmV {
        arm_view(*self)
    }
}

impl MatchArm {
    pub fn new(pattern: Pattern, body: Expr) -> (r: MatchArm)
        ensures
            r@ == (ArmV { pattern: pattern@, body: body@ }),
    {
        MatchArm { pattern, body }
    }
}

impl Expr {
    pub fn lit(l: Literal) -> (r: Expr)
        ensures
            r@ == ExprV::Lit(l),
    {
        Expr::Lit(l)
    }

    pub fn integer(n: i64) -> (r: Expr)
        ensures
            r@ == ExprV::Lit(Literal::Int(n)),
    {
        Expr::Lit(Literal::Int(n))
    }

    /// Float literal given by its IEEE-754 binary64 bit pattern.
    pub fn float(bits: u64) -> (r: Expr)
        ensures
            r@ == ExprV::Lit(Literal::Float(bits)),
    {
        Expr::Lit(Literal::Float(bits))
    }

    pub fn bool(b: bool) -> (r: Expr)
        ensures
            r@ == ExprV::Lit(if b { Literal::True } else { Literal::False }),
    {
        Expr::Lit(Literal::boolean(b))
    }

    pub fn idx(n: u32) -> (r: Expr)
        ensures
            r@ == ExprV::Idx(n),
    {
        Expr::Idx(n)
    }

    pub fn name(s: &str) -> (r: Expr)
        ensures
            r@ matches ExprV::Name(n) && n@ == s@,
    {
        Expr::Name(s.to_string())
    }

    pub fn lam(body: Expr) -> (r: Expr)
        ensures
            r@ == ExprV::Lam(Box::new(body@)),
    {
        Expr::Lam(Box::new(body))
    }

    pub fn app(f: Expr, a: Expr) -> (r: Expr)
        ensures
            r@ == ExprV::App(Box::new(f@), Box::new(a@)),
    {
        Expr::App(Box::new(f), Box::new(a))
    }

    pub fn let_(pattern: Pattern, value: Expr, body: Expr) -> (r: Expr)
        ensures
            r@ == ExprV::Let(pattern@, Box::new(value@), Box::new(body@)),
    {
        Expr::Let { pattern, value: Box::new(value), body: Box::new(body) }
    }

    pub fn binop(op: BinOp, l: Expr, r: Expr) -> (e: Expr)
        ensures
            e@ == ExprV::BinOp(op, Box::new(l@), Box::new(r@)),
    {
        Expr::BinOp(op, Box::new(l), Box::new(r))
    }

    pub fn add(l: Expr, r: Expr) -> (e: Expr)
        ensures
            e@ == ExprV::BinOp(BinOp::Add, Box::new(l@), Box::new(r@)),
    {
        Expr::binop(BinOp::Add, l, r)
    }

    pub fn sub(l: Expr, r: Expr) -> (e: Expr)
        ensures
            e@ == ExprV::BinOp(BinOp::Sub, Box::new(l@), Box::new(r@)),
    {
        Expr::binop(BinOp::Sub, l, r)
    }

    pub fn mul(l: Expr, r: Expr) -> (e: Expr)
        ensures
            e@ == ExprV::BinOp(BinOp::Mul, Box::new(l@), Box::new(r@)),
    {
        Expr::binop(BinOp::Mul, l, r)
    }

    pub fn div(l: Expr, r: Expr) -> (e: Expr)
        ensures
            e@ == ExprV::BinOp(BinOp::Div, Box::new(l@), Box::new(r@)),
    {
        Expr::binop(BinOp::Div, l, r)
    }

    /// `map(xs, f)`: apply `f` to every element of the tensor `xs`.
    pub fn map(xs: Expr, f: Expr) -> (e: Expr)
        ensures
            e@ == ExprV::BinOp(BinOp::MapEach, Box::new(xs@), Box::new(f@)),
    {
        Expr::binop(BinOp::MapEach, xs, f)
    }

    /// `filter(xs, p)`: keep the elements of `xs` for which `p` holds.
    pub fn filter(xs: Expr, p: Expr) -> (e: Expr)
        ensures
            e@ == ExprV::BinOp(BinOp::Filter, Box::new(xs@), Box::new(p@)),
    {
        Expr::binop(BinOp::Filter, xs, p)
    }

    pub fn unary(op: UnaryOp, x: Expr) -> (e: Expr)
        ensures
            e@ == ExprV::UnaryOp(op, Box::new(x@)),
    {
        Expr::UnaryOp(op, Box::new(x))
    }

    /// Sum of all elements of a tensor.
    pub fn sum(xs: Expr) -> (e: Expr)
        ensures
            e@ == ExprV::UnaryOp(UnaryOp::Sum, Box::new(xs@)),
    {
        Expr::UnaryOp(UnaryOp::Sum, Box::new(xs))
    }

    pub fn if_(c: Expr, t: Expr, f: Expr) -> (e: Expr)
        ensures
            e@ == ExprV::If(Box::new(c@), Box::new(t@), Box::new(f@)),
    {
        Expr::If { cond: Box::new(c), then_: Box::new(t), else_: Box::new(f) }
    }

    pub fn match_(scrutinee: Expr, arms: Vec<MatchArm>) -> (e: Expr)
        ensures
            e@ == ExprV::Match(Box::new(scrutinee@), arms_view(arms@)),
    {
        Expr::Match(Box::new(scrutinee), arms)
    }

    pub fn tuple(es: Vec<Expr>) -> (e: Expr)
        ensures
            e@ == ExprV::Tuple(exprs_view(es@)),
    {
        Expr::Tuple(es)
    }

    pub fn array(es: Vec<Expr>) -> (e: Expr)
        ensures
            e@ == ExprV::Array(exprs_view(es@)),
    {
        Expr::Array(es)
    }

    pub fn field_idx(x: Expr, i: u32) -> (e: Expr)
        ensures
            e@ == ExprV::Field(Box::new(x@), i),
    {
        Expr::Field(Box::new(x), i)
    }

    pub fn variant(constructor: &str, payload: Option<Expr>) -> (e: Expr)
        ensures
            e@ matches ExprV::Variant(c, p) && c@ == constructor@ && p == match payload {
                Some(x) => Some(Box::new(x@)),
                None => None,
            },
    {
        let p = match payload {
            Some(x) => Some(Box::new(x)),
            None => None,
        };
        Expr::Variant(constructor.to_string(), p)
    }

    pub fn annot(x: Expr, t: Type) -> (e: Expr)
        ensures
            e@ == ExprV::Annot(Box::new(x@), t@),
    {
        Expr::Annot(Box::new(x), t)
    }

    /// A copy of this expression.
    pub fn dup(&self) -> (r: Expr)
        ensures
            r@ == self@,
        decreases self,
    {
        match self {
            Expr::Lit(l) => Expr::Lit(*l),
            Expr::Idx(n) => Expr::Idx(*n),
            Expr::Name(s) => Expr::Name(s.clone()),
            Expr::Lam(b) => Expr::Lam(Box::new(b.dup())),
            Expr::App(f, a) => Expr::App(Box::new(f.dup()), Box::new(a.dup())),
            Expr::Let { pattern, value, body } => Expr::Let {
                pattern: pattern.dup(),
                value: Box::new(value.dup()),
                body: Box::new(body.dup()),
            },
            Expr::BinOp(op, l, r) => Expr::BinOp(*op, Box::new(l.dup()), Box::new(r.dup())),
            Expr::UnaryOp(op, x) => Expr::UnaryOp(*op, Box::new(x.dup())),
            Expr::If { cond, then_, else_ } => Expr::If {
                cond: Box::new(cond.dup()),
                then_: Box::new(then_.dup()),
                else_: Box::new(else_.dup()),
            },
            Expr::Match(s, arms) => {
                proof {
                    assert forall|j: int| 0 <= j < arms@.len() implies decreases_to!(*self => arms@[j].pattern) && decreases_to!(*self => arms@[j].body) by {
                        assert(decreases_to!(*self => self->Match_1));
                        assert(decreases_to!(*arms => arms@));
                        assert(decreases_to!(arms@ => arms@[j]));
                        assert(decreases_to!(arms@[j] => arms@[j].pattern));
                        assert(decreases_to!(arms@[j] => arms@[j].body));
                    }
                }
                let mut out: Vec<MatchArm> = Vec::new();
                let mut i: usize = 0;
                while i < arms.len()
                    invariant
                        i <= arms@.len(),
                        out@.len() == i,
                        forall|j: int| 0 <= j < arms@.len() ==> decreases_to!(*self => arms@[j].pattern) && decreases_to!(*self => arms@[j].body),
                        forall|j: int| 0 <= j < i ==> arm_view(#[trigger] out@[j]) == arm_view(arms@[j]),
                    decreases arms@.len() - i,
                {
                    let a = MatchArm { pattern: arms[i].pattern.dup(), body: arms[i].body.dup() };
                    out.push(a);
                    i = i + 1;
                }
                assert(arms_view(out@) =~= arms_view(arms@));
                Expr::Match(Box::new(s.dup()), out)
            },
            Expr::Tuple(es) => {
                proof {
                    assert forall|j: int| 0 <= j < es@.len() implies decreases_to!(*self => es@[j]) by {
                        assert(decreases_to!(*self => self->Tuple_0));
                        assert(decreases_to!(*es => es@));
                        assert(decreases_to!(es@ => es@[j]));
                    }
                }
                let mut out: Vec<Expr> = Vec::new();
                let mut i: usize = 0;
                while i < es.len()
                    invariant
                        i <= es@.len(),
                        out@.len() == i,
                        forall|j: int| 0 <= j < es@.len() ==> decreases_to!(*self => es@[j]),
                        forall|j: int| 0 <= j < i ==> (#[trigger] out@[j])@ == es@[j]@,
                    decreases es@.len() - i,
                {
                    out.push(es[i].dup());
                    i = i + 1;
                }
                assert(exprs_view(out@) =~= exprs_view(es@));
                Expr::Tuple(out)
            },
            Expr::Array(es) => {
                proof {
                    assert forall|j: int| 0 <= j < es@.len() implies decreases_to!(*self => es@[j]) by {
                        assert(decreases_to!(*self => self->Array_0));
                        assert(decreases_to!(*es => es@));
                        assert(decreases_to!(es@ => es@[j]));
                    }
                }
                let mut out: Vec<Expr> = Vec::new();
                let mut i: usize = 0;
                while i < es.len()
                    invariant
                        i <= es@.len(),
                        out@.len() == i,
                        forall|j: int| 0 <= j < es@.len() ==> decreases_to!(*self => es@[j]),
                        forall|j: int| 0 <= j < i ==> (#[trigger] out@[j])@ == es@[j]@,
                    decreases es@.len() - i,
                {
                    out.push(es[i].dup());
                    i = i + 1;
                }
                assert(exprs_view(out@) =~= exprs_view(es@));
                Expr::Array(out)
            },
            Expr::Field(x, i) => Expr::Field(Box::new(x.dup()), *i),
            Expr::Variant(c, p) => {
                let q = match p {
                    Some(b) => Some(Box::new(b.dup())),
                    None => None,
                };
                Expr::Variant(c.clone(), q)
            },
            Expr::Annot(x, t) => Expr::Annot(Box::new(x.dup()), t.dup()),
        }
    }
}

} // verus!
