use crate::shape::{Dim, Shape};
use vstd::prelude::*;

verus! {

broadcast use vstd::std_specs::vec::group_vec_axioms, vstd::seq::group_seq_axioms;

/// Primitive types.
#[derive(Debug, Clone, Copy, PartialEq, Eq, Structural)]
pub enum PrimType {
    I64,
    F64,
    Bool,
    Char,
}

/// Types, as supplied to the lowering pass by the (external) type annotation.
#[derive(Debug, PartialEq)]
pub enum Type {
    Prim(PrimType),
    Tuple(Vec<Type>),
    Tensor(Shape, Box<Type>),
    Fn(Box<Type>, Box<Type>),
    Var(String),
}

/// Mathematical model of a `Type`.
pub enum TypeV {
    Prim(PrimType),
    Tuple(Seq<TypeV>),
    Tensor(Seq<Dim>, Box<TypeV>),
    Fn(Box<TypeV>, Box<TypeV>),
    Var(String),
}

pub open spec fn type_view(t: Type) -> TypeV
    decreases t,
{
    match t {
        Type::Prim(p) => TypeV::Prim(p),
        Type::Tuple(v) => TypeV::Tuple(types_view(v@)),
        Type::Tensor(s, e) => TypeV::Tensor(s.0@, Box::new(type_view(*e))),
        Type::Fn(a, b) => TypeV::Fn(Box::new(type_view(*a)), Box::new(type_view(*b))),
        Type::Var(s) => TypeV::Var(s),
    }
}

pub open spec fn types_view(s: Seq<Type>) -> Seq<TypeV>
    decreases s,
{
    Seq::new(
        s.len(),
        |i: int|
            if 0 <= i < s.len() {
                type_view(s[i])
            } else {
                TypeV::Prim(PrimType::I64)
            },
    )
}

impl View for Type {
    type V = TypeV;

    open spec fn view(&self) -> TypeV {
        type_view(*self)
    }
}

impl Shape {
    /// A copy of this shape.
    pub fn dup(&self) -> (r: Shape)
        ensures
            r@ == self@,
    {
        let mut out: Vec<Dim> = Vec::new();
        let mut i: usize = 0;
        while i < self.0.len()
            invariant
                i <= self@.len(),
                out@.len() == i,
                forall|j: int| 0 <= j < i ==> out@[j] == self@[j],
            decreases self@.len() - i,
        {
            out.push(self.0[i].dup());
            i = i + 1;
        }
        assert(out@ =~= self@);
        Shape(out)
    }
}

impl Type {
    pub fn prim(p: PrimType) -> (r: Type)
        ensures
            r@ == TypeV::Prim(p),
    {
        Type::Prim(p)
    }

    /// Tuple type of the given fields.
    pub fn tuple(fields: Vec<Type>) -> (r: Type)
        ensures
            r@ == TypeV::Tuple(types_view(fields@)),
    {
        Type::Tuple(fields)
    }

    /// Rank-1 tensor type of `n` elements.
    pub fn vector(n: Dim, elem: Type) -> (r: Type)
        ensures
            r@ == TypeV::Tensor(seq![n], Box::new(elem@)),
    {
        Type::Tensor(Shape::vector(n), Box::new(elem))
    }

    /// Function type.
    pub fn func(arg: Type, ret: Type) -> (r: Type)
        ensures
            r@ == TypeV::Fn(Box::new(arg@), Box::new(ret@)),
    {
        Type::Fn(Box::new(arg), Box::new(ret))
    }

    /// A copy of this type.
    pub fn dup(&self) -> (r: Type)
        ensures
            r@ == self@,
        decreases self,
    {
        match self {
            Type::Prim(p) => Type::Prim(*p),
            Type::Tuple(v) => {
                proof {
                    assert forall|j: int| 0 <= j < v@.len() implies decreases_to!(*self => v@[j]) by {
                        assert(decreases_to!(*self => self->Tuple_0));
                        assert(decreases_to!(*v => v@));
                        assert(decreases_to!(v@ => v@[j]));
                    }
                }
                let mut out: Vec<Type> = Vec::new();
                let mut i: usize = 0;
                while i < v.len()
                    invariant
                        i <= v@.len(),
                        out@.len() == i,
                        forall|j: int| 0 <= j < v@.len() ==> decreases_to!(*self => v@[j]),
                        forall|j: int| 0 <= j < i ==> (#[trigger] out@[j])@ == v@[j]@,
                    decreases v@.len() - i,
                {
                    out.push(v[i].dup());
                    i = i + 1;
                }
                assert(types_view(out@) =~= types_view(v@));
                Type::Tuple(out)
            },
            Type::Tensor(s, e) => Type::Tensor(s.dup(), Box::new(e.dup())),
            Type::Fn(a, b) => Type::Fn(Box::new(a.dup()), Box::new(b.dup())),
            Type::Var(s) => Type::Var(s.clone()),
        }
    }
}

} // verus!
