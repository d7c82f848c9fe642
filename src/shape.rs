use vstd::prelude::*;

verus! {

/// Operations on dimensions.
#[derive(Debug, Clone, Copy, PartialEq, Eq, Hash, Structural)]
pub enum DimOp {
    Add,
    Sub,
    Mul,
    Div,
}

/// A single dimension in a shape.
#[derive(Debug, PartialEq, Eq, Hash)]
pub enum Dim {
    /// Concrete dimension, known before run time.
    Const(u64),
    /// Symbolic dimension, a type variable.
    Var(String),
    /// Binary operation on dimensions (dependent shapes).
    BinOp(Box<Dim>, DimOp, Box<Dim>),
}

/// A tensor shape: the list of its dimensions.
#[derive(Debug, PartialEq, Eq, Hash)]
pub struct Shape(pub Vec<Dim>);

pub open spec fn dims_concrete(d: Seq<Dim>) -> bool {
    forall|i: int| 0 <= i < d.len() ==> (#[trigger] d[i]) is Const
}

/// Product of the constant dimensions of a concrete shape.
pub open spec fn dims_product(d: Seq<Dim>) -> nat
    decreases d.len(),
{
    if d.len() == 0 {
        1
    } else {
        dims_product(d.drop_last()) * match d.last() {
            Dim::Const(n) => n as nat,
            _ => 0,
        }
    }
}

impl View for Shape {
    type V = Seq<Dim>;

    open spec fn view(&self) -> Seq<Dim> {
        self.0@
    }
}

impl Dim {
    pub fn constant(n: u64) -> (r: Dim)
        ensures
            r == Dim::Const(n),
    {
        Dim::Const(n)
    }

    pub fn var(name: &str) -> (r: Dim)
        ensures
            r matches Dim::Var(s) && s@ == name@,
    {
        Dim::Var(name.to_string())
    }

    /// Whether this dimension is concrete.
    pub fn is_concrete(&self) -> (r: bool)
        ensures
            r == self is Const,
    {
        matches!(self, Dim::Const(_))
    }

    /// A copy of this dimension.
    pub fn dup(&self) -> (r: Dim)
        ensures
            r == *self,
        decreases self,
    {
        match self {
            Dim::Const(n) => Dim::Const(*n),
            Dim::Var(s) => Dim::Var(s.clone()),
            Dim::BinOp(l, op, r) => Dim::BinOp(Box::new(l.dup()), *op, Box::new(r.dup())),
        }
    }
}

impl Shape {
    /// Scalar shape (rank 0).
    pub fn scalar() -> (r: Shape)
        ensures
            r@ == Seq::<Dim>::empty(),
    {
        Shape(Vec::new())
    }

    /// Vector shape `[n]`.
    pub fn vector(n: Dim) -> (r: Shape)
        ensures
            r@ == seq![n],
    {
        let mut v: Vec<Dim> = Vec::new();
        v.push(n);
        Shape(v)
    }

    /// Matrix shape `[m, n]`.
    pub fn matrix(m: Dim, n: Dim) -> (r: Shape)
        ensures
            r@ == seq![m, n],
    {
        let mut v: Vec<Dim> = Vec::new();
        v.push(m);
        v.push(n);
        proof {
            assert(v@ =~= seq![m, n]);
        }
        Shape(v)
    }

    /// Shape made of the given concrete dimensions.
    pub fn concrete(dims: &[u64]) -> (r: Shape)
        ensures
            r@.len() == dims@.len(),
            forall|i: int| 0 <= i < dims@.len() ==> r@[i] == Dim::Const(dims@[i]),
    {
        let mut v: Vec<Dim> = Vec::new();
        let mut i: usize = 0;
        while i < dims.len()
            invariant
                i <= dims@.len(),
                v@.len() == i,
                forall|j: int| 0 <= j < i ==> v@[j] == Dim::Const(dims@[j]),
            decreases dims@.len() - i,
        {
            v.push(Dim::Const(dims[i]));
            i = i + 1;
        }
        Shape(v)
    }

    /// Shape made of the given symbolic dimensions.
    pub fn symbolic(vars: &[&str]) -> (r: Shape)
        ensures
            r@.len() == vars@.len(),
            forall|i: int|
                0 <= i < vars@.len() ==> ((#[trigger] r@[i]) matches Dim::Var(s) && s@ == vars@[i]@),
    {
        let mut v: Vec<Dim> = Vec::new();
        let mut i: usize = 0;
        while i < vars.len()
            invariant
                i <= vars@.len(),
                v@.len() == i,
                forall|j: int|
                    0 <= j < i ==> ((#[trigger] v@[j]) matches Dim::Var(s) && s@ == vars@[j]@),
            decreases vars@.len() - i,
        {
            v.push(Dim::Var(vars[i].to_string()));
            i = i + 1;
        }
        Shape(v)
    }

    /// Rank: the number of dimensions.
    pub fn rank(&self) -> (r: usize)
        ensures
            r == self@.len(),
    {
        self.0.len()
    }

    /// Whether every dimension is concrete.
    pub fn is_concrete(&self) -> (r: bool)
        ensures
            r == dims_concrete(self@),
    {
        let mut i: usize = 0;
        while i < self.0.len()
            invariant
                i <= self@.len(),
                forall|j: int| 0 <= j < i ==> (#[trigger] self@[j]) is Const,
            decreases self@.len() - i,
        {
            if !self.0[i].is_concrete() {
                return false;
            }
            i = i + 1;
        }
        true
    }

    /// Total element count of a concrete shape; `None` for a symbolic shape,
    /// and for a count that does not fit in a `u64`.
    pub fn elem_count(&self) -> (r: Option<u64>)
        ensures
            r == (if dims_concrete(self@) && dims_product(self@) <= u64::MAX {
                Some(dims_product(self@) as u64)
            } else {
                None
            }),
    {
        if !self.is_concrete() {
            return None;
        }
        let mut z: usize = 0;
        while z < self.0.len()
            invariant
                z <= self@.len(),
                dims_concrete(self@),
                forall|k: int| 0 <= k < z ==> ((#[trigger] self@[k]) matches Dim::Const(n) && n >= 1),
            decreases self@.len() - z,
        {
            if let Dim::Const(0) = &self.0[z] {
                proof {
                    lemma_product_zero(self@, z as int);
                }
                return Some(0);
            }
            z = z + 1;
        }
        let mut acc: u64 = 1;
        let mut i: usize = 0;
        while i < self.0.len()
            invariant
                i <= self@.len(),
                dims_concrete(self@),
                acc as nat == dims_product(self@.subrange(0, i as int)),
                forall|k: int| 0 <= k < self@.len() ==> ((#[trigger] self@[k]) matches Dim::Const(n) && n >= 1),
            decreases self@.len() - i,
        {
            let n = match &self.0[i] {
                Dim::Const(n) => *n,
                _ => 0,
            };
            proof {
                assert(self@.subrange(0, i + 1).drop_last() =~= self@.subrange(0, i as int));
                assert(self@.subrange(0, i + 1).last() == self@[i as int]);
                assert(dims_product(self@.subrange(0, i + 1)) == acc * n);
            }
            match acc.checked_mul(n) {
                Some(p) => {
                    acc = p;
                },
                None => {
                    proof {
                        lemma_prefix_product_le(self@, i + 1);
                    }
                    return None;
                },
            }
            i = i + 1;
        }
        proof {
            assert(self@.subrange(0, self@.len() as int) =~= self@);
        }
        Some(acc)
    }
}

/// A zero dimension makes the whole product zero.
proof fn lemma_product_zero(d: Seq<Dim>, z: int)
    requires
        0 <= z < d.len(),
        d[z] == Dim::Const(0),
    ensures
        dims_product(d) == 0,
    decreases d.len(),
{
    if z < d.len() - 1 {
        let p = d.drop_last();
        assert(p[z] == d[z]);
        lemma_product_zero(p, z);
        let b: nat = match d.last() {
            Dim::Const(n) => n as nat,
            _ => 0,
        };
        assert(dims_product(d) == dims_product(p) * b);
        assert(dims_product(p) * b == 0) by (nonlinear_arith)
            requires
                dims_product(p) == 0,
        ;
    } else {
        assert(d.last() == Dim::Const(0));
        assert(dims_product(d) == dims_product(d.drop_last()) * 0);
    }
}

/// With no zero dimension, a prefix's product is at most the whole product.
proof fn lemma_prefix_product_le(d: Seq<Dim>, i: int)
    requires
        0 <= i <= d.len(),
        forall|k: int| 0 <= k < d.len() ==> ((#[trigger] d[k]) matches Dim::Const(n) && n >= 1),
    ensures
        dims_product(d.subrange(0, i)) <= dims_product(d),
    decreases d.len(),
{
    if i == d.len() {
        assert(d.subrange(0, i) =~= d);
    } else {
        let p = d.drop_last();
        assert(p.subrange(0, i) =~= d.subrange(0, i));
        assert forall|k: int| 0 <= k < p.len() implies ((#[trigger] p[k]) matches Dim::Const(n) && n >= 1) by {
            assert(p[k] == d[k]);
        }
        lemma_prefix_product_le(p, i);
        let a = dims_product(p);
        let last = d.last();
        assert(last matches Dim::Const(n) && n >= 1) by {
            assert(d[d.len() - 1] == last);
        }
        let b: nat = match last {
            Dim::Const(n) => n as nat,
            _ => 0,
        };
        assert(dims_product(d) == a * b);
        assert(a * b >= a) by (nonlinear_arith)
            requires
                b >= 1,
        ;
    }
}

} // verus!
