use crate::expr::{Expr, ExprV};
use std::rc::Rc;
use vstd::prelude::*;

verus! {

broadcast use vstd::std_specs::vec::group_vec_axioms, vstd::seq::group_seq_axioms;

/// Built-in functions reachable through the global table.
#[derive(Debug, Clone, Copy, PartialEq, Eq, Structural)]
pub enum Prim {
    Add,
    Sub,
    Mul,
    Div,
    Mod,
    Abs,
    Neg,
    Max,
    Min,
    Sqrt,
    Floor,
    Ceil,
    Dot,
    Sum,
    Len,
}

/// Number of arguments a primitive takes.
pub open spec fn prim_arity(p: Prim) -> u32 {
    match p {
        Prim::Add | Prim::Sub | Prim::Mul | Prim::Div | Prim::Mod | Prim::Max | Prim::Min
        | Prim::Dot => 2,
        _ => 1,
    }
}

impl Prim {
    /// Number of arguments this primitive takes.
    pub fn arity(&self) -> (r: u32)
        ensures
            r == prim_arity(*self),
    {
        match self {
            Prim::Add | Prim::Sub | Prim::Mul | Prim::Div | Prim::Mod | Prim::Max | Prim::Min
            | Prim::Dot => 2,
            _ => 1,
        }
    }
}

/// A tensor: shape (dimension sizes) and row-major elements.
#[derive(Debug, PartialEq)]
pub struct Tensor {
    pub shape: Vec<usize>,
    pub data: Vec<Value>,
}

/// Runtime values.
#[derive(Debug, PartialEq)]
pub enum Value {
    Int(i64),
    /// A float, as its IEEE-754 binary64 bit pattern.
    Float(u64),
    Bool(bool),
    Unit,
    Char(char),
    Tuple(Vec<Value>),
    Tensor(Tensor),
    Variant(String, Option<Box<Value>>),
    Closure(Rc<Closure>),
    Prim(Prim),
    /// An under-saturated closure or primitive with the arguments supplied so far, in order.
    Partial(Box<Value>, Vec<Value>),
}

/// A closure: arity, body, and the environment captured at creation.
#[derive(Debug, PartialEq)]
pub struct Closure {
    pub arity: u32,
    pub body: Expr,
    pub env: Env,
}

/// One frame of an environment chain.
#[derive(Debug, PartialEq)]
pub struct Frame {
    pub value: Value,
    pub next: Option<Rc<Frame>>,
}

/// The global name table.
#[derive(Debug, PartialEq)]
pub struct Globals {
    pub entries: Vec<(String, Value)>,
}

/// A persistent, shared chain of frames plus a snapshot of the global table.
#[derive(Debug, PartialEq)]
pub struct Env {
    pub frames: Option<Rc<Frame>>,
    pub globals: Rc<Globals>,
}

/// Mathematical model of a `Value`.
pub enum ValueV {
    Int(i64),
    Float(u64),
    Bool(bool),
    Unit,
    Char(char),
    Tuple(Seq<ValueV>),
    Tensor(Seq<usize>, Seq<ValueV>),
    Variant(String, Option<Box<ValueV>>),
    Closure(u32, ExprV, EnvV),
    Prim(Prim),
    Partial(Box<ValueV>, Seq<ValueV>),
}

/// Mathematical model of an `Env`: index 0 of `frames` is the innermost binding.
pub struct EnvV {
    pub frames: Seq<ValueV>,
    pub globals: Seq<(String, ValueV)>,
}

pub open spec fn value_view(v: Value) -> ValueV
    decreases v,
{
    match v {
        Value::Int(n) => ValueV::Int(n),
        Value::Float(b) => ValueV::Float(b),
        Value::Bool(b) => ValueV::Bool(b),
        Value::Unit => ValueV::Unit,
        Value::Char(c) => ValueV::Char(c),
        Value::Tuple(vs) => ValueV::Tuple(values_view(vs@)),
        Value::Tensor(t) => ValueV::Tensor(t.shape@, values_view(t.data@)),
        Value::Variant(c, p) => ValueV::Variant(
            c,
            match p {
                Some(b) => Some(Box::new(value_view(*b))),
                None => None,
            },
        ),
        Value::Closure(c) => ValueV::Closure(c.arity, c.body@, env_view(c.env)),
        Value::Prim(p) => ValueV::Prim(p),
        Value::Partial(f, args) => ValueV::Partial(Box::new(value_view(*f)), values_view(args@)),
    }
}

pub open spec fn values_view(s: Seq<Value>) -> Seq<ValueV>
    decreases s,
{
    Seq::new(
        s.len(),
        |i: int|
            if 0 <= i < s.len() {
                value_view(s[i])
            } else {
                ValueV::Unit
            },
    )
}

pub open spec fn frames_view(f: Option<Rc<Frame>>) -> Seq<ValueV>
    decreases f,
{
    match f {
        Some(fr) => seq![value_view(fr.value)] + frames_view(fr.next),
        None => Seq::empty(),
    }
}

pub open spec fn globals_view(s: Seq<(String, Value)>) -> Seq<(String, ValueV)>
    decreases s,
{
    Seq::new(
        s.len(),
        |i: int|
            if 0 <= i < s.len() {
                (s[i].0, value_view(s[i].1))
            } else {
                (s[0].0, ValueV::Unit)
            },
    )
}

pub open spec fn env_view(e: Env) -> EnvV
    decreases e,
{
    EnvV { frames: frames_view(e.frames), globals: globals_view(e.globals.entries@) }
}

impl View for Value {
    type V = ValueV;

    open spec fn view(&self) -> ValueV {
        value_view(*self)
    }
}

impl View for Env {
    type V = EnvV;

    open spec fn view(&self) -> EnvV {
        env_view(*self)
    }
}

impl View for Globals {
    type V = Seq<(String, ValueV)>;

    open spec fn view(&self) -> Seq<(String, ValueV)> {
        globals_view(self.entries@)
    }
}

/// Relies on `Rc::clone`: the new pointer shares the allocation, so it denotes the same value.
#[verifier::external_body]
pub(crate) fn share<T>(r: &Rc<T>) -> (s: Rc<T>)
    ensures
        s == *r,
{
    Rc::clone(r)
}

/// First binding of `name` in a global table.
pub open spec fn global_lookup(g: Seq<(String, ValueV)>, name: Seq<char>) -> Option<ValueV>
    decreases g.len(),
{
    if g.len() == 0 {
        None
    } else if g[0].0@ == name {
        Some(g[0].1)
    } else {
        global_lookup(g.subrange(1, g.len() as int), name)
    }
}

impl Value {
    /// A closure value of the given arity over `env`.
    pub fn closure(arity: u32, body: Expr, env: Env) -> (r: Value)
        ensures
            r@ == ValueV::Closure(arity, body@, env@),
    {
        Value::Closure(Rc::new(Closure { arity, body, env }))
    }

    /// Whether this value can be applied to an argument.
    pub fn is_callable(&self) -> (r: bool)
        ensures
            r == (self@ is Closure || self@ is Prim || self@ is Partial),
    {
        matches!(self, Value::Closure(_) | Value::Prim(_) | Value::Partial(_, _))
    }

    /// A copy of this value; closures are shared, not copied.
    pub fn dup(&self) -> (r: Value)
        ensures
            r@ == self@,
        decreases self,
    {
        match self {
            Value::Int(n) => Value::Int(*n),
            Value::Float(b) => Value::Float(*b),
            Value::Bool(b) => Value::Bool(*b),
            Value::Unit => Value::Unit,
            Value::Char(c) => Value::Char(*c),
            Value::Tuple(vs) => {
                proof {
                    assert forall|j: int| 0 <= j < vs@.len() implies decreases_to!(*self => vs@[j]) by {
                        assert(decreases_to!(*self => self->Tuple_0));
                        assert(decreases_to!(*vs => vs@));
                        assert(decreases_to!(vs@ => vs@[j]));
                    }
                }
                Value::Tuple(dup_values(self, vs))
            },
            Value::Tensor(t) => {
                proof {
                    assert forall|j: int| 0 <= j < t.data@.len() implies decreases_to!(*self => t.data@[j]) by {
                        assert(decreases_to!(*self => self->Tensor_0));
                        assert(decreases_to!(*t => t.data));
                        assert(decreases_to!(t.data => t.data@));
                        assert(decreases_to!(t.data@ => t.data@[j]));
                    }
                }
                let data = dup_values(self, &t.data);
                Value::Tensor(Tensor { shape: t.shape.clone(), data })
            },
            Value::Variant(c, p) => {
                let q = match p {
                    Some(b) => Some(Box::new(b.dup())),
                    None => None,
                };
                Value::Variant(c.clone(), q)
            },
            Value::Closure(c) => Value::Closure(share(c)),
            Value::Prim(p) => Value::Prim(*p),
            Value::Partial(f, args) => {
                proof {
                    assert forall|j: int| 0 <= j < args@.len() implies decreases_to!(*self => args@[j]) by {
                        assert(decreases_to!(*self => self->Partial_1));
                        assert(decreases_to!(*args => args@));
                        assert(decreases_to!(args@ => args@[j]));
                    }
                }
                Value::Partial(Box::new(f.dup()), dup_values(self, args))
            },
        }
    }
}

/// Copies of the values `vs`, which are parts of `parent`.
pub fn dup_values(parent: &Value, vs: &Vec<Value>) -> (r: Vec<Value>)
    requires
        forall|j: int| 0 <= j < vs@.len() ==> decreases_to!(*parent => vs@[j]),
    ensures
        values_view(r@) == values_view(vs@),
    decreases parent, 0nat,
{
    let mut out: Vec<Value> = Vec::new();
    let mut i: usize = 0;
    while i < vs.len()
        invariant
            i <= vs@.len(),
            out@.len() == i,
            forall|j: int| 0 <= j < vs@.len() ==> decreases_to!(*parent => vs@[j]),
            forall|j: int| 0 <= j < i ==> (#[trigger] out@[j])@ == vs@[j]@,
        decreases vs@.len() - i,
    {
        out.push(vs[i].dup());
        i = i + 1;
    }
    assert(values_view(out@) =~= values_view(vs@));
    out
}

impl Tensor {
    /// Number of elements.
    pub fn len(&self) -> (r: usize)
        ensures
            r == self.data@.len(),
    {
        self.data.len()
    }

    /// The element at row-major position `i`.
    pub fn get_flat(&self, i: usize) -> (r: Option<Value>)
        ensures
            i < self.data@.len() ==> (r matches Some(v) && v@ == self.data@[i as int]@),
            i >= self.data@.len() ==> r is None,
    {
        if i < self.data.len() {
            Some(self.data[i].dup())
        } else {
            None
        }
    }
}

impl Globals {
    /// The first value bound to `name`.
    pub fn get(&self, name: &String) -> (r: Option<Value>)
        ensures
            match global_lookup(self@, name@) {
                Some(v) => r matches Some(x) && x@ == v,
                None => r is None,
            },
    {
        let ghost g = self@;
        assert(g.subrange(0, g.len() as int) =~= g);
        let mut i: usize = 0;
        while i < self.entries.len()
            invariant
                i <= self.entries@.len(),
                g == self@,
                global_lookup(g, name@) == global_lookup(g.subrange(i as int, g.len() as int), name@),
            decreases self.entries@.len() - i,
        {
            let ghost rest = g.subrange(i as int, g.len() as int);
            assert(rest[0] == g[i as int]);
            assert(g[i as int].0 == self.entries@[i as int].0);
            assert(g[i as int].1 == self.entries@[i as int].1@);
            assert(g.len() == self.entries@.len());
            if self.entries[i].0 == *name {
                return Some(self.entries[i].1.dup());
            }
            assert(rest.subrange(1, rest.len() as int) =~= g.subrange(i + 1, g.len() as int));
            i = i + 1;
        }
        None
    }
}

impl Env {
    /// An empty environment whose global snapshot is `globals`.
    pub fn with_globals(globals: Rc<Globals>) -> (r: Env)
        ensures
            r@.frames == Seq::<ValueV>::empty(),
            r@.globals == globals@,
    {
        Env { frames: None, globals }
    }

    /// A copy that shares every frame and the global snapshot.
    pub fn share(&self) -> (r: Env)
        ensures
            r@ == self@,
    {
        let frames = match &self.frames {
            Some(f) => Some(share(f)),
            None => None,
        };
        Env { frames, globals: share(&self.globals) }
    }

    /// This environment extended by a new innermost binding.
    pub fn push(&self, value: Value) -> (r: Env)
        ensures
            r@.frames == seq![value@] + self@.frames,
            r@.globals == self@.globals,
    {
        let next = match &self.frames {
            Some(f) => Some(share(f)),
            None => None,
        };
        Env { frames: Some(Rc::new(Frame { value, next })), globals: share(&self.globals) }
    }

    /// The value bound at de Bruijn index `n`.
    pub fn lookup_index(&self, n: u32) -> (r: Option<Value>)
        ensures
            n < self@.frames.len() ==> (r matches Some(v) && v@ == self@.frames[n as int]),
            n >= self@.frames.len() ==> r is None,
    {
        let ghost all = self@.frames;
        let mut cur: &Option<Rc<Frame>> = &self.frames;
        let mut k: u32 = 0;
        while k < n
            invariant
                k <= n,
                all == self@.frames,
                k <= all.len(),
                frames_view(*cur) == all.subrange(k as int, all.len() as int),
            decreases n - k,
        {
            match cur {
                Some(f) => {
                    proof {
                        assert(frames_view(*cur) == seq![f.value@] + frames_view(f.next));
                        assert(all.subrange(k as int, all.len() as int).len() == 1 + frames_view(f.next).len());
                        assert(k < all.len());
                        let sub = all.subrange(k as int, all.len() as int);
                        assert forall|j: int| 0 <= j < frames_view(f.next).len() implies frames_view(f.next)[j] == all.subrange(k + 1, all.len() as int)[j] by {
                            assert(sub[j + 1] == frames_view(f.next)[j]);
                            assert(sub[j + 1] == all[k + 1 + j]);
                        }
                        assert(frames_view(f.next) =~= all.subrange(k + 1, all.len() as int));
                    }
                    cur = &f.next;
                },
                None => {
                    return None;
                },
            }
            k = k + 1;
        }
        match cur {
            Some(f) => {
                proof {
                    assert(frames_view(*cur) == seq![f.value@] + frames_view(f.next));
                    assert(all.subrange(k as int, all.len() as int)[0] == all[n as int]);
                }
                Some(f.value.dup())
            },
            None => None,
        }
    }
}

} // verus!
