use crate::expr::{expr_view, Expr, ExprV};
use crate::literal::Literal;
use crate::types::{Type, TypeV};
use vstd::prelude::*;

verus! {

broadcast use vstd::std_specs::vec::group_vec_axioms, vstd::seq::group_seq_axioms;

/// A pattern for matching.
#[derive(Debug, PartialEq)]
pub enum Pattern {
    /// `_`: matches anything, binds nothing.
    Wildcard,
    /// Binds the matched value; the name is only a hint.
    Var(Option<String>),
    Lit(Literal),
    /// Fixed-length array pattern `[p0, p1, ...]`.
    Array(Vec<Pattern>),
    /// `[h0, h1 | t]`: at least as many elements as the head, the rest to `tail`.
    ArraySplit { head: Vec<Pattern>, tail: Box<Pattern> },
    Tuple(Vec<Pattern>),
    Variant { constructor: String, payload: Option<Box<Pattern>> },
    /// Type-annotated pattern; the type is not checked at run time.
    Typed(Box<Pattern>, Type),
    /// Either sub-pattern; both must bind the same number of values.
    Or(Box<Pattern>, Box<Pattern>),
    /// Sub-pattern plus a boolean guard evaluated in its bindings' scope.
    Guard(Box<Pattern>, Box<Expr>),
}

/// Mathematical model of a `Pattern`.
pub enum PatternV {
    Wildcard,
    Var(Option<String>),
    Lit(Literal),
    Array(Seq<PatternV>),
    ArraySplit(Seq<PatternV>, Box<PatternV>),
    Tuple(Seq<PatternV>),
    Variant(String, Option<Box<PatternV>>),
    Typed(Box<PatternV>, TypeV),
    Or(Box<PatternV>, Box<PatternV>),
    Guard(Box<PatternV>, Box<ExprV>),
}

pub open spec fn pattern_view(p: Pattern) -> PatternV
    decreases p,
{
    match p {
        Pattern::Wildcard => PatternV::Wildcard,
        Pattern::Var(n) => PatternV::Var(n),
        Pattern::Lit(l) => PatternV::Lit(l),
        Pattern::Array(ps) => PatternV::Array(patterns_view(ps@)),
        Pattern::ArraySplit { head, tail } => PatternV::ArraySplit(
            patterns_view(head@),
            Box::new(pattern_view(*tail)),
        ),
        Pattern::Tuple(ps) => PatternV::Tuple(patterns_view(ps@)),
        Pattern::Variant { constructor, payload } => PatternV::Variant(
            constructor,
            match payload {
                Some(b) => Some(Box::new(pattern_view(*b))),
                None => None,
            },
        ),
        Pattern::Typed(b, t) => PatternV::Typed(Box::new(pattern_view(*b)), t@),
        Pattern::Or(a, b) => PatternV::Or(Box::new(pattern_view(*a)), Box::new(pattern_view(*b))),
        Pattern::Guard(b, g) => PatternV::Guard(Box::new(pattern_view(*b)), Box::new(expr_view(*g))),
    }
}

pub open spec fn patterns_view(s: Seq<Pattern>) -> Seq<PatternV>
    decreases s,
{
    Seq::new(
        s.len(),
        |i: int|
            if 0 <= i < s.len() {
                pattern_view(s[i])
            } else {
                PatternV::Wildcard
            },
    )
}

impl View for Pattern {
    type V = PatternV;

    open spec fn view(&self) -> PatternV {
        pattern_view(*self)
    }
}

/// Number of values a pattern binds when it matches.
pub open spec fn bindings(p: PatternV) -> nat
    decreases p,
{
    match p {
        PatternV::Wildcard => 0,
        PatternV::Var(_) => 1,
        PatternV::Lit(_) => 0,
        PatternV::Array(ps) => bindings_sum(ps),
        PatternV::ArraySplit(h, t) => bindings_sum(h) + bindings(*t),
        PatternV::Tuple(ps) => bindings_sum(ps),
        PatternV::Variant(_, pl) => match pl {
            Some(b) => bindings(*b),
            None => 0,
        },
        PatternV::Typed(b, _) => bindings(*b),
        PatternV::Or(a, b) => if bindings(*a) >= bindings(*b) {
            bindings(*a)
        } else {
            bindings(*b)
        },
        PatternV::Guard(b, _) => bindings(*b),
    }
}

/// Total bindings of a sequence of patterns.
pub open spec fn bindings_sum(s: Seq<PatternV>) -> nat
    decreases s,
{
    if s.len() == 0 {
        0
    } else {
        bindings_sum(s.subrange(0, s.len() - 1)) + bindings(s[s.len() - 1])
    }
}

/// Whether a pattern matches every value.
pub open spec fn irrefutable(p: PatternV) -> bool
    decreases p,
{
    match p {
        PatternV::Wildcard => true,
        PatternV::Var(_) => true,
        PatternV::Tuple(ps) => all_irrefutable(ps),
        PatternV::Typed(b, _) => irrefutable(*b),
        PatternV::Or(a, b) => irrefutable(*a) || irrefutable(*b),
        _ => false,
    }
}

pub open spec fn all_irrefutable(s: Seq<PatternV>) -> bool
    decreases s,
{
    if s.len() == 0 {
        true
    } else {
        all_irrefutable(s.subrange(0, s.len() - 1)) && irrefutable(s[s.len() - 1])
    }
}

/// Whether every or-pattern inside `p` binds as many values on both sides.
pub open spec fn or_consistent(p: PatternV) -> bool
    decreases p,
{
    match p {
        PatternV::Array(ps) => all_or_consistent(ps),
        PatternV::ArraySplit(h, t) => all_or_consistent(h) && or_consistent(*t),
        PatternV::Tuple(ps) => all_or_consistent(ps),
        PatternV::Variant(_, pl) => match pl {
            Some(b) => or_consistent(*b),
            None => true,
        },
        PatternV::Typed(b, _) => or_consistent(*b),
        PatternV::Or(a, b) => bindings(*a) == bindings(*b) && or_consistent(*a) && or_consistent(
            *b,
        ),
        PatternV::Guard(b, _) => or_consistent(*b),
        _ => true,
    }
}

pub open spec fn all_or_consistent(s: Seq<PatternV>) -> bool
    decreases s,
{
    if s.len() == 0 {
        true
    } else {
        all_or_consistent(s.subrange(0, s.len() - 1)) && or_consistent(s[s.len() - 1])
    }
}

/// `all_or_consistent` holds of a sequence exactly when it holds of every element.
proof fn lemma_all_or_consistent(s: Seq<PatternV>)
    ensures
        all_or_consistent(s) <==> forall|j: int| 0 <= j < s.len() ==> or_consistent(#[trigger] s[j]),
    decreases s.len(),
{
    if s.len() > 0 {
        let p = s.subrange(0, s.len() - 1);
        lemma_all_or_consistent(p);
        assert forall|j: int| 0 <= j < p.len() implies p[j] == s[j] by {}
    }
}

/// An element's bindings never exceed the whole sequence's.
proof fn lemma_bindings_elem(s: Seq<PatternV>, i: int)
    requires
        0 <= i < s.len(),
    ensures
        bindings(s[i]) <= bindings_sum(s),
{
    lemma_bindings_prefix(s, i);
    lemma_bindings_prefix(s, i + 1);
}

/// A prefix's bindings never exceed the whole sequence's.
pub proof fn lemma_bindings_prefix(s: Seq<PatternV>, i: int)
    requires
        0 <= i <= s.len(),
    ensures
        bindings_sum(s.subrange(0, i)) <= bindings_sum(s),
        i < s.len() ==> bindings_sum(s.subrange(0, i + 1)) == bindings_sum(s.subrange(0, i))
            + bindings(s[i]),
    decreases s.len(),
{
    if i < s.len() {
        let t = s.subrange(0, i + 1);
        assert(t.subrange(0, t.len() - 1) =~= s.subrange(0, i));
    }
    if i == s.len() {
        assert(s.subrange(0, i) =~= s);
    } else {
        let p = s.subrange(0, s.len() - 1);
        assert(p.subrange(0, i) =~= s.subrange(0, i));
        lemma_bindings_prefix(p, i);
    }
}

/// `all_irrefutable` holds of a sequence exactly when it holds of every element.
pub proof fn lemma_all_irrefutable(s: Seq<PatternV>)
    ensures
        all_irrefutable(s) <==> forall|j: int| 0 <= j < s.len() ==> irrefutable(#[trigger] s[j]),
    decreases s.len(),
{
    if s.len() > 0 {
        let p = s.subrange(0, s.len() - 1);
        lemma_all_irrefutable(p);
        assert forall|j: int| 0 <= j < p.len() implies p[j] == s[j] by {}
    }
}

impl Pattern {
    pub fn wildcard() -> (r: Pattern)
        ensures
            r@ == PatternV::Wildcard,
    {
        Pattern::Wildcard
    }

    /// Variable binding pattern with a name hint.
    pub fn var(name: &str) -> (r: Pattern)
        ensures
            r@ matches PatternV::Var(Some(n)) && n@ == name@,
    {
        Pattern::Var(Some(name.to_string()))
    }

    /// Anonymous variable binding pattern.
    pub fn anon() -> (r: Pattern)
        ensures
            r@ == PatternV::Var(None),
    {
        Pattern::Var(None)
    }

    pub fn lit(l: Literal) -> (r: Pattern)
        ensures
            r@ == PatternV::Lit(l),
    {
        Pattern::Lit(l)
    }

    pub fn tuple(pats: Vec<Pattern>) -> (r: Pattern)
        ensures
            r@ == PatternV::Tuple(patterns_view(pats@)),
    {
        Pattern::Tuple(pats)
    }

    pub fn array(pats: Vec<Pattern>) -> (r: Pattern)
        ensures
            r@ == PatternV::Array(patterns_view(pats@)),
    {
        Pattern::Array(pats)
    }

    pub fn variant(name: &str, payload: Option<Pattern>) -> (r: Pattern)
        ensures
            r@ matches PatternV::Variant(c, p) && c@ == name@ && p == match payload {
                Some(x) => Some(Box::new(x@)),
                None => None,
            },
    {
        let p = match payload {
            Some(x) => Some(Box::new(x)),
            None => None,
        };
        Pattern::Variant { constructor: name.to_string(), payload: p }
    }

    /// Add a type annotation.
    pub fn typed(self, ty: Type) -> (r: Pattern)
        ensures
            r@ == PatternV::Typed(Box::new(self@), ty@),
    {
        Pattern::Typed(Box::new(self), ty)
    }

    /// Number of bindings this pattern introduces (for an or-pattern, the larger side's).
    pub fn binding_count(&self) -> (r: usize)
        requires
            bindings(self@) <= usize::MAX,
        ensures
            r == bindings(self@),
        decreases self,
    {
        match self {
            Pattern::Wildcard => 0,
            Pattern::Var(_) => 1,
            Pattern::Lit(_) => 0,
            Pattern::Array(ps) => {
                proof {
                    assert forall|j: int| 0 <= j < ps@.len() implies decreases_to!(*self => ps@[j]) by {
                        assert(decreases_to!(*self => self->Array_0));
                        assert(decreases_to!(*ps => ps@));
                        assert(decreases_to!(ps@ => ps@[j]));
                    }
                }
                sum_bindings(ps)
            },
            Pattern::ArraySplit { head, tail } => {
                proof {
                    assert forall|j: int| 0 <= j < head@.len() implies decreases_to!(*self => head@[j]) by {
                        assert(decreases_to!(*self => self->head));
                        assert(decreases_to!(*head => head@));
                        assert(decreases_to!(head@ => head@[j]));
                    }
                }
                let h = sum_bindings(head);
                h + tail.binding_count()
            },
            Pattern::Tuple(ps) => {
                proof {
                    assert forall|j: int| 0 <= j < ps@.len() implies decreases_to!(*self => ps@[j]) by {
                        assert(decreases_to!(*self => self->Tuple_0));
                        assert(decreases_to!(*ps => ps@));
                        assert(decreases_to!(ps@ => ps@[j]));
                    }
                }
                sum_bindings(ps)
            },
            Pattern::Variant { payload, .. } => match payload {
                Some(b) => b.binding_count(),
                None => 0,
            },
            Pattern::Typed(b, _) => b.binding_count(),
            Pattern::Or(a, b) => {
                let x = a.binding_count();
                let y = b.binding_count();
                if x >= y {
                    x
                } else {
                    y
                }
            },
            Pattern::Guard(b, _) => b.binding_count(),
        }
    }

    /// Whether this pattern is well formed: both sides of every or-pattern in
    /// it bind the same number of values.
    pub fn is_well_formed(&self) -> (r: bool)
        requires
            bindings(self@) <= usize::MAX,
        ensures
            r == or_consistent(self@),
        decreases self,
    {
        match self {
            Pattern::Array(ps) => {
                proof {
                    assert forall|j: int| 0 <= j < ps@.len() implies decreases_to!(*self => ps@[j]) by {
                        assert(decreases_to!(*self => self->Array_0));
                        assert(decreases_to!(*ps => ps@));
                        assert(decreases_to!(ps@ => ps@[j]));
                    }
                }
                all_well_formed(self, ps)
            },
            Pattern::ArraySplit { head, tail } => {
                proof {
                    assert forall|j: int| 0 <= j < head@.len() implies decreases_to!(*self => head@[j]) by {
                        assert(decreases_to!(*self => self->head));
                        assert(decreases_to!(*head => head@));
                        assert(decreases_to!(head@ => head@[j]));
                    }
                }
                all_well_formed(self, head) && tail.is_well_formed()
            },
            Pattern::Tuple(ps) => {
                proof {
                    assert forall|j: int| 0 <= j < ps@.len() implies decreases_to!(*self => ps@[j]) by {
                        assert(decreases_to!(*self => self->Tuple_0));
                        assert(decreases_to!(*ps => ps@));
                        assert(decreases_to!(ps@ => ps@[j]));
                    }
                }
                all_well_formed(self, ps)
            },
            Pattern::Variant { payload, .. } => match payload {
                Some(b) => b.is_well_formed(),
                None => true,
            },
            Pattern::Typed(b, _) => b.is_well_formed(),
            Pattern::Or(a, b) => {
                a.binding_count() == b.binding_count() && a.is_well_formed() && b.is_well_formed()
            },
            Pattern::Guard(b, _) => b.is_well_formed(),
            _ => true,
        }
    }

    /// Whether this pattern matches every value.
    pub fn is_irrefutable(&self) -> (r: bool)
        ensures
            r == irrefutable(self@),
        decreases self,
    {
        match self {
            Pattern::Wildcard => true,
            Pattern::Var(_) => true,
            Pattern::Tuple(ps) => {
                proof {
                    assert forall|j: int| 0 <= j < ps@.len() implies decreases_to!(*self => ps@[j]) by {
                        assert(decreases_to!(*self => self->Tuple_0));
                        assert(decreases_to!(*ps => ps@));
                        assert(decreases_to!(ps@ => ps@[j]));
                    }
                    lemma_all_irrefutable(patterns_view(ps@));
                }
                let mut i: usize = 0;
                while i < ps.len()
                    invariant
                        i <= ps@.len(),
                        forall|j: int| 0 <= j < ps@.len() ==> decreases_to!(*self => ps@[j]),
                        forall|j: int| 0 <= j < i ==> irrefutable(#[trigger] patterns_view(ps@)[j]),
                        self@ == PatternV::Tuple(patterns_view(ps@)),
                    decreases ps@.len() - i,
                {
                    if !ps[i].is_irrefutable() {
                        proof {
                            lemma_all_irrefutable(patterns_view(ps@));
                            assert(patterns_view(ps@)[i as int] == ps@[i as int]@);
                        }
                        return false;
                    }
                    i = i + 1;
                }
                proof {
                    lemma_all_irrefutable(patterns_view(ps@));
                }
                true
            },
            Pattern::Typed(b, _) => b.is_irrefutable(),
            Pattern::Or(a, b) => a.is_irrefutable() || b.is_irrefutable(),
            _ => false,
        }
    }

    /// A copy of this pattern.
    pub fn dup(&self) -> (r: Pattern)
        ensures
            r@ == self@,
        decreases self,
    {
        match self {
            Pattern::Wildcard => Pattern::Wildcard,
            Pattern::Var(n) => Pattern::Var(
                match n {
                    Some(s) => Some(s.clone()),
                    None => None,
                },
            ),
            Pattern::Lit(l) => Pattern::Lit(*l),
            Pattern::Array(ps) => {
                proof {
                    assert forall|j: int| 0 <= j < ps@.len() implies decreases_to!(*self => ps@[j]) by {
                        assert(decreases_to!(*self => self->Array_0));
                        assert(decreases_to!(*ps => ps@));
                        assert(decreases_to!(ps@ => ps@[j]));
                    }
                }
                Pattern::Array(dup_patterns(ps))
            },
            Pattern::ArraySplit { head, tail } => {
                proof {
                    assert forall|j: int| 0 <= j < head@.len() implies decreases_to!(*self => head@[j]) by {
                        assert(decreases_to!(*self => self->head));
                        assert(decreases_to!(*head => head@));
                        assert(decreases_to!(head@ => head@[j]));
                    }
                }
                Pattern::ArraySplit { head: dup_patterns(head), tail: Box::new(tail.dup()) }
            },
            Pattern::Tuple(ps) => {
                proof {
                    assert forall|j: int| 0 <= j < ps@.len() implies decreases_to!(*self => ps@[j]) by {
                        assert(decreases_to!(*self => self->Tuple_0));
                        assert(decreases_to!(*ps => ps@));
                        assert(decreases_to!(ps@ => ps@[j]));
                    }
                }
                Pattern::Tuple(dup_patterns(ps))
            },
            Pattern::Variant { constructor, payload } => Pattern::Variant {
                constructor: constructor.clone(),
                payload: match payload {
                    Some(b) => Some(Box::new(b.dup())),
                    None => None,
                },
            },
            Pattern::Typed(b, t) => Pattern::Typed(Box::new(b.dup()), t.dup()),
            Pattern::Or(a, b) => Pattern::Or(Box::new(a.dup()), Box::new(b.dup())),
            Pattern::Guard(b, g) => Pattern::Guard(Box::new(b.dup()), Box::new(g.dup())),
        }
    }
}

/// Whether every pattern of `ps`, the sub-patterns of `parent`, is well formed.
fn all_well_formed(parent: &Pattern, ps: &Vec<Pattern>) -> (r: bool)
    requires
        forall|j: int| 0 <= j < ps@.len() ==> decreases_to!(*parent => ps@[j]),
        bindings_sum(patterns_view(ps@)) <= usize::MAX,
    ensures
        r == all_or_consistent(patterns_view(ps@)),
    decreases parent, 0nat,
{
    let ghost s = patterns_view(ps@);
    proof {
        lemma_all_or_consistent(s);
    }
    let mut i: usize = 0;
    while i < ps.len()
        invariant
            i <= ps@.len(),
            s == patterns_view(ps@),
            bindings_sum(s) <= usize::MAX,
            forall|j: int| 0 <= j < ps@.len() ==> decreases_to!(*parent => ps@[j]),
            forall|j: int| 0 <= j < i ==> or_consistent(#[trigger] s[j]),
        decreases ps@.len() - i,
    {
        proof {
            lemma_bindings_elem(s, i as int);
            assert(s[i as int] == ps@[i as int]@);
        }
        if !ps[i].is_well_formed() {
            proof {
                lemma_all_or_consistent(s);
            }
            return false;
        }
        i = i + 1;
    }
    proof {
        lemma_all_or_consistent(s);
    }
    true
}

/// Sum of the bindings of a list of sub-patterns of `Pattern::binding_count`'s argument.
fn sum_bindings(ps: &Vec<Pattern>) -> (r: usize)
    requires
        bindings_sum(patterns_view(ps@)) <= usize::MAX,
    ensures
        r == bindings_sum(patterns_view(ps@)),
    decreases ps@, 0nat,
{
    let ghost s = patterns_view(ps@);
    let mut acc: usize = 0;
    let mut i: usize = 0;
    while i < ps.len()
        invariant
            i <= ps@.len(),
            s == patterns_view(ps@),
            bindings_sum(s) <= usize::MAX,
            acc == bindings_sum(s.subrange(0, i as int)),
        decreases ps@.len() - i,
    {
        proof {
            lemma_bindings_prefix(s, i as int);
            lemma_bindings_prefix(s, i as int + 1);
            assert(decreases_to!(ps@ => ps@[i as int]));
        }
        let b = ps[i].binding_count();
        acc = acc + b;
        i = i + 1;
    }
    proof {
        assert(s.subrange(0, s.len() as int) =~= s);
    }
    acc
}

/// Copies of a list of patterns.
fn dup_patterns(ps: &Vec<Pattern>) -> (r: Vec<Pattern>)
    ensures
        patterns_view(r@) == patterns_view(ps@),
    decreases ps@, 0nat,
{
    let mut out: Vec<Pattern> = Vec::new();
    let mut i: usize = 0;
    while i < ps.len()
        invariant
            i <= ps@.len(),
            out@.len() == i,
            forall|j: int| 0 <= j < i ==> (#[trigger] out@[j])@ == ps@[j]@,
        decreases ps@.len() - i,
    {
        proof {
            assert(decreases_to!(ps@ => ps@[i as int]));
        }
        out.push(ps[i].dup());
        i = i + 1;
    }
    assert(patterns_view(out@) =~= patterns_view(ps@));
    out
}

} // verus!
