use vstd::prelude::*;

verus! {

broadcast use vstd::std_specs::vec::group_vec_axioms, vstd::seq::group_seq_axioms;

/// An effect a computation may have.
#[derive(Debug, PartialEq, Eq, Hash)]
pub enum Effect {
    /// No effect.
    Pure,
    /// File, network or console input/output.
    Io,
    /// Local mutation.
    Mut,
    /// Randomness.
    Rand,
    /// Possible non-termination.
    Div,
    /// May throw an exception of the named type.
    Exn(String),
    /// Foreign call with the named lifetime.
    Ffi(String),
    /// User-defined effect.
    Custom(String),
}

/// Mathematical model of an `Effect`.
pub enum EffectV {
    Pure,
    Io,
    Mut,
    Rand,
    Div,
    Exn(Seq<char>),
    Ffi(Seq<char>),
    Custom(Seq<char>),
}

impl View for Effect {
    type V = EffectV;

    open spec fn view(&self) -> EffectV {
        match self {
            Effect::Pure => EffectV::Pure,
            Effect::Io => EffectV::Io,
            Effect::Mut => EffectV::Mut,
            Effect::Rand => EffectV::Rand,
            Effect::Div => EffectV::Div,
            Effect::Exn(s) => EffectV::Exn(s@),
            Effect::Ffi(s) => EffectV::Ffi(s@),
            Effect::Custom(s) => EffectV::Custom(s@),
        }
    }
}

impl Effect {
    /// Whether two effects are the same.
    pub fn same(&self, other: &Effect) -> (r: bool)
        ensures
            r == (self@ == other@),
    {
        match (self, other) {
            (Effect::Pure, Effect::Pure) => true,
            (Effect::Io, Effect::Io) => true,
            (Effect::Mut, Effect::Mut) => true,
            (Effect::Rand, Effect::Rand) => true,
            (Effect::Div, Effect::Div) => true,
            (Effect::Exn(a), Effect::Exn(b)) => *a == *b,
            (Effect::Ffi(a), Effect::Ffi(b)) => *a == *b,
            (Effect::Custom(a), Effect::Custom(b)) => *a == *b,
            _ => false,
        }
    }

    /// A copy of this effect.
    pub fn dup(&self) -> (r: Effect)
        ensures
            r@ == self@,
    {
        match self {
            Effect::Pure => Effect::Pure,
            Effect::Io => Effect::Io,
            Effect::Mut => Effect::Mut,
            Effect::Rand => Effect::Rand,
            Effect::Div => Effect::Div,
            Effect::Exn(s) => Effect::Exn(s.clone()),
            Effect::Ffi(s) => Effect::Ffi(s.clone()),
            Effect::Custom(s) => Effect::Custom(s.clone()),
        }
    }
}

/// A set of effects (an effect row). The pure effect is never stored: the empty
/// set is pure.
#[derive(Debug)]
pub struct Effects(Vec<Effect>);

impl View for Effects {
    type V = Set<EffectV>;

    closed spec fn view(&self) -> Set<EffectV> {
        Set::new(|x: EffectV| exists|i: int| 0 <= i < self.0@.len() && (#[trigger] self.0@[i])@ == x)
    }
}

impl Effects {
    /// No duplicates, and no `Pure`.
    pub closed spec fn wf(&self) -> bool {
        &&& forall|i: int| 0 <= i < self.0@.len() ==> !((#[trigger] self.0@[i])@ is Pure)
        &&& forall|i: int, j: int|
            0 <= i < j < self.0@.len() ==> (#[trigger] self.0@[i])@ != (#[trigger] self.0@[j])@
    }

    /// The pure effect set.
    pub fn pure() -> (r: Effects)
        ensures
            r.wf(),
            r@ == Set::<EffectV>::empty(),
    {
        let r = Effects(Vec::new());
        assert(r@ =~= Set::<EffectV>::empty());
        r
    }

    /// The set of one effect; `Pure` gives the pure set.
    pub fn single(e: Effect) -> (r: Effects)
        ensures
            r.wf(),
            r@ == (if e@ is Pure {
                Set::<EffectV>::empty()
            } else {
                set![e@]
            }),
    {
        Effects::pure().with(e)
    }

    /// Whether this set is pure.
    pub fn is_pure(&self) -> (r: bool)
        requires
            self.wf(),
        ensures
            r == (self@ == Set::<EffectV>::empty()),
    {
        if self.0.len() == 0 {
            assert(self@ =~= Set::<EffectV>::empty());
            true
        } else {
            assert(self@.contains(self.0@[0]@));
            false
        }
    }

    /// Whether `e` is in this set.
    pub fn contains(&self, e: &Effect) -> (r: bool)
        ensures
            r == self@.contains(e@),
    {
        let mut i: usize = 0;
        while i < self.0.len()
            invariant
                i <= self.0@.len(),
                forall|j: int| 0 <= j < i ==> (#[trigger] self.0@[j])@ != e@,
            decreases self.0@.len() - i,
        {
            if self.0[i].same(e) {
                return true;
            }
            i = i + 1;
        }
        false
    }

    /// Whether every effect here is in `other`.
    pub fn is_subset(&self, other: &Effects) -> (r: bool)
        ensures
            r == self@.subset_of(other@),
    {
        let mut i: usize = 0;
        while i < self.0.len()
            invariant
                i <= self.0@.len(),
                forall|j: int| 0 <= j < i ==> other@.contains((#[trigger] self.0@[j])@),
            decreases self.0@.len() - i,
        {
            if !other.contains(&self.0[i]) {
                assert(self@.contains(self.0@[i as int]@));
                return false;
            }
            i = i + 1;
        }
        true
    }

    /// This set with `e` added; adding `Pure` changes nothing.
    pub fn with(self, e: Effect) -> (r: Effects)
        requires
            self.wf(),
        ensures
            r.wf(),
            r@ == (if e@ is Pure {
                self@
            } else {
                self@.insert(e@)
            }),
    {
        if matches!(e, Effect::Pure) || self.contains(&e) {
            assert(!(e@ is Pure) ==> self@.insert(e@) =~= self@);
            return self;
        }
        let mut v = self.0;
        let ghost old_v = v@;
        let ghost ev = e@;
        v.push(e);
        let r = Effects(v);
        assert(r@ =~= self@.insert(ev)) by {
            assert forall|x: EffectV| r@.contains(x) implies self@.insert(ev).contains(x) by {
                let i = choose|i: int| 0 <= i < r.0@.len() && (#[trigger] r.0@[i])@ == x;
                if i < old_v.len() {
                    assert(old_v[i] == r.0@[i]);
                }
            }
            assert forall|x: EffectV| self@.insert(ev).contains(x) implies r@.contains(x) by {
                if x == ev {
                    assert(r.0@[old_v.len() as int]@ == x);
                } else {
                    let i = choose|i: int| 0 <= i < old_v.len() && (#[trigger] old_v[i])@ == x;
                    assert(r.0@[i] == old_v[i]);
                }
            }
        }
        r
    }

    /// The union of two sets.
    pub fn union(&self, other: &Effects) -> (r: Effects)
        requires
            self.wf(),
            other.wf(),
        ensures
            r.wf(),
            r@ == self@.union(other@),
    {
        let mut acc = Effects::pure();
        let mut i: usize = 0;
        while i < self.0.len()
            invariant
                i <= self.0@.len(),
                acc.wf(),
                self.wf(),
                acc@ == Set::new(|x: EffectV| exists|j: int| 0 <= j < i && (#[trigger] self.0@[j])@ == x),
            decreases self.0@.len() - i,
        {
            let ghost before = acc@;
            acc = acc.with(self.0[i].dup());
            proof {
                assert(acc@ =~= Set::new(|x: EffectV| exists|j: int| 0 <= j < i + 1 && (#[trigger] self.0@[j])@ == x)) by {
                    assert forall|x: EffectV| acc@.contains(x) implies exists|j: int| 0 <= j < i + 1 && (#[trigger] self.0@[j])@ == x by {
                        if x == self.0@[i as int]@ {
                        } else {
                            assert(before.contains(x));
                        }
                    }
                }
            }
            i = i + 1;
        }
        assert(acc@ =~= self@);
        let mut k: usize = 0;
        while k < other.0.len()
            invariant
                k <= other.0@.len(),
                acc.wf(),
                other.wf(),
                acc@ == self@.union(Set::new(|x: EffectV| exists|j: int| 0 <= j < k && (#[trigger] other.0@[j])@ == x)),
            decreases other.0@.len() - k,
        {
            let ghost before = acc@;
            acc = acc.with(other.0[k].dup());
            proof {
                assert(acc@ =~= self@.union(Set::new(|x: EffectV| exists|j: int| 0 <= j < k + 1 && (#[trigger] other.0@[j])@ == x))) by {
                    assert forall|x: EffectV| acc@.contains(x) implies self@.union(Set::new(|x: EffectV| exists|j: int| 0 <= j < k + 1 && (#[trigger] other.0@[j])@ == x)).contains(x) by {
                        if x == other.0@[k as int]@ {
                        } else {
                            assert(before.contains(x));
                        }
                    }
                }
            }
            k = k + 1;
        }
        assert(acc@ =~= self@.union(other@));
        acc
    }
}

impl Default for Effects {
    /// The pure effect set.
    fn default() -> (r: Effects)
        ensures
            r.wf(),
            r@ == Set::<EffectV>::empty(),
    {
        Effects::pure()
    }
}

impl From<Effect> for Effects {
    /// The set of one effect; `Pure` gives the pure set.
    fn from(e: Effect) -> (r: Effects)
        ensures
            r.wf(),
            r@ == (if e@ is Pure {
                Set::<EffectV>::empty()
            } else {
                set![e@]
            }),
    {
        Effects::single(e)
    }
}

impl vstd::std_specs::convert::FromSpecImpl<Effect> for Effects {
    open spec fn obeys_from_spec() -> bool {
        false
    }

    open spec fn from_spec(v: Effect) -> Effects {
        arbitrary()
    }
}

} // verus!
