use crate::expr::{Expr, ExprV};
use std::collections::HashSet;
use vstd::prelude::*;

verus! {

broadcast use vstd::std_specs::vec::group_vec_axioms, vstd::seq::group_seq_axioms,
    vstd::std_specs::hash::group_hash_axioms;

/// Whether offset `o` is free in `e`, when `e` sits under `depth` binders of the
/// expression being analysed: some `Idx(n)` with `n >= d` at local depth `d`
/// gives offset `n - d`. Lambda bodies and let bodies add one binder; every other
/// form analysed (application, operators, conditional, tuple, array, field
/// projection, variant payload, ascription) is structural. Match arms are not
/// analysed.
pub open spec fn free_in(e: ExprV, depth: nat, o: nat) -> bool
    decreases e,
{
    match e {
        ExprV::Idx(n) => n >= depth && n - depth == o,
        ExprV::Lam(b) => free_in(*b, depth + 1, o),
        ExprV::App(f, a) => free_in(*f, depth, o) || free_in(*a, depth, o),
        ExprV::Let(_, v, b) => free_in(*v, depth, o) || free_in(*b, depth + 1, o),
        ExprV::BinOp(_, l, r) => free_in(*l, depth, o) || free_in(*r, depth, o),
        ExprV::UnaryOp(_, x) => free_in(*x, depth, o),
        ExprV::If(c, t, f) => free_in(*c, depth, o) || free_in(*t, depth, o) || free_in(
            *f,
            depth,
            o,
        ),
        ExprV::Tuple(es) => free_in_list(es, depth, o),
        ExprV::Array(es) => free_in_list(es, depth, o),
        ExprV::Field(x, _) => free_in(*x, depth, o),
        ExprV::Variant(_, p) => match p {
            Some(x) => free_in(*x, depth, o),
            None => false,
        },
        ExprV::Annot(x, _) => free_in(*x, depth, o),
        _ => false,
    }
}

/// Whether `o` is free in some element of `es`.
pub open spec fn free_in_list(es: Seq<ExprV>, depth: nat, o: nat) -> bool
    decreases es,
{
    if es.len() == 0 {
        false
    } else {
        free_in_list(es.subrange(0, es.len() - 1), depth, o) || free_in(es[es.len() - 1], depth, o)
    }
}

/// The set of free offsets of `e` at depth `depth`.
pub open spec fn free_set(e: ExprV, depth: nat) -> Set<u32> {
    Set::new(|o: u32| free_in(e, depth, o as nat))
}

/// Nothing is free below more binders than a `u32` index can reach.
proof fn lemma_nothing_free_deep(e: ExprV, depth: nat, o: nat)
    requires
        depth > u32::MAX,
    ensures
        !free_in(e, depth, o),
    decreases e,
{
    match e {
        ExprV::Lam(b) => lemma_nothing_free_deep(*b, depth + 1, o),
        ExprV::App(f, a) => {
            lemma_nothing_free_deep(*f, depth, o);
            lemma_nothing_free_deep(*a, depth, o);
        },
        ExprV::Let(_, v, b) => {
            lemma_nothing_free_deep(*v, depth, o);
            lemma_nothing_free_deep(*b, depth + 1, o);
        },
        ExprV::BinOp(_, l, r) => {
            lemma_nothing_free_deep(*l, depth, o);
            lemma_nothing_free_deep(*r, depth, o);
        },
        ExprV::UnaryOp(_, x) => lemma_nothing_free_deep(*x, depth, o),
        ExprV::If(c, t, f) => {
            lemma_nothing_free_deep(*c, depth, o);
            lemma_nothing_free_deep(*t, depth, o);
            lemma_nothing_free_deep(*f, depth, o);
        },
        ExprV::Tuple(es) => lemma_nothing_free_deep_list(es, depth, o),
        ExprV::Array(es) => lemma_nothing_free_deep_list(es, depth, o),
        ExprV::Field(x, _) => lemma_nothing_free_deep(*x, depth, o),
        ExprV::Variant(_, p) => match p {
            Some(x) => lemma_nothing_free_deep(*x, depth, o),
            None => {},
        },
        ExprV::Annot(x, _) => lemma_nothing_free_deep(*x, depth, o),
        _ => {},
    }
}

proof fn lemma_nothing_free_deep_list(es: Seq<ExprV>, depth: nat, o: nat)
    requires
        depth > u32::MAX,
    ensures
        !free_in_list(es, depth, o),
    decreases es,
{
    if es.len() > 0 {
        lemma_nothing_free_deep_list(es.subrange(0, es.len() - 1), depth, o);
        lemma_nothing_free_deep(es[es.len() - 1], depth, o);
    }
}

/// Free variables of `expr`: de Bruijn offsets relative to `expr`'s own top level.
pub fn free_variables(expr: &Expr) -> (r: HashSet<u32>)
    ensures
        r@ == free_set(expr@, 0),
{
    let mut free: HashSet<u32> = HashSet::new();
    free_vars_impl(expr, 0, &mut free);
    assert(free@ =~= free_set(expr@, 0));
    free
}

/// Adds to `free` the offsets free in `expr` at binder depth `depth`.
fn free_vars_impl(expr: &Expr, depth: u32, free: &mut HashSet<u32>)
    ensures
        forall|o: u32|
            #![trigger final(free)@.contains(o)]
            final(free)@.contains(o) <==> (old(free)@.contains(o) || free_in(
                expr@,
                depth as nat,
                o as nat,
            )),
    decreases expr,
{
    match expr {
        Expr::Idx(idx) => {
            if *idx >= depth {
                free.insert(*idx - depth);
            }
        },
        Expr::Lam(body) => {
            if depth < u32::MAX {
                free_vars_impl(body, depth + 1, free);
            } else {
                proof {
                    assert forall|o: u32| !free_in(expr@, depth as nat, o as nat) by {
                        lemma_nothing_free_deep(body@, depth as nat + 1, o as nat);
                    }
                }
            }
        },
        Expr::App(func, arg) => {
            free_vars_impl(func, depth, free);
            free_vars_impl(arg, depth, free);
        },
        Expr::Let { value, body, .. } => {
            free_vars_impl(value, depth, free);
            if depth < u32::MAX {
                free_vars_impl(body, depth + 1, free);
            } else {
                proof {
                    assert forall|o: u32| free_in(expr@, depth as nat, o as nat) ==> free_in(value@, depth as nat, o as nat) by {
                        lemma_nothing_free_deep(body@, depth as nat + 1, o as nat);
                    }
                }
            }
        },
        Expr::BinOp(_, left, right) => {
            free_vars_impl(left, depth, free);
            free_vars_impl(right, depth, free);
        },
        Expr::UnaryOp(_, operand) => {
            free_vars_impl(operand, depth, free);
        },
        Expr::If { cond, then_, else_ } => {
            free_vars_impl(cond, depth, free);
            free_vars_impl(then_, depth, free);
            free_vars_impl(else_, depth, free);
        },
        Expr::Tuple(exprs) => {
            proof {
                assert forall|j: int| 0 <= j < exprs@.len() implies decreases_to!(*expr => exprs@[j]) by {
                    assert(decreases_to!(*expr => expr->Tuple_0));
                    assert(decreases_to!(*exprs => exprs@));
                    assert(decreases_to!(exprs@ => exprs@[j]));
                }
            }
            free_vars_list(expr, exprs, depth, free);
        },
        Expr::Array(exprs) => {
            proof {
                assert forall|j: int| 0 <= j < exprs@.len() implies decreases_to!(*expr => exprs@[j]) by {
                    assert(decreases_to!(*expr => expr->Array_0));
                    assert(decreases_to!(*exprs => exprs@));
                    assert(decreases_to!(exprs@ => exprs@[j]));
                }
            }
            free_vars_list(expr, exprs, depth, free);
        },
        Expr::Field(x, _) => {
            free_vars_impl(x, depth, free);
        },
        Expr::Variant(_, p) => {
            if let Some(x) = p {
                free_vars_impl(x, depth, free);
            }
        },
        Expr::Annot(x, _) => {
            free_vars_impl(x, depth, free);
        },
        _ => {},
    }
}

/// Adds to `free` the offsets free in the elements of `exprs`, the children of `parent`.
fn free_vars_list(parent: &Expr, exprs: &Vec<Expr>, depth: u32, free: &mut HashSet<u32>)
    requires
        forall|j: int| 0 <= j < exprs@.len() ==> decreases_to!(*parent => exprs@[j]),
    ensures
        forall|o: u32|
            #![trigger final(free)@.contains(o)]
            final(free)@.contains(o) <==> (old(free)@.contains(o) || free_in_list(
                crate::expr::exprs_view(exprs@),
                depth as nat,
                o as nat,
            )),
    decreases parent, 0nat,
{
    let ghost s = crate::expr::exprs_view(exprs@);
    let ghost start = free@;
    let mut i: usize = 0;
    while i < exprs.len()
        invariant
            i <= exprs@.len(),
            s == crate::expr::exprs_view(exprs@),
            forall|j: int| 0 <= j < exprs@.len() ==> decreases_to!(*parent => exprs@[j]),
            forall|o: u32|
                #![trigger free@.contains(o)]
                free@.contains(o) <==> (start.contains(o) || free_in_list(
                    s.subrange(0, i as int),
                    depth as nat,
                    o as nat,
                )),
        decreases exprs@.len() - i,
    {
        free_vars_impl(&exprs[i], depth, free);
        proof {
            let t = s.subrange(0, i + 1);
            assert(t.subrange(0, t.len() - 1) =~= s.subrange(0, i as int));
            assert(t[t.len() - 1] == exprs@[i as int]@);
        }
        i = i + 1;
    }
    proof {
        assert(s.subrange(0, s.len() as int) =~= s);
    }
}

} // verus!
