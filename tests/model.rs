use goth::effect::{Effect, Effects};
use goth::pattern::Pattern;
use goth::shape::{Dim, Shape};
use goth::literal::Literal;
use goth::types::{PrimType, Type};

#[test]
fn pure_effects() {
    assert!(Effects::pure().is_pure());
    assert!(Effects::single(Effect::Pure).is_pure());
    assert!(!Effects::single(Effect::Io).is_pure());
}

#[test]
fn effect_membership_and_union() {
    let io = Effects::single(Effect::Io);
    let both = io.union(&Effects::single(Effect::Exn("E".to_string())));
    assert!(both.contains(&Effect::Io));
    assert!(both.contains(&Effect::Exn("E".to_string())));
    assert!(!both.contains(&Effect::Exn("F".to_string())));
    assert!(io.is_subset(&both));
    assert!(!both.is_subset(&io));
    let again = both.union(&io);
    assert!(again.is_subset(&both) && both.is_subset(&again));
}

#[test]
fn effect_with_ignores_pure() {
    let e = Effects::pure().with(Effect::Pure);
    assert!(e.is_pure());
    let m = Effects::pure().with(Effect::Mut).with(Effect::Mut);
    assert!(m.contains(&Effect::Mut));
    assert!(!m.contains(&Effect::Rand));
}

#[test]
fn shapes() {
    assert_eq!(Shape::scalar().rank(), 0);
    assert_eq!(Shape::matrix(Dim::constant(2), Dim::constant(3)).rank(), 2);
    assert_eq!(Shape::concrete(&[2, 3, 4]).elem_count(), Some(24));
    assert_eq!(Shape::scalar().elem_count(), Some(1));
    assert_eq!(Shape::symbolic(&["n", "m"]).elem_count(), None);
    assert!(!Shape::symbolic(&["n"]).is_concrete());
    assert!(Shape::vector(Dim::constant(5)).is_concrete());
    assert!(Dim::constant(1).is_concrete());
    assert!(!Dim::var("k").is_concrete());
}

#[test]
fn shape_count_overflow_and_zero() {
    assert_eq!(Shape::concrete(&[u64::MAX, 2]).elem_count(), None);
    assert_eq!(Shape::concrete(&[u64::MAX, 2, 0]).elem_count(), Some(0));
}

#[test]
fn binding_counts() {
    let p = Pattern::tuple(vec![Pattern::var("a"), Pattern::wildcard(), Pattern::anon()]);
    assert_eq!(p.binding_count(), 2);
    let v = Pattern::variant("Some", Some(Pattern::var("x")));
    assert_eq!(v.binding_count(), 1);
    assert_eq!(Pattern::lit(Literal::Int(3)).binding_count(), 0);
    let split = Pattern::ArraySplit { head: vec![Pattern::var("h")], tail: Box::new(Pattern::var("t")) };
    assert_eq!(split.binding_count(), 2);
    let or = Pattern::Or(Box::new(Pattern::var("a")), Box::new(Pattern::wildcard()));
    assert_eq!(or.binding_count(), 1);
    let typed = Pattern::var("a").typed(Type::Prim(PrimType::I64));
    assert_eq!(typed.binding_count(), 1);
}

#[test]
fn irrefutable_patterns() {
    assert!(Pattern::wildcard().is_irrefutable());
    assert!(Pattern::tuple(vec![Pattern::var("a"), Pattern::wildcard()]).is_irrefutable());
    assert!(!Pattern::tuple(vec![Pattern::var("a"), Pattern::lit(Literal::Int(1))]).is_irrefutable());
    assert!(!Pattern::array(vec![]).is_irrefutable());
    assert!(!Pattern::variant("None", None).is_irrefutable());
}

#[test]
fn or_patterns_must_bind_alike() {
    let good = Pattern::Or(Box::new(Pattern::var("a")), Box::new(Pattern::var("b")));
    assert!(good.is_well_formed());
    let bad = Pattern::Or(Box::new(Pattern::var("a")), Box::new(Pattern::wildcard()));
    assert!(!bad.is_well_formed());
    let nested = Pattern::tuple(vec![Pattern::wildcard(), bad]);
    assert!(!nested.is_well_formed());
    assert!(Pattern::tuple(vec![Pattern::var("x"), good]).is_well_formed());
}

#[test]
fn default_effects_are_pure() {
    let e: Effects = Default::default();
    assert!(e.is_pure());
}

#[test]
fn effects_from_one_effect() {
    let e = Effects::from(Effect::Rand);
    assert!(e.contains(&Effect::Rand));
    assert!(!e.contains(&Effect::Io));
    assert!(Effects::from(Effect::Pure).is_pure());
}
