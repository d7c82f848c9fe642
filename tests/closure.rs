use goth::closure::free_variables;
use goth::expr::Expr;

#[test]
fn test_free_vars_closed() {
    let expr = Expr::Lam(Box::new(Expr::Idx(0)));
    let free = free_variables(&expr);
    assert!(free.is_empty());
}

#[test]
fn test_free_vars_open() {
    let expr = Expr::Lam(Box::new(Expr::Idx(1)));
    let free = free_variables(&expr);
    assert_eq!(free.len(), 1);
    assert!(free.contains(&0));
}

#[test]
fn test_free_vars_nested() {
    let expr = Expr::Lam(Box::new(Expr::Lam(Box::new(Expr::Idx(2)))));
    let free = free_variables(&expr);
    assert_eq!(free.len(), 1);
    assert!(free.contains(&0));
}
