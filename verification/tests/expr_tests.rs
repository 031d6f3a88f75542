//! Symbolic expression evaluation, substitution and simplification.

use luminal::expr::Expr;

fn num(n: usize) -> Expr {
    Expr::Num(n)
}

fn sym(c: char) -> Expr {
    Expr::Sym(c)
}

fn add(a: Expr, b: Expr) -> Expr {
    Expr::Add(Box::new(a), Box::new(b))
}

fn mul(a: Expr, b: Expr) -> Expr {
    Expr::Mul(Box::new(a), Box::new(b))
}

#[test]
fn eval_constants() {
    let env: Vec<(char, usize)> = Vec::new();
    assert_eq!(num(7).eval(&env), Some(7));
    assert_eq!(add(num(3), num(4)).eval(&env), Some(7));
    assert_eq!(mul(num(3), num(4)).eval(&env), Some(12));
    assert_eq!(Expr::Sub(Box::new(num(3)), Box::new(num(4))).eval(&env), None);
    assert_eq!(Expr::Div(Box::new(num(9)), Box::new(num(0))).eval(&env), None);
    assert_eq!(Expr::Div(Box::new(num(9)), Box::new(num(2))).eval(&env), Some(4));
    assert_eq!(Expr::Mod(Box::new(num(9)), Box::new(num(2))).eval(&env), Some(1));
    assert_eq!(Expr::Max(Box::new(num(9)), Box::new(num(2))).eval(&env), Some(9));
    assert_eq!(Expr::Min(Box::new(num(9)), Box::new(num(2))).eval(&env), Some(2));
}

#[test]
fn eval_symbols() {
    let env = vec![('S', 8usize), ('P', 5usize)];
    assert_eq!(sym('S').eval(&env), Some(8));
    assert_eq!(add(sym('S'), sym('P')).eval(&env), Some(13));
    assert_eq!(sym('Q').eval(&env), None);
    // a later binding is shadowed by an earlier one
    let env2 = vec![('S', 3usize), ('S', 8usize)];
    assert_eq!(sym('S').eval(&env2), Some(3));
}

#[test]
fn eval_overflow_is_checked() {
    let env: Vec<(char, usize)> = Vec::new();
    let big = num(usize::MAX);
    assert_eq!(add(big.clone(), num(1)).eval(&env), None);
    assert_eq!(mul(big, num(2)).eval(&env), None);
}

#[test]
fn subst_binds_symbol() {
    let env: Vec<(char, usize)> = Vec::new();
    let e = add(sym('S'), num(2));
    let bound = e.subst('S', 6);
    assert_eq!(bound.eval(&env), Some(8));
}

#[test]
fn simplify_folds_constants() {
    let env = vec![('S', 9usize)];
    let e = add(mul(num(2), num(3)), num(4));
    assert_eq!(e.simplify().eval(&env), Some(10));
    let e2 = mul(sym('S'), num(1));
    let s2 = e2.simplify();
    assert_eq!(s2.eval(&env), Some(9));
    assert!(matches!(s2, Expr::Sym('S')));
    let e3 = add(sym('S'), num(0));
    assert!(matches!(e3.simplify(), Expr::Sym('S')));
}

#[test]
fn to_usize_needs_no_symbols() {
    assert_eq!(num(11).to_usize(), Some(11));
    assert_eq!(sym('S').to_usize(), None);
}
