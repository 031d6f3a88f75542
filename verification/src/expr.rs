//! Symbolic integer expressions over named dimensions.
//!
//! A dimension of a tensor shape is either a compile-time constant, a
//! named symbol (`'A'..'Z'`), or an arithmetic expression over those.
//! Symbols are resolved at execution time against a table mapping each
//! symbol to a concrete value.  Evaluation is checked: an unbound
//! symbol, a division or remainder by zero, a subtraction below zero,
//! or an intermediate result above `usize::MAX` yields `None`.

use vstd::prelude::*;

verus! {

/// A symbolic integer expression: a tree of arithmetic operations over
/// constants and named dimension symbols.
#[derive(Debug)]
pub enum Expr {
    /// A constant.
    Num(usize),
    /// A named dimension symbol, resolved through a symbol table.
    Sym(char),
    /// Sum of two expressions.
    Add(Box<Expr>, Box<Expr>),
    /// Difference of two expressions; evaluation fails below zero.
    Sub(Box<Expr>, Box<Expr>),
    /// Product of two expressions.
    Mul(Box<Expr>, Box<Expr>),
    /// Quotient; evaluation fails on a zero divisor.
    Div(Box<Expr>, Box<Expr>),
    /// Remainder; evaluation fails on a zero divisor.
    Mod(Box<Expr>, Box<Expr>),
    /// Larger of two expressions.
    Max(Box<Expr>, Box<Expr>),
    /// Smaller of two expressions.
    Min(Box<Expr>, Box<Expr>),
}

impl Clone for Expr {
    /// A clone is equal to the original.
    fn clone(&self) -> (r: Expr)
        ensures
            r == *self,
        decreases *self,
    {
        match self {
            Expr::Num(n) => Expr::Num(*n),
            Expr::Sym(c) => Expr::Sym(*c),
            Expr::Add(a, b) => Expr::Add(Box::new((**a).clone()), Box::new((**b).clone())),
            Expr::Sub(a, b) => Expr::Sub(Box::new((**a).clone()), Box::new((**b).clone())),
            Expr::Mul(a, b) => Expr::Mul(Box::new((**a).clone()), Box::new((**b).clone())),
            Expr::Div(a, b) => Expr::Div(Box::new((**a).clone()), Box::new((**b).clone())),
            Expr::Mod(a, b) => Expr::Mod(Box::new((**a).clone()), Box::new((**b).clone())),
            Expr::Max(a, b) => Expr::Max(Box::new((**a).clone()), Box::new((**b).clone())),
            Expr::Min(a, b) => Expr::Min(Box::new((**a).clone()), Box::new((**b).clone())),
        }
    }
}

/// First binding of symbol `c` in the table, if any.
pub open spec fn lookup_sym(env: Seq<(char, usize)>, c: char) -> Option<usize>
    decreases env.len(),
{
    if env.len() == 0 {
        None
    } else if env[0].0 == c {
        Some(env[0].1)
    } else {
        lookup_sym(env.skip(1), c)
    }
}

/// Checked evaluation of an expression under a symbol table.
pub open spec fn eval_spec(e: Expr, env: Seq<(char, usize)>) -> Option<usize>
    decreases e,
{
    match e {
        Expr::Num(n) => Some(n),
        Expr::Sym(c) => lookup_sym(env, c),
        Expr::Add(a, b) => match (eval_spec(*a, env), eval_spec(*b, env)) {
            (Some(x), Some(y)) => if x + y <= usize::MAX {
                Some((x + y) as usize)
            } else {
                None
            },
            _ => None,
        },
        Expr::Sub(a, b) => match (eval_spec(*a, env), eval_spec(*b, env)) {
            (Some(x), Some(y)) => if x >= y {
                Some((x - y) as usize)
            } else {
                None
            },
            _ => None,
        },
        Expr::Mul(a, b) => match (eval_spec(*a, env), eval_spec(*b, env)) {
            (Some(x), Some(y)) => if x * y <= usize::MAX {
                Some((x * y) as usize)
            } else {
                None
            },
            _ => None,
        },
        Expr::Div(a, b) => match (eval_spec(*a, env), eval_spec(*b, env)) {
            (Some(x), Some(y)) => if y != 0 {
                Some((x as int / y as int) as usize)
            } else {
                None
            },
            _ => None,
        },
        Expr::Mod(a, b) => match (eval_spec(*a, env), eval_spec(*b, env)) {
            (Some(x), Some(y)) => if y != 0 {
                Some((x as int % y as int) as usize)
            } else {
                None
            },
            _ => None,
        },
        Expr::Max(a, b) => match (eval_spec(*a, env), eval_spec(*b, env)) {
            (Some(x), Some(y)) => if x >= y {
                Some(x)
            } else {
                Some(y)
            },
            _ => None,
        },
        Expr::Min(a, b) => match (eval_spec(*a, env), eval_spec(*b, env)) {
            (Some(x), Some(y)) => if x <= y {
                Some(x)
            } else {
                Some(y)
            },
            _ => None,
        },
    }
}

/// First binding of symbol `c` in the table, if any.
pub fn lookup_env(env: &Vec<(char, usize)>, c: char) -> (r: Option<usize>)
    ensures
        r == lookup_sym(env@, c),
{
    let mut i: usize = 0;
    assert(env@.skip(0) =~= env@);
    while i < env.len()
        invariant
            i <= env.len(),
            lookup_sym(env@, c) == lookup_sym(env@.skip(i as int), c),
        decreases env.len() - i,
    {
        if env[i].0 == c {
            assert(env@.skip(i as int)[0] == env@[i as int]);
            return Some(env[i].1);
        }
        assert(env@.skip(i as int).skip(1) =~= env@.skip(i + 1));
        i = i + 1;
    }
    assert(env@.skip(i as int).len() == 0);
    None
}

impl Expr {
    /// Checked evaluation under a symbol table: `None` on an unbound
    /// symbol, overflow, underflow, or a zero divisor.
    pub fn eval(&self, env: &Vec<(char, usize)>) -> (r: Option<usize>)
        ensures
            r == eval_spec(*self, env@),
        decreases *self,
    {
        match self {
            Expr::Num(n) => Some(*n),
            Expr::Sym(c) => lookup_env(env, *c),
            Expr::Add(a, b) => match (a.eval(env), b.eval(env)) {
                (Some(x), Some(y)) => x.checked_add(y),
                _ => None,
            },
            Expr::Sub(a, b) => match (a.eval(env), b.eval(env)) {
                (Some(x), Some(y)) => x.checked_sub(y),
                _ => None,
            },
            Expr::Mul(a, b) => match (a.eval(env), b.eval(env)) {
                (Some(x), Some(y)) => x.checked_mul(y),
                _ => None,
            },
            Expr::Div(a, b) => match (a.eval(env), b.eval(env)) {
                (Some(x), Some(y)) => x.checked_div(y),
                _ => None,
            },
            Expr::Mod(a, b) => match (a.eval(env), b.eval(env)) {
                (Some(x), Some(y)) => if y != 0 {
                    Some(x % y)
                } else {
                    None
                },
                _ => None,
            },
            Expr::Max(a, b) => match (a.eval(env), b.eval(env)) {
                (Some(x), Some(y)) => if x >= y {
                    Some(x)
                } else {
                    Some(y)
                },
                _ => None,
            },
            Expr::Min(a, b) => match (a.eval(env), b.eval(env)) {
                (Some(x), Some(y)) => if x <= y {
                    Some(x)
                } else {
                    Some(y)
                },
                _ => None,
            },
        }
    }

    /// Structural equality of two expressions.
    pub fn eq_expr(&self, other: &Expr) -> (r: bool)
        ensures
            r == (*self == *other),
        decreases *self,
    {
        match self {
            Expr::Num(a) => match other {
                Expr::Num(b) => a == b,
                _ => false,
            },
            Expr::Sym(a) => match other {
                Expr::Sym(b) => a == b,
                _ => false,
            },
            Expr::Add(a1, b1) => match other {
                Expr::Add(a2, b2) => a1.eq_expr(a2) && b1.eq_expr(b2),
                _ => false,
            },
            Expr::Sub(a1, b1) => match other {
                Expr::Sub(a2, b2) => a1.eq_expr(a2) && b1.eq_expr(b2),
                _ => false,
            },
            Expr::Mul(a1, b1) => match other {
                Expr::Mul(a2, b2) => a1.eq_expr(a2) && b1.eq_expr(b2),
                _ => false,
            },
            Expr::Div(a1, b1) => match other {
                Expr::Div(a2, b2) => a1.eq_expr(a2) && b1.eq_expr(b2),
                _ => false,
            },
            Expr::Mod(a1, b1) => match other {
                Expr::Mod(a2, b2) => a1.eq_expr(a2) && b1.eq_expr(b2),
                _ => false,
            },
            Expr::Max(a1, b1) => match other {
                Expr::Max(a2, b2) => a1.eq_expr(a2) && b1.eq_expr(b2),
                _ => false,
            },
            Expr::Min(a1, b1) => match other {
                Expr::Min(a2, b2) => a1.eq_expr(a2) && b1.eq_expr(b2),
                _ => false,
            },
        }
    }

    /// Conversion to a concrete value; succeeds only when the
    /// expression holds no symbols and no operation fails.
    pub fn to_usize(&self) -> (r: Option<usize>)
        ensures
            r == eval_spec(*self, Seq::<(char, usize)>::empty()),
    {
        let empty: Vec<(char, usize)> = Vec::new();
        self.eval(&empty)
    }

}

/// The expression with the constant `v` substituted for every
/// occurrence of the symbol `c`.
pub open spec fn subst_spec(e: Expr, c: char, v: usize) -> Expr
    decreases e,
{
    match e {
        Expr::Num(n) => Expr::Num(n),
        Expr::Sym(s) => if s == c {
            Expr::Num(v)
        } else {
            Expr::Sym(s)
        },
        Expr::Add(a, b) => Expr::Add(Box::new(subst_spec(*a, c, v)), Box::new(subst_spec(*b, c, v))),
        Expr::Sub(a, b) => Expr::Sub(Box::new(subst_spec(*a, c, v)), Box::new(subst_spec(*b, c, v))),
        Expr::Mul(a, b) => Expr::Mul(Box::new(subst_spec(*a, c, v)), Box::new(subst_spec(*b, c, v))),
        Expr::Div(a, b) => Expr::Div(Box::new(subst_spec(*a, c, v)), Box::new(subst_spec(*b, c, v))),
        Expr::Mod(a, b) => Expr::Mod(Box::new(subst_spec(*a, c, v)), Box::new(subst_spec(*b, c, v))),
        Expr::Max(a, b) => Expr::Max(Box::new(subst_spec(*a, c, v)), Box::new(subst_spec(*b, c, v))),
        Expr::Min(a, b) => Expr::Min(Box::new(subst_spec(*a, c, v)), Box::new(subst_spec(*b, c, v))),
    }
}

/// Substitution is sound: evaluating the substituted expression under
/// any table equals evaluating the original with the binding `(c, v)`
/// shadowing that table.
pub proof fn lemma_subst_eval(e: Expr, c: char, v: usize, env: Seq<(char, usize)>)
    ensures
        eval_spec(subst_spec(e, c, v), env) == eval_spec(e, seq![(c, v)] + env),
    decreases e,
{
    match e {
        Expr::Num(_) => {
        },
        Expr::Sym(s) => {
            assert((seq![(c, v)] + env)[0] == (c, v));
            if s != c {
                assert((seq![(c, v)] + env).skip(1) =~= env);
            }
        },
        Expr::Add(a, b) => {
            lemma_subst_eval(*a, c, v, env);
            lemma_subst_eval(*b, c, v, env);
        },
        Expr::Sub(a, b) => {
            lemma_subst_eval(*a, c, v, env);
            lemma_subst_eval(*b, c, v, env);
        },
        Expr::Mul(a, b) => {
            lemma_subst_eval(*a, c, v, env);
            lemma_subst_eval(*b, c, v, env);
        },
        Expr::Div(a, b) => {
            lemma_subst_eval(*a, c, v, env);
            lemma_subst_eval(*b, c, v, env);
        },
        Expr::Mod(a, b) => {
            lemma_subst_eval(*a, c, v, env);
            lemma_subst_eval(*b, c, v, env);
        },
        Expr::Max(a, b) => {
            lemma_subst_eval(*a, c, v, env);
            lemma_subst_eval(*b, c, v, env);
        },
        Expr::Min(a, b) => {
            lemma_subst_eval(*a, c, v, env);
            lemma_subst_eval(*b, c, v, env);
        },
    }
}

/// One canonicalisation step at the root of a `Add` node whose
/// children are already canonical.
pub open spec fn fold_add(a: Expr, b: Expr) -> Expr {
    match (a, b) {
        (Expr::Num(x), Expr::Num(y)) => if x + y <= usize::MAX {
            Expr::Num((x + y) as usize)
        } else {
            Expr::Add(Box::new(Expr::Num(x)), Box::new(Expr::Num(y)))
        },
        (Expr::Num(0), b2) => b2,
        (a2, Expr::Num(0)) => a2,
        (a2, b2) => Expr::Add(Box::new(a2), Box::new(b2)),
    }
}

/// The fold step preserves checked evaluation.
pub proof fn lemma_fold_add(a: Expr, b: Expr, env: Seq<(char, usize)>)
    ensures
        eval_spec(fold_add(a, b), env) == eval_spec(
            Expr::Add(Box::new(a), Box::new(b)),
            env,
        ),
{
    reveal_with_fuel(eval_spec, 3);
    match (a, b) {
        (Expr::Num(x), Expr::Num(y)) => {
        },
        (Expr::Num(0), b2) => {
        },
        (a2, Expr::Num(0)) => {
        },
        (a2, b2) => {
        },
    }
}

/// One canonicalisation step at the root of a `Add` node.
fn fold_add_node(a: Expr, b: Expr) -> (r: Expr)
    ensures
        r == fold_add(a, b),
{
    match (a, b) {
        (Expr::Num(x), Expr::Num(y)) => match x.checked_add(y) {
            Some(z) => Expr::Num(z),
            None => Expr::Add(Box::new(Expr::Num(x)), Box::new(Expr::Num(y))),
        },
        (Expr::Num(0), b2) => b2,
        (a2, Expr::Num(0)) => a2,
        (a2, b2) => Expr::Add(Box::new(a2), Box::new(b2)),
    }
}

/// One canonicalisation step at the root of a `Sub` node whose
/// children are already canonical.
pub open spec fn fold_sub(a: Expr, b: Expr) -> Expr {
    match (a, b) {
        (Expr::Num(x), Expr::Num(y)) => if x >= y {
            Expr::Num((x - y) as usize)
        } else {
            Expr::Sub(Box::new(Expr::Num(x)), Box::new(Expr::Num(y)))
        },
        (a2, Expr::Num(0)) => a2,
        (a2, b2) => Expr::Sub(Box::new(a2), Box::new(b2)),
    }
}

/// The fold step preserves checked evaluation.
pub proof fn lemma_fold_sub(a: Expr, b: Expr, env: Seq<(char, usize)>)
    ensures
        eval_spec(fold_sub(a, b), env) == eval_spec(
            Expr::Sub(Box::new(a), Box::new(b)),
            env,
        ),
{
    reveal_with_fuel(eval_spec, 3);
    match (a, b) {
        (Expr::Num(x), Expr::Num(y)) => {
        },
        (a2, Expr::Num(0)) => {
        },
        (a2, b2) => {
        },
    }
}

/// One canonicalisation step at the root of a `Sub` node.
fn fold_sub_node(a: Expr, b: Expr) -> (r: Expr)
    ensures
        r == fold_sub(a, b),
{
    match (a, b) {
        (Expr::Num(x), Expr::Num(y)) => match x.checked_sub(y) {
            Some(z) => Expr::Num(z),
            None => Expr::Sub(Box::new(Expr::Num(x)), Box::new(Expr::Num(y))),
        },
        (a2, Expr::Num(0)) => a2,
        (a2, b2) => Expr::Sub(Box::new(a2), Box::new(b2)),
    }
}

/// One canonicalisation step at the root of a `Mul` node whose
/// children are already canonical.
pub open spec fn fold_mul(a: Expr, b: Expr) -> Expr {
    match (a, b) {
        (Expr::Num(x), Expr::Num(y)) => if x * y <= usize::MAX {
            Expr::Num((x * y) as usize)
        } else {
            Expr::Mul(Box::new(Expr::Num(x)), Box::new(Expr::Num(y)))
        },
        (Expr::Num(1), b2) => b2,
        (a2, Expr::Num(1)) => a2,
        (a2, b2) => Expr::Mul(Box::new(a2), Box::new(b2)),
    }
}

/// The fold step preserves checked evaluation.
pub proof fn lemma_fold_mul(a: Expr, b: Expr, env: Seq<(char, usize)>)
    ensures
        eval_spec(fold_mul(a, b), env) == eval_spec(
            Expr::Mul(Box::new(a), Box::new(b)),
            env,
        ),
{
    reveal_with_fuel(eval_spec, 3);
    match (a, b) {
        (Expr::Num(x), Expr::Num(y)) => {
        },
        (Expr::Num(1), b2) => {
        },
        (a2, Expr::Num(1)) => {
        },
        (a2, b2) => {
        },
    }
}

/// One canonicalisation step at the root of a `Mul` node.
fn fold_mul_node(a: Expr, b: Expr) -> (r: Expr)
    ensures
        r == fold_mul(a, b),
{
    match (a, b) {
        (Expr::Num(x), Expr::Num(y)) => match x.checked_mul(y) {
            Some(z) => Expr::Num(z),
            None => Expr::Mul(Box::new(Expr::Num(x)), Box::new(Expr::Num(y))),
        },
        (Expr::Num(1), b2) => b2,
        (a2, Expr::Num(1)) => a2,
        (a2, b2) => Expr::Mul(Box::new(a2), Box::new(b2)),
    }
}

/// One canonicalisation step at the root of a `Div` node whose
/// children are already canonical.
pub open spec fn fold_div(a: Expr, b: Expr) -> Expr {
    match (a, b) {
        (Expr::Num(x), Expr::Num(y)) => if y != 0 {
            Expr::Num((x as int / y as int) as usize)
        } else {
            Expr::Div(Box::new(Expr::Num(x)), Box::new(Expr::Num(y)))
        },
        (a2, Expr::Num(1)) => a2,
        (a2, b2) => Expr::Div(Box::new(a2), Box::new(b2)),
    }
}

/// The fold step preserves checked evaluation.
pub proof fn lemma_fold_div(a: Expr, b: Expr, env: Seq<(char, usize)>)
    ensures
        eval_spec(fold_div(a, b), env) == eval_spec(
            Expr::Div(Box::new(a), Box::new(b)),
            env,
        ),
{
    reveal_with_fuel(eval_spec, 3);
    match (a, b) {
        (Expr::Num(x), Expr::Num(y)) => {
        },
        (a2, Expr::Num(1)) => {
        },
        (a2, b2) => {
        },
    }
}

/// One canonicalisation step at the root of a `Div` node.
fn fold_div_node(a: Expr, b: Expr) -> (r: Expr)
    ensures
        r == fold_div(a, b),
{
    match (a, b) {
        (Expr::Num(x), Expr::Num(y)) => {
            if y != 0 {
                Expr::Num(x / y)
            } else {
                Expr::Div(Box::new(Expr::Num(x)), Box::new(Expr::Num(y)))
            }
        },
        (a2, Expr::Num(1)) => a2,
        (a2, b2) => Expr::Div(Box::new(a2), Box::new(b2)),
    }
}

/// One canonicalisation step at the root of a `Mod` node whose
/// children are already canonical.
pub open spec fn fold_md(a: Expr, b: Expr) -> Expr {
    match (a, b) {
        (Expr::Num(x), Expr::Num(y)) => if y != 0 {
            Expr::Num((x as int % y as int) as usize)
        } else {
            Expr::Mod(Box::new(Expr::Num(x)), Box::new(Expr::Num(y)))
        },
        
        (a2, b2) => Expr::Mod(Box::new(a2), Box::new(b2)),
    }
}

/// The fold step preserves checked evaluation.
pub proof fn lemma_fold_md(a: Expr, b: Expr, env: Seq<(char, usize)>)
    ensures
        eval_spec(fold_md(a, b), env) == eval_spec(
            Expr::Mod(Box::new(a), Box::new(b)),
            env,
        ),
{
    reveal_with_fuel(eval_spec, 3);
    match (a, b) {
        (Expr::Num(x), Expr::Num(y)) => {
        },
        (a2, b2) => {
        },
    }
}

/// One canonicalisation step at the root of a `Mod` node.
fn fold_md_node(a: Expr, b: Expr) -> (r: Expr)
    ensures
        r == fold_md(a, b),
{
    match (a, b) {
        (Expr::Num(x), Expr::Num(y)) => {
            if y != 0 {
                Expr::Num(x % y)
            } else {
                Expr::Mod(Box::new(Expr::Num(x)), Box::new(Expr::Num(y)))
            }
        },
        
        (a2, b2) => Expr::Mod(Box::new(a2), Box::new(b2)),
    }
}

/// One canonicalisation step at the root of a `Max` node whose
/// children are already canonical.
pub open spec fn fold_max(a: Expr, b: Expr) -> Expr {
    match (a, b) {
        (Expr::Num(x), Expr::Num(y)) => if x >= y {
            Expr::Num(x)
        } else {
            Expr::Num(y)
        },
        
        (a2, b2) => Expr::Max(Box::new(a2), Box::new(b2)),
    }
}

/// The fold step preserves checked evaluation.
pub proof fn lemma_fold_max(a: Expr, b: Expr, env: Seq<(char, usize)>)
    ensures
        eval_spec(fold_max(a, b), env) == eval_spec(
            Expr::Max(Box::new(a), Box::new(b)),
            env,
        ),
{
    reveal_with_fuel(eval_spec, 3);
    match (a, b) {
        (Expr::Num(x), Expr::Num(y)) => {
        },
        (a2, b2) => {
        },
    }
}

/// One canonicalisation step at the root of a `Max` node.
fn fold_max_node(a: Expr, b: Expr) -> (r: Expr)
    ensures
        r == fold_max(a, b),
{
    match (a, b) {
        (Expr::Num(x), Expr::Num(y)) => {
            if x >= y {
                Expr::Num(x)
            } else {
                Expr::Num(y)
            }
        },
        (a2, b2) => Expr::Max(Box::new(a2), Box::new(b2)),
    }
}

/// One canonicalisation step at the root of a `Min` node whose
/// children are already canonical.
pub open spec fn fold_min(a: Expr, b: Expr) -> Expr {
    match (a, b) {
        (Expr::Num(x), Expr::Num(y)) => if x <= y {
            Expr::Num(x)
        } else {
            Expr::Num(y)
        },
        
        (a2, b2) => Expr::Min(Box::new(a2), Box::new(b2)),
    }
}

/// The fold step preserves checked evaluation.
pub proof fn lemma_fold_min(a: Expr, b: Expr, env: Seq<(char, usize)>)
    ensures
        eval_spec(fold_min(a, b), env) == eval_spec(
            Expr::Min(Box::new(a), Box::new(b)),
            env,
        ),
{
    reveal_with_fuel(eval_spec, 3);
    match (a, b) {
        (Expr::Num(x), Expr::Num(y)) => {
        },
        (a2, b2) => {
        },
    }
}

/// One canonicalisation step at the root of a `Min` node.
fn fold_min_node(a: Expr, b: Expr) -> (r: Expr)
    ensures
        r == fold_min(a, b),
{
    match (a, b) {
        (Expr::Num(x), Expr::Num(y)) => {
            if x <= y {
                Expr::Num(x)
            } else {
                Expr::Num(y)
            }
        },
        (a2, b2) => Expr::Min(Box::new(a2), Box::new(b2)),
    }
}

/// Canonicalised form of an expression: constant subtrees folded where
/// the fold cannot fail, unit elements of addition, subtraction,
/// multiplication and division dropped.
pub open spec fn simplify_spec(e: Expr) -> Expr
    decreases e,
{
    match e {
        Expr::Num(n) => Expr::Num(n),
        Expr::Sym(s) => Expr::Sym(s),
        Expr::Add(a0, b0) => fold_add(simplify_spec(*a0), simplify_spec(*b0)),
        Expr::Sub(a0, b0) => fold_sub(simplify_spec(*a0), simplify_spec(*b0)),
        Expr::Mul(a0, b0) => fold_mul(simplify_spec(*a0), simplify_spec(*b0)),
        Expr::Div(a0, b0) => fold_div(simplify_spec(*a0), simplify_spec(*b0)),
        Expr::Mod(a0, b0) => fold_md(simplify_spec(*a0), simplify_spec(*b0)),
        Expr::Max(a0, b0) => fold_max(simplify_spec(*a0), simplify_spec(*b0)),
        Expr::Min(a0, b0) => fold_min(simplify_spec(*a0), simplify_spec(*b0)),
    }
}

/// Simplification is sound: the canonicalised expression evaluates as
/// the original under every symbol table.
pub proof fn lemma_simplify_eval(e: Expr, env: Seq<(char, usize)>)
    ensures
        eval_spec(simplify_spec(e), env) == eval_spec(e, env),
    decreases e,
{
    match e {
        Expr::Num(_) => {
        },
        Expr::Sym(_) => {
        },
        Expr::Add(a, b) => {
            lemma_simplify_eval(*a, env);
            lemma_simplify_eval(*b, env);
            lemma_fold_add(simplify_spec(*a), simplify_spec(*b), env);
        },
        Expr::Sub(a, b) => {
            lemma_simplify_eval(*a, env);
            lemma_simplify_eval(*b, env);
            lemma_fold_sub(simplify_spec(*a), simplify_spec(*b), env);
        },
        Expr::Mul(a, b) => {
            lemma_simplify_eval(*a, env);
            lemma_simplify_eval(*b, env);
            lemma_fold_mul(simplify_spec(*a), simplify_spec(*b), env);
        },
        Expr::Div(a, b) => {
            lemma_simplify_eval(*a, env);
            lemma_simplify_eval(*b, env);
            lemma_fold_div(simplify_spec(*a), simplify_spec(*b), env);
        },
        Expr::Mod(a, b) => {
            lemma_simplify_eval(*a, env);
            lemma_simplify_eval(*b, env);
            lemma_fold_md(simplify_spec(*a), simplify_spec(*b), env);
        },
        Expr::Max(a, b) => {
            lemma_simplify_eval(*a, env);
            lemma_simplify_eval(*b, env);
            lemma_fold_max(simplify_spec(*a), simplify_spec(*b), env);
        },
        Expr::Min(a, b) => {
            lemma_simplify_eval(*a, env);
            lemma_simplify_eval(*b, env);
            lemma_fold_min(simplify_spec(*a), simplify_spec(*b), env);
        },
    }
}

impl Expr {
    /// Canonicalising simplification; `lemma_simplify_eval` shows that
    /// it preserves evaluation under every symbol table.
    /// Substitutes the constant `v` for every occurrence of the symbol
    /// `c`; `lemma_subst_eval` relates the result to the original.
    pub fn subst(&self, c: char, v: usize) -> (r: Expr)
        ensures
            r == subst_spec(*self, c, v),
        decreases *self,
    {
        match self {
            Expr::Num(n) => Expr::Num(*n),
            Expr::Sym(s) => {
                if *s == c {
                    Expr::Num(v)
                } else {
                    Expr::Sym(*s)
                }
            },
            Expr::Add(a, b) => Expr::Add(Box::new(a.subst(c, v)), Box::new(b.subst(c, v))),
            Expr::Sub(a, b) => Expr::Sub(Box::new(a.subst(c, v)), Box::new(b.subst(c, v))),
            Expr::Mul(a, b) => Expr::Mul(Box::new(a.subst(c, v)), Box::new(b.subst(c, v))),
            Expr::Div(a, b) => Expr::Div(Box::new(a.subst(c, v)), Box::new(b.subst(c, v))),
            Expr::Mod(a, b) => Expr::Mod(Box::new(a.subst(c, v)), Box::new(b.subst(c, v))),
            Expr::Max(a, b) => Expr::Max(Box::new(a.subst(c, v)), Box::new(b.subst(c, v))),
            Expr::Min(a, b) => Expr::Min(Box::new(a.subst(c, v)), Box::new(b.subst(c, v))),
        }
    }

    pub fn simplify(&self) -> (r: Expr)
        ensures
            r == simplify_spec(*self),
        decreases *self,
    {
        match self {
            Expr::Num(n) => Expr::Num(*n),
            Expr::Sym(s) => Expr::Sym(*s),
            Expr::Add(a0, b0) => fold_add_node(a0.simplify(), b0.simplify()),
            Expr::Sub(a0, b0) => fold_sub_node(a0.simplify(), b0.simplify()),
            Expr::Mul(a0, b0) => fold_mul_node(a0.simplify(), b0.simplify()),
            Expr::Div(a0, b0) => fold_div_node(a0.simplify(), b0.simplify()),
            Expr::Mod(a0, b0) => fold_md_node(a0.simplify(), b0.simplify()),
            Expr::Max(a0, b0) => fold_max_node(a0.simplify(), b0.simplify()),
            Expr::Min(a0, b0) => fold_min_node(a0.simplify(), b0.simplify()),
        }
    }
}

} // verus!
