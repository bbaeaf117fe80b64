use circom_algebra::algebra::{ArithmeticExpression, HintExpression};
use circom_algebra::bigint::BigInt;
use circom_algebra::constraint::{Constraint, Substitution};
use std::collections::HashMap;

type A = ArithmeticExpression;

const P: i64 = 257;

fn big(v: i64) -> BigInt {
    BigInt::from_i64(v)
}

fn field() -> BigInt {
    big(P)
}

fn map_of(entries: &[(usize, i64)]) -> HashMap<usize, BigInt> {
    let mut m = HashMap::new();
    for (k, v) in entries {
        m.insert(*k, big(*v));
    }
    m
}

fn value(b: &BigInt) -> i64 {
    b.to_decimal_string().parse::<i64>().unwrap()
}

/// Value of a linear combination when signal `s` is `w[s]` (`w[0]` is 1).
fn eval(m: &HashMap<usize, BigInt>, w: &[i64]) -> i64 {
    let mut total = 0i64;
    for (s, c) in m {
        total += value(c) * w[*s];
    }
    total.rem_euclid(P)
}

fn eval_expr(e: &A, w: &[i64]) -> i64 {
    match e {
        A::Number { value: v, .. } => value(v).rem_euclid(P),
        A::Signal { symbol, .. } => w[*symbol].rem_euclid(P),
        A::Linear { coefficients, .. } => eval(coefficients, w),
        A::Quadratic { a, b, c, .. } => (eval(a, w) * eval(b, w) + eval(c, w)).rem_euclid(P),
        A::NonQuadratic { .. } => panic!("no value"),
    }
}

fn linear(entries: &[(usize, i64)]) -> A {
    A::Linear { coefficients: map_of(entries), expr: HintExpression::Unknown }
}

fn assignments() -> Vec<Vec<i64>> {
    vec![vec![1, 0, 0, 0], vec![1, 3, 5, 7], vec![1, 256, 100, 1], vec![1, 12, 200, 255]]
}

#[test]
fn law_add_and_mul_compute_values() {
    let f = field();
    let exprs = vec![
        A::Number { value: big(9), expr: HintExpression::Unknown },
        A::Signal { symbol: 2, expr: HintExpression::Unknown },
        linear(&[(0, 4), (1, 2), (3, 250)]),
        A::Quadratic { a: map_of(&[(0, 1), (1, 1)]), b: map_of(&[(0, 0), (2, 3)]), c: map_of(&[(0, 5)]), expr: HintExpression::Unknown },
    ];
    for w in assignments() {
        for l in &exprs {
            for r in &exprs {
                let sum = A::add(l, r, &f);
                if !sum.is_nonquadratic() {
                    assert_eq!(eval_expr(&sum, &w), (eval_expr(l, &w) + eval_expr(r, &w)).rem_euclid(P));
                }
                let product = A::mul(l, r, &f);
                if !product.is_nonquadratic() {
                    assert_eq!(eval_expr(&product, &w), (eval_expr(l, &w) * eval_expr(r, &w)).rem_euclid(P));
                }
            }
            let quotient = A::div(l, &A::Number { value: big(5), expr: HintExpression::Unknown }, &f).unwrap();
            assert_eq!((eval_expr(&quotient, &w) * 5).rem_euclid(P), eval_expr(l, &w));
        }
    }
}

#[test]
fn law_constraint_form_has_value_of_expression() {
    let f = field();
    let e = A::Quadratic { a: map_of(&[(0, 2), (1, 1)]), b: map_of(&[(0, 0), (2, 3)]), c: map_of(&[(0, 5), (3, 1)]), expr: HintExpression::Unknown };
    for w in assignments() {
        let expected = eval_expr(&e, &w);
        let copy = A::Quadratic { a: map_of(&[(0, 2), (1, 1)]), b: map_of(&[(0, 0), (2, 3)]), c: map_of(&[(0, 5), (3, 1)]), expr: HintExpression::Unknown };
        let k = A::transform_expression_to_constraint_form(copy, &f).unwrap();
        assert_eq!((eval(&k.a, &w) * eval(&k.b, &w) - eval(&k.c, &w)).rem_euclid(P), expected);
    }
}

#[test]
fn law_substitution_keeps_value() {
    let f = field();
    // x1 = 2*x2 + 3
    let sub = Substitution { from: 1, to: map_of(&[(0, 3), (2, 2)]) };
    for x2 in [0i64, 1, 100, 256] {
        let x1 = (2 * x2 + 3).rem_euclid(P);
        let w = vec![1, x1, x2, 11];
        let mut constraint = Constraint::new(map_of(&[(1, 1), (3, 2)]), map_of(&[(0, 1)]), map_of(&[(0, 4), (1, 7), (2, 1)]));
        let before = (eval(&constraint.a, &w), eval(&constraint.b, &w), eval(&constraint.c, &w));
        Constraint::apply_substitution(&mut constraint, &sub, &f);
        assert!(!constraint.a.contains_key(&1) && !constraint.c.contains_key(&1));
        assert_eq!((eval(&constraint.a, &w), eval(&constraint.b, &w), eval(&constraint.c, &w)), before);
        let mut e = linear(&[(0, 4), (1, 7), (2, 1)]);
        let e_before = eval_expr(&e, &w);
        A::apply_substitutions(&mut e, &sub, &f);
        assert_eq!(eval_expr(&e, &w), e_before);
    }
}

#[test]
fn law_substitution_constraint_holds_with_substitution() {
    let f = field();
    for x1 in [0i64, 13, 200] {
        let sub = Substitution { from: 1, to: map_of(&[(0, 3), (2, 2)]) };
        let k = Substitution::substitution_into_constraint(sub, &f);
        let x2 = 5;
        let w = vec![1, x1, x2];
        let value_of_constraint = (eval(&k.a, &w) * eval(&k.b, &w) - eval(&k.c, &w)).rem_euclid(P);
        assert_eq!(value_of_constraint, (3 + 2 * x2 - x1).rem_euclid(P));
    }
}

#[test]
fn law_offset_and_renaming_keep_values() {
    let constraint = Constraint::new(HashMap::new(), HashMap::new(), map_of(&[(0, 12), (1, 3), (2, 5)]));
    let moved = constraint.apply_offset(3);
    let w_moved = vec![1, 0, 0, 0, 7, 9];
    let w = vec![1, 7, 9];
    assert_eq!(eval(&moved.c, &w_moved), eval(&constraint.c, &w));
    let witness = vec![0, 2, 1];
    let renamed = constraint.apply_witness(&witness);
    let w_renamed = vec![1, 9, 7];
    assert_eq!(eval(&renamed.c, &w_renamed), eval(&constraint.c, &w));
}

#[test]
fn law_add_commutes() {
    let f = field();
    let exprs = vec![
        A::Number { value: big(9), expr: HintExpression::Unknown },
        A::Signal { symbol: 2, expr: HintExpression::Unknown },
        A::Signal { symbol: 3, expr: HintExpression::Unknown },
        linear(&[(0, 4), (1, 2), (3, 250)]),
        linear(&[(0, 0), (2, 7)]),
        A::Quadratic { a: map_of(&[(0, 1), (1, 1)]), b: map_of(&[(0, 0), (2, 3)]), c: map_of(&[(0, 5)]), expr: HintExpression::Unknown },
    ];
    for l in &exprs {
        for r in &exprs {
            let lr = A::add(l, r, &f);
            let rl = A::add(r, l, &f);
            if !lr.is_nonquadratic() {
                assert!(lr.equals(&rl));
            } else {
                assert!(rl.is_nonquadratic());
            }
        }
    }
}

#[test]
fn law_fix_constraint_keeps_value() {
    let f = field();
    let cases = vec![
        (map_of(&[(0, 3)]), map_of(&[(1, 2), (0, 1)]), map_of(&[(2, 1)])),
        (map_of(&[(1, 1), (0, 0)]), map_of(&[(0, 5)]), map_of(&[(0, 4), (3, 0)])),
        (map_of(&[(1, 0)]), map_of(&[(2, 9)]), map_of(&[(3, 2)])),
        (map_of(&[(1, 1)]), map_of(&[(2, 1)]), map_of(&[(3, 1)])),
    ];
    for (a, b, c) in cases {
        for w in assignments() {
            let before = (eval(&a, &w) * eval(&b, &w) - eval(&c, &w)).rem_euclid(P);
            let mut k = Constraint::new(a.clone(), b.clone(), c.clone());
            Constraint::fix_constraint(&mut k, &f);
            let after = (eval(&k.a, &w) * eval(&k.b, &w) - eval(&k.c, &w)).rem_euclid(P);
            assert_eq!(before, after);
        }
    }
}

#[test]
fn law_division_in_a_prime_field() {
    let f = field();
    let left = linear(&[(0, 4), (1, 2), (3, 250)]);
    for v in [1i64, 2, 100, 256, 258, -3] {
        let q = A::div(&left, &A::Number { value: big(v), expr: HintExpression::Unknown }, &f).ok().unwrap();
        for w in assignments() {
            assert_eq!((eval_expr(&q, &w) * v).rem_euclid(P), eval_expr(&left, &w));
        }
    }
}
