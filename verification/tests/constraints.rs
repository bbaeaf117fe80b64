use circom_algebra::algebra::{ArithmeticExpression, HintExpression};
use circom_algebra::bigint::BigInt;
use circom_algebra::constraint::{Constraint, Substitution};
use circom_algebra::modular_arithmetic;
use std::collections::{BTreeSet, HashMap, HashSet};

type C = Constraint;
type S = Substitution;
type A = ArithmeticExpression;

fn big(v: i64) -> BigInt {
    BigInt::from_i64(v)
}

fn field() -> BigInt {
    big(257)
}

fn map_of(entries: &[(usize, i64)]) -> HashMap<usize, BigInt> {
    let mut m = HashMap::new();
    for (k, v) in entries {
        m.insert(*k, big(*v));
    }
    m
}

#[test]
fn algebra_constraint_offset() {
    let offset = 7;
    let x = 1;
    let a = HashMap::new();
    let b = HashMap::new();
    let mut c = HashMap::new();
    c.insert(C::constant_coefficient(), BigInt::from_i64(12));
    c.insert(x, BigInt::from_i64(3));
    let constraint = C::new(a, b, c);
    let constraint_with_offset = constraint.apply_offset(offset);
    assert!(constraint_with_offset.a.is_empty());
    assert!(constraint_with_offset.b.is_empty());
    assert!(constraint_with_offset.c.contains_key(&C::constant_coefficient()));
    assert!(!constraint_with_offset.c.contains_key(&x));
    let new_x = x + offset;
    assert!(constraint_with_offset.c.contains_key(&new_x));
    let value = constraint_with_offset.c.get(&new_x).unwrap();
    assert!(value.equals(&BigInt::from_i64(3)));
}

#[test]
fn algebra_constraint_clear_signal() {
    let field = BigInt::from_i64(257);
    let constant = C::constant_coefficient();
    let c_coefficient = BigInt::from_i64(3);
    let x = 1;
    let x_coefficient = BigInt::from_i64(1);
    let y = 2;
    let y_coefficient = BigInt::from_i64(1);
    let a = HashMap::new();
    let b = HashMap::new();
    let mut c = HashMap::new();
    c.insert(x, x_coefficient);
    c.insert(y, y_coefficient);
    c.insert(constant, c_coefficient);
    // constraint: x + y + 3 = 0
    let constraint = C::new(a, b, c);
    // sub: x = -y -3  ==> x = 256*y + 254
    let sub = C::clear_signal_from_linear(constraint, &x, &field);
    assert_eq!(sub.from, x);
    let y_new_coefficient = modular_arithmetic::sub(&field, &BigInt::from_i64(1), &field);
    let sub_value = sub.to.get(&y).unwrap();
    assert_eq!(*sub_value, y_new_coefficient);

    let constant_new_coefficient = BigInt::from_i64(254);
    let sub_value = sub.to.get(&constant).unwrap();
    assert_eq!(*sub_value, constant_new_coefficient);
}

#[test]
fn algebra_constraint_apply_substitution() {
    let field = BigInt::from_i64(257);
    // symbols
    let x = 1;
    let y = 2;
    let constant = C::constant_coefficient();

    // constraint: x + y + 4 = 0
    let x_c = BigInt::from_i64(1);
    let y_c = BigInt::from_i64(1);
    let constant_c = BigInt::from_i64(4);
    let a = HashMap::new();
    let b = HashMap::new();
    let mut c = HashMap::new();
    c.insert(x, x_c);
    c.insert(y, y_c);
    c.insert(constant, constant_c);
    let mut constraint = C::new(a, b, c);

    // substitution: x = 2y + 3
    let y_c = BigInt::from_i64(2);
    let constant_c = BigInt::from_i64(3);
    let from = x;
    let mut to_raw = HashMap::new();
    to_raw.insert(y, y_c);
    to_raw.insert(constant, constant_c);
    let to = A::Linear { coefficients: to_raw, expr: HintExpression::Unknown };
    let substitution = S::new(from, to).unwrap();

    // result: 3y + 7 = 0
    let expected_y_c = BigInt::from_i64(3);
    let expected_constant_c = BigInt::from_i64(7);
    C::apply_substitution(&mut constraint, &substitution, &field);
    let y_c = constraint.c.get(&y).unwrap();
    let constant_c = constraint.c.get(&constant).unwrap();
    assert!(constraint.a.is_empty());
    assert!(constraint.b.is_empty());
    assert_eq!(*y_c, expected_y_c);
    assert_eq!(*constant_c, expected_constant_c);
}

#[test]
fn substitution_new_kinds() {
    let n = S::new(3, A::Number { value: big(5), expr: HintExpression::Unknown }).unwrap();
    assert_eq!(n.from, 3);
    assert_eq!(n.to, map_of(&[(0, 5)]));
    let s = S::new(3, A::Signal { symbol: 4, expr: HintExpression::Unknown }).unwrap();
    assert_eq!(s.to, map_of(&[(4, 1)]));
    let refers_to_itself = A::Linear { coefficients: map_of(&[(0, 1), (3, 2)]), expr: HintExpression::Unknown };
    assert!(S::new(3, refers_to_itself).is_none());
    assert!(S::new(3, A::new()).is_none());
}

#[test]
fn substitution_constraint_and_expression() {
    // x1 = 2*x2 + 3
    let sub = S { from: 1, to: map_of(&[(0, 3), (2, 2)]) };
    let constraint = S::substitution_into_constraint(sub, &field());
    assert!(constraint.a.get(&0).unwrap().is_zero());
    assert!(constraint.b.get(&0).unwrap().is_zero());
    // -(2*x2 + 3 - x1) in the field
    assert_eq!(constraint.c, map_of(&[(0, 254), (2, 255), (1, 1)]));

    let sub = S { from: 1, to: map_of(&[(0, 3), (2, 2)]) };
    let (from, right) = S::decompose(sub);
    assert_eq!(from, 1);
    assert!(right.equals(&A::Linear { coefficients: map_of(&[(0, 3), (2, 2)]), expr: HintExpression::Unknown }));

    let sub = S { from: 1, to: map_of(&[(0, 3), (2, 2)]) };
    let diff = S::map_into_arith_expr(sub, &field());
    assert!(diff.equals(&A::Linear { coefficients: map_of(&[(0, 3), (2, 2), (1, 256)]), expr: HintExpression::Unknown }));
}

#[test]
fn substitution_applied_to_substitution_and_signals() {
    let f = field();
    let mut src = S { from: 1, to: map_of(&[(2, 1), (3, 4)]) };
    let change = S { from: 2, to: map_of(&[(0, 5), (3, 1)]) };
    S::apply_substitution(&mut src, &change, &f);
    assert_eq!(src.from, 1);
    // x2 + 4*x3 with x2 = x3 + 5 gives 5*x3 + 5
    assert_eq!(src.to, map_of(&[(0, 5), (3, 5)]));

    let with_zero = S { from: 1, to: map_of(&[(0, 0), (2, 0), (3, 7)]) };
    let mut cleaned = with_zero;
    S::rmv_zero_coefficients(&mut cleaned);
    assert_eq!(cleaned.to, map_of(&[(3, 7)]));

    let s = S { from: 1, to: map_of(&[(0, 1), (5, 2), (3, 4)]) };
    let expected: HashSet<usize> = [3, 5].into_iter().collect();
    assert_eq!(s.take_cloned_signals(), expected);
    assert_eq!(s.take_signals(), expected);
    let ordered: Vec<usize> = s.take_cloned_signals_ordered().into_iter().collect();
    assert_eq!(ordered, vec![3, 5]);
    assert_eq!(*s.from(), 1);
    assert_eq!(s.to().len(), 3);

    let moved = s.apply_offset(10);
    assert_eq!(moved.from, 11);
    assert_eq!(moved.to, map_of(&[(0, 1), (15, 2), (13, 4)]));

    let mut correspondence = HashMap::new();
    correspondence.insert(1, 100);
    correspondence.insert(3, 300);
    correspondence.insert(5, 500);
    let renamed = S::apply_correspondence(&s, &correspondence);
    assert_eq!(renamed.from, 100);
    assert_eq!(renamed.to, map_of(&[(0, 1), (500, 2), (300, 4)]));
    let renamed = S::apply_correspondence_and_drop(s, &correspondence);
    assert_eq!(renamed.to, map_of(&[(0, 1), (500, 2), (300, 4)]));
    assert_eq!(S::constant_coefficient(), 0);
}

#[test]
fn constraint_clear_signal_not_normalized() {
    let f = field();
    // 2*x1 + 3*x2 + 1 = 0
    let constraint = C::new(HashMap::new(), HashMap::new(), map_of(&[(0, 1), (1, 2), (2, 3)]));
    let (coefficient, sub) = C::clear_signal_from_linear_not_normalized(constraint, &1, &f);
    assert_eq!(coefficient, big(255));
    assert_eq!(sub.from, 1);
    assert_eq!(sub.to, map_of(&[(0, 1), (2, 3)]));
}

#[test]
fn constraint_clear_signal_keeps_solution() {
    let f = field();
    // 2*x1 + 3*x2 + 1 = 0: x1 = (3*x2 + 1) / -2
    let constraint = C::new(HashMap::new(), HashMap::new(), map_of(&[(0, 1), (1, 2), (2, 3)]));
    let sub = C::clear_signal_from_linear(constraint, &1, &f);
    assert!(!sub.to.contains_key(&1));
    // every assignment of x2 with x1 taken from the substitution solves the constraint
    for x2 in 0..20i64 {
        let c0 = sub.to.get(&0).map(|v| v.to_decimal_string().parse::<i64>().unwrap()).unwrap_or(0);
        let c2 = sub.to.get(&2).map(|v| v.to_decimal_string().parse::<i64>().unwrap()).unwrap_or(0);
        let x1 = (c0 + c2 * x2).rem_euclid(257);
        assert_eq!((1 + 2 * x1 + 3 * x2).rem_euclid(257), 0);
    }
}

#[test]
fn constraint_fix_folds_constant_factor() {
    let f = field();
    // (3) * (x1 + 2) - (x2) = 0  becomes  x2 - 3*x1 - 6 = 0 in the linear part
    let mut constraint = C::new(map_of(&[(0, 3)]), map_of(&[(1, 1), (0, 2)]), map_of(&[(2, 1)]));
    C::fix_constraint(&mut constraint, &f);
    assert!(constraint.a.is_empty());
    assert!(constraint.b.is_empty());
    assert_eq!(constraint.c, map_of(&[(0, 251), (1, 254), (2, 1)]));

    let mut empty_factor = C::new(map_of(&[(0, 0)]), map_of(&[(1, 1)]), map_of(&[(2, 1), (3, 0)]));
    C::fix_constraint(&mut empty_factor, &f);
    assert!(empty_factor.a.is_empty());
    assert!(empty_factor.b.is_empty());
    assert_eq!(empty_factor.c, map_of(&[(2, 1)]));

    let mut quadratic = C::new(map_of(&[(1, 1)]), map_of(&[(2, 1)]), map_of(&[(3, 1), (4, 0)]));
    C::fix_constraint(&mut quadratic, &f);
    assert_eq!(quadratic.a, map_of(&[(1, 1)]));
    assert_eq!(quadratic.b, map_of(&[(2, 1)]));
    assert_eq!(quadratic.c, map_of(&[(3, 1)]));
}

#[test]
fn constraint_predicates() {
    let f = field();
    let equality = C::new(HashMap::new(), HashMap::new(), map_of(&[(1, 1), (2, 256)]));
    assert!(equality.is_equality(&f));
    assert!(!equality.is_constant_equality());
    let not_equality = C::new(HashMap::new(), HashMap::new(), map_of(&[(1, 1), (2, 2)]));
    assert!(!not_equality.is_equality(&f));
    let with_constant = C::new(HashMap::new(), HashMap::new(), map_of(&[(0, 3), (2, 1)]));
    assert!(!with_constant.is_equality(&f));
    assert!(with_constant.is_constant_equality());
    let single = C::new(HashMap::new(), HashMap::new(), map_of(&[(5, 1)]));
    assert!(single.is_constant_equality());
    assert!(C::is_linear(&single));
    assert!(!single.is_empty());
    assert!(C::empty().is_empty());
    let quadratic = C::new(map_of(&[(0, 1)]), map_of(&[(1, 1)]), map_of(&[(0, 2)]));
    assert!(!C::is_linear(&quadratic));
    assert!(quadratic.has_constant_coefficient());
    // only A and B are looked at for the constant term
    assert!(!with_constant.has_constant_coefficient());
    assert_eq!(quadratic.a().len(), 1);
    assert_eq!(quadratic.b().len(), 1);
    assert_eq!(quadratic.c().len(), 1);
}

#[test]
fn constraint_signals_and_renaming() {
    let f = field();
    let constraint = C::new(map_of(&[(0, 1), (4, 1)]), map_of(&[(2, 1)]), map_of(&[(0, 2), (3, 5)]));
    let expected: HashSet<usize> = [2, 3, 4].into_iter().collect();
    assert_eq!(constraint.take_cloned_signals(), expected);
    assert_eq!(constraint.take_signals(), expected);
    let ordered: BTreeSet<usize> = constraint.take_cloned_signals_ordered();
    assert_eq!(ordered.into_iter().collect::<Vec<_>>(), vec![2, 3, 4]);

    let witness = vec![0, 10, 20, 30, 40];
    let renamed = constraint.apply_witness(&witness);
    assert_eq!(renamed.a, map_of(&[(0, 1), (40, 1)]));
    assert_eq!(renamed.b, map_of(&[(20, 1)]));
    assert_eq!(renamed.c, map_of(&[(0, 2), (30, 5)]));

    let mut correspondence = HashMap::new();
    correspondence.insert(2, 7);
    correspondence.insert(3, 8);
    correspondence.insert(4, 9);
    let renamed = C::apply_correspondence(&constraint, &correspondence);
    assert_eq!(renamed.a, map_of(&[(0, 1), (9, 1)]));
    assert_eq!(renamed.c, map_of(&[(0, 2), (8, 5)]));
    let renamed = C::apply_correspondence_and_drop(constraint, &correspondence);
    assert_eq!(renamed.b, map_of(&[(7, 1)]));

    let mut with_zeros = C::new(map_of(&[(0, 0), (1, 2)]), map_of(&[(2, 0)]), map_of(&[(3, 0), (4, 1)]));
    C::remove_zero_value_coefficients(&mut with_zeros);
    assert_eq!(with_zeros.a, map_of(&[(1, 2)]));
    assert!(with_zeros.b.is_empty());
    assert_eq!(with_zeros.c, map_of(&[(4, 1)]));

    let (a, b, c) = C::new(map_of(&[(1, 1)]), map_of(&[(2, 1)]), map_of(&[(0, 1)])).into_arithmetic_expressions();
    assert!(a.is_linear() && b.is_linear() && c.is_linear());
    let _ = f;
}

#[test]
fn constraint_substitution_in_all_parts() {
    let f = field();
    let mut constraint = C::new(map_of(&[(1, 1)]), map_of(&[(1, 2), (0, 1)]), map_of(&[(2, 1)]));
    let sub = S { from: 1, to: map_of(&[(3, 1), (0, 4)]) };
    C::apply_substitution(&mut constraint, &sub, &f);
    assert_eq!(constraint.a, map_of(&[(0, 4), (3, 1)]));
    assert_eq!(constraint.b, map_of(&[(0, 9), (3, 2)]));
    assert_eq!(constraint.c, map_of(&[(2, 1)]));
    assert!(!constraint.a.contains_key(&1));
    assert!(!constraint.b.contains_key(&1));
}
