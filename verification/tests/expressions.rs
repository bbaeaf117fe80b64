use circom_algebra::algebra::{ArithmeticExpression, HintAccess, HintExpression};
use circom_algebra::ast::{ExpressionInfixOpcode, ExpressionPrefixOpcode};
use circom_algebra::bigint::BigInt;
use circom_algebra::constraint::Substitution;
use circom_algebra::modular_arithmetic::ArithmeticError;
use std::collections::HashMap;

type A = ArithmeticExpression;

fn big(v: i64) -> BigInt {
    BigInt::from_i64(v)
}

fn field() -> BigInt {
    big(257)
}

fn map_of(entries: &[(usize, i64)]) -> HashMap<usize, BigInt> {
    let mut m = HashMap::new();
    for (k, v) in entries {
        m.insert(*k, big(*v));
    }
    m
}

fn number(v: i64) -> A {
    A::Number { value: big(v), expr: HintExpression::Number { value: big(v) } }
}

fn signal(s: usize) -> A {
    A::Signal { symbol: s, expr: HintExpression::Variable { symbol: format!("s{}", s) } }
}

fn linear(entries: &[(usize, i64)]) -> A {
    A::Linear { coefficients: map_of(entries), expr: HintExpression::Unknown }
}

#[test]
fn add_numbers_and_signals() {
    let f = field();
    let sum = A::add(&number(200), &number(100), &f);
    assert!(sum.equals(&number(43)));
    let sum = A::add(&number(5), &signal(3), &f);
    assert!(sum.equals(&linear(&[(0, 5), (3, 1)])));
    let sum = A::add(&signal(3), &signal(3), &f);
    assert!(sum.equals(&linear(&[(0, 0), (3, 2)])));
    let sum = A::add(&linear(&[(0, 1), (2, 256)]), &linear(&[(0, 1), (2, 1), (4, 7)]), &f);
    assert!(sum.equals(&linear(&[(0, 2), (2, 0), (4, 7)])));
    let hint = sum.to_hint_expr().to_json();
    assert_eq!(hint, "{\"$\": \"Expr\", \"@\": \"Add\", \"lhe\": {\"$\": \"Expr\", \"@\": \"Unknown\"}, \"rhe\": {\"$\": \"Expr\", \"@\": \"Unknown\"}}");
}

#[test]
fn mul_builds_quadratic_forms() {
    let f = field();
    let product = A::mul(&signal(1), &signal(2), &f);
    assert!(product.is_quadratic());
    assert!(product.equals(&A::Quadratic {
        a: map_of(&[(0, 0), (1, 1)]),
        b: map_of(&[(0, 0), (2, 1)]),
        c: map_of(&[(0, 0)]),
        expr: HintExpression::Unknown,
    }));
    let scaled = A::mul(&number(3), &product, &f);
    assert!(scaled.equals(&A::Quadratic {
        a: map_of(&[(0, 0), (1, 3)]),
        b: map_of(&[(0, 0), (2, 1)]),
        c: map_of(&[(0, 0)]),
        expr: HintExpression::Unknown,
    }));
    let cubic = A::mul(&product, &signal(3), &f);
    assert!(cubic.is_nonquadratic());
    let twice = A::mul(&number(2), &linear(&[(0, 200), (1, 129)]), &f);
    assert!(twice.equals(&linear(&[(0, 143), (1, 1)])));
    let squared = A::pow(&signal(4), &number(2), &f);
    assert!(squared.is_quadratic());
    let power = A::pow(&number(3), &number(5), &f);
    assert!(power.equals(&number(243 % 257)));
}

#[test]
fn sub_and_prefix_sub() {
    let f = field();
    let diff = A::sub(&signal(1), &number(1), &f);
    assert!(diff.equals(&linear(&[(0, 256), (1, 1)])));
    let neg = A::prefix_sub(&number(5), &f);
    assert!(neg.equals(&number(252)));
}

#[test]
fn division_and_its_errors() {
    let f = field();
    let q = A::div(&number(1), &number(2), &f).unwrap();
    assert!(q.equals(&number(129)));
    let q = A::div(&linear(&[(0, 2), (1, 4)]), &number(2), &f).unwrap();
    assert!(q.equals(&linear(&[(0, 1), (1, 2)])));
    match A::div(&number(1), &number(257), &f) {
        Err(e) => assert_eq!(e, ArithmeticError::DivisionByZero),
        Ok(_) => panic!("division by zero accepted"),
    }
    assert!(A::div(&signal(1), &signal(2), &f).unwrap().is_nonquadratic());
    let iq = A::idiv(&number(7), &number(2), &f).unwrap();
    assert!(iq.equals(&number(3)));
    assert_eq!(A::idiv(&number(7), &number(0), &f).err(), Some(ArithmeticError::DivisionByZero));
    let r = A::mod_op(&number(7), &number(4), &f).unwrap();
    assert!(r.equals(&number(3)));
    assert_eq!(A::mod_op(&number(7), &number(257), &f).err(), Some(ArithmeticError::DivisionByZero));
}

#[test]
fn shifts_and_bits() {
    let f = field();
    let l = A::shift_l(&number(3), &number(2), &f).unwrap();
    assert!(l.equals(&number(12)));
    let r = A::shift_r(&number(12), &number(2), &f).unwrap();
    assert!(r.equals(&number(3)));
    // a shift by more than half the field shifts the other way
    let back = A::shift_l(&number(12), &number(255), &f).unwrap();
    assert!(back.equals(&number(3)));
    let by_negative = A::shift_l(&number(12), &number(-1), &f);
    assert_eq!(by_negative.err(), Some(ArithmeticError::BitOverFlowInShift));
    assert!(A::bit_and(&number(12), &number(10), &f).equals(&number(8)));
    assert!(A::bit_or(&number(12), &number(10), &f).equals(&number(14)));
    assert!(A::bit_xor(&number(12), &number(10), &f).equals(&number(6)));
    // the complement in the 9 bits of 257
    assert!(A::complement(&number(0), &f).equals(&number(511 % 257)));
}

#[test]
fn booleans_and_comparisons() {
    let f = field();
    assert_eq!(A::get_boolean_equivalence(&number(0), &f), Some(false));
    assert_eq!(A::get_boolean_equivalence(&number(5), &f), Some(true));
    assert_eq!(A::get_boolean_equivalence(&signal(1), &f), None);
    assert!(A::not(&number(0), &f).equals(&number(1)));
    assert!(A::bool_or(&number(0), &number(3), &f).equals(&number(1)));
    assert!(A::bool_and(&number(0), &number(3), &f).equals(&number(0)));
    assert!(A::eq(&number(3), &number(260), &f).equals(&number(1)));
    assert!(A::not_eq(&number(3), &number(4), &f).equals(&number(1)));
    // 256 reads as -1
    assert!(A::lesser(&number(256), &number(0), &f).equals(&number(1)));
    assert!(A::lesser_eq(&number(1), &number(1), &f).equals(&number(1)));
    assert!(A::greater(&number(1), &number(256), &f).equals(&number(1)));
    assert!(A::greater_eq(&number(0), &number(1), &f).equals(&number(0)));
    assert!(A::lesser(&signal(1), &number(1), &f).is_nonquadratic());
}

#[test]
fn usize_values_and_kinds() {
    assert_eq!(A::get_usize(&number(42)), Some(42));
    assert_eq!(A::get_usize(&number(-1)), None);
    assert_eq!(A::get_usize(&signal(1)), None);
    assert!(number(1).is_number());
    assert!(linear(&[(0, 1)]).is_linear());
    assert!(A::new().is_nonquadratic());
    assert!(!A::new().equals(&A::new()));
    assert!(A::default().is_nonquadratic());
}

#[test]
fn hashmap_into_simplest_expression() {
    assert!(A::hashmap_into_arith(map_of(&[(0, 9)])).equals(&number(9)));
    assert!(A::hashmap_into_arith(map_of(&[(4, 1)])).equals(&signal(4)));
    assert!(A::hashmap_into_arith(map_of(&[(4, 2)])).equals(&linear(&[(0, 0), (4, 2)])));
    assert!(A::hashmap_into_arith(map_of(&[(4, 2), (5, 1)])).equals(&linear(&[(0, 0), (4, 2), (5, 1)])));
    let m = A::modularize_hashmap(&map_of(&[(1, -1), (2, 300)]), &field());
    assert_eq!(m, map_of(&[(1, 256), (2, 43)]));
}

#[test]
fn substitution_in_expressions() {
    let f = field();
    let sub = Substitution { from: 1, to: map_of(&[(0, 2), (2, 1)]) };
    let mut e = linear(&[(0, 1), (1, 3)]);
    A::apply_substitutions(&mut e, &sub, &f);
    assert!(e.equals(&linear(&[(0, 7), (2, 3)])));
    let mut s = signal(1);
    A::apply_substitutions(&mut s, &sub, &f);
    assert!(s.equals(&linear(&[(0, 2), (2, 1)])));
    let mut other = signal(5);
    A::apply_substitutions(&mut other, &sub, &f);
    assert!(other.equals(&signal(5)));
    let mut q = A::Quadratic { a: map_of(&[(1, 1)]), b: map_of(&[(0, 1)]), c: map_of(&[(1, 0)]), expr: HintExpression::Unknown };
    A::apply_substitutions(&mut q, &sub, &f);
    assert!(q.equals(&A::Quadratic {
        a: map_of(&[(0, 2), (2, 1)]),
        b: map_of(&[(0, 1)]),
        c: HashMap::new(),
        expr: HintExpression::Unknown,
    }));
}

#[test]
fn constraint_form_of_expressions() {
    let f = field();
    let c = A::transform_expression_to_constraint_form(linear(&[(0, 1), (1, 2)]), &f).unwrap();
    assert_eq!(c.c, map_of(&[(0, 256), (1, 255)]));
    assert_eq!(c.a, map_of(&[(0, 0)]));
    let c = A::transform_expression_to_constraint_form(number(3), &f).unwrap();
    assert_eq!(c.c, map_of(&[(0, 254)]));
    let c = A::transform_expression_to_constraint_form(signal(2), &f).unwrap();
    assert_eq!(c.c, map_of(&[(0, 0), (2, 256)]));
    assert!(A::transform_expression_to_constraint_form(A::new(), &f).is_none());
}

#[test]
fn expression_text() {
    assert_eq!(number(-12).to_string(), "-12");
    assert_eq!(signal(7).to_string(), "7");
    assert_eq!(linear(&[(0, -3), (2, 1), (1, -5), (4, 0)]).to_string(), "-3 - 5*1 + 2");
    assert_eq!(linear(&[(3, -1), (0, 2)]).to_string(), "2 - 3");
    let q = A::Quadratic {
        a: map_of(&[(1, 1)]),
        b: map_of(&[(2, 2)]),
        c: map_of(&[(0, 4)]),
        expr: HintExpression::Unknown,
    };
    assert_eq!(q.to_string(), "(1)*(2*2) + (4)");
    assert_eq!(A::new().to_string(), "NQ");
}

#[test]
fn expression_json() {
    assert_eq!(number(5).to_json(false), "{\"$\": \"QuadExpr\", \"@\": \"Number\", \"value\": \"5\"}");
    assert_eq!(signal(12).to_json(false), "{\"$\": \"QuadExpr\", \"@\": \"Signal\", \"symbol\": \"12\"}");
    assert_eq!(
        linear(&[(10, 3), (0, 0), (2, -1)]).to_json(false),
        "{\"$\": \"QuadExpr\", \"@\": \"Linear\", \"coefficients\": {\"2\":\"-1\",\"10\":\"3\"}}"
    );
    let q = A::Quadratic {
        a: map_of(&[(1, 1)]),
        b: map_of(&[(2, 2)]),
        c: HashMap::new(),
        expr: HintExpression::Unknown,
    };
    assert_eq!(
        q.to_json(false),
        "{\"$\": \"QuadExpr\", \"@\": \"Quadratic\", \"a\": {\"1\":\"1\"}, \"b\": {\"2\":\"2\"}, \"c\": {}}"
    );
    assert_eq!(number(5).to_json(true), "{\"$\": \"Expr\", \"@\": \"Number\", \"value\": \"5\"}");
}

#[test]
fn hint_json() {
    let access = HintAccess::ArrayAccess(HintExpression::Number { value: big(0) });
    assert_eq!(access.to_json(), "{\"$\": \"Access\", \"@\": \"ArrayAccess\", \"index\": {\"$\": \"Expr\", \"@\": \"Number\", \"value\": \"0\"}}");
    let symbol = HintExpression::Symbol {
        symbol: "out".to_string(),
        access: vec![HintAccess::ComponentAccess("c".to_string()), HintAccess::ArrayAccess(HintExpression::Unknown)],
    };
    assert_eq!(
        symbol.to_json(),
        "{\"$\": \"Expr\", \"@\": \"Symbol\", \"symbol\": \"out\", \"access\": [{\"$\": \"Access\", \"@\": \"ComponentAccess\", \"name\": \"c\"}, {\"$\": \"Access\", \"@\": \"ArrayAccess\", \"index\": {\"$\": \"Expr\", \"@\": \"Unknown\"}}]}"
    );
    let slice = HintExpression::MemorySlice { route: vec![2, 13], values: vec![HintExpression::Variable { symbol: "v".to_string() }] };
    assert_eq!(
        slice.to_json(),
        "{\"$\": \"Expr\", \"@\": \"MemorySlice\", \"route\": [2, 13], \"values\": [{\"$\": \"Expr\", \"@\": \"Variable\", \"symbol\": \"v\"}]}"
    );
    let prefix = HintExpression::PrefixOp { rhe: Box::new(HintExpression::Unknown), prefix_op: ExpressionPrefixOpcode::Complement };
    assert_eq!(prefix.to_json(), "{\"$\": \"Expr\", \"@\": \"Complement\", \"rhe\": {\"$\": \"Expr\", \"@\": \"Unknown\"}}");
    let switch = HintExpression::InlineSwitch {
        condition: Box::new(HintExpression::Unknown),
        if_true: Box::new(HintExpression::Number { value: big(-2) }),
        if_false: Box::new(HintExpression::InfixOp {
            lhe: Box::new(HintExpression::Unknown),
            rhe: Box::new(HintExpression::Unknown),
            infix_op: ExpressionInfixOpcode::ShiftL,
        }),
    };
    assert_eq!(
        switch.to_json(),
        "{\"$\": \"Expr\", \"@\": \"InlineSwitch\", \"condition\": {\"$\": \"Expr\", \"@\": \"Unknown\"}, \"if_true\": {\"$\": \"Expr\", \"@\": \"Number\", \"value\": \"-2\"}, \"if_false\": {\"$\": \"Expr\", \"@\": \"ShiftL\", \"lhe\": {\"$\": \"Expr\", \"@\": \"Unknown\"}, \"rhe\": {\"$\": \"Expr\", \"@\": \"Unknown\"}}}"
    );
}
