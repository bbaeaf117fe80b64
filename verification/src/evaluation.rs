//! Values of linear combinations and expressions under an assignment of
//! field elements to signals, and the laws that tie the symbolic operations
//! to arithmetic on those values.
use crate::algebra::{add_defined, add_model, constraint_form_model, div_model, mul_model, pow_model, same_expression, substituted_model, ArithModel};
use crate::constraint::{fixed_model, is_constant_map, reduced_linear};
use crate::coefficients::{
    added, constant_symbol, coeff, initialized, offset_map, plus_symbol, relabeled, scaled, without_zeros, zero_map,
};
use vstd::arithmetic::div_mod::{lemma_add_mod_noop, lemma_mul_mod_noop_left};
use vstd::prelude::*;

verus! {

/// `x` and `y` are congruent modulo `p`.
pub open spec fn congruent(x: int, y: int, p: int) -> bool {
    x % p == y % p
}

/// Value of a linear combination when each signal `s` takes the value
/// `w(s)`: the sum of `m[s] * w(s)` over the signals of `m`.
pub open spec fn eval(m: Map<usize, int>, w: spec_fn(usize) -> int) -> int
    decreases m.len(),
{
    if m.dom().finite() && m.len() > 0 {
        let k = m.dom().choose();
        m[k] * w(k) + eval(m.remove(k), w)
    } else {
        0
    }
}

proof fn lemma_cong_add(a: int, b: int, c: int, d: int, p: int)
    requires
        p > 0,
        congruent(a, b, p),
        congruent(c, d, p),
    ensures
        congruent(a + c, b + d, p),
{
    lemma_add_mod_noop(a, c, p);
    lemma_add_mod_noop(b, d, p);
}

proof fn lemma_cong_mul(a: int, b: int, x: int, p: int)
    requires
        p > 0,
        congruent(a, b, p),
    ensures
        congruent(a * x, b * x, p),
        congruent(x * a, x * b, p),
{
    lemma_mul_mod_noop_left(a, x, p);
    lemma_mul_mod_noop_left(b, x, p);
    assert(a * x == x * a) by (nonlinear_arith);
    assert(b * x == x * b) by (nonlinear_arith);
}

/// Any signal of a finite combination can be taken out of its value first.
pub proof fn lemma_eval_remove(m: Map<usize, int>, k: usize, w: spec_fn(usize) -> int)
    requires
        m.dom().finite(),
        m.contains_key(k),
    ensures
        eval(m, w) == m[k] * w(k) + eval(m.remove(k), w),
    decreases m.len(),
{
    let j = m.dom().choose();
    assert(m.len() > 0) by {
        assert(m.dom().contains(k));
    }
    if j != k {
        assert(m.dom().contains(j));
        let mj = m.remove(j);
        let mk = m.remove(k);
        lemma_eval_remove(mj, k, w);
        lemma_eval_remove(mk, j, w);
        assert(mj.remove(k) =~= mk.remove(j));
    }
}

/// Value of a combination with a new signal.
pub proof fn lemma_eval_insert(m: Map<usize, int>, k: usize, v: int, w: spec_fn(usize) -> int)
    requires
        m.dom().finite(),
    ensures
        eval(m.insert(k, v), w) == v * w(k) + eval(m.remove(k), w),
{
    lemma_eval_remove(m.insert(k, v), k, w);
    assert(m.insert(k, v).remove(k) =~= m.remove(k));
}

/// Value of a combination with one coefficient changed: the value of the
/// signal's old term is replaced by that of the new one.
pub proof fn lemma_eval_update(m: Map<usize, int>, k: usize, v: int, w: spec_fn(usize) -> int)
    requires
        m.dom().finite(),
    ensures
        eval(m.insert(k, v), w) == eval(m, w) - coeff(m, k) * w(k) + v * w(k),
{
    lemma_eval_insert(m, k, v, w);
    if m.contains_key(k) {
        lemma_eval_remove(m, k, w);
    } else {
        assert(m.remove(k) =~= m);
    }
}

/// Two combinations over the same signals whose coefficients agree, up to a
/// factor `c`, have values that agree up to `c`.
proof fn lemma_eval_pointwise(m1: Map<usize, int>, m2: Map<usize, int>, c: int, p: int, w: spec_fn(usize) -> int)
    requires
        p > 0,
        m1.dom().finite(),
        m1.dom() == m2.dom(),
        forall|s: usize| #[trigger] m1.contains_key(s) ==> congruent(m1[s], c * m2[s], p),
    ensures
        congruent(eval(m1, w), c * eval(m2, w), p),
    decreases m1.len(),
{
    if m1.len() > 0 {
        let j = m1.dom().choose();
        assert(m1.contains_key(j));
        lemma_eval_remove(m1, j, w);
        lemma_eval_remove(m2, j, w);
        assert(m1.remove(j).dom() =~= m2.remove(j).dom());
        lemma_eval_pointwise(m1.remove(j), m2.remove(j), c, p, w);
        lemma_cong_mul(m1[j], c * m2[j], w(j), p);
        let e1 = eval(m1.remove(j), w);
        let e2 = eval(m2.remove(j), w);
        lemma_cong_add(m1[j] * w(j), c * m2[j] * w(j), e1, c * e2, p);
        assert(c * m2[j] * w(j) + c * e2 == c * (m2[j] * w(j) + e2)) by (nonlinear_arith);
    } else {
        assert(m2.dom() =~= Set::<usize>::empty());
        assert(m2.len() == 0);
        assert(c * 0 == 0);
    }
}

/// Scaling every coefficient scales the value.
pub proof fn lemma_eval_scaled(m: Map<usize, int>, k: int, p: int, w: spec_fn(usize) -> int)
    requires
        p > 0,
        m.dom().finite(),
    ensures
        congruent(eval(scaled(m, k, p), w), k * eval(m, w), p),
{
    let m1 = scaled(m, k, p);
    assert(m1.dom() =~= m.dom());
    assert forall|s: usize| #[trigger] m1.contains_key(s) implies congruent(m1[s], k * m[s], p) by {
        vstd::arithmetic::div_mod::lemma_mod_twice(m[s] * k, p);
        assert(m[s] * k == k * m[s]) by (nonlinear_arith);
    }
    lemma_eval_pointwise(m1, m, k, p, w);
}

/// Zero coefficients add nothing to the value.
pub proof fn lemma_eval_without_zeros(m: Map<usize, int>, w: spec_fn(usize) -> int)
    requires
        m.dom().finite(),
    ensures
        eval(without_zeros(m), w) == eval(m, w),
    decreases m.len(),
{
    let z = without_zeros(m);
    assert(z.dom().subset_of(m.dom()));
    vstd::set_lib::lemma_set_subset_finite(m.dom(), z.dom());
    if m.len() > 0 {
        let j = m.dom().choose();
        assert(m.contains_key(j));
        lemma_eval_remove(m, j, w);
        lemma_eval_without_zeros(m.remove(j), w);
        if m[j] == 0 {
            assert(z =~= without_zeros(m.remove(j)));
            let mj = m[j];
            let wj = w(j);
            assert(mj * wj == 0) by (nonlinear_arith)
                requires
                    mj == 0,
            ;
            assert(eval(z, w) == eval(m, w));
        } else {
            assert(z.contains_key(j));
            lemma_eval_remove(z, j, w);
            assert(z.remove(j) =~= without_zeros(m.remove(j)));
            assert(eval(z, w) == eval(m, w));
        }
    } else {
        assert(m.dom() =~= Set::<usize>::empty());
        assert(z.dom() =~= Set::<usize>::empty());
    }
}

/// Adding the constant term with coefficient 0 keeps the value.
pub proof fn lemma_eval_initialized(m: Map<usize, int>, w: spec_fn(usize) -> int)
    requires
        m.dom().finite(),
    ensures
        eval(initialized(m), w) == eval(m, w),
{
    if !m.contains_key(constant_symbol()) {
        lemma_eval_insert(m, constant_symbol(), 0, w);
        assert(m.remove(constant_symbol()) =~= m);
    }
}

/// Adding `c` to the coefficient of `s` adds `c * w(s)` to the value.
pub proof fn lemma_eval_plus_symbol(m: Map<usize, int>, s: usize, c: int, p: int, w: spec_fn(usize) -> int)
    requires
        p > 0,
        m.dom().finite(),
    ensures
        congruent(eval(crate::coefficients::plus_symbol(m, s, c, p), w), eval(m, w) + c * w(s), p),
{
    let v = (coeff(m, s) + c) % p;
    lemma_eval_update(m, s, v, w);
    let base = eval(m, w) - coeff(m, s) * w(s);
    vstd::arithmetic::div_mod::lemma_mod_twice(coeff(m, s) + c, p);
    lemma_cong_mul(v, coeff(m, s) + c, w(s), p);
    lemma_cong_add(base, base, v * w(s), (coeff(m, s) + c) * w(s), p);
    assert(base + (coeff(m, s) + c) * w(s) == eval(m, w) + c * w(s)) by (nonlinear_arith)
        requires
            base == eval(m, w) - coeff(m, s) * w(s),
    ;
}

/// Adding two combinations adds their values.
pub proof fn lemma_eval_added(m0: Map<usize, int>, m1: Map<usize, int>, p: int, w: spec_fn(usize) -> int)
    requires
        p > 0,
        m0.dom().finite(),
        m1.dom().finite(),
    ensures
        congruent(eval(added(m0, m1, p), w), eval(m0, w) + eval(m1, w), p),
    decreases m0.len(),
{
    if m0.len() > 0 {
        let j = m0.dom().choose();
        assert(m0.contains_key(j));
        let m1j = crate::coefficients::plus_symbol(m1, j, m0[j], p);
        assert(added(m0, m1, p) =~= added(m0.remove(j), m1j, p));
        lemma_eval_added(m0.remove(j), m1j, p, w);
        lemma_eval_plus_symbol(m1, j, m0[j], p, w);
        lemma_eval_remove(m0, j, w);
        let e0 = eval(m0.remove(j), w);
        lemma_cong_add(e0, e0, eval(m1j, w), eval(m1, w) + m0[j] * w(j), p);
    } else {
        assert(m0.dom() =~= Set::<usize>::empty());
        assert(added(m0, m1, p) =~= m1);
    }
}

/// A field quotient times the divisor gives back the dividend.
pub proof fn lemma_field_div(a: int, b: int, p: int)
    requires
        p > 0,
        crate::modular_arithmetic::invertible(b, p),
    ensures
        congruent(crate::modular_arithmetic::field_div(a, b, p) * b, a, p),
{
    let y = choose|y: int| #[trigger] ((b * y) % p) == 1int % p;
    crate::modular_arithmetic::lemma_div_result(a, b, y, p);
    let q = (a * y) % p;
    assert(0 <= q < p && crate::modular_arithmetic::modulus(q * b, p) == crate::modular_arithmetic::modulus(a, p));
}

/// Dividing every coefficient by `k` divides the value by `k`.
pub proof fn lemma_eval_divided(m: Map<usize, int>, k: int, p: int, w: spec_fn(usize) -> int)
    requires
        p > 0,
        m.dom().finite(),
        crate::modular_arithmetic::invertible(k, p),
    ensures
        congruent(eval(m, w), k * eval(crate::coefficients::divided(m, k, p), w), p),
{
    let d = crate::coefficients::divided(m, k, p);
    assert(m.dom() =~= d.dom());
    assert forall|s: usize| #[trigger] m.contains_key(s) implies congruent(m[s], k * d[s], p) by {
        lemma_field_div(m[s], k, p);
        assert(d[s] * k == k * d[s]) by (nonlinear_arith);
    }
    lemma_eval_pointwise(m, d, k, p, w);
}

proof fn lemma_cong_mul2(a: int, b: int, c: int, d: int, p: int)
    requires
        p > 0,
        congruent(a, b, p),
        congruent(c, d, p),
    ensures
        congruent(a * c, b * d, p),
{
    lemma_cong_mul(a, b, c, p);
    lemma_cong_mul(c, d, b, p);
}

proof fn lemma_cong_neg(a: int, b: int, p: int)
    requires
        p > 0,
        congruent(a, b, p),
    ensures
        congruent(-a, -b, p),
{
    lemma_cong_mul(a, b, -1, p);
    assert(a * -1 == -a && b * -1 == -b) by (nonlinear_arith);
}

/// A multiple of an invertible element is zero only when the other factor is.
proof fn lemma_cancel_invertible(k: int, d: int, p: int)
    requires
        p > 0,
        crate::modular_arithmetic::invertible(k, p),
        congruent(k * d, 0, p),
    ensures
        congruent(d, 0, p),
{
    let y = choose|y: int| #[trigger] ((k * y) % p) == 1int % p;
    lemma_cong_mul(k * d, 0, y, p);
    assert((k * d) * y == d * (k * y)) by (nonlinear_arith);
    lemma_cong_mul(k * y, 1, d, p);
    assert(0 * y == 0);
}

/// The value of the combination `0`.
pub proof fn lemma_eval_zero_map(w: spec_fn(usize) -> int)
    ensures
        eval(crate::coefficients::zero_map(), w) == 0,
{
    let z = crate::coefficients::zero_map();
    lemma_eval_remove(z, constant_symbol(), w);
    assert(z.remove(constant_symbol()) =~= Map::<usize, int>::empty());
    assert(Map::<usize, int>::empty().len() == 0);
    let w0 = w(constant_symbol());
    assert(0 * w0 == 0);
}

/// Adding `v` to the constant term adds `v` to the value when the constant
/// signal has the value 1.
pub proof fn lemma_eval_plus_constant(m: Map<usize, int>, v: int, p: int, w: spec_fn(usize) -> int)
    requires
        p > 0,
        m.dom().finite(),
        crate::coefficients::has_constant(m),
        w(constant_symbol()) == 1,
    ensures
        congruent(eval(crate::coefficients::plus_constant(m, v, p), w), eval(m, w) + v, p),
{
    assert(crate::coefficients::plus_constant(m, v, p) =~= crate::coefficients::plus_symbol(m, constant_symbol(), v, p));
    lemma_eval_plus_symbol(m, constant_symbol(), v, p, w);
    assert(v * 1 == v);
}

/// Replacing a signal by a linear combination keeps the value of a linear
/// combination, under any assignment in which the signal has the value of
/// the combination that replaces it.
pub proof fn law_substitution_keeps_value(
    change: Map<usize, int>,
    from: usize,
    to: Map<usize, int>,
    p: int,
    w: spec_fn(usize) -> int,
)
    requires
        p > 0,
        change.dom().finite(),
        to.dom().finite(),
        congruent(w(from), eval(to, w), p),
    ensures
        congruent(eval(crate::coefficients::substituted(change, from, to, p), w), eval(change, w), p),
{
    let c1 = initialized(change);
    lemma_eval_initialized(change, w);
    if change.contains_key(from) {
        let k = change[from];
        assert(c1[from] == k);
        let st = scaled(initialized(to), k, p);
        let rest = c1.remove(from);
        assert(st.dom() =~= initialized(to).dom());
        lemma_eval_added(st, rest, p, w);
        lemma_eval_scaled(initialized(to), k, p, w);
        lemma_eval_initialized(to, w);
        lemma_cong_mul(eval(to, w), w(from), k, p);
        lemma_eval_remove(c1, from, w);
        assert(k * w(from) == w(from) * k) by (nonlinear_arith);
        lemma_cong_add(eval(st, w), k * w(from), eval(rest, w), eval(rest, w), p);
    }
}

/// Replacing a signal by a linear combination that does not mention it
/// leaves no trace of the signal (the constant term cannot be replaced
/// away, as every result holds it).
pub proof fn law_substitution_eliminates(change: Map<usize, int>, from: usize, to: Map<usize, int>, p: int)
    requires
        from != constant_symbol(),
        !to.contains_key(from),
    ensures
        !crate::coefficients::substituted(change, from, to, p).contains_key(from),
{
}

/// Solving a linear constraint for one of its signals is sound: under any
/// assignment, `C = 0` holds in the field exactly when the signal has the
/// value of the combination that `clear_signal_from_linear` gives for it.
pub proof fn law_cleared_signal_equivalent(c: Map<usize, int>, s: usize, p: int, w: spec_fn(usize) -> int)
    requires
        p > 0,
        c.dom().finite(),
        c.contains_key(s),
        crate::modular_arithmetic::invertible(crate::modular_arithmetic::modulus(c[s] * -1, p), p),
    ensures
        congruent(eval(c, w), 0, p) <==> congruent(
            w(s),
            eval(crate::constraint::cleared(c, s, crate::modular_arithmetic::modulus(c[s] * -1, p), p), w),
            p,
        ),
{
    let k = crate::modular_arithmetic::modulus(c[s] * -1, p);
    let d = initialized(c.remove(s));
    let q = crate::coefficients::divided(d, k, p);
    let e = eval(q, w);
    let ws = w(s);
    let cs = c[s];
    let rest = eval(c.remove(s), w);
    assert(q.dom() =~= d.dom());
    lemma_eval_without_zeros(q, w);
    lemma_eval_divided(d, k, p, w);
    lemma_eval_initialized(c.remove(s), w);
    lemma_eval_remove(c, s, w);
    // eval(c) = cs*ws + rest, with rest ≡ k*e and k ≡ -cs
    vstd::arithmetic::div_mod::lemma_mod_twice(cs * -1, p);
    assert(congruent(k, -cs, p)) by {
        assert(cs * -1 == -cs) by (nonlinear_arith);
    }
    lemma_cong_mul(k, -cs, e, p);
    lemma_cong_mul(k, -cs, ws, p);
    lemma_cong_add(cs * ws, cs * ws, rest, k * e, p);
    // eval(c) ≡ cs*ws + k*e ≡ k*e - k*ws
    assert(cs * ws + k * e - (k * e - k * ws) == (cs + k) * ws) by (nonlinear_arith);
    vstd::arithmetic::div_mod::lemma_add_mod_noop(cs, k, p);
    assert(congruent(cs + k, 0, p)) by {
        lemma_cong_add(cs, cs, k, -cs, p);
    }
    lemma_cong_mul(cs + k, 0, ws, p);
    assert(0 * ws == 0);
    lemma_cong_add(k * e - k * ws, k * e - k * ws, (cs + k) * ws, 0, p);
    assert(congruent(eval(c, w), k * e - k * ws, p));
    assert(k * e - k * ws == k * (e - ws)) by (nonlinear_arith);
    if congruent(eval(c, w), 0, p) {
        lemma_cancel_invertible(k, e - ws, p);
        lemma_cong_add(e - ws, 0, ws, ws, p);
    }
    if congruent(ws, e, p) {
        lemma_cong_mul(ws, e, k, p);
        lemma_cong_neg(k * ws, k * e, p);
        lemma_cong_add(k * e, k * e, -(k * ws), -(k * e), p);
    }
}

/// An assignment gives the constant signal the value 1.
pub open spec fn is_assignment(w: spec_fn(usize) -> int) -> bool {
    w(constant_symbol()) == 1
}

/// Every linear combination in the expression has finitely many signals,
/// as in every expression that the library builds.
pub open spec fn model_finite(e: ArithModel) -> bool {
    match e {
        ArithModel::Linear(c) => c.dom().finite(),
        ArithModel::Quadratic(a, b, c) => a.dom().finite() && b.dom().finite() && c.dom().finite(),
        _ => true,
    }
}

/// Value of an expression under an assignment: `a*b + c` for a quadratic
/// one (0 for a non-quadratic one, which has no value here).
pub open spec fn eval_expr(e: ArithModel, w: spec_fn(usize) -> int) -> int {
    match e {
        ArithModel::Number(v) => v,
        ArithModel::Signal(s) => w(s),
        ArithModel::Linear(c) => eval(c, w),
        ArithModel::Quadratic(a, b, c) => eval(a, w) * eval(b, w) + eval(c, w),
        ArithModel::NonQuadratic => 0,
    }
}

proof fn lemma_eval_one_signal(s: usize, c: int, p: int, w: spec_fn(usize) -> int)
    requires
        p > 0,
    ensures
        plus_symbol(zero_map(), s, c, p).dom().finite(),
        congruent(eval(plus_symbol(zero_map(), s, c, p), w), c * w(s), p),
{
    lemma_eval_zero_map(w);
    lemma_eval_plus_symbol(zero_map(), s, c, p, w);
}

proof fn lemma_quadratic_plus(x: int, y: int, e: int, f: int, p: int)
    requires
        p > 0,
        congruent(e, f, p),
    ensures
        congruent(x * y + e, x * y + f, p),
{
    lemma_cong_add(x * y, x * y, e, f, p);
}

/// `add` computes the sum: whenever the sum is not left non-quadratic, its
/// value is the sum of the values, in the field.
pub proof fn law_add_value(l: ArithModel, r: ArithModel, p: int, w: spec_fn(usize) -> int)
    requires
        p > 0,
        is_assignment(w),
        model_finite(l),
        model_finite(r),
        add_defined(l, r),
    ensures
        add_model(l, r, p) is NonQuadratic <==> (l is NonQuadratic || r is NonQuadratic || (l is Quadratic
            && r is Quadratic)),
        !(add_model(l, r, p) is NonQuadratic) ==> congruent(
            eval_expr(add_model(l, r, p), w),
            eval_expr(l, w) + eval_expr(r, w),
            p,
        ),
{
    match (l, r) {
        (ArithModel::Number(v0), ArithModel::Number(v1)) => {
            vstd::arithmetic::div_mod::lemma_mod_twice(v0 + v1, p);
        },
        (ArithModel::Number(v), ArithModel::Signal(s)) => {
            let m = crate::coefficients::plus_constant(zero_map(), v, p);
            lemma_eval_zero_map(w);
            lemma_eval_plus_constant(zero_map(), v, p, w);
            lemma_eval_plus_symbol(m, s, 1, p, w);
            lemma_cong_add(eval(m, w), v, w(s), w(s), p);
        },
        (ArithModel::Signal(s), ArithModel::Number(v)) => {
            let m = crate::coefficients::plus_constant(zero_map(), v, p);
            lemma_eval_zero_map(w);
            lemma_eval_plus_constant(zero_map(), v, p, w);
            lemma_eval_plus_symbol(m, s, 1, p, w);
            lemma_cong_add(eval(m, w), v, w(s), w(s), p);
        },
        (ArithModel::Number(v), ArithModel::Linear(c)) => {
            lemma_eval_plus_constant(c, v, p, w);
        },
        (ArithModel::Linear(c), ArithModel::Number(v)) => {
            lemma_eval_plus_constant(c, v, p, w);
        },
        (ArithModel::Number(v), ArithModel::Quadratic(a, b, c)) => {
            lemma_eval_plus_constant(c, v, p, w);
            lemma_quadratic_plus(eval(a, w), eval(b, w), eval(crate::coefficients::plus_constant(c, v, p), w), eval(c, w) + v, p);
        },
        (ArithModel::Quadratic(a, b, c), ArithModel::Number(v)) => {
            lemma_eval_plus_constant(c, v, p, w);
            lemma_quadratic_plus(eval(a, w), eval(b, w), eval(crate::coefficients::plus_constant(c, v, p), w), eval(c, w) + v, p);
        },
        (ArithModel::Signal(s0), ArithModel::Signal(s1)) => {
            lemma_eval_one_signal(s0, 1, p, w);
            lemma_eval_plus_symbol(plus_symbol(zero_map(), s0, 1, p), s1, 1, p, w);
            lemma_cong_add(eval(plus_symbol(zero_map(), s0, 1, p), w), w(s0), w(s1), w(s1), p);
        },
        (ArithModel::Signal(s), ArithModel::Linear(c)) => {
            lemma_eval_plus_symbol(c, s, 1, p, w);
        },
        (ArithModel::Linear(c), ArithModel::Signal(s)) => {
            lemma_eval_plus_symbol(c, s, 1, p, w);
        },
        (ArithModel::Signal(s), ArithModel::Quadratic(a, b, c)) => {
            lemma_eval_plus_symbol(c, s, 1, p, w);
            lemma_quadratic_plus(eval(a, w), eval(b, w), eval(plus_symbol(c, s, 1, p), w), eval(c, w) + w(s), p);
        },
        (ArithModel::Quadratic(a, b, c), ArithModel::Signal(s)) => {
            lemma_eval_plus_symbol(c, s, 1, p, w);
            lemma_quadratic_plus(eval(a, w), eval(b, w), eval(plus_symbol(c, s, 1, p), w), eval(c, w) + w(s), p);
        },
        (ArithModel::Linear(c0), ArithModel::Linear(c1)) => {
            lemma_eval_added(c0, c1, p, w);
        },
        (ArithModel::Linear(c0), ArithModel::Quadratic(a, b, c)) => {
            lemma_eval_added(c0, c, p, w);
            lemma_quadratic_plus(eval(a, w), eval(b, w), eval(added(c0, c, p), w), eval(c0, w) + eval(c, w), p);
        },
        (ArithModel::Quadratic(a, b, c), ArithModel::Linear(c0)) => {
            lemma_eval_added(c0, c, p, w);
            lemma_quadratic_plus(eval(a, w), eval(b, w), eval(added(c0, c, p), w), eval(c0, w) + eval(c, w), p);
        },
        _ => {},
    }
}

proof fn lemma_quadratic_scaled(x: int, xs: int, y: int, z: int, zs: int, v: int, p: int)
    requires
        p > 0,
        congruent(xs, v * x, p),
        congruent(zs, v * z, p),
    ensures
        congruent(xs * y + zs, v * (x * y + z), p),
{
    lemma_cong_mul(xs, v * x, y, p);
    lemma_cong_add(xs * y, (v * x) * y, zs, v * z, p);
    assert((v * x) * y + v * z == v * (x * y + z)) by (nonlinear_arith);
}

/// `mul` computes the product: whenever the product is not left
/// non-quadratic, its value is the product of the values, in the field.
pub proof fn law_mul_value(l: ArithModel, r: ArithModel, p: int, w: spec_fn(usize) -> int)
    requires
        p > 0,
        model_finite(l),
        model_finite(r),
    ensures
        mul_model(l, r, p) is NonQuadratic <==> (l is NonQuadratic || r is NonQuadratic || (l is Quadratic
            && !(r is Number)) || (r is Quadratic && !(l is Number))),
        !(mul_model(l, r, p) is NonQuadratic) ==> congruent(
            eval_expr(mul_model(l, r, p), w),
            eval_expr(l, w) * eval_expr(r, w),
            p,
        ),
{
    lemma_eval_zero_map(w);
    match (l, r) {
        (ArithModel::Number(v0), ArithModel::Number(v1)) => {
            vstd::arithmetic::div_mod::lemma_mod_twice(v0 * v1, p);
        },
        (ArithModel::Number(v), ArithModel::Signal(s)) => {
            lemma_eval_one_signal(s, v, p, w);
        },
        (ArithModel::Signal(s), ArithModel::Number(v)) => {
            lemma_eval_one_signal(s, v, p, w);
            assert(v * w(s) == w(s) * v) by (nonlinear_arith);
        },
        (ArithModel::Number(v), ArithModel::Linear(c)) => {
            lemma_eval_scaled(c, v, p, w);
        },
        (ArithModel::Linear(c), ArithModel::Number(v)) => {
            lemma_eval_scaled(c, v, p, w);
            assert(v * eval(c, w) == eval(c, w) * v) by (nonlinear_arith);
        },
        (ArithModel::Number(v), ArithModel::Quadratic(a, b, c)) => {
            lemma_eval_scaled(a, v, p, w);
            lemma_eval_scaled(c, v, p, w);
            lemma_quadratic_scaled(eval(a, w), eval(scaled(a, v, p), w), eval(b, w), eval(c, w), eval(scaled(c, v, p), w), v, p);
        },
        (ArithModel::Quadratic(a, b, c), ArithModel::Number(v)) => {
            lemma_eval_scaled(a, v, p, w);
            lemma_eval_scaled(c, v, p, w);
            lemma_quadratic_scaled(eval(a, w), eval(scaled(a, v, p), w), eval(b, w), eval(c, w), eval(scaled(c, v, p), w), v, p);
            let q = eval(a, w) * eval(b, w) + eval(c, w);
            assert(v * q == q * v) by (nonlinear_arith);
        },
        (ArithModel::Signal(s0), ArithModel::Signal(s1)) => {
            lemma_eval_one_signal(s0, 1, p, w);
            lemma_eval_one_signal(s1, 1, p, w);
            lemma_cong_mul2(eval(plus_symbol(zero_map(), s0, 1, p), w), 1 * w(s0), eval(plus_symbol(zero_map(), s1, 1, p), w), 1 * w(s1), p);
        },
        (ArithModel::Signal(s), ArithModel::Linear(c)) => {
            lemma_eval_one_signal(s, 1, p, w);
            lemma_cong_mul(eval(plus_symbol(zero_map(), s, 1, p), w), 1 * w(s), eval(c, w), p);
            assert(w(s) * eval(c, w) == eval(c, w) * w(s)) by (nonlinear_arith);
        },
        (ArithModel::Linear(c), ArithModel::Signal(s)) => {
            lemma_eval_one_signal(s, 1, p, w);
            lemma_cong_mul(eval(plus_symbol(zero_map(), s, 1, p), w), 1 * w(s), eval(c, w), p);
        },
        _ => {},
    }
}

/// Value `A*B - C` of a constraint; the constraint holds where it is zero.
pub open spec fn eval_constraint(m: (Map<usize, int>, Map<usize, int>, Map<usize, int>), w: spec_fn(usize) -> int) -> int {
    eval(m.0, w) * eval(m.1, w) - eval(m.2, w)
}

proof fn lemma_minus_scaled(m: Map<usize, int>, p: int, w: spec_fn(usize) -> int)
    requires
        p > 0,
        m.dom().finite(),
    ensures
        congruent(-eval(scaled(m, -1, p), w), eval(m, w), p),
{
    lemma_eval_scaled(m, -1, p, w);
    lemma_cong_neg(eval(scaled(m, -1, p), w), -1 * eval(m, w), p);
}

/// The constraint that `transform_expression_to_constraint_form` makes of an
/// expression has the value of the expression: it holds exactly where the
/// expression is zero.
pub proof fn law_constraint_form_value(e: ArithModel, p: int, w: spec_fn(usize) -> int)
    requires
        p > 0,
        is_assignment(w),
        model_finite(e),
        !(e is NonQuadratic),
    ensures
        congruent(eval_constraint(constraint_form_model(e, p), w), eval_expr(e, w), p),
{
    lemma_eval_zero_map(w);
    assert(eval(zero_map(), w) * eval(zero_map(), w) == 0);
    match e {
        ArithModel::Quadratic(a, b, c) => {
            lemma_minus_scaled(c, p, w);
            lemma_quadratic_plus(eval(a, w), eval(b, w), -eval(scaled(c, -1, p), w), eval(c, w), p);
        },
        ArithModel::Number(v) => {
            let m = zero_map().insert(constant_symbol(), v);
            lemma_eval_update(zero_map(), constant_symbol(), v, w);
            lemma_minus_scaled(m, p, w);
            assert(v * 1 == v);
        },
        ArithModel::Signal(s) => {
            let m = zero_map().insert(s, 1);
            lemma_eval_update(zero_map(), s, 1, w);
            lemma_minus_scaled(m, p, w);
            assert(coeff(zero_map(), s) == 0);
            let ws = w(s);
            assert(0 * ws == 0 && 1 * ws == ws) by (nonlinear_arith);
            assert(eval(m, w) == ws);
        },
        ArithModel::Linear(c) => {
            lemma_minus_scaled(c, p, w);
        },
        ArithModel::NonQuadratic => {},
    }
}

/// The constraint that `substitution_into_constraint` makes of a
/// substitution `from = to` (with `to` not mentioning `from`) has the value
/// `to - from`: it holds exactly where the substitution does.
pub proof fn law_substitution_constraint_value(from: usize, to: Map<usize, int>, p: int, w: spec_fn(usize) -> int)
    requires
        p > 0,
        to.dom().finite(),
        !to.contains_key(from),
    ensures
        congruent(
            eval_constraint((zero_map(), zero_map(), scaled(
                initialized(to).insert(from, crate::bigint::trunc_rem(-1, p)),
                -1,
                p,
            )), w),
            eval(to, w) - w(from),
            p,
        ),
{
    let t = crate::bigint::trunc_rem(-1, p);
    let it = initialized(to);
    let m = it.insert(from, t);
    lemma_eval_zero_map(w);
    lemma_eval_initialized(to, w);
    lemma_eval_update(it, from, t, w);
    assert(coeff(it, from) == 0);
    lemma_minus_scaled(m, p, w);
    // t = -1 - p * q, so t is -1 in the field
    let q = crate::bigint::trunc_div(-1, p);
    assert(t == p * (-q) + -1) by (nonlinear_arith)
        requires
            t == -1 - p * q,
    ;
    vstd::arithmetic::div_mod::lemma_mod_multiples_vanish(-q, -1, p);
    lemma_cong_mul(t, -1, w(from), p);
    lemma_cong_add(eval(to, w), eval(to, w), t * w(from), -1 * w(from), p);
}

/// The linear combinations of a substituted expression stay finite.
proof fn lemma_substituted_finite(c: Map<usize, int>, from: usize, to: Map<usize, int>, p: int)
    requires
        c.dom().finite(),
        to.dom().finite(),
    ensures
        crate::coefficients::substituted(c, from, to, p).dom().finite(),
{
    if c.contains_key(from) {
        let c1 = initialized(c);
        let st = scaled(initialized(to), c[from], p);
        assert(st.dom() =~= initialized(to).dom());
        assert(added(st, c1.remove(from), p).dom() =~= st.dom() + c1.remove(from).dom());
    }
}

/// Substituting a signal by a linear combination keeps the value of an
/// expression, under any assignment in which the signal has the value of
/// the combination.
pub proof fn law_expression_substitution_keeps_value(
    e: ArithModel,
    from: usize,
    to: Map<usize, int>,
    p: int,
    w: spec_fn(usize) -> int,
)
    requires
        p > 0,
        model_finite(e),
        to.dom().finite(),
        congruent(w(from), eval(to, w), p),
    ensures
        model_finite(substituted_model(e, from, to, p)),
        congruent(eval_expr(substituted_model(e, from, to, p), w), eval_expr(e, w), p),
{
    match e {
        ArithModel::Linear(c) => {
            let sc = crate::coefficients::substituted(c, from, to, p);
            lemma_substituted_finite(c, from, to, p);
            law_substitution_keeps_value(c, from, to, p, w);
            lemma_eval_without_zeros(sc, w);
            assert(without_zeros(sc).dom().subset_of(sc.dom()));
            vstd::set_lib::lemma_set_subset_finite(sc.dom(), without_zeros(sc).dom());
        },
        ArithModel::Quadratic(a, b, c) => {
            let sa = crate::coefficients::substituted(a, from, to, p);
            let sb = crate::coefficients::substituted(b, from, to, p);
            let sc = crate::coefficients::substituted(c, from, to, p);
            lemma_substituted_finite(a, from, to, p);
            lemma_substituted_finite(b, from, to, p);
            lemma_substituted_finite(c, from, to, p);
            law_substitution_keeps_value(a, from, to, p, w);
            law_substitution_keeps_value(b, from, to, p, w);
            law_substitution_keeps_value(c, from, to, p, w);
            lemma_eval_without_zeros(sa, w);
            lemma_eval_without_zeros(sb, w);
            lemma_eval_without_zeros(sc, w);
            assert(without_zeros(sa).dom().subset_of(sa.dom()));
            assert(without_zeros(sb).dom().subset_of(sb.dom()));
            assert(without_zeros(sc).dom().subset_of(sc.dom()));
            vstd::set_lib::lemma_set_subset_finite(sa.dom(), without_zeros(sa).dom());
            vstd::set_lib::lemma_set_subset_finite(sb.dom(), without_zeros(sb).dom());
            vstd::set_lib::lemma_set_subset_finite(sc.dom(), without_zeros(sc).dom());
            lemma_cong_mul2(eval(sa, w), eval(a, w), eval(sb, w), eval(b, w), p);
            lemma_cong_add(eval(sa, w) * eval(sb, w), eval(a, w) * eval(b, w), eval(sc, w), eval(c, w), p);
        },
        _ => {},
    }
}

/// The renamed combination has finitely many signals.
proof fn lemma_relabeled_finite(r: Map<usize, int>, m: Map<usize, int>, f: spec_fn(usize) -> usize)
    requires
        m.dom().finite(),
        relabeled(r, m, f),
    ensures
        r.dom().finite(),
{
    m.dom().lemma_map_finite(f);
    assert forall|t: usize| #[trigger] r.dom().contains(t) implies m.dom().map(f).contains(t) by {
        let s = choose|s: usize| m.contains_key(s) && f(s) == t && r[t] == m[s];
        assert(m.dom().contains(s) && f(s) == t);
    }
    vstd::set_lib::lemma_set_subset_finite(m.dom().map(f), r.dom());
}

/// Renaming the signals injectively keeps the value of a linear combination
/// under the assignment read through the renaming: signal `s` of the
/// given combination takes the value that `f(s)` has.  (`apply_correspondence` and
/// `apply_witness` rename so.)
pub proof fn law_relabel_keeps_value(r: Map<usize, int>, m: Map<usize, int>, f: spec_fn(usize) -> usize, w: spec_fn(usize) -> int)
    requires
        m.dom().finite(),
        relabeled(r, m, f),
        forall|x: usize, y: usize| m.contains_key(x) && m.contains_key(y) && #[trigger] f(x) == #[trigger] f(y) ==> x == y,
    ensures
        eval(r, w) == eval(m, |s: usize| w(f(s))),
    decreases m.len(),
{
    let wf = |s: usize| w(f(s));
    lemma_relabeled_finite(r, m, f);
    if m.len() > 0 {
        let j = m.dom().choose();
        assert(m.contains_key(j));
        crate::coefficients::lemma_relabeled_injective(r, m, f, j);
        let r1 = r.remove(f(j));
        let m1 = m.remove(j);
        assert forall|t: usize| #[trigger] r1.contains_key(t) implies exists|s: usize|
            m1.contains_key(s) && f(s) == t && r1[t] == m1[s] by {
            let s = choose|s: usize| m.contains_key(s) && f(s) == t && r[t] == m[s];
            assert(m1.contains_key(s) && f(s) == t && r1[t] == m1[s]);
        }
        assert forall|s: usize| #[trigger] m1.contains_key(s) implies r1.contains_key(f(s)) by {
            assert(r.contains_key(f(s)));
        }
        law_relabel_keeps_value(r1, m1, f, w);
        lemma_eval_remove(r, f(j), w);
        lemma_eval_remove(m, j, wf);
    } else {
        assert(m.dom() =~= Set::<usize>::empty());
        assert(r.dom() =~= Set::<usize>::empty()) by {
            assert forall|t: usize| !r.contains_key(t) by {
                if r.contains_key(t) {
                    let s = choose|s: usize| m.contains_key(s) && f(s) == t && r[t] == m[s];
                }
            }
        }
    }
}

/// The renaming that `apply_offset` performs: every signal but the
/// constant moves up by `offset`.
pub open spec fn offset_renaming(offset: usize) -> spec_fn(usize) -> usize {
    |s: usize| if s == constant_symbol() { constant_symbol() } else { (s + offset) as usize }
}

/// Moving the signals by an offset keeps the value of a linear combination
/// under the assignment read through the move.
pub proof fn law_offset_keeps_value(m: Map<usize, int>, offset: usize, w: spec_fn(usize) -> int)
    requires
        m.dom().finite(),
        forall|s: usize| #[trigger] m.contains_key(s) ==> s + offset <= usize::MAX,
    ensures
        eval(offset_map(m, offset), w) == eval(m, |s: usize| w(offset_renaming(offset)(s))),
{
    let f = offset_renaming(offset);
    let r = offset_map(m, offset);
    assert forall|s: usize| #[trigger] m.contains_key(s) implies r.contains_key(f(s)) by {
        if s != constant_symbol() {
            assert((s + offset) as usize - offset == s);
        }
    }
    assert forall|t: usize| #[trigger] r.contains_key(t) implies exists|s: usize|
        m.contains_key(s) && f(s) == t && r[t] == m[s] by {
        if t == constant_symbol() {
            assert(m.contains_key(t) && f(t) == t && r[t] == m[t]);
        } else {
            let s = (t - offset) as usize;
            assert(m.contains_key(s) && f(s) == t && r[t] == m[s]);
        }
    }
    law_relabel_keeps_value(r, m, f, w);
}

/// `div` by an invertible number computes the quotient: the value of the
/// result times the divisor is the value of the dividend, in the field.
pub proof fn law_div_value(l: ArithModel, v: int, p: int, w: spec_fn(usize) -> int)
    requires
        p > 0,
        model_finite(l),
        !(l is NonQuadratic),
        crate::modular_arithmetic::invertible(v, p),
    ensures
        div_model(l, ArithModel::Number(v), p) is Ok,
        congruent(eval_expr(div_model(l, ArithModel::Number(v), p)->Ok_0, w) * v, eval_expr(l, w), p),
{
    match l {
        ArithModel::Number(a) => {
            lemma_field_div(a, v, p);
        },
        ArithModel::Signal(s) => {
            let m = plus_symbol(zero_map(), s, 1, p);
            lemma_eval_one_signal(s, 1, p, w);
            lemma_eval_divided(m, v, p, w);
            let e = eval(crate::coefficients::divided(m, v, p), w);
            assert(v * e == e * v) by (nonlinear_arith);
        },
        ArithModel::Linear(c) => {
            lemma_eval_divided(c, v, p, w);
            let e = eval(crate::coefficients::divided(c, v, p), w);
            assert(v * e == e * v) by (nonlinear_arith);
        },
        ArithModel::Quadratic(a, b, c) => {
            lemma_eval_divided(a, v, p, w);
            lemma_eval_divided(c, v, p, w);
            let ea = eval(crate::coefficients::divided(a, v, p), w);
            let ec = eval(crate::coefficients::divided(c, v, p), w);
            let eb = eval(b, w);
            lemma_cong_mul(eval(a, w), v * ea, eb, p);
            lemma_cong_add(eval(a, w) * eb, (v * ea) * eb, eval(c, w), v * ec, p);
            assert((ea * eb + ec) * v == (v * ea) * eb + v * ec) by (nonlinear_arith);
        },
        ArithModel::NonQuadratic => {},
    }
}

/// In a prime field, division by any number that is not a multiple of the
/// prime succeeds, and multiplying the quotient back by the divisor gives
/// the value of the dividend.
pub proof fn law_div_value_prime(l: ArithModel, v: int, p: int, w: spec_fn(usize) -> int)
    requires
        crate::modular_arithmetic::is_prime(p),
        v % p != 0,
        model_finite(l),
        !(l is NonQuadratic),
    ensures
        div_model(l, ArithModel::Number(v), p) is Ok,
        congruent(eval_expr(div_model(l, ArithModel::Number(v), p)->Ok_0, w) * v, eval_expr(l, w), p),
{
    crate::modular_arithmetic::lemma_prime_invertible(v, p);
    law_div_value(l, v, p, w);
}

/// Every number and coefficient of the expression lies in the field
/// `[0, p)`, as in the expressions that the library builds from reduced
/// operands.
pub open spec fn model_in_field(e: ArithModel, p: int) -> bool {
    match e {
        ArithModel::Number(v) => 0 <= v < p,
        ArithModel::Linear(c) => forall|s: usize| #[trigger] c.contains_key(s) ==> 0 <= c[s] < p,
        ArithModel::Quadratic(a, b, c) => (forall|s: usize| #[trigger] a.contains_key(s) ==> 0 <= a[s] < p) && (forall|
            s: usize,
        |
            #[trigger] b.contains_key(s) ==> 0 <= b[s] < p) && (forall|s: usize| #[trigger] c.contains_key(s) ==> 0 <= c[s] < p),
        _ => true,
    }
}

/// The sum of two expressions in the field does not depend on the order of
/// its operands: the two sums are the same expression (where the sum is not
/// left non-quadratic, the library's `equals` holds between them).
pub proof fn law_add_commutative(l: ArithModel, r: ArithModel, p: int)
    requires
        p > 0,
        model_in_field(l, p),
        model_in_field(r, p),
    ensures
        add_model(l, r, p) == add_model(r, l, p),
        !(add_model(l, r, p) is NonQuadratic) ==> same_expression(add_model(l, r, p), add_model(r, l, p)),
{
    match (l, r) {
        (ArithModel::Signal(s0), ArithModel::Signal(s1)) => {
            let p0 = plus_symbol(plus_symbol(zero_map(), s0, 1, p), s1, 1, p);
            let p1 = plus_symbol(plus_symbol(zero_map(), s1, 1, p), s0, 1, p);
            assert(p0 =~= p1);
        },
        (ArithModel::Linear(c0), ArithModel::Linear(c1)) => {
            assert(added(c0, c1, p) =~= added(c1, c0, p)) by {
                assert forall|s: usize| #[trigger] added(c0, c1, p).contains_key(s) implies added(c0, c1, p)[s] == added(c1, c0, p)[s] by {
                    if c0.contains_key(s) && !c1.contains_key(s) {
                        assert(0 <= c0[s] < p);
                        vstd::arithmetic::div_mod::lemma_small_mod(c0[s] as nat, p as nat);
                    } else if c1.contains_key(s) && !c0.contains_key(s) {
                        assert(0 <= c1[s] < p);
                        vstd::arithmetic::div_mod::lemma_small_mod(c1[s] as nat, p as nat);
                    }
                }
            }
        },
        _ => {},
    }
}

/// The value of a linear combination that is a lone constant term `k`.
proof fn lemma_eval_constant_map(m: Map<usize, int>, w: spec_fn(usize) -> int)
    requires
        m.dom().finite(),
        is_constant_map(m),
        is_assignment(w),
    ensures
        eval(m, w) == m[constant_symbol()],
{
    lemma_eval_remove(m, constant_symbol(), w);
    assert(m.remove(constant_symbol()).len() == 0);
}

/// The linear part left of `x*y - c` for a constant `x` has the value of
/// `c - x*y`.
proof fn lemma_reduced_linear_value(x: Map<usize, int>, y: Map<usize, int>, c: Map<usize, int>, p: int, w: spec_fn(usize) -> int)
    requires
        p > 0,
        x.dom().finite(),
        y.dom().finite(),
        c.dom().finite(),
        is_constant_map(x),
        is_assignment(w),
    ensures
        congruent(-eval(reduced_linear(x, y, c, p), w), eval(x, w) * eval(y, w) - eval(c, w), p),
{
    let k = x[constant_symbol()];
    lemma_eval_constant_map(x, w);
    let iy = initialized(y);
    let ic = initialized(c);
    lemma_eval_initialized(y, w);
    lemma_eval_initialized(c, w);
    let sy = scaled(iy, k, p);
    assert(sy.dom() =~= iy.dom());
    let ny = scaled(sy, -1, p);
    assert(ny.dom() =~= sy.dom());
    let sum = added(ny, ic, p);
    assert(sum.dom() =~= ny.dom().union(ic.dom()));
    lemma_eval_without_zeros(sum, w);
    lemma_eval_added(ny, ic, p, w);
    lemma_eval_scaled(iy, k, p, w);
    lemma_eval_scaled(sy, -1, p, w);
    let ey = eval(y, w);
    let ec = eval(c, w);
    lemma_cong_mul(eval(sy, w), k * ey, -1, p);
    assert(-1 * eval(sy, w) == -eval(sy, w) && (k * ey) * -1 == -(k * ey)) by (nonlinear_arith);
    let en = eval(ny, w);
    assert(congruent(en, -(k * ey), p)) by {
        assert(congruent(en, -1 * eval(sy, w), p));
        assert(congruent(eval(sy, w) * -1, (k * ey) * -1, p));
        assert(eval(sy, w) * -1 == -1 * eval(sy, w)) by (nonlinear_arith);
    }
    lemma_cong_add(en, -(k * ey), ec, ec, p);
    let er = eval(reduced_linear(x, y, c, p), w);
    assert(er == eval(sum, w));
    assert(congruent(er, -(k * ey) + ec, p));
    lemma_cong_neg(er, -(k * ey) + ec, p);
}

/// Fixing a constraint keeps its value `A*B - C` in the field under every
/// assignment: dropping zero coefficients, a vanishing product, and folding
/// a constant factor into the linear part change nothing of it.
pub proof fn law_fix_constraint_value(
    a: Map<usize, int>,
    b: Map<usize, int>,
    c: Map<usize, int>,
    p: int,
    w: spec_fn(usize) -> int,
)
    requires
        p > 0,
        a.dom().finite(),
        b.dom().finite(),
        c.dom().finite(),
        is_assignment(w),
    ensures
        congruent(eval_constraint(fixed_model(a, b, c, p), w), eval_constraint((a, b, c), w), p),
{
    let a1 = without_zeros(a);
    let b1 = without_zeros(b);
    let c1 = without_zeros(c);
    lemma_eval_without_zeros(a, w);
    lemma_eval_without_zeros(b, w);
    lemma_eval_without_zeros(c, w);
    vstd::set_lib::lemma_set_subset_finite(a.dom(), a1.dom());
    vstd::set_lib::lemma_set_subset_finite(b.dom(), b1.dom());
    vstd::set_lib::lemma_set_subset_finite(c.dom(), c1.dom());
    let e = Map::<usize, int>::empty();
    assert(eval(e, w) == 0);
    if a1.is_empty() || b1.is_empty() {
        if a1.is_empty() {
            assert(a1 =~= e);
        } else {
            assert(b1 =~= e);
        }
        assert(eval(a1, w) * eval(b1, w) == 0) by (nonlinear_arith)
            requires
                eval(a1, w) == 0 || eval(b1, w) == 0,
        ;
    } else if is_constant_map(a1) {
        lemma_reduced_linear_value(a1, b1, c1, p, w);
    } else if is_constant_map(b1) {
        lemma_reduced_linear_value(b1, a1, c1, p, w);
        assert(eval(b1, w) * eval(a1, w) == eval(a1, w) * eval(b1, w)) by (nonlinear_arith);
    }
}

/// A power of a signal or of a linear part that stays quadratic is a
/// square: under every assignment its value is the square of the base's
/// value in the field. Squares of signals and of linear parts always stay
/// quadratic.
pub proof fn law_pow_value(l: ArithModel, e: int, p: int, w: spec_fn(usize) -> int)
    requires
        p > 0,
        model_finite(l),
        !(l is Number),
    ensures
        (l is Signal || l is Linear) && e == 2 ==> !(pow_model(l, ArithModel::Number(e), p) is NonQuadratic),
        !(pow_model(l, ArithModel::Number(e), p) is NonQuadratic) ==> congruent(
            eval_expr(pow_model(l, ArithModel::Number(e), p), w),
            eval_expr(l, w) * eval_expr(l, w),
            p,
        ),
{
    law_mul_value(l, l, p, w);
}

/// A power of two numbers in the field (base and exponent not negative)
/// is the number `base^exponent` reduced into the field.
pub proof fn law_pow_numbers(v0: int, v1: int, p: int)
    requires
        p > 0,
        v0 >= 0,
        v1 >= 0,
    ensures
        pow_model(ArithModel::Number(v0), ArithModel::Number(v1), p) == ArithModel::Number(
            vstd::arithmetic::power::pow(v0, v1 as nat) % p,
        ),
{
}

} // verus!
