//! Substitutions `from = to` of a signal by a linear combination, and
//! quadratic constraints `A*B - C = 0` over linear combinations.
use crate::algebra::{into_arith_model, sub_hint, sub_model, ArithModel, ArithmeticExpression, HintExpression, HintModel};
use crate::bigint::{trunc_rem, BigInt};
use crate::coefficients::{
    self, constant_symbol, cview, initialized, map_renaming, offset_map, relabeled, scaled, substituted,
    without_zeros, zero_map,
};
use std::collections::{BTreeSet, HashMap, HashSet};
use vstd::prelude::*;

verus! {

broadcast use {vstd::std_specs::hash::group_hash_axioms, vstd::std_specs::btree::group_btree_axioms, vstd::laws_cmp::group_laws_cmp};

/// A signal together with the linear combination that it equals.
pub struct Substitution {
    pub from: usize,
    pub to: HashMap<usize, BigInt>,
}

/// The linear combination that `Substitution::new` makes of an expression:
/// a number `v` is the constant `v`, a signal `t` is `1*t`, a linear
/// combination that does not mention `from` is itself; any other
/// expression gives none.
pub open spec fn substitution_target(from: usize, e: ArithModel) -> Option<Map<usize, int>> {
    match e {
        ArithModel::Number(v) => Some(Map::<usize, int>::empty().insert(constant_symbol(), v)),
        ArithModel::Signal(t) => Some(Map::<usize, int>::empty().insert(t, 1)),
        ArithModel::Linear(c) => if c.contains_key(from) { None } else { Some(c) },
        _ => None,
    }
}

impl Substitution {
    /// The signal that the substitution replaces.
    pub open spec fn from_symbol(&self) -> usize {
        self.from
    }

    /// The linear combination that replaces it.
    pub open spec fn to_map(&self) -> Map<usize, int> {
        cview(self.to)
    }

    /// The substitution `from = to`, when `to` is a number, a signal, or a
    /// linear combination that does not mention `from`.
    pub fn new(from: usize, to: ArithmeticExpression) -> (r: Option<Substitution>)
        ensures
            (match substitution_target(from, to.model()) {
                Some(t) => r matches Some(s) && s.from == from && s.to_map() == t,
                None => r is None,
            }),
    {
        match to {
            ArithmeticExpression::Number { value, .. } => {
                let mut m: HashMap<usize, BigInt> = HashMap::new();
                let ghost v = value@;
                m.insert(0, value);
                proof {
                    assert(cview(m) =~= Map::<usize, int>::empty().insert(constant_symbol(), v));
                }
                Some(Substitution { from, to: m })
            },
            ArithmeticExpression::Signal { symbol, .. } => {
                let mut m: HashMap<usize, BigInt> = HashMap::new();
                let one = BigInt::from_i64(1);
                m.insert(symbol, one);
                proof {
                    assert(cview(m) =~= Map::<usize, int>::empty().insert(symbol, 1));
                }
                Some(Substitution { from, to: m })
            },
            ArithmeticExpression::Linear { coefficients, .. } => {
                if !coefficients.contains_key(&from) {
                    Some(Substitution { from, to: coefficients })
                } else {
                    None
                }
            },
            _ => None,
        }
    }

    /// The substitution with its signals renamed through
    /// `symbol_correspondence`; the constant term keeps its place.
    pub fn apply_correspondence(substitution: &Substitution, symbol_correspondence: &HashMap<usize, usize>) -> (r: Substitution)
        requires
            symbol_correspondence@.contains_key(substitution.from),
            forall|s: usize| #[trigger] substitution.to@.contains_key(s) && s != constant_symbol()
                ==> symbol_correspondence@.contains_key(s),
        ensures
            r.from == symbol_correspondence@[substitution.from],
            relabeled(r.to_map(), substitution.to_map(), map_renaming(symbol_correspondence@)),
    {
        let from = *symbol_correspondence.get(&substitution.from).unwrap();
        let to = coefficients::apply_raw_correspondence(&substitution.to, symbol_correspondence);
        Substitution { to, from }
    }

    /// `apply_correspondence` on a substitution that is consumed.
    pub fn apply_correspondence_and_drop(substitution: Substitution, symbol_correspondence: &HashMap<usize, usize>) -> (r: Substitution)
        requires
            symbol_correspondence@.contains_key(substitution.from),
            forall|s: usize| #[trigger] substitution.to@.contains_key(s) && s != constant_symbol()
                ==> symbol_correspondence@.contains_key(s),
        ensures
            r.from == symbol_correspondence@[substitution.from],
            relabeled(r.to_map(), substitution.to_map(), map_renaming(symbol_correspondence@)),
    {
        Substitution::apply_correspondence(&substitution, symbol_correspondence)
    }

    /// The signal that stands for the constant term.
    pub fn constant_coefficient() -> (r: usize)
        ensures
            r == constant_symbol(),
    {
        0
    }

    /// Replaces the signal of `change` inside the linear combination of `src`.
    pub fn apply_substitution(src: &mut Substitution, change: &Substitution, field: &BigInt)
        requires
            field@ > 0,
        ensures
            final(src).from == old(src).from,
            final(src).to_map() == substituted(old(src).to_map(), change.from, change.to_map(), field@),
    {
        coefficients::raw_substitution(&mut src.to, change.from, &change.to, field);
    }

    /// The constraint `to - from = 0`: the coefficient of `from` is
    /// `-1 % field` (Rust's remainder), and the whole is negated in the field.
    pub fn substitution_into_constraint(substitution: Substitution, field: &BigInt) -> (r: Constraint)
        requires
            field@ > 0,
        ensures
            r.model() == (zero_map(), zero_map(), scaled(
                initialized(substitution.to_map()).insert(substitution.from, trunc_rem(-1, field@)),
                -1,
                field@,
            )),
    {
        let symbol = substitution.from;
        let mut coefficients = substitution.to;
        coefficients::initialize(&mut coefficients);
        let ghost before = coefficients;
        let minus_one = BigInt::rem_trunc(&BigInt::from_i64(-1), field);
        coefficients.insert(symbol, minus_one);
        proof {
            assert(cview(coefficients) =~= cview(before).insert(symbol, minus_one@));
        }
        let arith = ArithmeticExpression::Linear { coefficients, expr: HintExpression::Unknown };
        ArithmeticExpression::transform_expression_to_constraint_form(arith, field).unwrap()
    }

    /// The signal and its linear combination read back as the simplest
    /// expression (with an unknown hint).
    pub fn decompose(substitution: Substitution) -> (r: (usize, ArithmeticExpression))
        ensures
            r.0 == substitution.from,
            r.1.model() == into_arith_model(substitution.to_map()),
            r.1.hint() == HintModel::Unknown,
    {
        let from = substitution.from;
        let right = ArithmeticExpression::hashmap_into_arith(substitution.to);
        (from, right)
    }

    /// The expression `to - from`, which is zero exactly when the
    /// substitution holds.
    pub fn map_into_arith_expr(substitution: Substitution, field: &BigInt) -> (r: ArithmeticExpression)
        requires
            field@ > 0,
        ensures
            r.model() == sub_model(into_arith_model(substitution.to_map()), ArithModel::Signal(substitution.from), field@),
            r.hint() == sub_hint(HintModel::Unknown, HintModel::Unknown),
    {
        let (left, right) = Substitution::decompose(substitution);
        let left = ArithmeticExpression::Signal { symbol: left, expr: HintExpression::Unknown };
        ArithmeticExpression::sub(&right, &left, field)
    }

    /// The signal that the substitution replaces.
    pub fn from(&self) -> (r: &usize)
        ensures
            *r == self.from,
    {
        &self.from
    }

    /// The linear combination that replaces it.
    pub fn to(&self) -> (r: &HashMap<usize, BigInt>)
        ensures
            *r == self.to,
    {
        &self.to
    }

    /// The signals of the linear combination, without the constant term.
    pub fn take_cloned_signals(&self) -> (r: HashSet<usize>)
        ensures
            r@ == self.to@.dom().remove(constant_symbol()),
    {
        let mut signals: HashSet<usize> = HashSet::new();
        coefficients::insert_keys(&self.to, &mut signals);
        signals.remove(&0);
        proof {
            assert(signals@ =~= self.to@.dom().remove(constant_symbol()));
        }
        signals
    }

    /// The signals of the linear combination, without the constant term.
    pub fn take_signals(&self) -> (r: HashSet<usize>)
        ensures
            r@ == self.to@.dom().remove(constant_symbol()),
    {
        self.take_cloned_signals()
    }

    /// Drops the zero coefficients of the linear combination.
    pub fn rmv_zero_coefficients(substitution: &mut Substitution)
        ensures
            final(substitution).from == old(substitution).from,
            final(substitution).to_map() == without_zeros(old(substitution).to_map()),
    {
        let mut to: HashMap<usize, BigInt> = HashMap::new();
        std::mem::swap(&mut to, &mut substitution.to);
        substitution.to = coefficients::remove_zero_value_coefficients(to);
    }

    /// The signals of the linear combination in increasing order, without
    /// the constant term.
    pub fn take_cloned_signals_ordered(&self) -> (r: BTreeSet<usize>)
        ensures
            r@ == self.to@.dom().remove(constant_symbol()),
    {
        let mut signals: BTreeSet<usize> = BTreeSet::new();
        coefficients::insert_keys_ordered(&self.to, &mut signals);
        signals.remove(&0);
        proof {
            assert(signals@ =~= self.to@.dom().remove(constant_symbol()));
        }
        signals
    }

    /// The substitution with every signal but the constant moved up by
    /// `offset`.
    pub fn apply_offset(&self, offset: usize) -> (r: Substitution)
        requires
            self.from + offset <= usize::MAX,
            forall|s: usize| #[trigger] self.to@.contains_key(s) ==> s + offset <= usize::MAX,
        ensures
            r.from == self.from + offset,
            r.to_map() == offset_map(self.to_map(), offset),
    {
        let from = self.from + offset;
        let to = coefficients::apply_raw_offset(&self.to, offset);
        Substitution { from, to }
    }
}

/// A linear combination that is a lone constant term.
pub open spec fn is_constant_map(m: Map<usize, int>) -> bool {
    m.contains_key(constant_symbol()) && m.len() == 1
}

/// `c - k*y` for the constant term `k` of `x`, cleared of zero coefficients:
/// the linear part left of `x*y - c` when `x` is a constant.
pub open spec fn reduced_linear(x: Map<usize, int>, y: Map<usize, int>, c: Map<usize, int>, p: int) -> Map<usize, int> {
    without_zeros(
        coefficients::added(scaled(scaled(initialized(y), x[constant_symbol()], p), -1, p), initialized(c), p),
    )
}

/// A constraint after `fix_constraint`: zero coefficients are dropped; a
/// product with an empty factor vanishes; a product with a constant factor
/// is folded into the linear part.
pub open spec fn fixed_model(a: Map<usize, int>, b: Map<usize, int>, c: Map<usize, int>, p: int) -> (Map<usize, int>, Map<usize, int>, Map<usize, int>) {
    let a1 = without_zeros(a);
    let b1 = without_zeros(b);
    let c1 = without_zeros(c);
    if a1.is_empty() || b1.is_empty() {
        (Map::empty(), Map::empty(), c1)
    } else if is_constant_map(a1) {
        (Map::empty(), Map::empty(), reduced_linear(a1, b1, c1, p))
    } else if is_constant_map(b1) {
        (Map::empty(), Map::empty(), reduced_linear(b1, a1, c1, p))
    } else {
        (a1, b1, c1)
    }
}

/// After fixing, a constraint is either linear (`A` and `B` both empty) or a
/// product of two factors that both hold a signal: a product with a
/// vanishing factor, or with a factor that is only a constant, is always
/// folded into `C`; and no coefficient left in `A` or `B` is zero.
pub proof fn law_fixed_constraint_shape(a: Map<usize, int>, b: Map<usize, int>, c: Map<usize, int>, p: int)
    ensures
        fixed_model(a, b, c, p).0.is_empty() <==> fixed_model(a, b, c, p).1.is_empty(),
        !fixed_model(a, b, c, p).0.is_empty() ==> !(fixed_model(a, b, c, p).0.contains_key(constant_symbol())
            && fixed_model(a, b, c, p).0.len() == 1),
        !fixed_model(a, b, c, p).1.is_empty() ==> !(fixed_model(a, b, c, p).1.contains_key(constant_symbol())
            && fixed_model(a, b, c, p).1.len() == 1),
        forall|s: usize| #[trigger] fixed_model(a, b, c, p).0.contains_key(s) ==> fixed_model(a, b, c, p).0[s] != 0,
        forall|s: usize| #[trigger] fixed_model(a, b, c, p).1.contains_key(s) ==> fixed_model(a, b, c, p).1[s] != 0,
{
    let e = Map::<usize, int>::empty();
    assert(e.is_empty()) by {
        assert(e.dom() =~= Set::empty());
    }
}

/// The linear combination left when the signal `s` is cleared from `c = 0`
/// and the rest divided by `k`: `(c - c[s]*s) / k`, without zero
/// coefficients.
pub open spec fn cleared(c: Map<usize, int>, s: usize, k: int, p: int) -> Map<usize, int> {
    without_zeros(coefficients::divided(initialized(c.remove(s)), k, p))
}

/// `c` says that two signals are equal: two signals and no constant term,
/// the coefficient of the first being minus that of the second.
pub open spec fn equates_signals(c: Map<usize, int>, s0: usize, s1: usize, p: int) -> bool {
    &&& !c.contains_key(constant_symbol())
    &&& c.len() == 2
    &&& c.contains_key(s0)
    &&& c.contains_key(s1)
    &&& s0 != s1
    &&& crate::modular_arithmetic::modulus(-1 * c[s1], p) == c[s0]
}

/// With coefficients in the field, two signals that equate one way equate
/// the other way too, and they are the only two signals of `c`.
proof fn lemma_equates_both_ways(c: Map<usize, int>, s0: usize, s1: usize, p: int)
    requires
        p > 0,
        c.dom().finite(),
        equates_signals(c, s0, s1, p),
        forall|s: usize| #[trigger] c.contains_key(s) ==> 0 <= c[s] < p,
    ensures
        forall|t0: usize, t1: usize|
            #[trigger] c.contains_key(t0) && #[trigger] c.contains_key(t1) && t0 != t1
            ==> crate::modular_arithmetic::modulus(-1 * c[t1], p) == c[t0],
{
    let a = c[s1];
    let b = c[s0];
    assert(b == (-1 * a) % p);
    if a == 0 {
        assert(-1 * a == 0);
        vstd::arithmetic::div_mod::lemma_small_mod(0, p as nat);
        assert(b == 0);
        assert(-1 * b == 0);
    } else {
        assert(-1 * a == -a);
        vstd::arithmetic::div_mod::lemma_mod_add_multiples_vanish(-a, p);
        vstd::arithmetic::div_mod::lemma_small_mod((p - a) as nat, p as nat);
        assert(b == p - a);
        assert(-1 * b == a - p);
        vstd::arithmetic::div_mod::lemma_mod_add_multiples_vanish(a - p, p);
        vstd::arithmetic::div_mod::lemma_small_mod(a as nat, p as nat);
        assert((-1 * b) % p == a);
    }
    assert forall|t0: usize, t1: usize|
        #[trigger] c.contains_key(t0) && #[trigger] c.contains_key(t1) && t0 != t1
        implies crate::modular_arithmetic::modulus(-1 * c[t1], p) == c[t0] by {
        assert forall|t: usize| c.contains_key(t) implies t == s0 || t == s1 by {
            if t != s0 && t != s1 {
                let three = set![s0, s1, t];
                assert(three.subset_of(c.dom()));
                vstd::set_lib::lemma_len_subset(three, c.dom());
                assert(three.len() == 3) by {
                    assert(set![s0, s1].len() == 2);
                }
            }
        }
    }
}

/// A linear constraint on one signal: one signal with or without a
/// constant term.
pub open spec fn constant_equality(m: (Map<usize, int>, Map<usize, int>, Map<usize, int>)) -> bool {
    &&& m.0.is_empty()
    &&& m.1.is_empty()
    &&& ((m.2.contains_key(constant_symbol()) && m.2.len() == 2) || (!m.2.contains_key(constant_symbol())
        && m.2.len() == 1))
}

/// The signals of a constraint: those of `A`, `B` and `C` but the constant.
pub open spec fn constraint_signals(m: (Map<usize, int>, Map<usize, int>, Map<usize, int>)) -> Set<usize> {
    (m.0.dom() + m.1.dom() + m.2.dom()).remove(constant_symbol())
}

/// A quadratic constraint `A*B - C = 0` over linear combinations.
pub struct Constraint {
    pub a: HashMap<usize, BigInt>,
    pub b: HashMap<usize, BigInt>,
    pub c: HashMap<usize, BigInt>,
}

proof fn lemma_cview_empty(m: HashMap<usize, BigInt>)
    requires
        m@ == Map::<usize, BigInt>::empty(),
    ensures
        cview(m) == Map::<usize, int>::empty(),
{
    assert(cview(m) =~= Map::<usize, int>::empty());
}

/// Whether a linear combination is a lone constant term.
fn is_constant_expression(expr: &HashMap<usize, BigInt>) -> (r: bool)
    ensures
        r == is_constant_map(cview(*expr)),
{
    proof {
        coefficients::lemma_cview_dom(*expr);
    }
    expr.contains_key(&0) && expr.len() == 1
}

/// Folds the product of the constant `a` with the linear `b` into `c`.
fn constant_linear_linear_reduction(
    a: &mut HashMap<usize, BigInt>,
    b: &mut HashMap<usize, BigInt>,
    c: &mut HashMap<usize, BigInt>,
    field: &BigInt,
)
    requires
        field@ > 0,
        cview(*old(a)).contains_key(constant_symbol()),
    ensures
        cview(*final(a)) == Map::<usize, int>::empty(),
        cview(*final(b)) == Map::<usize, int>::empty(),
        cview(*final(c)) == reduced_linear(cview(*old(a)), cview(*old(b)), cview(*old(c)), field@),
{
    let ghost a0 = cview(*a);
    coefficients::initialize(c);
    coefficients::initialize(b);
    let constant = a.remove(&0).unwrap();
    coefficients::multiply(&constant, b, field);
    coefficients::multiply(&BigInt::from_i64(-1), b, field);
    coefficients::add_coefficients(b, c, field);
    let mut tmp: HashMap<usize, BigInt> = HashMap::new();
    std::mem::swap(&mut tmp, c);
    *c = coefficients::remove_zero_value_coefficients(tmp);
    a.clear();
    b.clear();
    proof {
        lemma_cview_empty(*a);
        lemma_cview_empty(*b);
    }
}

/// Drops zero coefficients and folds away products that are not quadratic.
fn fix_raw_constraint(
    a: &mut HashMap<usize, BigInt>,
    b: &mut HashMap<usize, BigInt>,
    c: &mut HashMap<usize, BigInt>,
    field: &BigInt,
)
    requires
        field@ > 0,
    ensures
        (cview(*final(a)), cview(*final(b)), cview(*final(c))) == fixed_model(cview(*old(a)), cview(*old(b)), cview(*old(c)), field@),
{
    let mut tmp: HashMap<usize, BigInt> = HashMap::new();
    std::mem::swap(&mut tmp, a);
    *a = coefficients::remove_zero_value_coefficients(tmp);
    let mut tmp: HashMap<usize, BigInt> = HashMap::new();
    std::mem::swap(&mut tmp, b);
    *b = coefficients::remove_zero_value_coefficients(tmp);
    let mut tmp: HashMap<usize, BigInt> = HashMap::new();
    std::mem::swap(&mut tmp, c);
    *c = coefficients::remove_zero_value_coefficients(tmp);
    proof {
        coefficients::lemma_cview_dom(*a);
        coefficients::lemma_cview_dom(*b);
    }
    if a.is_empty() || b.is_empty() {
        a.clear();
        b.clear();
        proof {
            lemma_cview_empty(*a);
            lemma_cview_empty(*b);
        }
    } else if is_constant_expression(a) {
        constant_linear_linear_reduction(a, b, c, field);
    } else if is_constant_expression(b) {
        constant_linear_linear_reduction(b, a, c, field);
    }
}

impl Constraint {
    /// The three linear combinations `A`, `B` and `C`.
    pub open spec fn model(&self) -> (Map<usize, int>, Map<usize, int>, Map<usize, int>) {
        (cview(self.a), cview(self.b), cview(self.c))
    }

    /// The constraint `a*b - c = 0`.
    pub fn new(a: HashMap<usize, BigInt>, b: HashMap<usize, BigInt>, c: HashMap<usize, BigInt>) -> (r: Constraint)
        ensures
            r.model() == (cview(a), cview(b), cview(c)),
    {
        Constraint { a, b, c }
    }

    /// The constraint with three empty linear combinations.
    pub fn empty() -> (r: Constraint)
        ensures
            r.model() == (Map::<usize, int>::empty(), Map::<usize, int>::empty(), Map::<usize, int>::empty()),
    {
        let a: HashMap<usize, BigInt> = HashMap::with_capacity(0);
        let b: HashMap<usize, BigInt> = HashMap::with_capacity(0);
        let c: HashMap<usize, BigInt> = HashMap::with_capacity(0);
        proof {
            lemma_cview_empty(a);
            lemma_cview_empty(b);
            lemma_cview_empty(c);
        }
        Constraint::new(a, b, c)
    }

    /// The signal that stands for the constant term.
    pub fn constant_coefficient() -> (r: usize)
        ensures
            r == constant_symbol(),
    {
        0
    }

    /// The constraint with its signals renamed through
    /// `symbol_correspondence`; the constant term keeps its place.
    pub fn apply_correspondence(constraint: &Constraint, symbol_correspondence: &HashMap<usize, usize>) -> (r: Constraint)
        requires
            forall|s: usize| #[trigger] constraint.a@.contains_key(s) && s != constant_symbol()
                ==> symbol_correspondence@.contains_key(s),
            forall|s: usize| #[trigger] constraint.b@.contains_key(s) && s != constant_symbol()
                ==> symbol_correspondence@.contains_key(s),
            forall|s: usize| #[trigger] constraint.c@.contains_key(s) && s != constant_symbol()
                ==> symbol_correspondence@.contains_key(s),
        ensures
            relabeled(r.model().0, constraint.model().0, map_renaming(symbol_correspondence@)),
            relabeled(r.model().1, constraint.model().1, map_renaming(symbol_correspondence@)),
            relabeled(r.model().2, constraint.model().2, map_renaming(symbol_correspondence@)),
    {
        let a = coefficients::apply_raw_correspondence(&constraint.a, symbol_correspondence);
        let b = coefficients::apply_raw_correspondence(&constraint.b, symbol_correspondence);
        let c = coefficients::apply_raw_correspondence(&constraint.c, symbol_correspondence);
        Constraint::new(a, b, c)
    }

    /// `apply_correspondence` on a constraint that is consumed.
    pub fn apply_correspondence_and_drop(constraint: Constraint, symbol_correspondence: &HashMap<usize, usize>) -> (r: Constraint)
        requires
            forall|s: usize| #[trigger] constraint.a@.contains_key(s) && s != constant_symbol()
                ==> symbol_correspondence@.contains_key(s),
            forall|s: usize| #[trigger] constraint.b@.contains_key(s) && s != constant_symbol()
                ==> symbol_correspondence@.contains_key(s),
            forall|s: usize| #[trigger] constraint.c@.contains_key(s) && s != constant_symbol()
                ==> symbol_correspondence@.contains_key(s),
        ensures
            relabeled(r.model().0, constraint.model().0, map_renaming(symbol_correspondence@)),
            relabeled(r.model().1, constraint.model().1, map_renaming(symbol_correspondence@)),
            relabeled(r.model().2, constraint.model().2, map_renaming(symbol_correspondence@)),
    {
        Constraint::apply_correspondence(&constraint, symbol_correspondence)
    }

    /// Whether the constraint is linear: `A` and `B` are empty.
    pub fn is_linear(constraint: &Constraint) -> (r: bool)
        ensures
            r == (constraint.model().0.is_empty() && constraint.model().1.is_empty()),
    {
        proof {
            coefficients::lemma_cview_dom(constraint.a);
            coefficients::lemma_cview_dom(constraint.b);
        }
        constraint.a.is_empty() && constraint.b.is_empty()
    }

    /// Solves the linear part `C = 0` for `signal`: the substitution
    /// `signal = (C - c*signal) / (-c)` for its coefficient `c`, in the
    /// field and without zero coefficients.
    pub fn clear_signal_from_linear(constraint: Constraint, signal: &usize, field: &BigInt) -> (r: Substitution)
        requires
            field@ > 0,
            constraint.c@.contains_key(*signal),
            constraint.model().2[*signal] != 0,
            crate::modular_arithmetic::invertible(
                crate::modular_arithmetic::modulus(constraint.model().2[*signal] * -1, field@),
                field@,
            ),
        ensures
            r.from == *signal,
            r.to_map() == cleared(
                constraint.model().2,
                *signal,
                crate::modular_arithmetic::modulus(constraint.model().2[*signal] * -1, field@),
                field@,
            ),
    {
        let raw_expression = Constraint::clear_signal(constraint.c, signal, field);
        Substitution { from: *signal, to: raw_expression }
    }

    /// `clear_signal_from_linear` without the division: the negated
    /// coefficient `-c` of `signal` in the field, and the substitution
    /// `signal = C - c*signal` still to be divided by it.
    pub fn clear_signal_from_linear_not_normalized(constraint: Constraint, signal: &usize, field: &BigInt) -> (r: (BigInt, Substitution))
        requires
            field@ > 0,
            constraint.c@.contains_key(*signal),
            constraint.model().2[*signal] != 0,
        ensures
            r.0@ == crate::modular_arithmetic::modulus(constraint.model().2[*signal] * -1, field@),
            r.1.from == *signal,
            r.1.to_map() == initialized(constraint.model().2.remove(*signal)),
    {
        let (coefficient, raw_expression) = Constraint::clear_signal_not_normalized(constraint.c, signal, field);
        (coefficient, Substitution { from: *signal, to: raw_expression })
    }

    /// The signals of the constraint, without the constant term.
    pub fn take_cloned_signals(&self) -> (r: HashSet<usize>)
        ensures
            r@ == constraint_signals(self.model()),
    {
        let mut signals: HashSet<usize> = HashSet::new();
        coefficients::insert_keys(self.a(), &mut signals);
        coefficients::insert_keys(self.b(), &mut signals);
        coefficients::insert_keys(self.c(), &mut signals);
        signals.remove(&Constraint::constant_coefficient());
        proof {
            coefficients::lemma_cview_dom(self.a);
            coefficients::lemma_cview_dom(self.b);
            coefficients::lemma_cview_dom(self.c);
            assert(signals@ =~= constraint_signals(self.model()));
        }
        signals
    }

    /// The signals of the constraint, without the constant term.
    pub fn take_signals(&self) -> (r: HashSet<usize>)
        ensures
            r@ == constraint_signals(self.model()),
    {
        self.take_cloned_signals()
    }

    fn clear_signal(symbols: HashMap<usize, BigInt>, key: &usize, field: &BigInt) -> (r: HashMap<usize, BigInt>)
        requires
            field@ > 0,
            symbols@.contains_key(*key),
            cview(symbols)[*key] != 0,
            crate::modular_arithmetic::invertible(
                crate::modular_arithmetic::modulus(cview(symbols)[*key] * -1, field@),
                field@,
            ),
        ensures
            cview(r) == cleared(
                cview(symbols),
                *key,
                crate::modular_arithmetic::modulus(cview(symbols)[*key] * -1, field@),
                field@,
            ),
    {
        let mut symbols = symbols;
        let ghost before = cview(symbols);
        let key_value = symbols.remove(key).unwrap();
        proof {
            assert(cview(symbols) =~= before.remove(*key));
        }
        let value_to_the_right = crate::modular_arithmetic::mul(&key_value, &BigInt::from_i64(-1), field);
        coefficients::initialize(&mut symbols);
        let arithmetic_result = coefficients::divide(&value_to_the_right, &mut symbols, field);
        proof {
            assert(arithmetic_result is Ok);
        }
        coefficients::remove_zero_value_coefficients(symbols)
    }

    fn clear_signal_not_normalized(symbols: HashMap<usize, BigInt>, key: &usize, field: &BigInt) -> (r: (BigInt, HashMap<usize, BigInt>))
        requires
            field@ > 0,
            symbols@.contains_key(*key),
            cview(symbols)[*key] != 0,
        ensures
            r.0@ == crate::modular_arithmetic::modulus(cview(symbols)[*key] * -1, field@),
            cview(r.1) == initialized(cview(symbols).remove(*key)),
    {
        let mut symbols = symbols;
        let ghost before = cview(symbols);
        let key_value = symbols.remove(key).unwrap();
        proof {
            assert(cview(symbols) =~= before.remove(*key));
        }
        let value_to_the_right = crate::modular_arithmetic::mul(&key_value, &BigInt::from_i64(-1), field);
        coefficients::initialize(&mut symbols);
        (value_to_the_right, symbols)
    }

    /// Replaces the signal of `substitution` in `A`, `B` and `C`.
    pub fn apply_substitution(constraint: &mut Constraint, substitution: &Substitution, field: &BigInt)
        requires
            field@ > 0,
        ensures
            final(constraint).model() == (
                substituted(old(constraint).model().0, substitution.from, substitution.to_map(), field@),
                substituted(old(constraint).model().1, substitution.from, substitution.to_map(), field@),
                substituted(old(constraint).model().2, substitution.from, substitution.to_map(), field@),
            ),
    {
        coefficients::raw_substitution(&mut constraint.a, substitution.from, &substitution.to, field);
        coefficients::raw_substitution(&mut constraint.b, substitution.from, &substitution.to, field);
        coefficients::raw_substitution(&mut constraint.c, substitution.from, &substitution.to, field);
    }

    /// Drops the zero coefficients of `A`, `B` and `C`.
    pub fn remove_zero_value_coefficients(constraint: &mut Constraint)
        ensures
            final(constraint).model() == (
                without_zeros(old(constraint).model().0),
                without_zeros(old(constraint).model().1),
                without_zeros(old(constraint).model().2),
            ),
    {
        let mut tmp: HashMap<usize, BigInt> = HashMap::new();
        std::mem::swap(&mut tmp, &mut constraint.a);
        constraint.a = coefficients::remove_zero_value_coefficients(tmp);
        let mut tmp: HashMap<usize, BigInt> = HashMap::new();
        std::mem::swap(&mut tmp, &mut constraint.b);
        constraint.b = coefficients::remove_zero_value_coefficients(tmp);
        let mut tmp: HashMap<usize, BigInt> = HashMap::new();
        std::mem::swap(&mut tmp, &mut constraint.c);
        constraint.c = coefficients::remove_zero_value_coefficients(tmp);
    }

    /// Drops zero coefficients and folds away a product with an empty or a
    /// constant factor.
    pub fn fix_constraint(constraint: &mut Constraint, field: &BigInt)
        requires
            field@ > 0,
        ensures
            final(constraint).model() == fixed_model(old(constraint).model().0, old(constraint).model().1, old(constraint).model().2, field@),
    {
        fix_raw_constraint(&mut constraint.a, &mut constraint.b, &mut constraint.c, field);
    }

    /// Whether `A`, `B` and `C` are all empty.
    pub fn is_empty(&self) -> (r: bool)
        ensures
            r == (self.model().0.is_empty() && self.model().1.is_empty() && self.model().2.is_empty()),
    {
        proof {
            coefficients::lemma_cview_dom(self.a);
            coefficients::lemma_cview_dom(self.b);
            coefficients::lemma_cview_dom(self.c);
        }
        self.a.is_empty() && self.b.is_empty() && self.c.is_empty()
    }

    /// Whether `A` or `B` holds the constant term.  (`C` is not looked at.)
    pub fn has_constant_coefficient(&self) -> (r: bool)
        ensures
            r == (self.model().0.contains_key(constant_symbol()) || self.model().1.contains_key(constant_symbol())),
    {
        self.a.contains_key(&Constraint::constant_coefficient())
            || self.b.contains_key(&Constraint::constant_coefficient())
            || self.a.contains_key(&Constraint::constant_coefficient())
    }

    /// The linear combination `A`.
    pub fn a(&self) -> (r: &HashMap<usize, BigInt>)
        ensures
            *r == self.a,
    {
        &self.a
    }

    /// The linear combination `B`.
    pub fn b(&self) -> (r: &HashMap<usize, BigInt>)
        ensures
            *r == self.b,
    {
        &self.b
    }

    /// The linear combination `C`.
    pub fn c(&self) -> (r: &HashMap<usize, BigInt>)
        ensures
            *r == self.c,
    {
        &self.c
    }

    /// Whether the constraint says that two signals are equal: it is
    /// linear, with two signals and no constant term, the coefficient of
    /// one being minus that of the other in the field.  The two signals are
    /// read in the order in which the map yields them.
    pub fn is_equality(&self, field: &BigInt) -> (r: bool)
        requires
            field@ > 0,
        ensures
            r ==> self.model().0.is_empty() && self.model().1.is_empty() && exists|s0: usize, s1: usize|
                equates_signals(self.model().2, s0, s1, field@),
            (self.model().0.is_empty() && self.model().1.is_empty() && self.model().2.len() == 2
                && !self.model().2.contains_key(constant_symbol()) && forall|s0: usize, s1: usize|
                #[trigger] self.model().2.contains_key(s0) && #[trigger] self.model().2.contains_key(s1) && s0 != s1
                ==> crate::modular_arithmetic::modulus(-1 * self.model().2[s1], field@) == self.model().2[s0]) ==> r,
            (forall|s: usize| #[trigger] self.model().2.contains_key(s) ==> 0 <= self.model().2[s] < field@) ==> (r <==> (
            self.model().0.is_empty() && self.model().1.is_empty() && exists|s0: usize, s1: usize|
                equates_signals(self.model().2, s0, s1, field@))),
    {
        let r = signal_equals_signal(&self.a, &self.b, &self.c, field);
        proof {
            if r {
                let (s0, s1) = choose|s0: usize, s1: usize| equates_signals(cview(self.c), s0, s1, field@);
                assert(equates_signals(self.model().2, s0, s1, field@));
            }
            let c = self.model().2;
            if (forall|s: usize| #[trigger] c.contains_key(s) ==> 0 <= c[s] < field@) && self.model().0.is_empty()
                && self.model().1.is_empty() && exists|s0: usize, s1: usize| equates_signals(c, s0, s1, field@) {
                let (s0, s1) = choose|s0: usize, s1: usize| equates_signals(c, s0, s1, field@);
                coefficients::lemma_cview_dom(self.c);
                lemma_equates_both_ways(c, s0, s1, field@);
            }
        }
        r
    }

    /// Whether the constraint is linear in a single signal, with or without
    /// a constant term.
    pub fn is_constant_equality(&self) -> (r: bool)
        ensures
            r == constant_equality(self.model()),
    {
        signal_equals_constant(&self.a, &self.b, &self.c)
    }

    /// `A`, `B` and `C` as linear expressions with unknown hints.
    pub fn into_arithmetic_expressions(self) -> (r: (ArithmeticExpression, ArithmeticExpression, ArithmeticExpression))
        ensures
            r.0.model() == ArithModel::Linear(self.model().0),
            r.1.model() == ArithModel::Linear(self.model().1),
            r.2.model() == ArithModel::Linear(self.model().2),
            r.0.hint() == HintModel::Unknown,
            r.1.hint() == HintModel::Unknown,
            r.2.hint() == HintModel::Unknown,
    {
        (
            ArithmeticExpression::Linear { coefficients: self.a, expr: HintExpression::Unknown },
            ArithmeticExpression::Linear { coefficients: self.b, expr: HintExpression::Unknown },
            ArithmeticExpression::Linear { coefficients: self.c, expr: HintExpression::Unknown },
        )
    }

    /// The signals of the constraint in increasing order, without the
    /// constant term.
    pub fn take_cloned_signals_ordered(&self) -> (r: BTreeSet<usize>)
        ensures
            r@ == constraint_signals(self.model()),
    {
        let mut signals: BTreeSet<usize> = BTreeSet::new();
        coefficients::insert_keys_ordered(self.a(), &mut signals);
        coefficients::insert_keys_ordered(self.b(), &mut signals);
        coefficients::insert_keys_ordered(self.c(), &mut signals);
        signals.remove(&Constraint::constant_coefficient());
        proof {
            coefficients::lemma_cview_dom(self.a);
            coefficients::lemma_cview_dom(self.b);
            coefficients::lemma_cview_dom(self.c);
            assert(signals@ =~= constraint_signals(self.model()));
        }
        signals
    }

    /// The constraint with every signal but the constant moved up by
    /// `offset`.
    pub fn apply_offset(&self, offset: usize) -> (r: Constraint)
        requires
            forall|s: usize| #[trigger] self.a@.contains_key(s) ==> s + offset <= usize::MAX,
            forall|s: usize| #[trigger] self.b@.contains_key(s) ==> s + offset <= usize::MAX,
            forall|s: usize| #[trigger] self.c@.contains_key(s) ==> s + offset <= usize::MAX,
        ensures
            r.model() == (
                offset_map(self.model().0, offset),
                offset_map(self.model().1, offset),
                offset_map(self.model().2, offset),
            ),
    {
        let a = coefficients::apply_raw_offset(&self.a, offset);
        let b = coefficients::apply_raw_offset(&self.b, offset);
        let c = coefficients::apply_raw_offset(&self.c, offset);
        Constraint::new(a, b, c)
    }

    /// The constraint with every signal `s` renamed to `witness[s]`.
    pub fn apply_witness(&self, witness: &Vec<usize>) -> (r: Constraint)
        requires
            forall|s: usize| #[trigger] self.a@.contains_key(s) ==> s < witness.len(),
            forall|s: usize| #[trigger] self.b@.contains_key(s) ==> s < witness.len(),
            forall|s: usize| #[trigger] self.c@.contains_key(s) ==> s < witness.len(),
        ensures
            relabeled(r.model().0, self.model().0, coefficients::vector_renaming(witness@)),
            relabeled(r.model().1, self.model().1, coefficients::vector_renaming(witness@)),
            relabeled(r.model().2, self.model().2, coefficients::vector_renaming(witness@)),
    {
        let a = coefficients::apply_vectored_correspondence(&self.a, witness);
        let b = coefficients::apply_vectored_correspondence(&self.b, witness);
        let c = coefficients::apply_vectored_correspondence(&self.c, witness);
        Constraint::new(a, b, c)
    }
}

/// Whether a linear constraint equates two signals; the two are taken in
/// the order in which the map of `C` yields them.
fn signal_equals_signal(a: &HashMap<usize, BigInt>, b: &HashMap<usize, BigInt>, c: &HashMap<usize, BigInt>, field: &BigInt) -> (r: bool)
    requires
        field@ > 0,
    ensures
        r ==> cview(*a).is_empty() && cview(*b).is_empty() && exists|s0: usize, s1: usize|
            equates_signals(cview(*c), s0, s1, field@),
        (cview(*a).is_empty() && cview(*b).is_empty() && cview(*c).len() == 2
            && !cview(*c).contains_key(constant_symbol()) && forall|s0: usize, s1: usize|
            #[trigger] cview(*c).contains_key(s0) && #[trigger] cview(*c).contains_key(s1) && s0 != s1
            ==> crate::modular_arithmetic::modulus(-1 * cview(*c)[s1], field@) == cview(*c)[s0]) ==> r,
{
    proof {
        coefficients::lemma_cview_dom(*a);
        coefficients::lemma_cview_dom(*b);
        coefficients::lemma_cview_dom(*c);
    }
    if a.is_empty() && b.is_empty() && !c.contains_key(&0) && c.len() == 2 {
        let mut signals: Vec<usize> = Vec::new();
        for (k, _v) in it: c.iter()
            invariant
                it.seq().len() == c@.dom().len(),
                it.seq().no_duplicates(),
                forall|i: int| 0 <= i < it.seq().len() ==> #[trigger] c@.contains_key(*it.seq()[i].0),
                signals.len() == it.index(),
                forall|i: int| 0 <= i < it.index() ==> signals@[i] == *it.seq()[i].0,
                forall|i: int| 0 <= i < it.index() ==> #[trigger] c@.contains_key(signals@[i]),
                forall|i: int, j: int| 0 <= i < j < it.index() ==> signals@[i] != signals@[j],
        {
            proof {
                assert(c@.contains_key(*it.seq()[it.index()].0));
                assert forall|i: int| 0 <= i < it.index() implies signals@[i] != *it.seq()[it.index()].0 by {
                    assert(it.seq()[i] != it.seq()[it.index()]);
                }
            }
            signals.push(*k);
        }
        let s0 = signals[0];
        let s1 = signals[1];
        proof {
            assert(c@.contains_key(signals@[0]));
            assert(c@.contains_key(signals@[1]));
        }
        let c0 = c.get(&s0).unwrap();
        let c1 = c.get(&s1).unwrap();
        let c1_p = crate::modular_arithmetic::mul(&BigInt::from_i64(-1), c1, field);
        let res = c1_p.equals(c0);
        proof {
            if res {
                assert(equates_signals(cview(*c), s0, s1, field@));
            }
        }
        res
    } else {
        false
    }
}

/// Whether a linear constraint involves a single signal.
fn signal_equals_constant(a: &HashMap<usize, BigInt>, b: &HashMap<usize, BigInt>, c: &HashMap<usize, BigInt>) -> (r: bool)
    ensures
        r == constant_equality((cview(*a), cview(*b), cview(*c))),
{
    proof {
        coefficients::lemma_cview_dom(*a);
        coefficients::lemma_cview_dom(*b);
        coefficients::lemma_cview_dom(*c);
    }
    a.is_empty() && b.is_empty() && ((c.contains_key(&0) && c.len() == 2) || (!c.contains_key(&0) && c.len() == 1))
}

} // verus!
