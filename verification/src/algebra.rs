//! Symbolic arithmetic over a prime field: expressions that stay linear or
//! quadratic in the signals, substitutions of a signal by a linear
//! combination, and quadratic constraints `A*B - C = 0`.
use crate::ast::{ExpressionInfixOpcode, ExpressionPrefixOpcode};
use crate::bigint::BigInt;
use crate::coefficients::{
    self, added, cview, divided, has_constant, plus_constant, plus_symbol, scaled, zero_map,
};
use crate::constraint::{Constraint, Substitution};
use crate::modular_arithmetic::{self, modulus, ArithmeticError};
use std::collections::HashMap;
use vstd::prelude::*;

verus! {

broadcast use vstd::std_specs::hash::group_hash_axioms;

/// An access step in a symbolic hint: a component field or an array index.
pub enum HintAccess {
    ComponentAccess(String),
    ArrayAccess(HintExpression),
}

/// The source-level expression that produced a value, kept for reports.
pub enum HintExpression {
    Unknown,
    Number { value: BigInt },
    Symbol { symbol: String, access: Vec<HintAccess> },
    Variable { symbol: String },
    InfixOp { lhe: Box<HintExpression>, rhe: Box<HintExpression>, infix_op: ExpressionInfixOpcode },
    PrefixOp { rhe: Box<HintExpression>, prefix_op: ExpressionPrefixOpcode },
    MemorySlice { route: Vec<usize>, values: Vec<HintExpression> },
    InlineSwitch {
        condition: Box<HintExpression>,
        if_true: Box<HintExpression>,
        if_false: Box<HintExpression>,
    },
}

/// Mathematical value of a `HintAccess`.
pub enum AccessModel {
    ComponentAccess(Seq<char>),
    ArrayAccess(HintModel),
}

/// Mathematical value of a `HintExpression`: numbers as integers, names as
/// character sequences.
pub enum HintModel {
    Unknown,
    Number(int),
    Symbol(Seq<char>, Seq<AccessModel>),
    Variable(Seq<char>),
    InfixOp(Box<HintModel>, Box<HintModel>, ExpressionInfixOpcode),
    PrefixOp(Box<HintModel>, ExpressionPrefixOpcode),
    MemorySlice(Seq<usize>, Seq<HintModel>),
    InlineSwitch(Box<HintModel>, Box<HintModel>, Box<HintModel>),
}

pub open spec fn access_model(a: HintAccess) -> AccessModel
    decreases a,
{
    match a {
        HintAccess::ComponentAccess(name) => AccessModel::ComponentAccess(name@),
        HintAccess::ArrayAccess(e) => AccessModel::ArrayAccess(hint_model(e)),
    }
}

pub open spec fn access_models(s: Seq<HintAccess>) -> Seq<AccessModel>
    decreases s,
{
    if s.len() == 0 {
        Seq::empty()
    } else {
        seq![access_model(s[0])] + access_models(s.subrange(1, s.len() as int))
    }
}

pub open spec fn hint_models(s: Seq<HintExpression>) -> Seq<HintModel>
    decreases s,
{
    if s.len() == 0 {
        Seq::empty()
    } else {
        seq![hint_model(s[0])] + hint_models(s.subrange(1, s.len() as int))
    }
}

pub open spec fn hint_model(h: HintExpression) -> HintModel
    decreases h,
{
    match h {
        HintExpression::Unknown => HintModel::Unknown,
        HintExpression::Number { value } => HintModel::Number(value@),
        HintExpression::Symbol { symbol, access } => HintModel::Symbol(symbol@, access_models(access@)),
        HintExpression::Variable { symbol } => HintModel::Variable(symbol@),
        HintExpression::InfixOp { lhe, rhe, infix_op } => HintModel::InfixOp(
            Box::new(hint_model(*lhe)),
            Box::new(hint_model(*rhe)),
            infix_op,
        ),
        HintExpression::PrefixOp { rhe, prefix_op } => HintModel::PrefixOp(Box::new(hint_model(*rhe)), prefix_op),
        HintExpression::MemorySlice { route, values } => HintModel::MemorySlice(route@, hint_models(values@)),
        HintExpression::InlineSwitch { condition, if_true, if_false } => HintModel::InlineSwitch(
            Box::new(hint_model(*condition)),
            Box::new(hint_model(*if_true)),
            Box::new(hint_model(*if_false)),
        ),
    }
}

pub(crate) proof fn lemma_access_models_index(s: Seq<HintAccess>, i: int)
    requires
        0 <= i < s.len(),
    ensures
        access_models(s).len() == s.len(),
        access_models(s)[i] == access_model(s[i]),
    decreases s.len(),
{
    reveal_with_fuel(access_models, 2);
    if i > 0 {
        lemma_access_models_index(s.subrange(1, s.len() as int), i - 1);
    } else if s.len() > 1 {
        lemma_access_models_index(s.subrange(1, s.len() as int), 0);
    }
}

pub(crate) proof fn lemma_access_models_len(s: Seq<HintAccess>)
    ensures
        access_models(s).len() == s.len(),
    decreases s.len(),
{
    if s.len() > 0 {
        lemma_access_models_len(s.subrange(1, s.len() as int));
    }
}

pub(crate) proof fn lemma_hint_models_len(s: Seq<HintExpression>)
    ensures
        hint_models(s).len() == s.len(),
    decreases s.len(),
{
    if s.len() > 0 {
        lemma_hint_models_len(s.subrange(1, s.len() as int));
    }
}

pub(crate) proof fn lemma_hint_models_index(s: Seq<HintExpression>, i: int)
    requires
        0 <= i < s.len(),
    ensures
        hint_models(s)[i] == hint_model(s[i]),
    decreases s.len(),
{
    lemma_hint_models_len(s);
    if i > 0 {
        lemma_hint_models_index(s.subrange(1, s.len() as int), i - 1);
    }
}

/// Sequences whose elements have equal models have equal models.
proof fn lemma_access_models_ext(s: Seq<HintAccess>, t: Seq<HintAccess>)
    requires
        s.len() == t.len(),
        forall|i: int| 0 <= i < s.len() ==> #[trigger] access_model(s[i]) == access_model(t[i]),
    ensures
        access_models(s) == access_models(t),
{
    lemma_access_models_len(s);
    lemma_access_models_len(t);
    assert forall|i: int| 0 <= i < s.len() implies access_models(s)[i] == access_models(t)[i] by {
        lemma_access_models_index(s, i);
        lemma_access_models_index(t, i);
    }
    assert(access_models(s) =~= access_models(t));
}

proof fn lemma_hint_models_ext(s: Seq<HintExpression>, t: Seq<HintExpression>)
    requires
        s.len() == t.len(),
        forall|i: int| 0 <= i < s.len() ==> #[trigger] hint_model(s[i]) == hint_model(t[i]),
    ensures
        hint_models(s) == hint_models(t),
{
    lemma_hint_models_len(s);
    lemma_hint_models_len(t);
    assert forall|i: int| 0 <= i < s.len() implies hint_models(s)[i] == hint_models(t)[i] by {
        lemma_hint_models_index(s, i);
        lemma_hint_models_index(t, i);
    }
    assert(hint_models(s) =~= hint_models(t));
}

impl Clone for HintAccess {
    fn clone(&self) -> (r: Self)
        ensures
            r@ == self@,
        decreases self,
    {
        match self {
            HintAccess::ComponentAccess(name) => HintAccess::ComponentAccess(name.clone()),
            HintAccess::ArrayAccess(e) => HintAccess::ArrayAccess(e.clone()),
        }
    }
}

impl Clone for HintExpression {
    #[verifier::loop_isolation(false)]
    fn clone(&self) -> (r: Self)
        ensures
            r@ == self@,
        decreases self,
    {
        match self {
            HintExpression::Unknown => HintExpression::Unknown,
            HintExpression::Number { value } => HintExpression::Number { value: value.clone() },
            HintExpression::Symbol { symbol, access } => {
                let mut copied: Vec<HintAccess> = Vec::new();
                let mut i: usize = 0;
                while i < access.len()
                    invariant
                        i <= access.len(),
                        copied.len() == i,
                        forall|j: int| 0 <= j < i ==> #[trigger] access_model(copied@[j]) == access_model(access@[j]),
                    decreases access.len() - i,
                {
                    proof {
                        assert(decreases_to!(*self => *access));
                        assert(decreases_to!(*access => access@));
                        assert(decreases_to!(access@ => access@[i as int]));
                    }
                    copied.push(access[i].clone());
                    i = i + 1;
                }
                proof {
                    lemma_access_models_ext(copied@, access@);
                }
                HintExpression::Symbol { symbol: symbol.clone(), access: copied }
            },
            HintExpression::Variable { symbol } => HintExpression::Variable { symbol: symbol.clone() },
            HintExpression::InfixOp { lhe, rhe, infix_op } => HintExpression::InfixOp {
                lhe: Box::new((**lhe).clone()),
                rhe: Box::new((**rhe).clone()),
                infix_op: *infix_op,
            },
            HintExpression::PrefixOp { rhe, prefix_op } => HintExpression::PrefixOp {
                rhe: Box::new((**rhe).clone()),
                prefix_op: *prefix_op,
            },
            HintExpression::MemorySlice { route, values } => {
                let mut copied: Vec<HintExpression> = Vec::new();
                let mut i: usize = 0;
                while i < values.len()
                    invariant
                        i <= values.len(),
                        copied.len() == i,
                        forall|j: int| 0 <= j < i ==> #[trigger] hint_model(copied@[j]) == hint_model(values@[j]),
                    decreases values.len() - i,
                {
                    proof {
                        assert(decreases_to!(*self => *values));
                        assert(decreases_to!(*values => values@));
                        assert(decreases_to!(values@ => values@[i as int]));
                    }
                    copied.push(values[i].clone());
                    i = i + 1;
                }
                proof {
                    lemma_hint_models_ext(copied@, values@);
                }
                let route_copy = route.clone();
                proof {
                    assert(route_copy@ =~= route@);
                }
                HintExpression::MemorySlice { route: route_copy, values: copied }
            },
            HintExpression::InlineSwitch { condition, if_true, if_false } => HintExpression::InlineSwitch {
                condition: Box::new((**condition).clone()),
                if_true: Box::new((**if_true).clone()),
                if_false: Box::new((**if_false).clone()),
            },
        }
    }
}

impl View for HintAccess {
    type V = AccessModel;

    open spec fn view(&self) -> AccessModel {
        access_model(*self)
    }
}

impl View for HintExpression {
    type V = HintModel;

    open spec fn view(&self) -> HintModel {
        hint_model(*self)
    }
}

/// An arithmetic expression over signals, classified by degree.
pub enum ArithmeticExpression {
    /// A constant.
    Number { value: BigInt, expr: HintExpression },
    /// A single signal.
    Signal { symbol: usize, expr: HintExpression },
    /// `c1*s1 + .. + cn*sn + C`, the constant `C` under the signal 0.
    Linear { coefficients: HashMap<usize, BigInt>, expr: HintExpression },
    /// `a*b + c` for linear combinations `a`, `b` and `c`.
    Quadratic {
        a: HashMap<usize, BigInt>,
        b: HashMap<usize, BigInt>,
        c: HashMap<usize, BigInt>,
        expr: HintExpression,
    },
    /// Anything of higher degree, or not polynomial.
    NonQuadratic { expr: HintExpression },
}

/// Mathematical value of an `ArithmeticExpression`, without its hint.
pub enum ArithModel {
    Number(int),
    Signal(usize),
    Linear(Map<usize, int>),
    Quadratic(Map<usize, int>, Map<usize, int>, Map<usize, int>),
    NonQuadratic,
}

impl ArithmeticExpression {
    /// The value of the expression.
    pub open spec fn model(&self) -> ArithModel {
        match self {
            ArithmeticExpression::Number { value, .. } => ArithModel::Number(value@),
            ArithmeticExpression::Signal { symbol, .. } => ArithModel::Signal(*symbol),
            ArithmeticExpression::Linear { coefficients, .. } => ArithModel::Linear(cview(*coefficients)),
            ArithmeticExpression::Quadratic { a, b, c, .. } => ArithModel::Quadratic(cview(*a), cview(*b), cview(*c)),
            ArithmeticExpression::NonQuadratic { .. } => ArithModel::NonQuadratic,
        }
    }

    /// The hint that describes how the expression was built.
    pub open spec fn hint(&self) -> HintModel {
        match self {
            ArithmeticExpression::Number { expr, .. } => expr@,
            ArithmeticExpression::Signal { expr, .. } => expr@,
            ArithmeticExpression::Linear { expr, .. } => expr@,
            ArithmeticExpression::Quadratic { expr, .. } => expr@,
            ArithmeticExpression::NonQuadratic { expr } => expr@,
        }
    }

    /// Every linear combination in the expression holds the constant term.
    pub open spec fn valid(&self) -> bool {
        model_valid(self.model())
    }
}

/// Every linear combination in the value holds the constant term.
pub open spec fn model_valid(m: ArithModel) -> bool {
    match m {
        ArithModel::Linear(c) => has_constant(c),
        ArithModel::Quadratic(a, b, c) => has_constant(a) && has_constant(b) && has_constant(c),
        _ => true,
    }
}

/// Hint of a binary operation.
pub open spec fn infix_hint(l: HintModel, r: HintModel, op: ExpressionInfixOpcode) -> HintModel {
    HintModel::InfixOp(Box::new(l), Box::new(r), op)
}

/// Hint of a unary operation.
pub open spec fn prefix_hint(e: HintModel, op: ExpressionPrefixOpcode) -> HintModel {
    HintModel::PrefixOp(Box::new(e), op)
}

/// `add` only reads the constant term of a linear part that it adds a
/// number to; that term must be there.
pub open spec fn add_defined(l: ArithModel, r: ArithModel) -> bool {
    match (l, r) {
        (ArithModel::Number(_), ArithModel::Linear(c)) => has_constant(c),
        (ArithModel::Linear(c), ArithModel::Number(_)) => has_constant(c),
        (ArithModel::Number(_), ArithModel::Quadratic(_, _, c)) => has_constant(c),
        (ArithModel::Quadratic(_, _, c), ArithModel::Number(_)) => has_constant(c),
        _ => true,
    }
}

/// Value of a sum.
pub open spec fn add_model(l: ArithModel, r: ArithModel, p: int) -> ArithModel {
    match (l, r) {
        (ArithModel::NonQuadratic, _) => ArithModel::NonQuadratic,
        (_, ArithModel::NonQuadratic) => ArithModel::NonQuadratic,
        (ArithModel::Quadratic(..), ArithModel::Quadratic(..)) => ArithModel::NonQuadratic,
        (ArithModel::Number(v0), ArithModel::Number(v1)) => ArithModel::Number(modulus(v0 + v1, p)),
        (ArithModel::Number(v), ArithModel::Signal(s)) => ArithModel::Linear(
            plus_symbol(plus_constant(zero_map(), v, p), s, 1, p),
        ),
        (ArithModel::Signal(s), ArithModel::Number(v)) => ArithModel::Linear(
            plus_symbol(plus_constant(zero_map(), v, p), s, 1, p),
        ),
        (ArithModel::Number(v), ArithModel::Linear(c)) => ArithModel::Linear(plus_constant(c, v, p)),
        (ArithModel::Linear(c), ArithModel::Number(v)) => ArithModel::Linear(plus_constant(c, v, p)),
        (ArithModel::Number(v), ArithModel::Quadratic(a, b, c)) => ArithModel::Quadratic(a, b, plus_constant(c, v, p)),
        (ArithModel::Quadratic(a, b, c), ArithModel::Number(v)) => ArithModel::Quadratic(a, b, plus_constant(c, v, p)),
        (ArithModel::Signal(s0), ArithModel::Signal(s1)) => ArithModel::Linear(
            plus_symbol(plus_symbol(zero_map(), s0, 1, p), s1, 1, p),
        ),
        (ArithModel::Signal(s), ArithModel::Linear(c)) => ArithModel::Linear(plus_symbol(c, s, 1, p)),
        (ArithModel::Linear(c), ArithModel::Signal(s)) => ArithModel::Linear(plus_symbol(c, s, 1, p)),
        (ArithModel::Signal(s), ArithModel::Quadratic(a, b, c)) => ArithModel::Quadratic(a, b, plus_symbol(c, s, 1, p)),
        (ArithModel::Quadratic(a, b, c), ArithModel::Signal(s)) => ArithModel::Quadratic(a, b, plus_symbol(c, s, 1, p)),
        (ArithModel::Linear(c0), ArithModel::Linear(c1)) => ArithModel::Linear(added(c0, c1, p)),
        (ArithModel::Linear(c0), ArithModel::Quadratic(a, b, c)) => ArithModel::Quadratic(a, b, added(c0, c, p)),
        (ArithModel::Quadratic(a, b, c), ArithModel::Linear(c0)) => ArithModel::Quadratic(a, b, added(c0, c, p)),
    }
}

/// Value of a product.
pub open spec fn mul_model(l: ArithModel, r: ArithModel, p: int) -> ArithModel {
    match (l, r) {
        (ArithModel::NonQuadratic, _) => ArithModel::NonQuadratic,
        (_, ArithModel::NonQuadratic) => ArithModel::NonQuadratic,
        (ArithModel::Quadratic(..), ArithModel::Quadratic(..)) => ArithModel::NonQuadratic,
        (ArithModel::Quadratic(..), ArithModel::Linear(..)) => ArithModel::NonQuadratic,
        (ArithModel::Linear(..), ArithModel::Quadratic(..)) => ArithModel::NonQuadratic,
        (ArithModel::Quadratic(..), ArithModel::Signal(..)) => ArithModel::NonQuadratic,
        (ArithModel::Signal(..), ArithModel::Quadratic(..)) => ArithModel::NonQuadratic,
        (ArithModel::Number(v0), ArithModel::Number(v1)) => ArithModel::Number(modulus(v0 * v1, p)),
        (ArithModel::Number(v), ArithModel::Signal(s)) => ArithModel::Linear(plus_symbol(zero_map(), s, v, p)),
        (ArithModel::Signal(s), ArithModel::Number(v)) => ArithModel::Linear(plus_symbol(zero_map(), s, v, p)),
        (ArithModel::Number(v), ArithModel::Linear(c)) => ArithModel::Linear(scaled(c, v, p)),
        (ArithModel::Linear(c), ArithModel::Number(v)) => ArithModel::Linear(scaled(c, v, p)),
        (ArithModel::Number(v), ArithModel::Quadratic(a, b, c)) => ArithModel::Quadratic(scaled(a, v, p), b, scaled(c, v, p)),
        (ArithModel::Quadratic(a, b, c), ArithModel::Number(v)) => ArithModel::Quadratic(scaled(a, v, p), b, scaled(c, v, p)),
        (ArithModel::Signal(s0), ArithModel::Signal(s1)) => ArithModel::Quadratic(
            plus_symbol(zero_map(), s0, 1, p),
            plus_symbol(zero_map(), s1, 1, p),
            zero_map(),
        ),
        (ArithModel::Signal(s), ArithModel::Linear(c)) => ArithModel::Quadratic(c, plus_symbol(zero_map(), s, 1, p), zero_map()),
        (ArithModel::Linear(c), ArithModel::Signal(s)) => ArithModel::Quadratic(c, plus_symbol(zero_map(), s, 1, p), zero_map()),
        (ArithModel::Linear(c0), ArithModel::Linear(c1)) => ArithModel::Quadratic(c0, c1, zero_map()),
    }
}

/// An operation that only computes on two numbers: `f` of the two values,
/// and a non-quadratic expression for anything else.
pub open spec fn on_numbers(l: ArithModel, r: ArithModel, f: spec_fn(int, int) -> int) -> ArithModel {
    match (l, r) {
        (ArithModel::Number(a), ArithModel::Number(b)) => ArithModel::Number(f(a, b)),
        _ => ArithModel::NonQuadratic,
    }
}

/// An operation that only computes on a number.
pub open spec fn on_number(e: ArithModel, f: spec_fn(int) -> int) -> ArithModel {
    match e {
        ArithModel::Number(a) => ArithModel::Number(f(a)),
        _ => ArithModel::NonQuadratic,
    }
}

/// `mul` reads no constant term; it is defined on all expressions.
/// `sub` is `left + (-1) * right`.
pub open spec fn sub_model(l: ArithModel, r: ArithModel, p: int) -> ArithModel {
    add_model(l, mul_model(ArithModel::Number(-1), r, p), p)
}

/// Hint of `left - right`, built as `left + (-1) * right`.
pub open spec fn sub_hint(l: HintModel, r: HintModel) -> HintModel {
    infix_hint(l, infix_hint(HintModel::Number(-1), r, ExpressionInfixOpcode::Mul), ExpressionInfixOpcode::Add)
}

/// Value of a field division: a linear part divided by a number has each
/// coefficient divided; an error when the divisor has no inverse.
pub open spec fn div_model(l: ArithModel, r: ArithModel, p: int) -> Result<ArithModel, ArithmeticError> {
    match (l, r) {
        (ArithModel::Number(v0), ArithModel::Number(v1)) => if modular_arithmetic::invertible(v1, p) {
            Ok(ArithModel::Number(modular_arithmetic::field_div(v0, v1, p)))
        } else {
            Err(ArithmeticError::DivisionByZero)
        },
        (ArithModel::Signal(s), ArithModel::Number(v)) => if modular_arithmetic::invertible(v, p) {
            Ok(ArithModel::Linear(divided(plus_symbol(zero_map(), s, 1, p), v, p)))
        } else {
            Err(ArithmeticError::DivisionByZero)
        },
        (ArithModel::Linear(c), ArithModel::Number(v)) => if modular_arithmetic::invertible(v, p) {
            Ok(ArithModel::Linear(divided(c, v, p)))
        } else {
            Err(ArithmeticError::DivisionByZero)
        },
        (ArithModel::Quadratic(a, b, c), ArithModel::Number(v)) => if modular_arithmetic::invertible(v, p) {
            Ok(ArithModel::Quadratic(divided(a, v, p), b, divided(c, v, p)))
        } else {
            Err(ArithmeticError::DivisionByZero)
        },
        _ => Ok(ArithModel::NonQuadratic),
    }
}

/// Value of a power: numbers are raised in the field (`modpow_value`, which
/// for a base in the field is the power modulo `p`); a signal or a linear
/// part squared becomes a quadratic expression.
pub open spec fn pow_model(l: ArithModel, r: ArithModel, p: int) -> ArithModel {
    match (l, r) {
        (ArithModel::Number(v0), ArithModel::Number(v1)) => ArithModel::Number(crate::bigint::modpow_value(v0, v1 as nat, p)),
        (ArithModel::Signal(_), ArithModel::Number(v)) => if v == 2 { mul_model(l, l, p) } else { ArithModel::NonQuadratic },
        (ArithModel::Linear(_), ArithModel::Number(v)) => if v == 2 { mul_model(l, l, p) } else { ArithModel::NonQuadratic },
        _ => ArithModel::NonQuadratic,
    }
}

/// Hint of a power: a square of a signal or of a linear part records the
/// product of the base with itself.
pub open spec fn pow_hint(l: ArithModel, r: ArithModel, lh: HintModel, rh: HintModel) -> HintModel {
    match (l, r) {
        (ArithModel::Signal(_), ArithModel::Number(v)) => if v == 2 {
            infix_hint(lh, lh, ExpressionInfixOpcode::Mul)
        } else {
            infix_hint(lh, rh, ExpressionInfixOpcode::Pow)
        },
        (ArithModel::Linear(_), ArithModel::Number(v)) => if v == 2 {
            infix_hint(lh, lh, ExpressionInfixOpcode::Mul)
        } else {
            infix_hint(lh, rh, ExpressionInfixOpcode::Pow)
        },
        _ => infix_hint(lh, rh, ExpressionInfixOpcode::Pow),
    }
}

/// Value of an operation on two numbers that can fail.
pub open spec fn on_numbers_result(
    l: ArithModel,
    r: ArithModel,
    f: spec_fn(int, int) -> Result<int, ArithmeticError>,
) -> Result<ArithModel, ArithmeticError> {
    match (l, r) {
        (ArithModel::Number(a), ArithModel::Number(b)) => match f(a, b) {
            Ok(v) => Ok(ArithModel::Number(v)),
            Err(e) => Err(e),
        },
        _ => Ok(ArithModel::NonQuadratic),
    }
}

/// Integer division of residues, failing on a zero divisor.
pub open spec fn spec_idiv(a: int, b: int, p: int) -> Result<int, ArithmeticError> {
    if modulus(b, p) == 0 { Err(ArithmeticError::DivisionByZero) } else { Ok(modulus(a, p) / modulus(b, p)) }
}

/// Remainder of residues, failing on a zero divisor.
pub open spec fn spec_mod(a: int, b: int, p: int) -> Result<int, ArithmeticError> {
    if modulus(b, p) == 0 { Err(ArithmeticError::DivisionByZero) } else { Ok(modulus(a, p) % modulus(b, p)) }
}

/// Value of a linear combination read back as the simplest expression: a
/// lone constant term is a number, a lone signal with coefficient 1 is that
/// signal, anything else is a linear expression (with its constant term).
pub open spec fn into_arith_model(m: Map<usize, int>) -> ArithModel {
    if m.len() == 1 && m.contains_key(coefficients::constant_symbol()) {
        ArithModel::Number(m[coefficients::constant_symbol()])
    } else if m.len() == 1 {
        let s = m.dom().choose();
        if m[s] == 1 { ArithModel::Signal(s) } else { ArithModel::Linear(coefficients::initialized(m)) }
    } else {
        ArithModel::Linear(coefficients::initialized(m))
    }
}

/// Value of an expression after replacing the signal `from` by `to`: linear
/// parts are substituted and cleared of zero coefficients, the signal itself
/// becomes `to`, other expressions stay.
pub open spec fn substituted_model(e: ArithModel, from: usize, to: Map<usize, int>, p: int) -> ArithModel {
    match e {
        ArithModel::Linear(c) => ArithModel::Linear(coefficients::without_zeros(coefficients::substituted(c, from, to, p))),
        ArithModel::Signal(s) => if s == from { ArithModel::Linear(to) } else { e },
        ArithModel::Quadratic(a, b, c) => ArithModel::Quadratic(
            coefficients::without_zeros(coefficients::substituted(a, from, to, p)),
            coefficients::without_zeros(coefficients::substituted(b, from, to, p)),
            coefficients::without_zeros(coefficients::substituted(c, from, to, p)),
        ),
        _ => e,
    }
}

/// Whether a substitution changes the expression (and so drops its hint).
pub open spec fn substitution_applies(e: ArithModel, from: usize) -> bool {
    match e {
        ArithModel::Linear(_) => true,
        ArithModel::Signal(s) => s == from,
        ArithModel::Quadratic(..) => true,
        _ => false,
    }
}

/// A singleton domain has its element as its choice.
proof fn lemma_singleton_choose(m: Map<usize, int>, k: usize)
    requires
        m.dom().finite(),
        m.len() == 1,
        m.contains_key(k),
    ensures
        m.dom().choose() == k,
{
    let x = m.dom().choose();
    assert(m.dom().contains(x));
    assert(m.dom().remove(k).len() == 0);
    if x != k {
        assert(m.dom().remove(k).contains(x));
    }
}

/// The one entry of a linear combination with a single signal.
fn single_entry(m: &HashMap<usize, BigInt>) -> (r: (usize, BigInt))
    requires
        m@.len() == 1,
    ensures
        cview(*m).contains_key(r.0),
        r.1@ == cview(*m)[r.0],
{
    let mut found: Option<(usize, BigInt)> = None;
    for (k, v) in it: m.iter()
        invariant
            it.seq().len() == m@.dom().len(),
            forall|i: int| 0 <= i < it.seq().len() ==> #[trigger] m@.contains_key(*it.seq()[i].0)
                && m@[*it.seq()[i].0] == *it.seq()[i].1,
            found matches Some(e) ==> cview(*m).contains_key(e.0) && e.1@ == cview(*m)[e.0],
            it.index() > 0 ==> found is Some,
    {
        proof {
            assert(m@.contains_key(*it.seq()[it.index()].0));
        }
        found = Some((*k, v.clone()));
    }
    found.unwrap()
}

/// A copy of a linear combination.
fn copy_map(m: &HashMap<usize, BigInt>) -> (r: HashMap<usize, BigInt>)
    ensures
        cview(r) == cview(*m),
{
    let r = m.clone();
    proof {
        assert(cview(r) =~= cview(*m));
    }
    r
}

/// The number `-1` with its hint.
fn minus_one() -> (r: ArithmeticExpression)
    ensures
        r.model() == ArithModel::Number(-1),
        r.hint() == HintModel::Number(-1),
{
    ArithmeticExpression::Number {
        value: BigInt::from_i64(-1),
        expr: HintExpression::Number { value: BigInt::from_i64(-1) },
    }
}

/// Hint `left op right` built from copies of the two hints.
fn infix_expr(lhe: &HintExpression, rhe: &HintExpression, op: ExpressionInfixOpcode) -> (r: HintExpression)
    ensures
        r@ == infix_hint(lhe@, rhe@, op),
{
    HintExpression::InfixOp { lhe: Box::new(lhe.clone()), rhe: Box::new(rhe.clone()), infix_op: op }
}

/// Hint `op e` built from a copy of the hint.
fn prefix_expr(rhe: &HintExpression, op: ExpressionPrefixOpcode) -> (r: HintExpression)
    ensures
        r@ == prefix_hint(rhe@, op),
{
    HintExpression::PrefixOp { rhe: Box::new(rhe.clone()), prefix_op: op }
}

impl Clone for ArithmeticExpression {
    fn clone(&self) -> (r: Self)
        ensures
            r.model() == self.model(),
            r.hint() == self.hint(),
    {
        match self {
            ArithmeticExpression::Number { value, expr } => ArithmeticExpression::Number { value: value.clone(), expr: expr.clone() },
            ArithmeticExpression::Signal { symbol, expr } => ArithmeticExpression::Signal { symbol: *symbol, expr: expr.clone() },
            ArithmeticExpression::Linear { coefficients, expr } => ArithmeticExpression::Linear {
                coefficients: copy_map(coefficients),
                expr: expr.clone(),
            },
            ArithmeticExpression::Quadratic { a, b, c, expr } => ArithmeticExpression::Quadratic {
                a: copy_map(a),
                b: copy_map(b),
                c: copy_map(c),
                expr: expr.clone(),
            },
            ArithmeticExpression::NonQuadratic { expr } => ArithmeticExpression::NonQuadratic { expr: expr.clone() },
        }
    }
}

/// Whether two expressions are equal as the library compares them: numbers,
/// signals, and linear or quadratic parts of the same kind by value;
/// anything else (two non-quadratic expressions too) is unequal.
pub open spec fn same_expression(l: ArithModel, r: ArithModel) -> bool {
    match (l, r) {
        (ArithModel::Number(a), ArithModel::Number(b)) => a == b,
        (ArithModel::Signal(a), ArithModel::Signal(b)) => a == b,
        (ArithModel::Linear(a), ArithModel::Linear(b)) => a == b,
        (ArithModel::Quadratic(a0, b0, c0), ArithModel::Quadratic(a1, b1, c1)) => a0 == a1 && b0 == b1 && c0 == c1,
        _ => false,
    }
}

impl Default for ArithmeticExpression {
    /// The expression of unknown shape: non-quadratic, with an unknown hint.
    fn default() -> (r: Self)
        ensures
            r.model() == ArithModel::NonQuadratic,
            r.hint() == HintModel::Unknown,
    {
        ArithmeticExpression::NonQuadratic { expr: HintExpression::Unknown }
    }
}

impl ArithmeticExpression {
    /// The hint of the expression.
    pub fn expr(&self) -> (r: &HintExpression)
        ensures
            r@ == self.hint(),
    {
        match self {
            ArithmeticExpression::Number { expr, .. } => expr,
            ArithmeticExpression::Signal { expr, .. } => expr,
            ArithmeticExpression::Linear { expr, .. } => expr,
            ArithmeticExpression::Quadratic { expr, .. } => expr,
            ArithmeticExpression::NonQuadratic { expr } => expr,
        }
    }

    /// A copy of the hint of the expression.
    pub fn to_hint_expr(&self) -> (r: HintExpression)
        ensures
            r@ == self.hint(),
    {
        self.expr().clone()
    }

    /// Equality of expressions, their hints aside.
    pub fn equals(&self, other: &ArithmeticExpression) -> (r: bool)
        ensures
            r == same_expression(self.model(), other.model()),
    {
        match (self, other) {
            (ArithmeticExpression::Number { value: v0, .. }, ArithmeticExpression::Number { value: v1, .. }) => v0.equals(v1),
            (ArithmeticExpression::Signal { symbol: s0, .. }, ArithmeticExpression::Signal { symbol: s1, .. }) => *s0 == *s1,
            (ArithmeticExpression::Linear { coefficients: c0, .. }, ArithmeticExpression::Linear { coefficients: c1, .. }) => {
                coefficients::same_coefficients(c0, c1)
            },
            (
                ArithmeticExpression::Quadratic { a: a0, b: b0, c: c0, .. },
                ArithmeticExpression::Quadratic { a: a1, b: b1, c: c1, .. },
            ) => coefficients::same_coefficients(a0, a1) && coefficients::same_coefficients(b0, b1)
                && coefficients::same_coefficients(c0, c1),
            _ => false,
        }
    }

    /// The expression of unknown shape: non-quadratic, with an unknown hint.
    pub fn new() -> (r: ArithmeticExpression)
        ensures
            r.model() == ArithModel::NonQuadratic,
            r.hint() == HintModel::Unknown,
    {
        ArithmeticExpression::default()
    }

    fn nonquadratic_prefix(rhe: &ArithmeticExpression, prefix_op: ExpressionPrefixOpcode) -> (r: ArithmeticExpression)
        ensures
            r.model() == ArithModel::NonQuadratic,
            r.hint() == prefix_hint(rhe.hint(), prefix_op),
    {
        ArithmeticExpression::NonQuadratic { expr: prefix_expr(rhe.expr(), prefix_op) }
    }

    fn nonquadratic_infix(left: &ArithmeticExpression, right: &ArithmeticExpression, infix_op: ExpressionInfixOpcode) -> (r: ArithmeticExpression)
        ensures
            r.model() == ArithModel::NonQuadratic,
            r.hint() == infix_hint(left.hint(), right.hint(), infix_op),
    {
        ArithmeticExpression::NonQuadratic { expr: infix_expr(left.expr(), right.expr(), infix_op) }
    }

    /// Sum in the field.
    pub fn add(left: &ArithmeticExpression, right: &ArithmeticExpression, field: &BigInt) -> (r: ArithmeticExpression)
        requires
            field@ > 0,
            add_defined(left.model(), right.model()),
        ensures
            r.model() == add_model(left.model(), right.model(), field@),
            r.hint() == infix_hint(left.hint(), right.hint(), ExpressionInfixOpcode::Add),
            left.valid() && right.valid() ==> r.valid(),
    {
        let op = ExpressionInfixOpcode::Add;
        match (left, right) {
            (ArithmeticExpression::NonQuadratic { .. }, _) | (_, ArithmeticExpression::NonQuadratic { .. }) | (
                ArithmeticExpression::Quadratic { .. },
                ArithmeticExpression::Quadratic { .. },
            ) => ArithmeticExpression::nonquadratic_infix(left, right, op),
            (ArithmeticExpression::Number { value: v_0, expr: lhe }, ArithmeticExpression::Number { value: v_1, expr: rhe }) => {
                ArithmeticExpression::Number { expr: infix_expr(lhe, rhe, op), value: modular_arithmetic::add(v_0, v_1, field) }
            },
            (ArithmeticExpression::Number { value, expr: lhe }, ArithmeticExpression::Signal { symbol, expr: rhe })
            | (ArithmeticExpression::Signal { symbol, expr: lhe }, ArithmeticExpression::Number { value, expr: rhe }) => {
                let mut coefficients = coefficients::new_zero_map();
                coefficients::add_constant(value, &mut coefficients, field);
                coefficients::add_symbol(*symbol, &BigInt::from_i64(1), &mut coefficients, field);
                ArithmeticExpression::Linear { expr: infix_expr(lhe, rhe, op), coefficients }
            },
            (ArithmeticExpression::Number { value, expr: lhe }, ArithmeticExpression::Linear { coefficients, expr: rhe })
            | (ArithmeticExpression::Linear { coefficients, expr: lhe }, ArithmeticExpression::Number { value, expr: rhe }) => {
                let mut n_coefficients = copy_map(coefficients);
                coefficients::add_constant(value, &mut n_coefficients, field);
                ArithmeticExpression::Linear { expr: infix_expr(lhe, rhe, op), coefficients: n_coefficients }
            },
            (ArithmeticExpression::Number { value, expr: lhe }, ArithmeticExpression::Quadratic { a, b, c, expr: rhe })
            | (ArithmeticExpression::Quadratic { a, b, c, expr: lhe }, ArithmeticExpression::Number { value, expr: rhe }) => {
                let mut n_c = copy_map(c);
                coefficients::add_constant(value, &mut n_c, field);
                ArithmeticExpression::Quadratic { expr: infix_expr(lhe, rhe, op), a: copy_map(a), b: copy_map(b), c: n_c }
            },
            (ArithmeticExpression::Signal { symbol, expr: lhe }, ArithmeticExpression::Signal { symbol: symbol_1, expr: rhe }) => {
                let mut coefficients = coefficients::new_zero_map();
                coefficients::add_symbol(*symbol, &BigInt::from_i64(1), &mut coefficients, field);
                coefficients::add_symbol(*symbol_1, &BigInt::from_i64(1), &mut coefficients, field);
                ArithmeticExpression::Linear { expr: infix_expr(lhe, rhe, op), coefficients }
            },
            (ArithmeticExpression::Signal { symbol, expr: lhe }, ArithmeticExpression::Linear { coefficients, expr: rhe })
            | (ArithmeticExpression::Linear { coefficients, expr: lhe }, ArithmeticExpression::Signal { symbol, expr: rhe }) => {
                let mut n_coefficients = copy_map(coefficients);
                coefficients::add_symbol(*symbol, &BigInt::from_i64(1), &mut n_coefficients, field);
                ArithmeticExpression::Linear { expr: infix_expr(lhe, rhe, op), coefficients: n_coefficients }
            },
            (ArithmeticExpression::Signal { symbol, expr: lhe }, ArithmeticExpression::Quadratic { a, b, c, expr: rhe })
            | (ArithmeticExpression::Quadratic { a, b, c, expr: lhe }, ArithmeticExpression::Signal { symbol, expr: rhe }) => {
                let mut n_c = copy_map(c);
                coefficients::add_symbol(*symbol, &BigInt::from_i64(1), &mut n_c, field);
                ArithmeticExpression::Quadratic { expr: infix_expr(lhe, rhe, op), a: copy_map(a), b: copy_map(b), c: n_c }
            },
            (ArithmeticExpression::Linear { coefficients, expr: lhe }, ArithmeticExpression::Linear { coefficients: coefficients_1, expr: rhe }) => {
                let mut n_coefficients = copy_map(coefficients_1);
                coefficients::add_coefficients(coefficients, &mut n_coefficients, field);
                ArithmeticExpression::Linear { expr: infix_expr(lhe, rhe, op), coefficients: n_coefficients }
            },
            (ArithmeticExpression::Linear { coefficients, expr: lhe }, ArithmeticExpression::Quadratic { a, b, c, expr: rhe })
            | (ArithmeticExpression::Quadratic { a, b, c, expr: lhe }, ArithmeticExpression::Linear { coefficients, expr: rhe }) => {
                let mut n_c = copy_map(c);
                coefficients::add_coefficients(coefficients, &mut n_c, field);
                ArithmeticExpression::Quadratic { expr: infix_expr(lhe, rhe, op), a: copy_map(a), b: copy_map(b), c: n_c }
            },
        }
    }

    /// Product in the field.
    pub fn mul(left: &ArithmeticExpression, right: &ArithmeticExpression, field: &BigInt) -> (r: ArithmeticExpression)
        requires
            field@ > 0,
        ensures
            r.model() == mul_model(left.model(), right.model(), field@),
            r.hint() == infix_hint(left.hint(), right.hint(), ExpressionInfixOpcode::Mul),
            left.valid() && right.valid() ==> r.valid(),
    {
        let op = ExpressionInfixOpcode::Mul;
        match (left, right) {
            (ArithmeticExpression::NonQuadratic { .. }, _)
            | (_, ArithmeticExpression::NonQuadratic { .. })
            | (ArithmeticExpression::Quadratic { .. }, ArithmeticExpression::Quadratic { .. })
            | (ArithmeticExpression::Quadratic { .. }, ArithmeticExpression::Linear { .. })
            | (ArithmeticExpression::Linear { .. }, ArithmeticExpression::Quadratic { .. })
            | (ArithmeticExpression::Quadratic { .. }, ArithmeticExpression::Signal { .. })
            | (ArithmeticExpression::Signal { .. }, ArithmeticExpression::Quadratic { .. }) => {
                ArithmeticExpression::nonquadratic_infix(left, right, op)
            },
            (ArithmeticExpression::Number { value: value_0, expr: lhe }, ArithmeticExpression::Number { value: value_1, expr: rhe }) => {
                ArithmeticExpression::Number { expr: infix_expr(lhe, rhe, op), value: modular_arithmetic::mul(value_0, value_1, field) }
            },
            (ArithmeticExpression::Number { value, expr: lhe }, ArithmeticExpression::Signal { symbol, expr: rhe })
            | (ArithmeticExpression::Signal { symbol, expr: lhe }, ArithmeticExpression::Number { value, expr: rhe }) => {
                let mut coefficients = coefficients::new_zero_map();
                coefficients::add_symbol(*symbol, value, &mut coefficients, field);
                ArithmeticExpression::Linear { expr: infix_expr(lhe, rhe, op), coefficients }
            },
            (ArithmeticExpression::Number { value, expr: lhe }, ArithmeticExpression::Linear { coefficients, expr: rhe })
            | (ArithmeticExpression::Linear { coefficients, expr: lhe }, ArithmeticExpression::Number { value, expr: rhe }) => {
                let mut n_coefficients = copy_map(coefficients);
                coefficients::multiply(value, &mut n_coefficients, field);
                ArithmeticExpression::Linear { expr: infix_expr(lhe, rhe, op), coefficients: n_coefficients }
            },
            (ArithmeticExpression::Number { value, expr: lhe }, ArithmeticExpression::Quadratic { a, b, c, expr: rhe })
            | (ArithmeticExpression::Quadratic { a, b, c, expr: lhe }, ArithmeticExpression::Number { value, expr: rhe }) => {
                let mut n_a = copy_map(a);
                let n_b = copy_map(b);
                let mut n_c = copy_map(c);
                coefficients::multiply(value, &mut n_a, field);
                coefficients::multiply(value, &mut n_c, field);
                ArithmeticExpression::Quadratic { expr: infix_expr(lhe, rhe, op), a: n_a, b: n_b, c: n_c }
            },
            (ArithmeticExpression::Signal { symbol: symbol_0, expr: lhe }, ArithmeticExpression::Signal { symbol: symbol_1, expr: rhe }) => {
                let mut a = coefficients::new_zero_map();
                let mut b = coefficients::new_zero_map();
                let c = coefficients::new_zero_map();
                coefficients::add_symbol(*symbol_0, &BigInt::from_i64(1), &mut a, field);
                coefficients::add_symbol(*symbol_1, &BigInt::from_i64(1), &mut b, field);
                ArithmeticExpression::Quadratic { expr: infix_expr(lhe, rhe, op), a, b, c }
            },
            (ArithmeticExpression::Signal { symbol, expr: lhe }, ArithmeticExpression::Linear { coefficients, expr: rhe })
            | (ArithmeticExpression::Linear { coefficients, expr: lhe }, ArithmeticExpression::Signal { symbol, expr: rhe }) => {
                let a = copy_map(coefficients);
                let mut b = coefficients::new_zero_map();
                let c = coefficients::new_zero_map();
                coefficients::add_symbol(*symbol, &BigInt::from_i64(1), &mut b, field);
                ArithmeticExpression::Quadratic { expr: infix_expr(lhe, rhe, op), a, b, c }
            },
            (ArithmeticExpression::Linear { coefficients: coefficients_0, expr: lhe }, ArithmeticExpression::Linear { coefficients: coefficients_1, expr: rhe }) => {
                let a = copy_map(coefficients_0);
                let b = copy_map(coefficients_1);
                let c = coefficients::new_zero_map();
                ArithmeticExpression::Quadratic { expr: infix_expr(lhe, rhe, op), a, b, c }
            },
        }
    }

    /// Difference in the field, as `left + (-1) * right`.
    pub fn sub(left: &ArithmeticExpression, right: &ArithmeticExpression, field: &BigInt) -> (r: ArithmeticExpression)
        requires
            field@ > 0,
            add_defined(left.model(), mul_model(ArithModel::Number(-1), right.model(), field@)),
        ensures
            r.model() == sub_model(left.model(), right.model(), field@),
            r.hint() == sub_hint(left.hint(), right.hint()),
    {
        let minus_one = minus_one();
        let step_one = ArithmeticExpression::mul(&minus_one, right, field);
        ArithmeticExpression::add(left, &step_one, field)
    }

    /// Division in the field.  A linear part is divided by a number
    /// coefficient by coefficient; an error when the number has no inverse.
    pub fn div(left: &ArithmeticExpression, right: &ArithmeticExpression, field: &BigInt) -> (r: Result<ArithmeticExpression, ArithmeticError>)
        requires
            field@ > 0,
        ensures
            r matches Ok(e) ==> div_model(left.model(), right.model(), field@) == Ok::<ArithModel, ArithmeticError>(e.model())
                && e.hint() == infix_hint(left.hint(), right.hint(), ExpressionInfixOpcode::Div),
            r matches Err(err) ==> div_model(left.model(), right.model(), field@) == Err::<ArithModel, ArithmeticError>(err),
    {
        let op = ExpressionInfixOpcode::Div;
        match (left, right) {
            (ArithmeticExpression::Number { value: value_0, expr: lhe }, ArithmeticExpression::Number { value: value_1, expr: rhe }) => {
                let value = modular_arithmetic::div(value_0, value_1, field)?;
                Ok(ArithmeticExpression::Number { expr: infix_expr(lhe, rhe, op), value })
            },
            (ArithmeticExpression::Signal { symbol, expr: lhe }, ArithmeticExpression::Number { value, expr: rhe }) => {
                let mut coefficients = coefficients::new_zero_map();
                coefficients::add_symbol(*symbol, &BigInt::from_i64(1), &mut coefficients, field);
                coefficients::divide(value, &mut coefficients, field)?;
                Ok(ArithmeticExpression::Linear { expr: infix_expr(lhe, rhe, op), coefficients })
            },
            (ArithmeticExpression::Linear { coefficients, expr: lhe }, ArithmeticExpression::Number { value, expr: rhe }) => {
                let mut coefficients = copy_map(coefficients);
                coefficients::divide(value, &mut coefficients, field)?;
                Ok(ArithmeticExpression::Linear { expr: infix_expr(lhe, rhe, op), coefficients })
            },
            (ArithmeticExpression::Quadratic { a, b, c, expr: lhe }, ArithmeticExpression::Number { value, expr: rhe }) => {
                let mut a = copy_map(a);
                let b = copy_map(b);
                let mut c = copy_map(c);
                coefficients::divide(value, &mut a, field)?;
                coefficients::divide(value, &mut c, field)?;
                Ok(ArithmeticExpression::Quadratic { expr: infix_expr(lhe, rhe, op), a, b, c })
            },
            _ => Ok(ArithmeticExpression::nonquadratic_infix(left, right, op)),
        }
    }

    /// Integer division of two numbers' residues; any other operands give a
    /// non-quadratic expression.
    pub fn idiv(left: &ArithmeticExpression, right: &ArithmeticExpression, field: &BigInt) -> (r: Result<ArithmeticExpression, ArithmeticError>)
        requires
            field@ > 0,
        ensures
            r matches Ok(e) ==> on_numbers_result(left.model(), right.model(), |a: int, b: int| spec_idiv(a, b, field@))
                == Ok::<ArithModel, ArithmeticError>(e.model())
                && e.hint() == infix_hint(left.hint(), right.hint(), ExpressionInfixOpcode::IntDiv),
            r matches Err(err) ==> on_numbers_result(left.model(), right.model(), |a: int, b: int| spec_idiv(a, b, field@))
                == Err::<ArithModel, ArithmeticError>(err),
    {
        let op = ExpressionInfixOpcode::IntDiv;
        match (left, right) {
            (ArithmeticExpression::Number { value: value_0, expr: lhe }, ArithmeticExpression::Number { value: value_1, expr: rhe }) => {
                let value = modular_arithmetic::idiv(value_0, value_1, field)?;
                Ok(ArithmeticExpression::Number { expr: infix_expr(lhe, rhe, op), value })
            },
            _ => Ok(ArithmeticExpression::nonquadratic_infix(left, right, op)),
        }
    }

    /// Remainder of two numbers' residues; any other operands give a
    /// non-quadratic expression.
    pub fn mod_op(left: &ArithmeticExpression, right: &ArithmeticExpression, field: &BigInt) -> (r: Result<ArithmeticExpression, ArithmeticError>)
        requires
            field@ > 0,
        ensures
            r matches Ok(e) ==> on_numbers_result(left.model(), right.model(), |a: int, b: int| spec_mod(a, b, field@))
                == Ok::<ArithModel, ArithmeticError>(e.model())
                && e.hint() == infix_hint(left.hint(), right.hint(), ExpressionInfixOpcode::Mod),
            r matches Err(err) ==> on_numbers_result(left.model(), right.model(), |a: int, b: int| spec_mod(a, b, field@))
                == Err::<ArithModel, ArithmeticError>(err),
    {
        let op = ExpressionInfixOpcode::Mod;
        if let (ArithmeticExpression::Number { value: value_0, expr: lhe }, ArithmeticExpression::Number { value: value_1, expr: rhe }) = (left, right) {
            let value = modular_arithmetic::mod_op(value_0, value_1, field)?;
            Ok(ArithmeticExpression::Number { expr: infix_expr(lhe, rhe, op), value })
        } else {
            Ok(ArithmeticExpression::nonquadratic_infix(left, right, op))
        }
    }

    /// Power: numbers raised by `modpow` (the power modulo the field for a
    /// base in the field, see `pow_model`), squares of signals and of linear
    /// parts as products; anything else is non-quadratic.
    pub fn pow(left: &ArithmeticExpression, right: &ArithmeticExpression, field: &BigInt) -> (r: ArithmeticExpression)
        requires
            field@ > 0,
            left.model() is Number ==> (right.model() matches ArithModel::Number(e) ==> e >= 0),
        ensures
            r.model() == pow_model(left.model(), right.model(), field@),
            r.hint() == pow_hint(left.model(), right.model(), left.hint(), right.hint()),
    {
        let op = ExpressionInfixOpcode::Pow;
        let two = BigInt::from_i64(2);
        match (left, right) {
            (ArithmeticExpression::Number { value: value_0, expr: lhe }, ArithmeticExpression::Number { value: value_1, expr: rhe }) => {
                ArithmeticExpression::Number { expr: infix_expr(lhe, rhe, op), value: modular_arithmetic::pow_op(value_0, value_1, field) }
            },
            (ArithmeticExpression::Signal { symbol, expr: lhe }, ArithmeticExpression::Number { value, .. }) if value.equals(&two) => {
                let l = ArithmeticExpression::Signal { symbol: *symbol, expr: lhe.clone() };
                let r = ArithmeticExpression::Signal { symbol: *symbol, expr: lhe.clone() };
                ArithmeticExpression::mul(&l, &r, field)
            },
            (ArithmeticExpression::Linear { coefficients, expr: lhe }, ArithmeticExpression::Number { value, .. }) if value.equals(&two) => {
                let l = ArithmeticExpression::Linear { coefficients: copy_map(coefficients), expr: lhe.clone() };
                let r = ArithmeticExpression::Linear { coefficients: copy_map(coefficients), expr: lhe.clone() };
                ArithmeticExpression::mul(&l, &r, field)
            },
            _ => ArithmeticExpression::nonquadratic_infix(left, right, op),
        }
    }

    /// Negation, as `elem * (-1)`.
    pub fn prefix_sub(elem: &ArithmeticExpression, field: &BigInt) -> (r: ArithmeticExpression)
        requires
            field@ > 0,
        ensures
            r.model() == mul_model(elem.model(), ArithModel::Number(-1), field@),
            r.hint() == infix_hint(elem.hint(), HintModel::Number(-1), ExpressionInfixOpcode::Mul),
    {
        let minus_one = minus_one();
        ArithmeticExpression::mul(elem, &minus_one, field)
    }

    /// Bitwise or of two numbers; any other operands give a non-quadratic expression.
    pub fn bit_or(left: &ArithmeticExpression, right: &ArithmeticExpression, field: &BigInt) -> (r: ArithmeticExpression)
        requires
            field@ > 0,
        ensures
            r.model() == on_numbers(left.model(), right.model(), |a: int, b: int| modulus(crate::bigint::int_bitor(a, b), field@)),
            r.hint() == infix_hint(left.hint(), right.hint(), ExpressionInfixOpcode::BitOr),
    {
        let op = ExpressionInfixOpcode::BitOr;
        if let (ArithmeticExpression::Number { value: value_0, expr: lhe }, ArithmeticExpression::Number { value: value_1, expr: rhe }) = (left, right) {
            ArithmeticExpression::Number { expr: infix_expr(lhe, rhe, op), value: modular_arithmetic::bit_or(value_0, value_1, field) }
        } else {
            ArithmeticExpression::nonquadratic_infix(left, right, op)
        }
    }

    /// Bitwise and of two numbers; any other operands give a non-quadratic expression.
    pub fn bit_and(left: &ArithmeticExpression, right: &ArithmeticExpression, field: &BigInt) -> (r: ArithmeticExpression)
        requires
            field@ > 0,
        ensures
            r.model() == on_numbers(left.model(), right.model(), |a: int, b: int| modulus(crate::bigint::int_bitand(a, b), field@)),
            r.hint() == infix_hint(left.hint(), right.hint(), ExpressionInfixOpcode::BitAnd),
    {
        let op = ExpressionInfixOpcode::BitAnd;
        if let (ArithmeticExpression::Number { value: value_0, expr: lhe }, ArithmeticExpression::Number { value: value_1, expr: rhe }) = (left, right) {
            ArithmeticExpression::Number { expr: infix_expr(lhe, rhe, op), value: modular_arithmetic::bit_and(value_0, value_1, field) }
        } else {
            ArithmeticExpression::nonquadratic_infix(left, right, op)
        }
    }

    /// Bitwise exclusive or of two numbers; any other operands give a non-quadratic expression.
    pub fn bit_xor(left: &ArithmeticExpression, right: &ArithmeticExpression, field: &BigInt) -> (r: ArithmeticExpression)
        requires
            field@ > 0,
        ensures
            r.model() == on_numbers(left.model(), right.model(), |a: int, b: int| modulus(crate::bigint::int_bitxor(a, b), field@)),
            r.hint() == infix_hint(left.hint(), right.hint(), ExpressionInfixOpcode::BitXor),
    {
        let op = ExpressionInfixOpcode::BitXor;
        if let (ArithmeticExpression::Number { value: value_0, expr: lhe }, ArithmeticExpression::Number { value: value_1, expr: rhe }) = (left, right) {
            ArithmeticExpression::Number { expr: infix_expr(lhe, rhe, op), value: modular_arithmetic::bit_xor(value_0, value_1, field) }
        } else {
            ArithmeticExpression::nonquadratic_infix(left, right, op)
        }
    }

    /// Boolean or of two numbers; any other operands give a non-quadratic expression.
    pub fn bool_or(left: &ArithmeticExpression, right: &ArithmeticExpression, field: &BigInt) -> (r: ArithmeticExpression)
        requires
            field@ > 0,
        ensures
            r.model() == on_numbers(left.model(), right.model(), |a: int, b: int| modular_arithmetic::bool_value(modular_arithmetic::spec_as_bool(a, field@) || modular_arithmetic::spec_as_bool(b, field@))),
            r.hint() == infix_hint(left.hint(), right.hint(), ExpressionInfixOpcode::BoolOr),
    {
        let op = ExpressionInfixOpcode::BoolOr;
        if let (ArithmeticExpression::Number { value: value_0, expr: lhe }, ArithmeticExpression::Number { value: value_1, expr: rhe }) = (left, right) {
            ArithmeticExpression::Number { expr: infix_expr(lhe, rhe, op), value: modular_arithmetic::bool_or(value_0, value_1, field) }
        } else {
            ArithmeticExpression::nonquadratic_infix(left, right, op)
        }
    }

    /// Boolean and of two numbers; any other operands give a non-quadratic expression.
    pub fn bool_and(left: &ArithmeticExpression, right: &ArithmeticExpression, field: &BigInt) -> (r: ArithmeticExpression)
        requires
            field@ > 0,
        ensures
            r.model() == on_numbers(left.model(), right.model(), |a: int, b: int| modular_arithmetic::bool_value(modular_arithmetic::spec_as_bool(a, field@) && modular_arithmetic::spec_as_bool(b, field@))),
            r.hint() == infix_hint(left.hint(), right.hint(), ExpressionInfixOpcode::BoolAnd),
    {
        let op = ExpressionInfixOpcode::BoolAnd;
        if let (ArithmeticExpression::Number { value: value_0, expr: lhe }, ArithmeticExpression::Number { value: value_1, expr: rhe }) = (left, right) {
            ArithmeticExpression::Number { expr: infix_expr(lhe, rhe, op), value: modular_arithmetic::bool_and(value_0, value_1, field) }
        } else {
            ArithmeticExpression::nonquadratic_infix(left, right, op)
        }
    }

    /// Equality of two numbers in the field; any other operands give a non-quadratic expression.
    pub fn eq(left: &ArithmeticExpression, right: &ArithmeticExpression, field: &BigInt) -> (r: ArithmeticExpression)
        requires
            field@ > 0,
        ensures
            r.model() == on_numbers(left.model(), right.model(), |a: int, b: int| modular_arithmetic::bool_value(modulus(a, field@) == modulus(b, field@))),
            r.hint() == infix_hint(left.hint(), right.hint(), ExpressionInfixOpcode::Eq),
    {
        let op = ExpressionInfixOpcode::Eq;
        if let (ArithmeticExpression::Number { value: value_0, expr: lhe }, ArithmeticExpression::Number { value: value_1, expr: rhe }) = (left, right) {
            ArithmeticExpression::Number { expr: infix_expr(lhe, rhe, op), value: modular_arithmetic::eq(value_0, value_1, field) }
        } else {
            ArithmeticExpression::nonquadratic_infix(left, right, op)
        }
    }

    /// Inequality of two numbers in the field; any other operands give a non-quadratic expression.
    pub fn not_eq(left: &ArithmeticExpression, right: &ArithmeticExpression, field: &BigInt) -> (r: ArithmeticExpression)
        requires
            field@ > 0,
        ensures
            r.model() == on_numbers(left.model(), right.model(), |a: int, b: int| modular_arithmetic::bool_value(modulus(a, field@) != modulus(b, field@))),
            r.hint() == infix_hint(left.hint(), right.hint(), ExpressionInfixOpcode::NotEq),
    {
        let op = ExpressionInfixOpcode::NotEq;
        if let (ArithmeticExpression::Number { value: value_0, expr: lhe }, ArithmeticExpression::Number { value: value_1, expr: rhe }) = (left, right) {
            ArithmeticExpression::Number { expr: infix_expr(lhe, rhe, op), value: modular_arithmetic::not_eq(value_0, value_1, field) }
        } else {
            ArithmeticExpression::nonquadratic_infix(left, right, op)
        }
    }

    /// `<` of two numbers in the signed reading of the field; any other operands give a non-quadratic expression.
    pub fn lesser(left: &ArithmeticExpression, right: &ArithmeticExpression, field: &BigInt) -> (r: ArithmeticExpression)
        requires
            field@ > 0,
        ensures
            r.model() == on_numbers(left.model(), right.model(), |a: int, b: int| modular_arithmetic::bool_value(modular_arithmetic::comparable(a, field@) < modular_arithmetic::comparable(b, field@))),
            r.hint() == infix_hint(left.hint(), right.hint(), ExpressionInfixOpcode::Lesser),
    {
        let op = ExpressionInfixOpcode::Lesser;
        if let (ArithmeticExpression::Number { value: value_0, expr: lhe }, ArithmeticExpression::Number { value: value_1, expr: rhe }) = (left, right) {
            ArithmeticExpression::Number { expr: infix_expr(lhe, rhe, op), value: modular_arithmetic::lesser(value_0, value_1, field) }
        } else {
            ArithmeticExpression::nonquadratic_infix(left, right, op)
        }
    }

    /// `<=` of two numbers in the signed reading of the field; any other operands give a non-quadratic expression.
    pub fn lesser_eq(left: &ArithmeticExpression, right: &ArithmeticExpression, field: &BigInt) -> (r: ArithmeticExpression)
        requires
            field@ > 0,
        ensures
            r.model() == on_numbers(left.model(), right.model(), |a: int, b: int| modular_arithmetic::bool_value(modular_arithmetic::comparable(a, field@) <= modular_arithmetic::comparable(b, field@))),
            r.hint() == infix_hint(left.hint(), right.hint(), ExpressionInfixOpcode::LesserEq),
    {
        let op = ExpressionInfixOpcode::LesserEq;
        if let (ArithmeticExpression::Number { value: value_0, expr: lhe }, ArithmeticExpression::Number { value: value_1, expr: rhe }) = (left, right) {
            ArithmeticExpression::Number { expr: infix_expr(lhe, rhe, op), value: modular_arithmetic::lesser_eq(value_0, value_1, field) }
        } else {
            ArithmeticExpression::nonquadratic_infix(left, right, op)
        }
    }

    /// `>` of two numbers in the signed reading of the field; any other operands give a non-quadratic expression.
    pub fn greater(left: &ArithmeticExpression, right: &ArithmeticExpression, field: &BigInt) -> (r: ArithmeticExpression)
        requires
            field@ > 0,
        ensures
            r.model() == on_numbers(left.model(), right.model(), |a: int, b: int| modular_arithmetic::bool_value(modular_arithmetic::comparable(a, field@) > modular_arithmetic::comparable(b, field@))),
            r.hint() == infix_hint(left.hint(), right.hint(), ExpressionInfixOpcode::Greater),
    {
        let op = ExpressionInfixOpcode::Greater;
        if let (ArithmeticExpression::Number { value: value_0, expr: lhe }, ArithmeticExpression::Number { value: value_1, expr: rhe }) = (left, right) {
            ArithmeticExpression::Number { expr: infix_expr(lhe, rhe, op), value: modular_arithmetic::greater(value_0, value_1, field) }
        } else {
            ArithmeticExpression::nonquadratic_infix(left, right, op)
        }
    }

    /// `>=` of two numbers in the signed reading of the field; any other operands give a non-quadratic expression.
    pub fn greater_eq(left: &ArithmeticExpression, right: &ArithmeticExpression, field: &BigInt) -> (r: ArithmeticExpression)
        requires
            field@ > 0,
        ensures
            r.model() == on_numbers(left.model(), right.model(), |a: int, b: int| modular_arithmetic::bool_value(modular_arithmetic::comparable(a, field@) >= modular_arithmetic::comparable(b, field@))),
            r.hint() == infix_hint(left.hint(), right.hint(), ExpressionInfixOpcode::GreaterEq),
    {
        let op = ExpressionInfixOpcode::GreaterEq;
        if let (ArithmeticExpression::Number { value: value_0, expr: lhe }, ArithmeticExpression::Number { value: value_1, expr: rhe }) = (left, right) {
            ArithmeticExpression::Number { expr: infix_expr(lhe, rhe, op), value: modular_arithmetic::greater_eq(value_0, value_1, field) }
        } else {
            ArithmeticExpression::nonquadratic_infix(left, right, op)
        }
    }

    /// Shift of a number in the field; any other operands give a
    /// non-quadratic expression.
    pub fn shift_l(left: &ArithmeticExpression, right: &ArithmeticExpression, field: &BigInt) -> (r: Result<ArithmeticExpression, ArithmeticError>)
        requires
            field@ > 0,
        ensures
            r matches Ok(e) ==> on_numbers_result(left.model(), right.model(), |a: int, b: int| modular_arithmetic::spec_shift_l(a, b, field@))
                == Ok::<ArithModel, ArithmeticError>(e.model())
                && e.hint() == infix_hint(left.hint(), right.hint(), ExpressionInfixOpcode::ShiftL),
            r matches Err(err) ==> on_numbers_result(left.model(), right.model(), |a: int, b: int| modular_arithmetic::spec_shift_l(a, b, field@))
                == Err::<ArithModel, ArithmeticError>(err),
    {
        let op = ExpressionInfixOpcode::ShiftL;
        if let (ArithmeticExpression::Number { value: value_0, expr: lhe }, ArithmeticExpression::Number { value: value_1, expr: rhe }) = (left, right) {
            let shifted_elem = modular_arithmetic::shift_l(value_0, value_1, field)?;
            Ok(ArithmeticExpression::Number { expr: infix_expr(lhe, rhe, op), value: shifted_elem })
        } else {
            Ok(ArithmeticExpression::nonquadratic_infix(left, right, op))
        }
    }

    /// Shift of a number in the field; any other operands give a
    /// non-quadratic expression.
    pub fn shift_r(left: &ArithmeticExpression, right: &ArithmeticExpression, field: &BigInt) -> (r: Result<ArithmeticExpression, ArithmeticError>)
        requires
            field@ > 0,
        ensures
            r matches Ok(e) ==> on_numbers_result(left.model(), right.model(), |a: int, b: int| modular_arithmetic::spec_shift_r(a, b, field@))
                == Ok::<ArithModel, ArithmeticError>(e.model())
                && e.hint() == infix_hint(left.hint(), right.hint(), ExpressionInfixOpcode::ShiftR),
            r matches Err(err) ==> on_numbers_result(left.model(), right.model(), |a: int, b: int| modular_arithmetic::spec_shift_r(a, b, field@))
                == Err::<ArithModel, ArithmeticError>(err),
    {
        let op = ExpressionInfixOpcode::ShiftR;
        if let (ArithmeticExpression::Number { value: value_0, expr: lhe }, ArithmeticExpression::Number { value: value_1, expr: rhe }) = (left, right) {
            let shifted_elem = modular_arithmetic::shift_r(value_0, value_1, field)?;
            Ok(ArithmeticExpression::Number { expr: infix_expr(lhe, rhe, op), value: shifted_elem })
        } else {
            Ok(ArithmeticExpression::nonquadratic_infix(left, right, op))
        }
    }

    /// Complement of a number in the bit width of the field; any other
    /// operand gives a non-quadratic expression.
    pub fn complement(elem: &ArithmeticExpression, field: &BigInt) -> (r: ArithmeticExpression)
        requires
            field@ > 0,
        ensures
            r.model() == on_number(elem.model(), |a: int| modular_arithmetic::spec_complement(a, field@)),
            r.hint() == prefix_hint(elem.hint(), ExpressionPrefixOpcode::Complement),
    {
        if let ArithmeticExpression::Number { value, expr: rhe } = elem {
            ArithmeticExpression::Number {
                expr: prefix_expr(rhe, ExpressionPrefixOpcode::Complement),
                value: modular_arithmetic::complement(value, field),
            }
        } else {
            ArithmeticExpression::nonquadratic_prefix(elem, ExpressionPrefixOpcode::Complement)
        }
    }

    /// Truth value of a number; `None` for any other expression.
    pub fn get_boolean_equivalence(elem: &ArithmeticExpression, field: &BigInt) -> (r: Option<bool>)
        requires
            field@ > 0,
        ensures
            r == (match elem.model() {
                ArithModel::Number(v) => Some(modular_arithmetic::spec_as_bool(v, field@)),
                _ => None,
            }),
    {
        if let ArithmeticExpression::Number { value, .. } = elem {
            Some(modular_arithmetic::as_bool(value, field))
        } else {
            None
        }
    }

    /// Boolean negation of a number; any other operand gives a
    /// non-quadratic expression.
    pub fn not(elem: &ArithmeticExpression, field: &BigInt) -> (r: ArithmeticExpression)
        requires
            field@ > 0,
        ensures
            r.model() == on_number(elem.model(), |a: int| modular_arithmetic::bool_value(!modular_arithmetic::spec_as_bool(a, field@))),
            r.hint() == prefix_hint(elem.hint(), ExpressionPrefixOpcode::BoolNot),
    {
        if let ArithmeticExpression::Number { value, expr } = elem {
            let value = modular_arithmetic::not(value, field);
            ArithmeticExpression::Number { expr: prefix_expr(expr, ExpressionPrefixOpcode::BoolNot), value }
        } else {
            ArithmeticExpression::nonquadratic_prefix(elem, ExpressionPrefixOpcode::BoolNot)
        }
    }

    /// The value of a number as a `usize`, when it is one; `None` otherwise.
    pub fn get_usize(expr: &ArithmeticExpression) -> (r: Option<usize>)
        ensures
            r matches Some(u) ==> expr.model() == ArithModel::Number(u as int),
            r is None <==> !(expr.model() matches ArithModel::Number(v) && 0 <= v <= usize::MAX),
    {
        if let ArithmeticExpression::Number { value, .. } = expr {
            value.to_usize()
        } else {
            None
        }
    }

    /// Whether the expression is a number.
    pub fn is_number(&self) -> (r: bool)
        ensures
            r == self.model() is Number,
    {
        matches!(self, ArithmeticExpression::Number { .. })
    }

    /// Whether the expression is non-quadratic.
    pub fn is_nonquadratic(&self) -> (r: bool)
        ensures
            r == self.model() is NonQuadratic,
    {
        matches!(self, ArithmeticExpression::NonQuadratic { .. })
    }

    /// Whether the expression is quadratic.
    pub fn is_quadratic(&self) -> (r: bool)
        ensures
            r == self.model() is Quadratic,
    {
        matches!(self, ArithmeticExpression::Quadratic { .. })
    }

    /// Whether the expression is linear.
    pub fn is_linear(&self) -> (r: bool)
        ensures
            r == self.model() is Linear,
    {
        matches!(self, ArithmeticExpression::Linear { .. })
    }

    /// Every coefficient reduced into `[0, field)`.
    pub fn modularize_hashmap(coefficients: &HashMap<usize, BigInt>, field: &BigInt) -> (r: HashMap<usize, BigInt>)
        requires
            field@ > 0,
        ensures
            cview(r) == cview(*coefficients).map_values(|v: int| modulus(v, field@)),
    {
        let mut modularized: HashMap<usize, BigInt> = HashMap::new();
        let ghost src = cview(*coefficients);
        for (symbol, coefficient) in it: coefficients.iter()
            invariant
                src == cview(*coefficients),
                field@ > 0,
                forall|i: int| 0 <= i < it.seq().len() ==> #[trigger] coefficients@.contains_key(*it.seq()[i].0)
                    && coefficients@[*it.seq()[i].0] == *it.seq()[i].1,
                forall|s: usize| #[trigger] coefficients@.contains_key(s) ==> exists|i: int|
                    0 <= i < it.seq().len() && *it.seq()[i].0 == s,
                cview(modularized) == Map::new(
                    |s: usize| exists|i: int| 0 <= i < it.index() && *it.seq()[i].0 == s,
                    |s: usize| modulus(src[s], field@),
                ),
        {
            let ghost before = modularized;
            let v = modular_arithmetic::modulus_exec(coefficient, field);
            modularized.insert(*symbol, v);
            proof {
                coefficients::lemma_cview_insert(modularized, before, *symbol, v);
                assert(coefficients@.contains_key(*it.seq()[it.index()].0));
                assert(cview(modularized) =~= Map::new(
                    |s: usize| exists|i: int| 0 <= i < it.index() + 1 && *it.seq()[i].0 == s,
                    |s: usize| modulus(src[s], field@),
                ));
            }
        }
        proof {
            assert(cview(modularized) =~= src.map_values(|v: int| modulus(v, field@)));
        }
        modularized
    }

    /// The simplest expression equal to a linear combination; its hint is
    /// unknown.
    pub fn hashmap_into_arith(map: HashMap<usize, BigInt>) -> (r: ArithmeticExpression)
        ensures
            r.model() == into_arith_model(cview(map)),
            r.hint() == HintModel::Unknown,
    {
        let mut map = map;
        let ghost m = cview(map);
        proof {
            coefficients::lemma_cview_dom(map);
        }
        if map.len() == 1 && map.contains_key(&0) {
            let value = map.remove(&0).unwrap();
            ArithmeticExpression::Number { value, expr: HintExpression::Unknown }
        } else if map.len() == 1 {
            let (symbol, value) = single_entry(&map);
            proof {
                lemma_singleton_choose(m, symbol);
            }
            if value.equals(&BigInt::from_i64(1)) {
                ArithmeticExpression::Signal { symbol, expr: HintExpression::Unknown }
            } else {
                coefficients::initialize(&mut map);
                ArithmeticExpression::Linear { coefficients: map, expr: HintExpression::Unknown }
            }
        } else {
            coefficients::initialize(&mut map);
            ArithmeticExpression::Linear { coefficients: map, expr: HintExpression::Unknown }
        }
    }

    /// Replaces the signal of `substitution` by its linear combination.
    /// Linear parts are cleared of zero coefficients afterwards; a changed
    /// expression loses its hint.
    pub fn apply_substitutions(expr: &mut ArithmeticExpression, substitution: &Substitution, field: &BigInt)
        requires
            field@ > 0,
        ensures
            final(expr).model() == substituted_model(old(expr).model(), substitution.from_symbol(), substitution.to_map(), field@),
            final(expr).hint() == if substitution_applies(old(expr).model(), substitution.from_symbol()) {
                HintModel::Unknown
            } else {
                old(expr).hint()
            },
    {
        let replacement = match &*expr {
            ArithmeticExpression::Linear { coefficients, .. } => {
                let mut c = copy_map(coefficients);
                coefficients::raw_substitution(&mut c, substitution.from, &substitution.to, field);
                Some(ArithmeticExpression::Linear {
                    coefficients: coefficients::remove_zero_value_coefficients(c),
                    expr: HintExpression::Unknown,
                })
            },
            ArithmeticExpression::Signal { symbol, .. } if *symbol == substitution.from => {
                Some(ArithmeticExpression::Linear { coefficients: copy_map(&substitution.to), expr: HintExpression::Unknown })
            },
            ArithmeticExpression::Quadratic { a, b, c, .. } => {
                let mut a = copy_map(a);
                coefficients::raw_substitution(&mut a, substitution.from, &substitution.to, field);
                let mut b = copy_map(b);
                coefficients::raw_substitution(&mut b, substitution.from, &substitution.to, field);
                let mut c = copy_map(c);
                coefficients::raw_substitution(&mut c, substitution.from, &substitution.to, field);
                Some(ArithmeticExpression::Quadratic {
                    a: coefficients::remove_zero_value_coefficients(a),
                    b: coefficients::remove_zero_value_coefficients(b),
                    c: coefficients::remove_zero_value_coefficients(c),
                    expr: HintExpression::Unknown,
                })
            },
            _ => None,
        };
        if let Some(e) = replacement {
            *expr = e;
        }
    }

    /// The constraint `expr = 0` in the form `A*B - C = 0`; `None` for a
    /// non-quadratic expression.
    pub fn transform_expression_to_constraint_form(arithmetic_expression: ArithmeticExpression, field: &BigInt) -> (r: Option<Constraint>)
        requires
            field@ > 0,
        ensures
            r is None <==> arithmetic_expression.model() is NonQuadratic,
            r matches Some(k) ==> k.model() == constraint_form_model(arithmetic_expression.model(), field@),
    {
        let mut a = coefficients::new_zero_map();
        let mut b = coefficients::new_zero_map();
        let mut c = coefficients::new_zero_map();
        match arithmetic_expression {
            ArithmeticExpression::NonQuadratic { .. } => {
                return None;
            },
            ArithmeticExpression::Quadratic { a: old_a, b: old_b, c: old_c, .. } => {
                a = old_a;
                b = old_b;
                c = old_c;
            },
            ArithmeticExpression::Number { value, .. } => {
                let ghost before = c;
                c.insert(0, value);
                proof {
                    assert(cview(c) =~= cview(before).insert(0, value@));
                }
            },
            ArithmeticExpression::Signal { symbol, .. } => {
                let ghost before = c;
                let one = BigInt::from_i64(1);
                c.insert(symbol, one);
                proof {
                    assert(cview(c) =~= cview(before).insert(symbol, one@));
                }
            },
            ArithmeticExpression::Linear { coefficients, .. } => {
                c = coefficients;
            },
        }
        coefficients::multiply(&BigInt::from_i64(-1), &mut c, field);
        Some(Constraint::new(a, b, c))
    }
}

/// Value of the constraint `e = 0` in the form `A*B - C = 0`.
pub open spec fn constraint_form_model(e: ArithModel, p: int) -> (Map<usize, int>, Map<usize, int>, Map<usize, int>) {
    match e {
        ArithModel::Quadratic(a, b, c) => (a, b, scaled(c, -1, p)),
        ArithModel::Number(v) => (zero_map(), zero_map(), scaled(zero_map().insert(coefficients::constant_symbol(), v), -1, p)),
        ArithModel::Signal(s) => (zero_map(), zero_map(), scaled(zero_map().insert(s, 1), -1, p)),
        ArithModel::Linear(c) => (zero_map(), zero_map(), scaled(c, -1, p)),
        ArithModel::NonQuadratic => (zero_map(), zero_map(), zero_map()),
    }
}

} // verus!
