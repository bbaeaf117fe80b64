//! Text forms of hints and expressions: the JSON that reports are made of,
//! and the human-readable notation of expressions.
use crate::algebra::{AccessModel, ArithModel, ArithmeticExpression, HintAccess, HintExpression, HintModel};
use crate::ast::{infix_name, prefix_name};
use crate::bigint::{decimal, decimal_digits, digit_char, BigInt};
use crate::coefficients::{constant_symbol, cview, without_zeros};
use std::collections::{BTreeSet, HashMap};
use vstd::std_specs::cmp::OrdSpec;
use vstd::std_specs::iter::IteratorSpec;
use vstd::prelude::*;

verus! {

broadcast use {vstd::std_specs::hash::group_hash_axioms, vstd::std_specs::btree::group_btree_axioms, vstd::laws_cmp::group_laws_cmp};

/// The one-character text of a decimal digit.
fn digit_text(d: usize) -> (r: &'static str)
    requires
        d < 10,
    ensures
        r@ == seq![digit_char(d as int)],
{
    proof {
        reveal_strlit("0");
        reveal_strlit("1");
        reveal_strlit("2");
        reveal_strlit("3");
        reveal_strlit("4");
        reveal_strlit("5");
        reveal_strlit("6");
        reveal_strlit("7");
        reveal_strlit("8");
        reveal_strlit("9");
    }
    match d {
        0 => "0",
        1 => "1",
        2 => "2",
        3 => "3",
        4 => "4",
        5 => "5",
        6 => "6",
        7 => "7",
        8 => "8",
        _ => "9",
    }
}

/// Decimal notation of a machine integer.
pub fn usize_decimal(n: usize) -> (r: String)
    ensures
        r@ == decimal_digits(n as nat),
{
    let mut x: usize = n;
    let mut tail = String::new();
    while x >= 10
        invariant
            decimal_digits(n as nat) == decimal_digits(x as nat) + tail@,
        decreases x,
    {
        let mut front = String::from_str(digit_text(x % 10));
        front.append(tail.as_str());
        proof {
            assert(decimal_digits(x as nat) == decimal_digits((x / 10) as nat).push(digit_char((x % 10) as int)));
            assert(decimal_digits(x as nat) + tail@ =~= decimal_digits((x / 10) as nat) + front@);
        }
        tail = front;
        x = x / 10;
    }
    let mut r = String::from_str(digit_text(x));
    r.append(tail.as_str());
    r
}

/// Numbers separated by ", ".
pub open spec fn route_json(route: Seq<usize>) -> Seq<char>
    decreases route.len(),
{
    if route.len() == 0 {
        Seq::empty()
    } else if route.len() == 1 {
        decimal_digits(route[0] as nat)
    } else {
        route_json(route.subrange(0, route.len() - 1)) + ", "@ + decimal_digits(route.last() as nat)
    }
}

/// JSON of an access step.
pub open spec fn access_json(a: AccessModel) -> Seq<char>
    decreases a,
{
    match a {
        AccessModel::ComponentAccess(name) => "{\"$\": \"Access\", \"@\": \"ComponentAccess\", \"name\": \""@ + name
            + "\"}"@,
        AccessModel::ArrayAccess(index) => "{\"$\": \"Access\", \"@\": \"ArrayAccess\", \"index\": "@ + hint_json(
            index,
        ) + "}"@,
    }
}

/// JSON of access steps, separated by ", ".
pub open spec fn access_list_json(s: Seq<AccessModel>) -> Seq<char>
    decreases s,
{
    if s.len() == 0 {
        Seq::empty()
    } else if s.len() == 1 {
        access_json(s[0])
    } else {
        access_list_json(s.subrange(0, s.len() - 1)) + ", "@ + access_json(s[s.len() - 1])
    }
}

/// JSON of hints, separated by ", ".
pub open spec fn hint_list_json(s: Seq<HintModel>) -> Seq<char>
    decreases s,
{
    if s.len() == 0 {
        Seq::empty()
    } else if s.len() == 1 {
        hint_json(s[0])
    } else {
        hint_list_json(s.subrange(0, s.len() - 1)) + ", "@ + hint_json(s[s.len() - 1])
    }
}

/// JSON of a hint.
pub open spec fn hint_json(h: HintModel) -> Seq<char>
    decreases h,
{
    match h {
        HintModel::Unknown => "{\"$\": \"Expr\", \"@\": \"Unknown\"}"@,
        HintModel::Number(v) => "{\"$\": \"Expr\", \"@\": \"Number\", \"value\": \""@ + decimal(v) + "\"}"@,
        HintModel::Symbol(name, access) => "{\"$\": \"Expr\", \"@\": \"Symbol\", \"symbol\": \""@ + name
            + "\", \"access\": ["@ + access_list_json(access) + "]}"@,
        HintModel::Variable(name) => "{\"$\": \"Expr\", \"@\": \"Variable\", \"symbol\": \""@ + name + "\"}"@,
        HintModel::InfixOp(lhe, rhe, op) => "{\"$\": \"Expr\", \"@\": \""@ + infix_name(op) + "\", \"lhe\": "@
            + hint_json(*lhe) + ", \"rhe\": "@ + hint_json(*rhe) + "}"@,
        HintModel::PrefixOp(rhe, op) => "{\"$\": \"Expr\", \"@\": \""@ + prefix_name(op) + "\", \"rhe\": "@
            + hint_json(*rhe) + "}"@,
        HintModel::MemorySlice(route, values) => "{\"$\": \"Expr\", \"@\": \"MemorySlice\", \"route\": ["@
            + route_json(route) + "], \"values\": ["@ + hint_list_json(values) + "]}"@,
        HintModel::InlineSwitch(condition, if_true, if_false) => "{\"$\": \"Expr\", \"@\": \"InlineSwitch\", \"condition\": "@
            + hint_json(*condition) + ", \"if_true\": "@ + hint_json(*if_true) + ", \"if_false\": "@ + hint_json(
            *if_false,
        ) + "}"@,
    }
}

impl HintAccess {
    /// The access step as JSON.
    pub fn to_json(&self) -> (r: String)
        ensures
            r@ == access_json(self@),
        decreases self,
    {
        match self {
            HintAccess::ComponentAccess(name) => {
                let mut s = String::from_str("{\"$\": \"Access\", \"@\": \"ComponentAccess\", \"name\": \"");
                s.append(name.as_str());
                s.append("\"}");
                s
            },
            HintAccess::ArrayAccess(index) => {
                let mut s = String::from_str("{\"$\": \"Access\", \"@\": \"ArrayAccess\", \"index\": ");
                let inner = index.to_json();
                s.append(inner.as_str());
                s.append("}");
                s
            },
        }
    }
}

impl HintExpression {
    /// The hint as JSON.
    #[verifier::loop_isolation(false)]
    pub fn to_json(&self) -> (r: String)
        ensures
            r@ == hint_json(self@),
        decreases self,
    {
        match self {
            HintExpression::Unknown => String::from_str("{\"$\": \"Expr\", \"@\": \"Unknown\"}"),
            HintExpression::Number { value } => {
                let mut s = String::from_str("{\"$\": \"Expr\", \"@\": \"Number\", \"value\": \"");
                s.append(value.to_decimal_string().as_str());
                s.append("\"}");
                s
            },
            HintExpression::Symbol { symbol, access } => {
                let mut s = String::from_str("{\"$\": \"Expr\", \"@\": \"Symbol\", \"symbol\": \"");
                s.append(symbol.as_str());
                s.append("\", \"access\": [");
                let ghost models = crate::algebra::access_models(access@);
                let ghost start = s@;
                proof {
                    crate::algebra::lemma_access_models_len(access@);
                }
                let mut i: usize = 0;
                while i < access.len()
                    invariant
                        i <= access.len(),
                        models == crate::algebra::access_models(access@),
                        models.len() == access.len(),
                        s@ == start + access_list_json(models.subrange(0, i as int)),
                    decreases access.len() - i,
                {
                    proof {
                        assert(decreases_to!(*self => *access));
                        assert(decreases_to!(*access => access@));
                        assert(decreases_to!(access@ => access@[i as int]));
                        crate::algebra::lemma_access_models_index(access@, i as int);
                        assert(models.subrange(0, i + 1).subrange(0, i as int) =~= models.subrange(0, i as int));
                    }
                    if i > 0 {
                        s.append(", ");
                    }
                    let item = access[i].to_json();
                    s.append(item.as_str());
                    proof {
                        assert(s@ =~= start + access_list_json(models.subrange(0, i + 1)));
                    }
                    i = i + 1;
                }
                proof {
                    assert(models.subrange(0, access.len() as int) =~= models);
                }
                s.append("]}");
                s
            },
            HintExpression::Variable { symbol } => {
                let mut s = String::from_str("{\"$\": \"Expr\", \"@\": \"Variable\", \"symbol\": \"");
                s.append(symbol.as_str());
                s.append("\"}");
                s
            },
            HintExpression::InfixOp { lhe, rhe, infix_op } => {
                let mut s = String::from_str("{\"$\": \"Expr\", \"@\": \"");
                s.append(infix_op.name());
                s.append("\", \"lhe\": ");
                let l = lhe.to_json();
                s.append(l.as_str());
                s.append(", \"rhe\": ");
                let r = rhe.to_json();
                s.append(r.as_str());
                s.append("}");
                s
            },
            HintExpression::PrefixOp { rhe, prefix_op } => {
                let mut s = String::from_str("{\"$\": \"Expr\", \"@\": \"");
                s.append(prefix_op.name());
                s.append("\", \"rhe\": ");
                let r = rhe.to_json();
                s.append(r.as_str());
                s.append("}");
                s
            },
            HintExpression::MemorySlice { route, values } => {
                let mut s = String::from_str("{\"$\": \"Expr\", \"@\": \"MemorySlice\", \"route\": [");
                let ghost start = s@;
                let mut i: usize = 0;
                while i < route.len()
                    invariant
                        i <= route.len(),
                        s@ == start + route_json(route@.subrange(0, i as int)),
                    decreases route.len() - i,
                {
                    proof {
                        assert(route@.subrange(0, i + 1).subrange(0, i as int) =~= route@.subrange(0, i as int));
                    }
                    if i > 0 {
                        s.append(", ");
                    }
                    let d = usize_decimal(route[i]);
                    s.append(d.as_str());
                    proof {
                        assert(s@ =~= start + route_json(route@.subrange(0, i + 1)));
                    }
                    i = i + 1;
                }
                proof {
                    assert(route@.subrange(0, route.len() as int) =~= route@);
                }
                s.append("], \"values\": [");
                let ghost models = crate::algebra::hint_models(values@);
                let ghost start2 = s@;
                proof {
                    crate::algebra::lemma_hint_models_len(values@);
                }
                let mut j: usize = 0;
                while j < values.len()
                    invariant
                        j <= values.len(),
                        models == crate::algebra::hint_models(values@),
                        models.len() == values.len(),
                        s@ == start2 + hint_list_json(models.subrange(0, j as int)),
                    decreases values.len() - j,
                {
                    proof {
                        assert(decreases_to!(*self => *values));
                        assert(decreases_to!(*values => values@));
                        assert(decreases_to!(values@ => values@[j as int]));
                        crate::algebra::lemma_hint_models_index(values@, j as int);
                        assert(models.subrange(0, j + 1).subrange(0, j as int) =~= models.subrange(0, j as int));
                    }
                    if j > 0 {
                        s.append(", ");
                    }
                    let item = values[j].to_json();
                    s.append(item.as_str());
                    proof {
                        assert(s@ =~= start2 + hint_list_json(models.subrange(0, j + 1)));
                    }
                    j = j + 1;
                }
                proof {
                    assert(models.subrange(0, values.len() as int) =~= models);
                }
                s.append("]}");
                s
            },
            HintExpression::InlineSwitch { condition, if_true, if_false } => {
                let mut s = String::from_str("{\"$\": \"Expr\", \"@\": \"InlineSwitch\", \"condition\": ");
                let c = condition.to_json();
                s.append(c.as_str());
                s.append(", \"if_true\": ");
                let t = if_true.to_json();
                s.append(t.as_str());
                s.append(", \"if_false\": ");
                let f = if_false.to_json();
                s.append(f.as_str());
                s.append("}");
                s
            },
        }
    }
}

/// `ks` lists the elements of `s` in increasing order.
pub open spec fn increasing_listing(ks: Seq<usize>, s: Set<usize>) -> bool {
    &&& forall|i: int, j: int| 0 <= i < j < ks.len() ==> ks[i] < ks[j]
    &&& forall|k: usize| s.contains(k) <==> ks.contains(k)
}

/// The elements of a finite set in increasing order (the one sequence that
/// lists them so, see `lemma_increasing_listing_unique`).
pub open spec fn sorted_listing(s: Set<usize>) -> Seq<usize> {
    choose|ks: Seq<usize>| increasing_listing(ks, s)
}

/// A set has at most one increasing listing.
pub proof fn lemma_increasing_listing_unique(x: Seq<usize>, y: Seq<usize>, s: Set<usize>)
    requires
        increasing_listing(x, s),
        increasing_listing(y, s),
    ensures
        x == y,
    decreases x.len(),
{
    if x.len() == 0 {
        if y.len() > 0 {
            assert(y.contains(y[0]));
        }
        assert(x =~= y);
    } else {
        assert(x.contains(x[0]));
        assert(y.contains(x[0]));
        assert(y.contains(y[0]));
        let jx = choose|j: int| 0 <= j < y.len() && y[j] == x[0];
        let jy = choose|j: int| 0 <= j < x.len() && x[j] == y[0];
        assert(y[0] <= y[jx]);
        assert(x[0] <= x[jy]);
        let h = x[0];
        let s1 = s.remove(h);
        let x1 = x.drop_first();
        let y1 = y.drop_first();
        assert forall|k: usize| s1.contains(k) <==> x1.contains(k) by {
            if x1.contains(k) {
                let i = choose|i: int| 0 <= i < x1.len() && x1[i] == k;
                assert(x[i + 1] == k);
                assert(x.contains(k));
            }
            if s1.contains(k) {
                let i = choose|i: int| 0 <= i < x.len() && x[i] == k;
                assert(i != 0);
                assert(x1[i - 1] == k);
            }
        }
        assert forall|k: usize| s1.contains(k) <==> y1.contains(k) by {
            if y1.contains(k) {
                let i = choose|i: int| 0 <= i < y1.len() && y1[i] == k;
                assert(y[i + 1] == k);
                assert(y.contains(k));
            }
            if s1.contains(k) {
                let i = choose|i: int| 0 <= i < y.len() && y[i] == k;
                assert(i != 0);
                assert(y1[i - 1] == k);
            }
        }
        lemma_increasing_listing_unique(x1, y1, s1);
        assert(x =~= y) by {
            assert forall|i: int| 0 <= i < x.len() implies x[i] == y[i] by {
                if i > 0 {
                    assert(x1[i - 1] == y1[i - 1]);
                }
            }
        }
    }
}

/// A sequence of keys that a `BTreeSet` yields in increasing order.
proof fn lemma_keys_increasing(s: Seq<&usize>)
    requires
        vstd::std_specs::btree::increasing_seq(s),
    ensures
        forall|i: int, j: int| 0 <= i < j < s.len() ==> *s[i] < *s[j],
{
    assert(vstd::laws_cmp::obeys_cmp::<usize>());
    assert(vstd::laws_cmp::obeys_cmp::<&usize>());
    vstd::std_specs::btree::axiom_increasing_seq_meaning(s);
    assert forall|i: int, j: int| 0 <= i < j < s.len() implies *s[i] < *s[j] by {
        assert(OrdSpec::cmp_spec(&s[i], &s[j]) is Less);
    }
}

/// The signals of a linear combination with a nonzero coefficient.
fn nonzero_signals(coefficients: &HashMap<usize, BigInt>) -> (r: BTreeSet<usize>)
    ensures
        r@ == without_zeros(cview(*coefficients)).dom(),
{
    let mut keys: BTreeSet<usize> = BTreeSet::new();
    let ghost m = cview(*coefficients);
    for (k, v) in it: coefficients.iter()
        invariant
            m == cview(*coefficients),
            forall|i: int| 0 <= i < it.seq().len() ==> #[trigger] coefficients@.contains_key(*it.seq()[i].0)
                && coefficients@[*it.seq()[i].0] == *it.seq()[i].1,
            forall|s: usize| #[trigger] coefficients@.contains_key(s) ==> exists|i: int|
                0 <= i < it.seq().len() && *it.seq()[i].0 == s,
            keys@ == Set::new(|s: usize| m.contains_key(s) && m[s] != 0 && exists|i: int| 0 <= i < it.index() && *it.seq()[i].0 == s),
    {
        proof {
            assert(coefficients@.contains_key(*it.seq()[it.index()].0));
        }
        if !v.is_zero() {
            keys.insert(*k);
        }
        proof {
            assert(keys@ =~= Set::new(|s: usize| m.contains_key(s) && m[s] != 0 && exists|i: int| 0 <= i < it.index() + 1 && *it.seq()[i].0 == s));
        }
    }
    proof {
        assert(keys@ =~= without_zeros(m).dom());
    }
    keys
}

/// A signal and its coefficient as a JSON member.
pub open spec fn entry_json(k: usize, v: int) -> Seq<char> {
    "\""@ + decimal_digits(k as nat) + "\":\""@ + decimal(v) + "\""@
}

/// Members for the signals `ks` of `m`, separated by ",".
pub open spec fn entries_json(ks: Seq<usize>, m: Map<usize, int>) -> Seq<char>
    decreases ks.len(),
{
    if ks.len() == 0 {
        Seq::empty()
    } else if ks.len() == 1 {
        entry_json(ks[0], m[ks[0]])
    } else {
        entries_json(ks.drop_last(), m) + ","@ + entry_json(ks.last(), m[ks.last()])
    }
}

/// JSON members of a linear combination: the signals with a nonzero
/// coefficient, in increasing order.
pub open spec fn coefficients_json(m: Map<usize, int>) -> Seq<char> {
    entries_json(sorted_listing(without_zeros(m).dom()), m)
}

/// The JSON members of a linear combination.
fn coefficients_json_text(coefficients: &HashMap<usize, BigInt>) -> (r: String)
    ensures
        r@ == coefficients_json(cview(*coefficients)),
{
    let ghost m = cview(*coefficients);
    let keys = nonzero_signals(coefficients);
    let ghost listing = sorted_listing(without_zeros(m).dom());
    let iter = keys.iter();
    proof {
        let ks = iter.remaining().unref();
        assert(increasing_listing(ks, keys@)) by {
            lemma_keys_increasing(iter.remaining());
            assert forall|k: usize| keys@.contains(k) <==> ks.contains(k) by {
                assert(ks.to_set().contains(k) <==> ks.contains(k));
            }
        }
        lemma_increasing_listing_unique(ks, listing, keys@);
    }
    let mut s = String::new();
    let mut first = true;
    for k in it: iter
        invariant
            m == cview(*coefficients),
            keys@ == without_zeros(m).dom(),
            listing == sorted_listing(without_zeros(m).dom()),
            it.seq().unref() == listing,
            increasing_listing(listing, keys@),
            first == (it.index() == 0),
            s@ == entries_json(listing.subrange(0, it.index()), m),
    {
        proof {
            assert(listing[it.index()] == *k);
            assert(listing.contains(*k));
            assert(keys@.contains(*k));
            assert(without_zeros(m).contains_key(*k));
            assert(coefficients@.contains_key(*k));
        }
        let v = coefficients.get(k).unwrap();
        if !first {
            s.append(",");
        }
        s.append("\"");
        let d = usize_decimal(*k);
        s.append(d.as_str());
        s.append("\":\"");
        let t = v.to_decimal_string();
        s.append(t.as_str());
        s.append("\"");
        first = false;
        proof {
            let next = listing.subrange(0, it.index() + 1);
            assert(next.drop_last() =~= listing.subrange(0, it.index()));
            assert(next.last() == *k);
            assert(v@ == m[*k]);
            assert(s@ =~= entries_json(next, m));
        }
    }
    proof {
        assert(listing.subrange(0, listing.len() as int) =~= listing);
    }
    s
}

/// JSON of an expression as a quadratic form (a non-quadratic expression
/// has none).
pub open spec fn constraint_json(e: ArithModel) -> Seq<char> {
    match e {
        ArithModel::Number(v) => "{\"$\": \"QuadExpr\", \"@\": \"Number\", \"value\": \""@ + decimal(v) + "\"}"@,
        ArithModel::Signal(s) => "{\"$\": \"QuadExpr\", \"@\": \"Signal\", \"symbol\": \""@ + decimal_digits(s as nat)
            + "\"}"@,
        ArithModel::Linear(c) => "{\"$\": \"QuadExpr\", \"@\": \"Linear\", \"coefficients\": {"@ + coefficients_json(c)
            + "}}"@,
        ArithModel::Quadratic(a, b, c) => "{\"$\": \"QuadExpr\", \"@\": \"Quadratic\", \"a\": {"@ + coefficients_json(a)
            + "}, \"b\": {"@ + coefficients_json(b) + "}, \"c\": {"@ + coefficients_json(c) + "}}"@,
        ArithModel::NonQuadratic => Seq::empty(),
    }
}

/// Absolute value.
pub open spec fn abs(v: int) -> nat {
    if v < 0 { (-v) as nat } else { v as nat }
}

/// Text of one term: the constant's magnitude, a signal with coefficient
/// 1 or -1, or `|c|*s`.
pub open spec fn term_text(k: usize, v: int) -> Seq<char> {
    if k == constant_symbol() {
        decimal_digits(abs(v))
    } else if v == 1 || v == -1 {
        decimal_digits(k as nat)
    } else {
        decimal_digits(abs(v)) + "*"@ + decimal_digits(k as nat)
    }
}

/// Terms for the signals `ks` of `m`, joined by their signs.
pub open spec fn terms_text(ks: Seq<usize>, m: Map<usize, int>) -> Seq<char>
    decreases ks.len(),
{
    if ks.len() == 0 {
        Seq::empty()
    } else if ks.len() == 1 {
        (if m[ks[0]] < 0 { "-"@ } else { Seq::empty() }) + term_text(ks[0], m[ks[0]])
    } else {
        terms_text(ks.drop_last(), m) + (if m[ks.last()] < 0 { " - "@ } else { " + "@ }) + term_text(
            ks.last(),
            m[ks.last()],
        )
    }
}

/// A linear combination in the usual notation: the terms with a nonzero
/// coefficient, signals in increasing order.
pub open spec fn polynomial_text(m: Map<usize, int>) -> Seq<char> {
    terms_text(sorted_listing(without_zeros(m).dom()), m)
}

/// An expression in the usual notation.
pub open spec fn expression_text(e: ArithModel) -> Seq<char> {
    match e {
        ArithModel::Number(v) => decimal(v),
        ArithModel::Signal(s) => decimal_digits(s as nat),
        ArithModel::Linear(c) => polynomial_text(c),
        ArithModel::Quadratic(a, b, c) => "("@ + polynomial_text(a) + ")*("@ + polynomial_text(b) + ") + ("@
            + polynomial_text(c) + ")"@,
        ArithModel::NonQuadratic => "NQ"@,
    }
}

/// Decimal digits of the magnitude of a number: its decimal text without
/// the sign.
fn magnitude_text(v: &BigInt) -> (r: String)
    ensures
        r@ == decimal_digits(abs(v@)),
{
    let t = v.to_decimal_string();
    if BigInt::less_than(v, &BigInt::from_i64(0)) {
        proof {
            assert(t@.len() >= 1);
        }
        let n = t.as_str().unicode_len();
        let digits = t.as_str().substring_char(1, n);
        proof {
            assert(digits@ =~= decimal_digits(abs(v@)));
        }
        String::from_str(digits)
    } else {
        t
    }
}

/// One term of a linear combination.
fn term_text_exec(k: usize, v: &BigInt) -> (r: String)
    ensures
        r@ == term_text(k, v@),
{
    if k == 0 {
        magnitude_text(v)
    } else if v.equals(&BigInt::from_i64(1)) || v.equals(&BigInt::from_i64(-1)) {
        usize_decimal(k)
    } else {
        let mut s = magnitude_text(v);
        s.append("*");
        let d = usize_decimal(k);
        s.append(d.as_str());
        s
    }
}

/// A linear combination in the usual notation.
fn polynomial_text_exec(coefficients: &HashMap<usize, BigInt>) -> (r: String)
    ensures
        r@ == polynomial_text(cview(*coefficients)),
{
    let ghost m = cview(*coefficients);
    let keys = nonzero_signals(coefficients);
    let ghost listing = sorted_listing(without_zeros(m).dom());
    let iter = keys.iter();
    proof {
        let ks = iter.remaining().unref();
        assert(increasing_listing(ks, keys@)) by {
            lemma_keys_increasing(iter.remaining());
            assert forall|k: usize| keys@.contains(k) <==> ks.contains(k) by {
                assert(ks.to_set().contains(k) <==> ks.contains(k));
            }
        }
        lemma_increasing_listing_unique(ks, listing, keys@);
    }
    let mut s = String::new();
    let mut first = true;
    for k in it: iter
        invariant
            m == cview(*coefficients),
            keys@ == without_zeros(m).dom(),
            listing == sorted_listing(without_zeros(m).dom()),
            it.seq().unref() == listing,
            increasing_listing(listing, keys@),
            first == (it.index() == 0),
            s@ == terms_text(listing.subrange(0, it.index()), m),
    {
        proof {
            assert(listing[it.index()] == *k);
            assert(listing.contains(*k));
            assert(keys@.contains(*k));
            assert(without_zeros(m).contains_key(*k));
            assert(coefficients@.contains_key(*k));
        }
        let v = coefficients.get(k).unwrap();
        let negative = BigInt::less_than(v, &BigInt::from_i64(0));
        if !first {
            if negative {
                s.append(" - ");
            } else {
                s.append(" + ");
            }
        } else if negative {
            s.append("-");
        }
        let t = term_text_exec(*k, v);
        s.append(t.as_str());
        first = false;
        proof {
            let next = listing.subrange(0, it.index() + 1);
            assert(next.drop_last() =~= listing.subrange(0, it.index()));
            assert(next.last() == *k);
            assert(v@ == m[*k]);
            assert(s@ =~= terms_text(next, m));
        }
    }
    proof {
        assert(listing.subrange(0, listing.len() as int) =~= listing);
    }
    s
}

impl ArithmeticExpression {
    /// The expression as JSON: its hint when `expr` holds, else its
    /// quadratic form (which a non-quadratic expression has none of).
    pub fn to_json(&self, expr: bool) -> (r: String)
        requires
            expr || !(self.model() is NonQuadratic),
        ensures
            r@ == if expr { hint_json(self.hint()) } else { constraint_json(self.model()) },
    {
        if expr {
            self.to_expr_json()
        } else {
            self.to_constrain_json()
        }
    }

    /// The hint of the expression as JSON.
    fn to_expr_json(&self) -> (r: String)
        ensures
            r@ == hint_json(self.hint()),
    {
        self.expr().to_json()
    }

    /// The quadratic form of the expression as JSON.
    fn to_constrain_json(&self) -> (r: String)
        requires
            !(self.model() is NonQuadratic),
        ensures
            r@ == constraint_json(self.model()),
    {
        match self {
            ArithmeticExpression::Number { value, .. } => {
                let mut s = String::from_str("{\"$\": \"QuadExpr\", \"@\": \"Number\", \"value\": \"");
                let t = value.to_decimal_string();
                s.append(t.as_str());
                s.append("\"}");
                s
            },
            ArithmeticExpression::Signal { symbol, .. } => {
                let mut s = String::from_str("{\"$\": \"QuadExpr\", \"@\": \"Signal\", \"symbol\": \"");
                let t = usize_decimal(*symbol);
                s.append(t.as_str());
                s.append("\"}");
                s
            },
            ArithmeticExpression::Linear { coefficients, .. } => {
                let mut s = String::from_str("{\"$\": \"QuadExpr\", \"@\": \"Linear\", \"coefficients\": {");
                let t = coefficients_json_text(coefficients);
                s.append(t.as_str());
                s.append("}}");
                s
            },
            ArithmeticExpression::Quadratic { a, b, c, .. } => {
                let mut s = String::from_str("{\"$\": \"QuadExpr\", \"@\": \"Quadratic\", \"a\": {");
                let ta = coefficients_json_text(a);
                s.append(ta.as_str());
                s.append("}, \"b\": {");
                let tb = coefficients_json_text(b);
                s.append(tb.as_str());
                s.append("}, \"c\": {");
                let tc = coefficients_json_text(c);
                s.append(tc.as_str());
                s.append("}}");
                s
            },
            ArithmeticExpression::NonQuadratic { .. } => String::new(),
        }
    }

    /// The expression in the usual notation: a number, a signal, a linear
    /// combination with its signals in increasing order, `(a)*(b) + (c)`
    /// for a quadratic one, `NQ` for a non-quadratic one.
    pub fn to_string(&self) -> (r: String)
        ensures
            r@ == expression_text(self.model()),
    {
        match self {
            ArithmeticExpression::Number { value, .. } => value.to_decimal_string(),
            ArithmeticExpression::Signal { symbol, .. } => usize_decimal(*symbol),
            ArithmeticExpression::Linear { coefficients, .. } => polynomial_text_exec(coefficients),
            ArithmeticExpression::Quadratic { a, b, c, .. } => {
                let mut s = String::from_str("(");
                let ta = polynomial_text_exec(a);
                s.append(ta.as_str());
                s.append(")*(");
                let tb = polynomial_text_exec(b);
                s.append(tb.as_str());
                s.append(") + (");
                let tc = polynomial_text_exec(c);
                s.append(tc.as_str());
                s.append(")");
                s
            },
            ArithmeticExpression::NonQuadratic { .. } => String::from_str("NQ"),
        }
    }
}

} // verus!
