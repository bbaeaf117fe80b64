//! Linear combinations of signals, held as maps from a signal to its
//! coefficient.  The signal `0` stands for the constant term.
use crate::bigint::BigInt;
use crate::modular_arithmetic::{self, modulus, ArithmeticError};
use std::collections::{BTreeSet, HashMap, HashSet};
use vstd::prelude::*;

verus! {

broadcast use {vstd::std_specs::hash::group_hash_axioms, vstd::std_specs::btree::group_btree_axioms, vstd::laws_cmp::group_laws_cmp};

/// The signal that stands for the constant term of a linear combination.
pub open spec fn constant_symbol() -> usize {
    0
}

/// A linear combination as a map from signals to integer coefficients.
pub open spec fn cview(m: HashMap<usize, BigInt>) -> Map<usize, int> {
    m@.map_values(|v: BigInt| v@)
}

/// Coefficient of a signal, 0 when it does not occur.
pub open spec fn coeff(m: Map<usize, int>, k: usize) -> int {
    if m.contains_key(k) { m[k] } else { 0 }
}

/// Whether the map holds the constant term.
pub open spec fn has_constant(m: Map<usize, int>) -> bool {
    m.contains_key(constant_symbol())
}

/// The map with the constant term present (0 when it was missing).
pub open spec fn initialized(m: Map<usize, int>) -> Map<usize, int> {
    if has_constant(m) { m } else { m.insert(constant_symbol(), 0) }
}

/// The linear combination `0`: only the constant term, with coefficient 0.
pub open spec fn zero_map() -> Map<usize, int> {
    Map::<usize, int>::empty().insert(constant_symbol(), 0)
}

/// `v` added to the constant term, reduced into the field.
pub open spec fn plus_constant(m: Map<usize, int>, v: int, p: int) -> Map<usize, int> {
    m.insert(constant_symbol(), modulus(m[constant_symbol()] + v, p))
}

/// `c` added to the coefficient of `s`, reduced into the field.
pub open spec fn plus_symbol(m: Map<usize, int>, s: usize, c: int, p: int) -> Map<usize, int> {
    m.insert(s, modulus(coeff(m, s) + c, p))
}

/// Every coefficient multiplied by `k`, reduced into the field.
pub open spec fn scaled(m: Map<usize, int>, k: int, p: int) -> Map<usize, int> {
    Map::new(|s: usize| m.contains_key(s), |s: usize| modulus(m[s] * k, p))
}

/// `m0` added into `m1`: coefficients of signals of `m0` are summed and
/// reduced, those only in `m1` stay as they are.
pub open spec fn added(m0: Map<usize, int>, m1: Map<usize, int>, p: int) -> Map<usize, int> {
    Map::new(
        |s: usize| m0.contains_key(s) || m1.contains_key(s),
        |s: usize| if m0.contains_key(s) { modulus(coeff(m1, s) + m0[s], p) } else { m1[s] },
    )
}

/// Every coefficient divided by `k` in the field.
pub open spec fn divided(m: Map<usize, int>, k: int, p: int) -> Map<usize, int> {
    Map::new(|s: usize| m.contains_key(s), |s: usize| modular_arithmetic::field_div(m[s], k, p))
}

/// The map without its zero coefficients.
pub open spec fn without_zeros(m: Map<usize, int>) -> Map<usize, int> {
    Map::new(|s: usize| m.contains_key(s) && m[s] != 0, |s: usize| m[s])
}

/// The view of a linear combination has the keys of the map, finitely many.
pub proof fn lemma_cview_dom(m: HashMap<usize, BigInt>)
    ensures
        cview(m).dom() == m@.dom(),
        cview(m).dom().finite(),
        cview(m).len() == m@.len(),
{
    assert(m@.dom().finite());
    assert(cview(m).dom() =~= m@.dom());
}

pub(crate) proof fn lemma_cview_insert(m: HashMap<usize, BigInt>, old_m: HashMap<usize, BigInt>, k: usize, v: BigInt)
    requires
        m@ == old_m@.insert(k, v),
    ensures
        cview(m) == cview(old_m).insert(k, v@),
{
    assert(cview(m) =~= cview(old_m).insert(k, v@));
}

/// A new linear combination holding only the constant term 0.
pub fn new_zero_map() -> (r: HashMap<usize, BigInt>)
    ensures
        cview(r) == zero_map(),
{
    let mut m: HashMap<usize, BigInt> = HashMap::new();
    initialize(&mut m);
    proof {
        assert(cview(m) =~= zero_map());
    }
    m
}

/// Makes sure the constant term is present.
pub fn initialize(m: &mut HashMap<usize, BigInt>)
    ensures
        cview(*final(m)) == initialized(cview(*old(m))),
{
    if !m.contains_key(&0) {
        let ghost before = *m;
        m.insert(0, BigInt::from_i64(0));
        proof {
            lemma_cview_insert(*m, before, 0, m@[0]);
        }
    }
}

/// Multiplies every coefficient by `k` in the field.
pub fn multiply(k: &BigInt, m: &mut HashMap<usize, BigInt>, field: &BigInt)
    requires
        field@ > 0,
    ensures
        cview(*final(m)) == scaled(cview(*old(m)), k@, field@),
{
    let mut res: HashMap<usize, BigInt> = HashMap::new();
    let ghost src = cview(*m);
    for (s, v) in it: m.iter()
        invariant
            src == cview(*m),
            field@ > 0,
            forall|i: int| 0 <= i < it.seq().len() ==> #[trigger] m@.contains_key(*it.seq()[i].0)
                && m@[*it.seq()[i].0] == *it.seq()[i].1,
            it.seq().no_duplicates(),
            cview(res) == Map::new(
                |s: usize| exists|i: int| 0 <= i < it.index() && *it.seq()[i].0 == s,
                |s: usize| modulus(src[s] * k@, field@),
            ),
    {
        let nv = modular_arithmetic::mul(v, k, field);
        let ghost before = res;
        res.insert(*s, nv);
        proof {
            lemma_cview_insert(res, before, *s, nv);
        }
    }
    *m = res;
}

/// Adds `value` to the constant term, in the field.
pub fn add_constant(value: &BigInt, m: &mut HashMap<usize, BigInt>, field: &BigInt)
    requires
        field@ > 0,
        has_constant(cview(*old(m))),
    ensures
        cview(*final(m)) == plus_constant(cview(*old(m)), value@, field@),
{
    let current = m.get(&0).unwrap();
    let nv = modular_arithmetic::add(current, value, field);
    let ghost before = *m;
    m.insert(0, nv);
    proof {
        lemma_cview_insert(*m, before, 0, nv);
    }
}

/// Adds `c` to the coefficient of `symbol` (0 when absent), in the field.
pub fn add_symbol(symbol: usize, c: &BigInt, m: &mut HashMap<usize, BigInt>, field: &BigInt)
    requires
        field@ > 0,
    ensures
        cview(*final(m)) == plus_symbol(cview(*old(m)), symbol, c@, field@),
{
    let nv = match m.get(&symbol) {
        Some(current) => modular_arithmetic::add(current, c, field),
        None => modular_arithmetic::add(&BigInt::from_i64(0), c, field),
    };
    let ghost before = *m;
    m.insert(symbol, nv);
    proof {
        lemma_cview_insert(*m, before, symbol, nv);
    }
}

/// Adds every coefficient of `m0` into `m1`, in the field.
pub fn add_coefficients(m0: &HashMap<usize, BigInt>, m1: &mut HashMap<usize, BigInt>, field: &BigInt)
    requires
        field@ > 0,
    ensures
        cview(*final(m1)) == added(cview(*m0), cview(*old(m1)), field@),
{
    let ghost src = cview(*m0);
    let ghost start = cview(*m1);
    for (s, v) in it: m0.iter()
        invariant
            src == cview(*m0),
            field@ > 0,
            forall|i: int| 0 <= i < it.seq().len() ==> #[trigger] m0@.contains_key(*it.seq()[i].0)
                && m0@[*it.seq()[i].0] == *it.seq()[i].1,
            forall|s: usize| #[trigger] m0@.contains_key(s) ==> exists|i: int|
                0 <= i < it.seq().len() && *it.seq()[i].0 == s,
            it.seq().no_duplicates(),
            cview(*m1) == Map::new(
                |s: usize| start.contains_key(s) || exists|i: int| 0 <= i < it.index() && *it.seq()[i].0 == s,
                |s: usize| if exists|i: int| 0 <= i < it.index() && *it.seq()[i].0 == s {
                    modulus(coeff(start, s) + src[s], field@)
                } else {
                    start[s]
                },
            ),
    {
        let ghost before = cview(*m1);
        proof {
            assert forall|j: int| 0 <= j < it.index() implies *it.seq()[j].0 != *s by {
                assert(it.seq()[j] != it.seq()[it.index()]);
                assert(m0@[*it.seq()[j].0] == *it.seq()[j].1);
            }
        }
        add_symbol(*s, v, m1, field);
        proof {
            let after = cview(*m1);
            assert(after =~= Map::new(
                |x: usize| start.contains_key(x) || exists|i: int| 0 <= i < it.index() + 1 && *it.seq()[i].0 == x,
                |x: usize| if exists|i: int| 0 <= i < it.index() + 1 && *it.seq()[i].0 == x {
                    modulus(coeff(start, x) + src[x], field@)
                } else {
                    start[x]
                },
            ));
        }
    }
    proof {
        assert(cview(*m1) =~= added(src, start, field@));
    }
}

/// Divides every coefficient by `k` in the field; an error, leaving the map
/// as it was, when `k` has no inverse.
pub fn divide(k: &BigInt, m: &mut HashMap<usize, BigInt>, field: &BigInt) -> (r: Result<(), ArithmeticError>)
    requires
        field@ > 0,
    ensures
        r is Err <==> !modular_arithmetic::invertible(k@, field@),
        r matches Err(e) ==> e == ArithmeticError::DivisionByZero && *final(m) == *old(m),
        r is Ok ==> cview(*final(m)) == divided(cview(*old(m)), k@, field@),
{
    let one = BigInt::from_i64(1);
    match modular_arithmetic::div(&one, k, field) {
        Err(e) => Err(e),
        Ok(inv) => {
            let ghost before = cview(*m);
            multiply(&inv, m, field);
            proof {
                let p = field@;
                let q = cview(*m);
                assert((k@ * inv@) % p == 1int % p) by {
                    vstd::arithmetic::mul::lemma_mul_is_commutative(inv@, k@);
                }
                assert(modular_arithmetic::invertible(k@, p));
                assert forall|s: usize| #[trigger] q.contains_key(s) implies q[s] == modular_arithmetic::field_div(before[s], k@, p) by {
                    modular_arithmetic::lemma_div_result(before[s], k@, inv@, p);
                    modular_arithmetic::lemma_field_div_unique(before[s], k@, q[s], p);
                }
                assert(q =~= divided(before, k@, p));
            }
            Ok(())
        },
    }
}

/// The linear combination without its zero coefficients.
pub fn remove_zero_value_coefficients(m: HashMap<usize, BigInt>) -> (r: HashMap<usize, BigInt>)
    ensures
        cview(r) == without_zeros(cview(m)),
{
    let mut res: HashMap<usize, BigInt> = HashMap::new();
    let ghost src = cview(m);
    for (s, v) in it: m.iter()
        invariant
            src == cview(m),
            forall|i: int| 0 <= i < it.seq().len() ==> #[trigger] m@.contains_key(*it.seq()[i].0)
                && m@[*it.seq()[i].0] == *it.seq()[i].1,
            forall|s: usize| #[trigger] m@.contains_key(s) ==> exists|i: int|
                0 <= i < it.seq().len() && *it.seq()[i].0 == s,
            it.seq().no_duplicates(),
            cview(res) == Map::new(
                |s: usize| src.contains_key(s) && src[s] != 0 && exists|i: int| 0 <= i < it.index() && *it.seq()[i].0 == s,
                |s: usize| src[s],
            ),
    {
        if !v.is_zero() {
            let ghost before = res;
            let nv = v.clone();
            res.insert(*s, nv);
            proof {
                lemma_cview_insert(res, before, *s, nv);
            }
        }
        proof {
            assert(cview(res) =~= Map::new(
                |x: usize| src.contains_key(x) && src[x] != 0 && exists|i: int| 0 <= i < it.index() + 1 && *it.seq()[i].0 == x,
                |x: usize| src[x],
            ));
        }
    }
    proof {
        assert(cview(res) =~= without_zeros(src));
    }
    res
}

/// `change` after replacing the signal `from` by the linear combination `to`;
/// a combination that does not mention `from` stays as it is.
pub open spec fn substituted(change: Map<usize, int>, from: usize, to: Map<usize, int>, p: int) -> Map<usize, int> {
    if change.contains_key(from) {
        added(scaled(initialized(to), change[from], p), initialized(change).remove(from), p)
    } else {
        change
    }
}

/// Replaces the signal `from` in `change` by the linear combination `to`,
/// scaled by the coefficient that `from` had.
pub fn raw_substitution(change: &mut HashMap<usize, BigInt>, from: usize, to: &HashMap<usize, BigInt>, field: &BigInt)
    requires
        field@ > 0,
    ensures
        cview(*final(change)) == substituted(cview(*old(change)), from, cview(*to), field@),
{
    if change.contains_key(&from) {
        let ghost c0 = cview(*change);
        proof {
            lemma_cview_dom(*change);
        }
        initialize(change);
        let ghost c1 = cview(*change);
        proof {
            lemma_cview_dom(*change);
            assert(c0.contains_key(from));
            assert(c1.contains_key(from));
            assert(c1[from] == c0[from]);
        }
        let val = change.remove(&from).unwrap();
        proof {
            assert(cview(*change) =~= c1.remove(from));
        }
        let mut coefficients = to.clone();
        proof {
            assert(cview(coefficients) =~= cview(*to));
        }
        initialize(&mut coefficients);
        multiply(&val, &mut coefficients, field);
        add_coefficients(&coefficients, change, field);
    }
}

/// Keys shifted by `offset`, except the constant term.
pub open spec fn offset_map(m: Map<usize, int>, offset: usize) -> Map<usize, int> {
    Map::new(
        |s: usize| (s == constant_symbol() && m.contains_key(s)) || (s > offset && m.contains_key((s - offset) as usize) && (s - offset) as usize != constant_symbol()),
        |s: usize| if s == constant_symbol() { m[s] } else { m[(s - offset) as usize] },
    )
}

/// The linear combination with every signal but the constant moved up by
/// `offset`.
pub fn apply_raw_offset(h: &HashMap<usize, BigInt>, offset: usize) -> (r: HashMap<usize, BigInt>)
    requires
        forall|s: usize| #[trigger] h@.contains_key(s) ==> s + offset <= usize::MAX,
    ensures
        cview(r) == offset_map(cview(*h), offset),
{
    let mut res: HashMap<usize, BigInt> = HashMap::new();
    let ghost src = cview(*h);
    for (k, v) in it: h.iter()
        invariant
            src == cview(*h),
            forall|s: usize| #[trigger] h@.contains_key(s) ==> s + offset <= usize::MAX,
            forall|i: int| 0 <= i < it.seq().len() ==> #[trigger] h@.contains_key(*it.seq()[i].0)
                && h@[*it.seq()[i].0] == *it.seq()[i].1,
            forall|s: usize| #[trigger] h@.contains_key(s) ==> exists|i: int|
                0 <= i < it.seq().len() && *it.seq()[i].0 == s,
            it.seq().no_duplicates(),
            cview(res) == offset_map(
                src.restrict(Set::new(|s: usize| exists|i: int| 0 <= i < it.index() && *it.seq()[i].0 == s)),
                offset,
            ),
    {
        let ghost done = Set::new(|s: usize| exists|i: int| 0 <= i < it.index() && *it.seq()[i].0 == s);
        let ghost done2 = Set::new(|s: usize| exists|i: int| 0 <= i < it.index() + 1 && *it.seq()[i].0 == s);
        let ghost before = res;
        let nv = v.clone();
        if *k == 0 {
            res.insert(*k, nv);
            proof {
                lemma_cview_insert(res, before, *k, nv);
            }
        } else {
            assert(h@.contains_key(*k));
            res.insert(*k + offset, nv);
            proof {
                lemma_cview_insert(res, before, (*k + offset) as usize, nv);
            }
        }
        proof {
            assert(done2 =~= done.insert(*k));
            assert(cview(res) =~= offset_map(src.restrict(done2), offset));
        }
    }
    res
}

/// `r` holds the coefficients of `m` with every signal `s` renamed to `f(s)`.
/// When two signals get the same name, one of their coefficients is kept.
pub open spec fn relabeled(r: Map<usize, int>, m: Map<usize, int>, f: spec_fn(usize) -> usize) -> bool {
    &&& forall|s: usize| #[trigger] m.contains_key(s) ==> r.contains_key(f(s))
    &&& forall|t: usize| #[trigger] r.contains_key(t) ==> exists|s: usize|
        m.contains_key(s) && f(s) == t && r[t] == m[s]
}

/// Under an injective renaming every signal keeps its own coefficient.
pub proof fn lemma_relabeled_injective(r: Map<usize, int>, m: Map<usize, int>, f: spec_fn(usize) -> usize, s: usize)
    requires
        relabeled(r, m, f),
        m.contains_key(s),
        forall|x: usize, y: usize| m.contains_key(x) && m.contains_key(y) && #[trigger] f(x) == #[trigger] f(y) ==> x == y,
    ensures
        r.contains_key(f(s)),
        r[f(s)] == m[s],
{
    assert(r.contains_key(f(s)));
    let w = choose|w: usize| m.contains_key(w) && f(w) == f(s) && r[f(s)] == m[w];
    assert(w == s);
}

/// Renaming of the signals through a vector: signal `s` becomes `map[s]`.
pub open spec fn vector_renaming(map: Seq<usize>) -> spec_fn(usize) -> usize {
    |s: usize| map[s as int]
}

/// The coefficients with every signal `s` renamed to `map[s]`.
pub fn apply_vectored_correspondence(symbols: &HashMap<usize, BigInt>, map: &Vec<usize>) -> (r: HashMap<usize, BigInt>)
    requires
        forall|s: usize| #[trigger] symbols@.contains_key(s) ==> s < map.len(),
    ensures
        relabeled(cview(r), cview(*symbols), vector_renaming(map@)),
{
    let mut mapped: HashMap<usize, BigInt> = HashMap::new();
    let ghost src = cview(*symbols);
    let ghost f = vector_renaming(map@);
    for (s, v) in it: symbols.iter()
        invariant
            src == cview(*symbols),
            f == vector_renaming(map@),
            forall|s: usize| #[trigger] symbols@.contains_key(s) ==> s < map.len(),
            forall|i: int| 0 <= i < it.seq().len() ==> #[trigger] symbols@.contains_key(*it.seq()[i].0)
                && symbols@[*it.seq()[i].0] == *it.seq()[i].1,
            forall|s: usize| #[trigger] symbols@.contains_key(s) ==> exists|i: int|
                0 <= i < it.seq().len() && *it.seq()[i].0 == s,
            forall|i: int| 0 <= i < it.index() ==> #[trigger] cview(mapped).contains_key(f(*it.seq()[i].0)),
            forall|t: usize| #[trigger] cview(mapped).contains_key(t) ==> exists|s: usize|
                src.contains_key(s) && f(s) == t && cview(mapped)[t] == src[s],
    {
        proof {
            assert(symbols@.contains_key(*it.seq()[it.index()].0));
        }
        let ghost before = mapped;
        let nv = v.clone();
        mapped.insert(map[*s], nv);
        proof {
            lemma_cview_insert(mapped, before, map@[*s as int], nv);
            assert forall|t: usize| #[trigger] cview(mapped).contains_key(t) implies exists|x: usize|
                src.contains_key(x) && f(x) == t && cview(mapped)[t] == src[x] by {
                if t == map@[*s as int] {
                    assert(src.contains_key(*s) && f(*s) == t);
                    assert(src[*s] == v@);
                    assert(cview(mapped)[t] == src[*s]);
                } else {
                    assert(cview(before).contains_key(t));
                    let x = choose|x: usize| src.contains_key(x) && f(x) == t && cview(before)[t] == src[x];
                    assert(cview(mapped)[t] == src[x]);
                }
            }
        }
    }
    mapped
}

/// Renaming of the signals through a map, keeping the constant term.
pub open spec fn map_renaming(map: Map<usize, usize>) -> spec_fn(usize) -> usize {
    |s: usize| if s == constant_symbol() { constant_symbol() } else { map[s] }
}

/// The coefficients with every signal but the constant renamed through `map`.
pub fn apply_raw_correspondence(symbols: &HashMap<usize, BigInt>, map: &HashMap<usize, usize>) -> (r: HashMap<usize, BigInt>)
    requires
        forall|s: usize| #[trigger] symbols@.contains_key(s) && s != constant_symbol() ==> map@.contains_key(s),
    ensures
        relabeled(cview(r), cview(*symbols), map_renaming(map@)),
{
    let mut mapped: HashMap<usize, BigInt> = HashMap::new();
    let ghost src = cview(*symbols);
    let ghost f = map_renaming(map@);
    for (s, v) in it: symbols.iter()
        invariant
            src == cview(*symbols),
            f == map_renaming(map@),
            forall|s: usize| #[trigger] symbols@.contains_key(s) && s != constant_symbol() ==> map@.contains_key(s),
            forall|i: int| 0 <= i < it.seq().len() ==> #[trigger] symbols@.contains_key(*it.seq()[i].0)
                && symbols@[*it.seq()[i].0] == *it.seq()[i].1,
            forall|s: usize| #[trigger] symbols@.contains_key(s) ==> exists|i: int|
                0 <= i < it.seq().len() && *it.seq()[i].0 == s,
            forall|i: int| 0 <= i < it.index() ==> #[trigger] cview(mapped).contains_key(f(*it.seq()[i].0)),
            forall|t: usize| #[trigger] cview(mapped).contains_key(t) ==> exists|s: usize|
                src.contains_key(s) && f(s) == t && cview(mapped)[t] == src[s],
    {
        proof {
            assert(symbols@.contains_key(*it.seq()[it.index()].0));
        }
        let id: usize = if *s == 0 {
            0
        } else {
            *map.get(s).unwrap()
        };
        let ghost before = mapped;
        let nv = v.clone();
        mapped.insert(id, nv);
        proof {
            lemma_cview_insert(mapped, before, id, nv);
            assert(f(*s) == id);
            assert forall|t: usize| #[trigger] cview(mapped).contains_key(t) implies exists|x: usize|
                src.contains_key(x) && f(x) == t && cview(mapped)[t] == src[x] by {
                if t == id {
                    assert(src.contains_key(*s) && f(*s) == t);
                    assert(src[*s] == v@);
                    assert(cview(mapped)[t] == src[*s]);
                } else {
                    assert(cview(before).contains_key(t));
                    let x = choose|x: usize| src.contains_key(x) && f(x) == t && cview(before)[t] == src[x];
                    assert(cview(mapped)[t] == src[x]);
                }
            }
        }
    }
    mapped
}

/// Adds the signals of a linear combination to a set.
pub fn insert_keys(m: &HashMap<usize, BigInt>, set: &mut HashSet<usize>)
    ensures
        final(set)@ == old(set)@ + m@.dom(),
{
    let ghost start = set@;
    for (k, _v) in it: m.iter()
        invariant
            forall|i: int| 0 <= i < it.seq().len() ==> #[trigger] m@.contains_key(*it.seq()[i].0),
            forall|s: usize| #[trigger] m@.contains_key(s) ==> exists|i: int| 0 <= i < it.seq().len() && *it.seq()[i].0 == s,
            set@ == start + Set::new(|s: usize| exists|i: int| 0 <= i < it.index() && *it.seq()[i].0 == s),
    {
        set.insert(*k);
        proof {
            assert(set@ =~= start + Set::new(|s: usize| exists|i: int| 0 <= i < it.index() + 1 && *it.seq()[i].0 == s));
        }
    }
    proof {
        assert(set@ =~= start + m@.dom());
    }
}

/// Adds the signals of a linear combination to an ordered set.
pub fn insert_keys_ordered(m: &HashMap<usize, BigInt>, set: &mut BTreeSet<usize>)
    ensures
        final(set)@ == old(set)@ + m@.dom(),
{
    let ghost start = set@;
    for (k, _v) in it: m.iter()
        invariant
            forall|i: int| 0 <= i < it.seq().len() ==> #[trigger] m@.contains_key(*it.seq()[i].0),
            forall|s: usize| #[trigger] m@.contains_key(s) ==> exists|i: int| 0 <= i < it.seq().len() && *it.seq()[i].0 == s,
            set@ == start + Set::new(|s: usize| exists|i: int| 0 <= i < it.index() && *it.seq()[i].0 == s),
    {
        set.insert(*k);
        proof {
            assert(set@ =~= start + Set::new(|s: usize| exists|i: int| 0 <= i < it.index() + 1 && *it.seq()[i].0 == s));
        }
    }
    proof {
        assert(set@ =~= start + m@.dom());
    }
}

/// Whether two linear combinations hold the same signals with the same
/// coefficients.
pub fn same_coefficients(a: &HashMap<usize, BigInt>, b: &HashMap<usize, BigInt>) -> (r: bool)
    ensures
        r == (cview(*a) == cview(*b)),
{
    proof {
        lemma_cview_dom(*a);
        lemma_cview_dom(*b);
    }
    if a.len() != b.len() {
        return false;
    }
    let ghost ma = cview(*a);
    let ghost mb = cview(*b);
    for (k, v) in it: a.iter()
        invariant
            ma == cview(*a),
            mb == cview(*b),
            a@.len() == b@.len(),
            ma.dom() == a@.dom(),
            mb.dom() == b@.dom(),
            ma.dom().finite(),
            mb.dom().finite(),
            forall|i: int| 0 <= i < it.seq().len() ==> #[trigger] a@.contains_key(*it.seq()[i].0)
                && a@[*it.seq()[i].0] == *it.seq()[i].1,
            forall|s: usize| #[trigger] a@.contains_key(s) ==> exists|i: int|
                0 <= i < it.seq().len() && *it.seq()[i].0 == s,
            forall|i: int| 0 <= i < it.index() ==> #[trigger] mb.contains_key(*it.seq()[i].0)
                && mb[*it.seq()[i].0] == ma[*it.seq()[i].0],
    {
        proof {
            assert(a@.contains_key(*it.seq()[it.index()].0));
        }
        match b.get(k) {
            None => {
                proof {
                    assert(ma.contains_key(*k) && !mb.contains_key(*k));
                }
                return false;
            },
            Some(w) => {
                if !v.equals(w) {
                    proof {
                        assert(ma[*k] != mb[*k]);
                    }
                    return false;
                }
            },
        }
    }
    proof {
        assert(ma.dom().subset_of(mb.dom())) by {
            assert forall|s: usize| ma.contains_key(s) implies mb.contains_key(s) by {
                assert(a@.contains_key(s));
            }
        }
        vstd::set_lib::lemma_subset_equality(ma.dom(), mb.dom());
        assert(ma =~= mb) by {
            assert forall|s: usize| ma.contains_key(s) implies ma[s] == mb[s] by {
                assert(a@.contains_key(s));
            }
        }
    }
    true
}

} // verus!
