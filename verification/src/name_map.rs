//! Maps keyed by names, kept in increasing order of their keys: the way a
//! report lists the signals and the subcomponents of a template.
//!
//! Names are ordered as `String`s are: lexicographically by their UTF-8
//! bytes, which is the lexicographic order of their code points.
use vstd::prelude::*;

verus! {

/// `a` and `b` agree on their first `k` characters.
pub open spec fn agree_below(a: Seq<char>, b: Seq<char>, k: int) -> bool {
    forall|j: int| 0 <= j < k ==> #[trigger] a[j] == b[j]
}

/// At position `k`, `a` ends while `b` goes on, or `a` has the smaller
/// character.
pub open spec fn smaller_at(a: Seq<char>, b: Seq<char>, k: int) -> bool {
    ||| k == a.len() && k < b.len()
    ||| k < a.len() && k < b.len() && (a[k] as int) < (b[k] as int)
}

/// `a` comes before `b` in the order of names.
pub open spec fn name_less(a: Seq<char>, b: Seq<char>) -> bool {
    exists|k: int| 0 <= k <= a.len() && k <= b.len() && agree_below(a, b, k) && #[trigger] smaller_at(a, b, k)
}

/// No name comes before itself.
pub proof fn lemma_name_less_irreflexive(a: Seq<char>)
    ensures
        !name_less(a, a),
{
}

/// The order of names is transitive.
pub proof fn lemma_name_less_transitive(a: Seq<char>, b: Seq<char>, c: Seq<char>)
    requires
        name_less(a, b),
        name_less(b, c),
    ensures
        name_less(a, c),
{
    let k1 = choose|k: int| 0 <= k <= a.len() && k <= b.len() && agree_below(a, b, k) && #[trigger] smaller_at(a, b, k);
    let k2 = choose|k: int| 0 <= k <= b.len() && k <= c.len() && agree_below(b, c, k) && #[trigger] smaller_at(b, c, k);
    let k = if k1 <= k2 { k1 } else { k2 };
    assert(agree_below(a, c, k));
    assert(smaller_at(a, c, k));
}

/// Two different names are ordered one way or the other.
pub proof fn lemma_name_less_total(a: Seq<char>, b: Seq<char>)
    requires
        a != b,
    ensures
        name_less(a, b) || name_less(b, a),
{
    let m = if a.len() <= b.len() { a.len() } else { b.len() };
    if agree_below(a, b, m as int) {
        if a.len() == b.len() {
            assert(a =~= b);
        }
        assert(smaller_at(a, b, m as int) || smaller_at(b, a, m as int));
    } else {
        let k = choose|k: int| 0 <= k < m && a[k] != b[k];
        lemma_first_difference(a, b, k);
    }
}

/// Where two names first differ, one of them is the smaller.
proof fn lemma_first_difference(a: Seq<char>, b: Seq<char>, k: int)
    requires
        0 <= k < a.len(),
        k < b.len(),
        a[k] != b[k],
    ensures
        name_less(a, b) || name_less(b, a),
    decreases k,
{
    if agree_below(a, b, k) {
        assert((a[k] as int) != (b[k] as int));
        assert(smaller_at(a, b, k) || smaller_at(b, a, k));
    } else {
        let j = choose|j: int| 0 <= j < k && a[j] != b[j];
        lemma_first_difference(a, b, j);
    }
}

/// Whether the name `a` comes before the name `b`, as `a < b` on `String`s.
pub fn name_less_than(a: &String, b: &String) -> (r: bool)
    ensures
        r == name_less(a@, b@),
{
    let a_len = a.as_str().unicode_len();
    let b_len = b.as_str().unicode_len();
    let mut i: usize = 0;
    while i < a_len && i < b_len
        invariant
            a_len == a@.len(),
            b_len == b@.len(),
            i <= a_len,
            i <= b_len,
            agree_below(a@, b@, i as int),
        decreases a_len - i,
    {
        let ca = a.as_str().get_char(i);
        let cb = b.as_str().get_char(i);
        if ca != cb {
            let r = (ca as u32) < (cb as u32);
            proof {
                if r {
                    assert(smaller_at(a@, b@, i as int));
                } else {
                    assert forall|k: int| 0 <= k <= a@.len() && k <= b@.len() && agree_below(a@, b@, k) implies !smaller_at(a@, b@, k) by {
                        if k > i {
                            assert(a@[i as int] == b@[i as int]);
                        }
                    }
                }
            }
            return r;
        }
        i = i + 1;
    }
    proof {
        if i == a_len && i < b_len {
            assert(smaller_at(a@, b@, i as int));
        } else {
            assert forall|k: int| 0 <= k <= a@.len() && k <= b@.len() && agree_below(a@, b@, k) implies !smaller_at(a@, b@, k) by {
            }
        }
    }
    i == a_len && i < b_len
}

/// The entries are in strictly increasing order of their names.
pub open spec fn keys_increasing<V>(s: Seq<(String, V)>) -> bool {
    forall|i: int, j: int| 0 <= i < j < s.len() ==> name_less(#[trigger] s[i].0@, #[trigger] s[j].0@)
}

/// Some entry has the name `k`.
pub open spec fn has_key<V>(s: Seq<(String, V)>, k: Seq<char>) -> bool {
    exists|i: int| 0 <= i < s.len() && #[trigger] s[i].0@ == k
}

/// The map that the entries stand for: each name to the value of its entry.
pub open spec fn entries_map<V>(s: Seq<(String, V)>) -> Map<Seq<char>, V> {
    Map::new(
        |k: Seq<char>| has_key(s, k),
        |k: Seq<char>| s[choose|i: int| 0 <= i < s.len() && #[trigger] s[i].0@ == k].1,
    )
}

/// In increasing entries, a name has one entry.
pub proof fn lemma_key_unique<V>(s: Seq<(String, V)>, i: int, j: int)
    requires
        keys_increasing(s),
        0 <= i < s.len(),
        0 <= j < s.len(),
        s[i].0@ == s[j].0@,
    ensures
        i == j,
{
    if i < j {
        assert(name_less(s[i].0@, s[j].0@));
        lemma_name_less_irreflexive(s[i].0@);
    } else if j < i {
        assert(name_less(s[j].0@, s[i].0@));
        lemma_name_less_irreflexive(s[i].0@);
    }
}

/// The value of the entry at `i` is what the map gives for its name.
pub proof fn lemma_entry_value<V>(s: Seq<(String, V)>, i: int)
    requires
        keys_increasing(s),
        0 <= i < s.len(),
    ensures
        entries_map(s).contains_key(s[i].0@),
        entries_map(s)[s[i].0@] == s[i].1,
{
    let k = s[i].0@;
    assert(has_key(s, k));
    let c = choose|c: int| 0 <= c < s.len() && #[trigger] s[c].0@ == k;
    lemma_key_unique(s, i, c);
}

/// Sets `key` to `value`, keeping the entries in increasing order: the
/// entry of that name is replaced, or a new one is placed where its name
/// belongs.
pub fn insert_entry<V>(entries: &mut Vec<(String, V)>, key: String, value: V)
    requires
        keys_increasing(old(entries)@),
    ensures
        keys_increasing(final(entries)@),
        entries_map(final(entries)@) == entries_map(old(entries)@).insert(key@, value),
{
    let ghost s = entries@;
    let mut i: usize = 0;
    while i < entries.len() && name_less_than(&entries[i].0, &key)
        invariant
            entries@ == s,
            i <= s.len(),
            forall|j: int| 0 <= j < i ==> name_less(#[trigger] s[j].0@, key@),
        decreases s.len() - i,
    {
        i = i + 1;
    }
    let ghost k = key@;
    if i < entries.len() && entries[i].0 == key {
        entries[i] = (key, value);
        proof {
            let t = entries@;
            assert(t == s.update(i as int, t[i as int]));
            assert forall|a: int, b: int| 0 <= a < b < t.len() implies name_less(#[trigger] t[a].0@, #[trigger] t[b].0@) by {
                assert(s[a].0@ == t[a].0@);
                assert(s[b].0@ == t[b].0@);
            }
            lemma_insert_map_replaced(s, t, i as int, k, t[i as int].1);
        }
    } else {
        proof {
            if i < s.len() {
                assert(s[i as int].0@ != k);
                lemma_name_less_total(s[i as int].0@, k);
            }
        }
        entries.insert(i, (key, value));
        proof {
            let t = entries@;
            assert forall|a: int, b: int| 0 <= a < b < t.len() implies name_less(#[trigger] t[a].0@, #[trigger] t[b].0@) by {
                if b < i {
                    assert(t[a] == s[a] && t[b] == s[b]);
                } else if b == i {
                    assert(t[a] == s[a]);
                } else if a == i {
                    assert(t[b] == s[b - 1]);
                    if b - 1 > i {
                        assert(name_less(s[i as int].0@, s[b - 1].0@));
                        lemma_name_less_transitive(k, s[i as int].0@, s[b - 1].0@);
                    }
                } else if a < i {
                    assert(t[a] == s[a] && t[b] == s[b - 1]);
                    assert(name_less(s[a].0@, k));
                    if b - 1 >= i {
                        if b - 1 > i {
                            assert(name_less(s[i as int].0@, s[b - 1].0@));
                            lemma_name_less_transitive(k, s[i as int].0@, s[b - 1].0@);
                        }
                        lemma_name_less_transitive(s[a].0@, k, s[b - 1].0@);
                    }
                } else {
                    assert(t[a] == s[a - 1] && t[b] == s[b - 1]);
                }
            }
            lemma_insert_map_added(s, t, i as int, k);
        }
    }
}

/// Replacing the entry of a name changes the map at that name alone.
proof fn lemma_insert_map_replaced<V>(s: Seq<(String, V)>, t: Seq<(String, V)>, i: int, k: Seq<char>, v: V)
    requires
        keys_increasing(s),
        keys_increasing(t),
        0 <= i < s.len(),
        t.len() == s.len(),
        s[i].0@ == k,
        t[i].0@ == k,
        t[i].1 == v,
        forall|j: int| 0 <= j < s.len() && j != i ==> t[j] == s[j],
    ensures
        entries_map(t) == entries_map(s).insert(k, v),
{
    assert forall|n: Seq<char>| has_key(t, n) <==> has_key(s, n) by {
        if has_key(t, n) {
            let j = choose|j: int| 0 <= j < t.len() && #[trigger] t[j].0@ == n;
            if j == i {
                assert(s[i].0@ == n);
            } else {
                assert(s[j].0@ == n);
            }
        }
        if has_key(s, n) {
            let j = choose|j: int| 0 <= j < s.len() && #[trigger] s[j].0@ == n;
            if j == i {
                assert(t[i].0@ == n);
            } else {
                assert(t[j].0@ == n);
            }
        }
    }
    assert forall|n: Seq<char>| #[trigger] entries_map(t).contains_key(n) implies entries_map(t)[n] == entries_map(s).insert(k, v)[n] by {
        let j = choose|j: int| 0 <= j < t.len() && #[trigger] t[j].0@ == n;
        lemma_entry_value(t, j);
        if j == i {
        } else {
            assert(s[j] == t[j]);
            lemma_entry_value(s, j);
            if n == k {
                lemma_key_unique(s, i, j);
            }
        }
    }
    assert(entries_map(t) =~= entries_map(s).insert(k, v));
}

/// Placing an entry of a new name at `i` adds that name to the map.
proof fn lemma_insert_map_added<V>(s: Seq<(String, V)>, t: Seq<(String, V)>, i: int, k: Seq<char>)
    requires
        keys_increasing(s),
        keys_increasing(t),
        0 <= i <= s.len(),
        t.len() == s.len() + 1,
        t[i].0@ == k,
        forall|j: int| 0 <= j < i ==> t[j] == s[j],
        forall|j: int| i < j < t.len() ==> t[j] == s[j - 1],
    ensures
        entries_map(t) == entries_map(s).insert(k, t[i].1),
{
    let v = t[i].1;
    assert forall|n: Seq<char>| has_key(t, n) <==> (has_key(s, n) || n == k) by {
        if has_key(t, n) {
            let j = choose|j: int| 0 <= j < t.len() && #[trigger] t[j].0@ == n;
            if j < i {
                assert(s[j].0@ == n);
            } else if j > i {
                assert(s[j - 1].0@ == n);
            }
        }
        if has_key(s, n) {
            let j = choose|j: int| 0 <= j < s.len() && #[trigger] s[j].0@ == n;
            if j < i {
                assert(t[j].0@ == n);
            } else {
                assert(t[j + 1].0@ == n);
            }
        }
        if n == k {
            assert(t[i].0@ == n);
        }
    }
    assert forall|n: Seq<char>| #[trigger] entries_map(t).contains_key(n) implies entries_map(t)[n] == entries_map(s).insert(k, v)[n] by {
        let j = choose|j: int| 0 <= j < t.len() && #[trigger] t[j].0@ == n;
        lemma_entry_value(t, j);
        if j == i {
        } else {
            if n == k {
                lemma_key_unique(t, i, j);
            }
            if j < i {
                assert(s[j] == t[j]);
                lemma_entry_value(s, j);
            } else {
                assert(s[j - 1] == t[j]);
                lemma_entry_value(s, j - 1);
            }
        }
    }
    assert(entries_map(t) =~= entries_map(s).insert(k, v));
}

/// The entries as plain values.
pub open spec fn plain_entries<V>(s: Seq<(String, V)>) -> Seq<(Seq<char>, V)> {
    s.map_values(|e: (String, V)| (e.0@, e.1))
}

/// `l` lists the map `m`, each name once, in increasing order of names.
pub open spec fn lists_in_order<V>(l: Seq<(Seq<char>, V)>, m: Map<Seq<char>, V>) -> bool {
    &&& forall|i: int, j: int| 0 <= i < j < l.len() ==> name_less(#[trigger] l[i].0, #[trigger] l[j].0)
    &&& forall|n: Seq<char>| #[trigger] m.contains_key(n) ==> exists|i: int| 0 <= i < l.len() && #[trigger] l[i].0 == n
    &&& forall|i: int| 0 <= i < l.len() ==> #[trigger] m.contains_key(l[i].0) && m[l[i].0] == l[i].1
}

/// The entries of a map in increasing order of names (the one sequence
/// that lists them so, see `lemma_listing_unique`).
pub open spec fn ordered_listing<V>(m: Map<Seq<char>, V>) -> Seq<(Seq<char>, V)> {
    choose|l: Seq<(Seq<char>, V)>| lists_in_order(l, m)
}

/// A map has at most one listing in increasing order of names.
pub proof fn lemma_listing_unique<V>(x: Seq<(Seq<char>, V)>, y: Seq<(Seq<char>, V)>, m: Map<Seq<char>, V>)
    requires
        lists_in_order(x, m),
        lists_in_order(y, m),
    ensures
        x == y,
    decreases x.len(),
{
    if x.len() == 0 {
        if y.len() > 0 {
            assert(m.contains_key(y[0].0));
        }
        assert(x =~= y);
    } else {
        let h = x[0].0;
        assert(m.contains_key(h));
        let j = choose|j: int| 0 <= j < y.len() && #[trigger] y[j].0 == h;
        assert(m.contains_key(y[0].0));
        let i = choose|i: int| 0 <= i < x.len() && #[trigger] x[i].0 == y[0].0;
        if j > 0 {
            assert(name_less(y[0].0, y[j].0));
            if i > 0 {
                assert(name_less(x[0].0, x[i].0));
                lemma_name_less_transitive(h, y[0].0, h);
            }
            lemma_name_less_irreflexive(h);
        }
        assert(y[0] == x[0]);
        let m1 = m.remove(h);
        let x1 = x.drop_first();
        let y1 = y.drop_first();
        assert(lists_in_order(x1, m1)) by {
            assert forall|i1: int, j1: int| 0 <= i1 < j1 < x1.len() implies name_less(#[trigger] x1[i1].0, #[trigger] x1[j1].0) by {
                assert(x1[i1] == x[i1 + 1] && x1[j1] == x[j1 + 1]);
            }
            assert forall|n: Seq<char>| #[trigger] m1.contains_key(n) implies exists|k: int| 0 <= k < x1.len() && #[trigger] x1[k].0 == n by {
                let k = choose|k: int| 0 <= k < x.len() && #[trigger] x[k].0 == n;
                assert(k != 0);
                assert(x1[k - 1].0 == n);
            }
            assert forall|k: int| 0 <= k < x1.len() implies #[trigger] m1.contains_key(x1[k].0) && m1[x1[k].0] == x1[k].1 by {
                assert(x1[k] == x[k + 1]);
                assert(name_less(x[0].0, x[k + 1].0));
                if x[k + 1].0 == h {
                    lemma_name_less_irreflexive(h);
                }
            }
        }
        assert(lists_in_order(y1, m1)) by {
            assert forall|i1: int, j1: int| 0 <= i1 < j1 < y1.len() implies name_less(#[trigger] y1[i1].0, #[trigger] y1[j1].0) by {
                assert(y1[i1] == y[i1 + 1] && y1[j1] == y[j1 + 1]);
            }
            assert forall|n: Seq<char>| #[trigger] m1.contains_key(n) implies exists|k: int| 0 <= k < y1.len() && #[trigger] y1[k].0 == n by {
                let k = choose|k: int| 0 <= k < y.len() && #[trigger] y[k].0 == n;
                assert(k != 0);
                assert(y1[k - 1].0 == n);
            }
            assert forall|k: int| 0 <= k < y1.len() implies #[trigger] m1.contains_key(y1[k].0) && m1[y1[k].0] == y1[k].1 by {
                assert(y1[k] == y[k + 1]);
                assert(name_less(y[0].0, y[k + 1].0));
                if y[k + 1].0 == h {
                    lemma_name_less_irreflexive(h);
                }
            }
        }
        lemma_listing_unique(x1, y1, m1);
        assert(x =~= y) by {
            assert forall|k: int| 0 <= k < x.len() implies x[k] == y[k] by {
                if k > 0 {
                    assert(x1[k - 1] == y1[k - 1]);
                }
            }
        }
    }
}

/// Increasing entries are the ordered listing of their map.
pub proof fn lemma_entries_listing<V>(s: Seq<(String, V)>)
    requires
        keys_increasing(s),
    ensures
        plain_entries(s) == ordered_listing(entries_map(s)),
{
    let l = plain_entries(s);
    let m = entries_map(s);
    assert forall|i: int, j: int| 0 <= i < j < l.len() implies name_less(#[trigger] l[i].0, #[trigger] l[j].0) by {
        assert(name_less(s[i].0@, s[j].0@));
    }
    assert forall|n: Seq<char>| #[trigger] m.contains_key(n) implies exists|i: int| 0 <= i < l.len() && #[trigger] l[i].0 == n by {
        let i = choose|i: int| 0 <= i < s.len() && #[trigger] s[i].0@ == n;
        assert(l[i].0 == n);
    }
    assert forall|i: int| 0 <= i < l.len() implies #[trigger] m.contains_key(l[i].0) && m[l[i].0] == l[i].1 by {
        lemma_entry_value(s, i);
    }
    assert(lists_in_order(l, m));
    lemma_listing_unique(l, ordered_listing(m), m);
}

/// Whether the entries are in strictly increasing order of their names.
pub fn keys_in_order<V>(entries: &Vec<(String, V)>) -> (r: bool)
    ensures
        r == keys_increasing(entries@),
{
    let ghost s = entries@;
    if entries.len() == 0 {
        return true;
    }
    let mut i: usize = 1;
    while i < entries.len()
        invariant
            s == entries@,
            1 <= i <= s.len(),
            keys_increasing(s.subrange(0, i as int)),
        decreases s.len() - i,
    {
        if !name_less_than(&entries[i - 1].0, &entries[i].0) {
            return false;
        }
        proof {
            let t = s.subrange(0, i + 1);
            let u = s.subrange(0, i as int);
            assert forall|a: int, b: int| 0 <= a < b < t.len() implies name_less(#[trigger] t[a].0@, #[trigger] t[b].0@) by {
                if b < i {
                    assert(t[a] == u[a] && t[b] == u[b]);
                } else if a < i - 1 {
                    assert(t[a] == u[a] && u[i - 1] == s[i - 1]);
                    assert(name_less(u[a].0@, u[i - 1].0@));
                    lemma_name_less_transitive(s[a].0@, s[i - 1].0@, s[i as int].0@);
                }
            }
        }
        i = i + 1;
    }
    proof {
        assert(s.subrange(0, i as int) =~= s);
    }
    true
}

} // verus!
