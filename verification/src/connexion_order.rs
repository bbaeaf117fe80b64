//! The order of the connexions of a template: by the name of the
//! component array they reach, then by the indices they reach it with.
//! Connexions that agree on both keep the order in which they were made.
use crate::executed_template::{
    cnn_name, component_view, filter_used_components, number_of_components, occurs, products_fit, used_components,
    ComponentData, Connexion, ExecutedTemplate,
};
use crate::name_map::{lemma_name_less_irreflexive, lemma_name_less_total, lemma_name_less_transitive, name_less, name_less_than};
use vstd::prelude::*;

verus! {

/// `a` and `b` agree on their first `k` indices.
pub open spec fn indices_agree_below(a: Seq<usize>, b: Seq<usize>, k: int) -> bool {
    forall|j: int| 0 <= j < k ==> #[trigger] a[j] == b[j]
}

/// At position `k`, `a` ends while `b` goes on, or `a` has the smaller
/// index.
pub open spec fn indices_smaller_at(a: Seq<usize>, b: Seq<usize>, k: int) -> bool {
    ||| k == a.len() && k < b.len()
    ||| k < a.len() && k < b.len() && a[k] < b[k]
}

/// `a` comes before `b` in the lexicographic order of index lists, as
/// `Vec<usize>`s are ordered.
pub open spec fn indices_less(a: Seq<usize>, b: Seq<usize>) -> bool {
    exists|k: int| 0 <= k <= a.len() && k <= b.len() && indices_agree_below(a, b, k) && #[trigger] indices_smaller_at(a, b, k)
}

/// No index list comes before itself.
pub proof fn lemma_indices_less_irreflexive(a: Seq<usize>)
    ensures
        !indices_less(a, a),
{
}

/// The order of index lists is transitive.
pub proof fn lemma_indices_less_transitive(a: Seq<usize>, b: Seq<usize>, c: Seq<usize>)
    requires
        indices_less(a, b),
        indices_less(b, c),
    ensures
        indices_less(a, c),
{
    let k1 = choose|k: int| 0 <= k <= a.len() && k <= b.len() && indices_agree_below(a, b, k) && #[trigger] indices_smaller_at(a, b, k);
    let k2 = choose|k: int| 0 <= k <= b.len() && k <= c.len() && indices_agree_below(b, c, k) && #[trigger] indices_smaller_at(b, c, k);
    let k = if k1 <= k2 { k1 } else { k2 };
    assert(indices_agree_below(a, c, k));
    assert(indices_smaller_at(a, c, k));
}

/// Where two index lists first differ, one of them is the smaller.
proof fn lemma_indices_first_difference(a: Seq<usize>, b: Seq<usize>, k: int)
    requires
        0 <= k < a.len(),
        k < b.len(),
        a[k] != b[k],
    ensures
        indices_less(a, b) || indices_less(b, a),
    decreases k,
{
    if indices_agree_below(a, b, k) {
        assert(indices_smaller_at(a, b, k) || indices_smaller_at(b, a, k));
    } else {
        let j = choose|j: int| 0 <= j < k && a[j] != b[j];
        lemma_indices_first_difference(a, b, j);
    }
}

/// Two different index lists are ordered one way or the other.
pub proof fn lemma_indices_less_total(a: Seq<usize>, b: Seq<usize>)
    requires
        a != b,
    ensures
        indices_less(a, b) || indices_less(b, a),
{
    let m = if a.len() <= b.len() { a.len() } else { b.len() };
    if indices_agree_below(a, b, m as int) {
        if a.len() == b.len() {
            assert(a =~= b);
        }
        assert(indices_smaller_at(a, b, m as int) || indices_smaller_at(b, a, m as int));
    } else {
        let k = choose|k: int| 0 <= k < m && a[k] != b[k];
        lemma_indices_first_difference(a, b, k);
    }
}

/// Whether the index list `a` comes before `b`, as `a < b` on `Vec<usize>`s.
pub fn indices_less_than(a: &Vec<usize>, b: &Vec<usize>) -> (r: bool)
    ensures
        r == indices_less(a@, b@),
{
    let mut i: usize = 0;
    while i < a.len() && i < b.len()
        invariant
            i <= a@.len(),
            i <= b@.len(),
            indices_agree_below(a@, b@, i as int),
        decreases a@.len() - i,
    {
        if a[i] != b[i] {
            let r = a[i] < b[i];
            proof {
                if r {
                    assert(indices_smaller_at(a@, b@, i as int));
                } else {
                    assert forall|k: int| 0 <= k <= a@.len() && k <= b@.len() && indices_agree_below(a@, b@, k) implies !indices_smaller_at(a@, b@, k) by {
                        if k > i {
                            assert(a@[i as int] == b@[i as int]);
                        }
                    }
                }
            }
            return r;
        }
        i = i + 1;
    }
    proof {
        if i == a@.len() && i < b@.len() {
            assert(indices_smaller_at(a@, b@, i as int));
        } else {
            assert forall|k: int| 0 <= k <= a@.len() && k <= b@.len() && indices_agree_below(a@, b@, k) implies !indices_smaller_at(a@, b@, k) by {
            }
        }
    }
    i == a.len() && i < b.len()
}

/// The connexions reach the same component array with the same indices.
pub open spec fn same_place(a: Connexion, b: Connexion) -> bool {
    a.inspect.name@ == b.inspect.name@ && a.inspect.indexed_with@ == b.inspect.indexed_with@
}

/// `a` comes before `b`: by the name of the array they reach, then by
/// their indices.
pub open spec fn connexion_less(a: Connexion, b: Connexion) -> bool {
    ||| name_less(a.inspect.name@, b.inspect.name@)
    ||| a.inspect.name@ == b.inspect.name@ && indices_less(a.inspect.indexed_with@, b.inspect.indexed_with@)
}

/// The order of connexions is a strict weak order: irreflexive,
/// transitive, and of two connexions one comes first or they reach the same
/// place.
pub proof fn lemma_connexion_order(a: Connexion, b: Connexion, c: Connexion)
    ensures
        !connexion_less(a, a),
        connexion_less(a, b) && connexion_less(b, c) ==> connexion_less(a, c),
        connexion_less(a, b) || connexion_less(b, a) || same_place(a, b),
        connexion_less(a, b) && same_place(b, c) ==> connexion_less(a, c),
        same_place(a, b) && connexion_less(b, c) ==> connexion_less(a, c),
{
    lemma_name_less_irreflexive(a.inspect.name@);
    lemma_indices_less_irreflexive(a.inspect.indexed_with@);
    if connexion_less(a, b) && connexion_less(b, c) {
        if name_less(a.inspect.name@, b.inspect.name@) && name_less(b.inspect.name@, c.inspect.name@) {
            lemma_name_less_transitive(a.inspect.name@, b.inspect.name@, c.inspect.name@);
        }
        if a.inspect.name@ == b.inspect.name@ && b.inspect.name@ == c.inspect.name@ {
            lemma_indices_less_transitive(a.inspect.indexed_with@, b.inspect.indexed_with@, c.inspect.indexed_with@);
        }
    }
    if a.inspect.name@ != b.inspect.name@ {
        lemma_name_less_total(a.inspect.name@, b.inspect.name@);
    } else if a.inspect.indexed_with@ != b.inspect.indexed_with@ {
        lemma_indices_less_total(a.inspect.indexed_with@, b.inspect.indexed_with@);
    }
}

/// Whether the connexion `a` comes before `b`.
fn connexion_less_than(a: &Connexion, b: &Connexion) -> (r: bool)
    ensures
        r == connexion_less(*a, *b),
{
    if name_less_than(&a.inspect.name, &b.inspect.name) {
        true
    } else if a.inspect.name == b.inspect.name {
        indices_less_than(&a.inspect.indexed_with, &b.inspect.indexed_with)
    } else {
        false
    }
}

/// Some position of `p` holds `q`.
pub open spec fn listed(p: Seq<int>, q: int) -> bool {
    exists|i: int| 0 <= i < p.len() && #[trigger] p[i] == q
}

/// `r` is `s` reordered by `p` (`r[i]` is `s[p[i]]`, each element once),
/// in the order of connexions, and connexions that reach the same place
/// keep their order in `s`.
pub open spec fn sorts_by(s: Seq<Connexion>, r: Seq<Connexion>, p: Seq<int>) -> bool {
    &&& r.len() == s.len()
    &&& p.len() == s.len()
    &&& forall|i: int| 0 <= i < p.len() ==> 0 <= #[trigger] p[i] < s.len() && r[i] == s[p[i]]
    &&& forall|i: int, j: int| 0 <= i < j < p.len() ==> #[trigger] p[i] != #[trigger] p[j]
    &&& forall|q: int| 0 <= q < s.len() ==> #[trigger] listed(p, q)
    &&& forall|i: int, j: int| 0 <= i < j < r.len() ==> connexion_less(#[trigger] r[i], #[trigger] r[j]) || (same_place(
        r[i],
        r[j],
    ) && p[i] < p[j])
}

/// `r` is the stable sort of `s` in the order of connexions.
pub open spec fn stably_sorted(s: Seq<Connexion>, r: Seq<Connexion>) -> bool {
    exists|p: Seq<int>| sorts_by(s, r, p)
}

/// The connexions in their order, as a stable sort leaves them.
pub fn sort_connexions(connexions: Vec<Connexion>) -> (r: Vec<Connexion>)
    ensures
        stably_sorted(connexions@, r@),
{
    let ghost s = connexions@;
    let n = connexions.len();
    let mut input = connexions;
    let mut sorted: Vec<Connexion> = Vec::new();
    let ghost mut p: Seq<int> = Seq::empty();
    let mut t: usize = 0;
    while input.len() > 0
        invariant
            t <= s.len(),
            s.len() == n,
            input@ == s.subrange(t as int, s.len() as int),
            sorts_by(s.subrange(0, t as int), sorted@, p),
        decreases input@.len(),
    {
        assert(t < s.len());
        let x = input.remove(0);
        let ghost pre = s.subrange(0, t as int);
        let ghost old_sorted = sorted@;
        assert(x == s[t as int]);
        let mut pos: usize = 0;
        while pos < sorted.len() && !connexion_less_than(&x, &sorted[pos])
            invariant
                pos <= sorted@.len(),
                sorted@ == old_sorted,
                forall|i: int| 0 <= i < pos ==> !connexion_less(x, #[trigger] sorted@[i]),
            decreases sorted@.len() - pos,
        {
            pos = pos + 1;
        }
        sorted.insert(pos, x);
        proof {
            let np = p.insert(pos as int, t as int);
            let post = s.subrange(0, t + 1);
            let r = sorted@;
            assert(r == old_sorted.insert(pos as int, x));
            assert forall|i: int| 0 <= i < np.len() implies 0 <= #[trigger] np[i] < post.len() && r[i] == post[np[i]] by {
                if i < pos {
                    assert(np[i] == p[i]);
                    assert(old_sorted[i] == pre[p[i]]);
                } else if i > pos {
                    assert(np[i] == p[i - 1]);
                    assert(old_sorted[i - 1] == pre[p[i - 1]]);
                }
            }
            assert forall|i: int, j: int| 0 <= i < j < np.len() implies #[trigger] np[i] != #[trigger] np[j] by {
                if i != pos && j != pos {
                    let i0 = if i < pos { i } else { i - 1 };
                    let j0 = if j < pos { j } else { j - 1 };
                    assert(np[i] == p[i0] && np[j] == p[j0]);
                    assert(p[i0] != p[j0]);
                } else if i == pos {
                    assert(np[j] == p[j - 1]);
                    assert(0 <= p[j - 1] < pre.len());
                } else {
                    assert(np[i] == p[i]);
                    assert(0 <= p[i] < pre.len());
                }
            }
            assert forall|q: int| 0 <= q < post.len() implies #[trigger] listed(np, q) by {
                if q == t {
                    assert(np[pos as int] == q);
                } else {
                    assert(listed(p, q));
                    let i0 = choose|i: int| 0 <= i < p.len() && #[trigger] p[i] == q;
                    if i0 < pos {
                        assert(np[i0] == q);
                    } else {
                        assert(np[i0 + 1] == q);
                    }
                }
            }
            assert forall|i: int, j: int| 0 <= i < j < r.len() implies connexion_less(#[trigger] r[i], #[trigger] r[j]) || (same_place(
                r[i],
                r[j],
            ) && np[i] < np[j]) by {
                if i != pos && j != pos {
                    let i0 = if i < pos { i } else { i - 1 };
                    let j0 = if j < pos { j } else { j - 1 };
                    assert(r[i] == old_sorted[i0] && r[j] == old_sorted[j0]);
                    assert(np[i] == p[i0] && np[j] == p[j0]);
                    assert(connexion_less(old_sorted[i0], old_sorted[j0]) || (same_place(old_sorted[i0], old_sorted[j0]) && p[i0] < p[j0]));
                } else if i == pos {
                    let j0 = j - 1;
                    assert(r[j] == old_sorted[j0]);
                    assert(connexion_less(x, old_sorted[pos as int]));
                    if j0 > pos {
                        assert(connexion_less(old_sorted[pos as int], old_sorted[j0]) || same_place(old_sorted[pos as int], old_sorted[j0]));
                        lemma_connexion_order(x, old_sorted[pos as int], old_sorted[j0]);
                    }
                } else {
                    assert(r[i] == old_sorted[i]);
                    assert(!connexion_less(x, old_sorted[i]));
                    lemma_connexion_order(old_sorted[i], x, x);
                    assert(np[i] == p[i]);
                    assert(p[i] < pre.len());
                }
            }
            assert(sorts_by(post, r, np));
            p = np;
        }
        t = t + 1;
        proof {
            assert(input@ =~= s.subrange(t as int, s.len() as int));
        }
    }
    proof {
        assert(s.subrange(0, t as int) =~= s);
    }
    sorted
}

/// Reordering the connexions changes no array that they reach.
pub proof fn lemma_sorted_reach(s: Seq<Connexion>, r: Seq<Connexion>)
    requires
        stably_sorted(s, r),
    ensures
        forall|n: Seq<char>| occurs(r, n) == occurs(s, n),
{
    let p = choose|p: Seq<int>| sorts_by(s, r, p);
    assert forall|n: Seq<char>| occurs(r, n) == occurs(s, n) by {
        if occurs(r, n) {
            let i = choose|i: int| 0 <= i < r.len() && #[trigger] cnn_name(r[i]) == n;
            assert(r[i] == s[p[i]]);
            assert(cnn_name(s[p[i]]) == n);
        }
        if occurs(s, n) {
            let q = choose|q: int| 0 <= q < s.len() && #[trigger] cnn_name(s[q]) == n;
            assert(listed(p, q));
            let i = choose|i: int| 0 <= i < p.len() && #[trigger] p[i] == q;
            assert(r[i] == s[q]);
            assert(cnn_name(r[i]) == n);
        }
    }
}

/// The arrays used by two lists of connexions that reach the same arrays
/// are the same.
pub proof fn lemma_used_components_same(comps: Seq<ComponentData>, a: Seq<Connexion>, b: Seq<Connexion>)
    requires
        forall|n: Seq<char>| occurs(a, n) == occurs(b, n),
    ensures
        used_components(comps, a) == used_components(comps, b),
    decreases comps.len(),
{
    if comps.len() > 0 {
        lemma_used_components_same(comps.drop_last(), a, b);
        assert(occurs(a, comps.last().name@) == occurs(b, comps.last().name@));
    }
}

impl ExecutedTemplate {
    /// Puts the connexions in their order (by the name of the array they
    /// reach, then by their indices, as a stable sort) and keeps only the
    /// component arrays that some connexion reaches, with their number of
    /// components. Placing each connexion in the graph of the circuit, which
    /// records its offsets there, is left to the graph.
    pub fn build_connexions(&mut self)
        requires
            forall|i: int| 0 <= i < old(self).components@.len() && occurs(old(self).connexions@, #[trigger] old(self).components@[i].name@)
                ==> products_fit(old(self).components@[i].length@),
            number_of_components(used_components(old(self).components@, old(self).connexions@)) <= usize::MAX,
        ensures
            stably_sorted(old(self).connexions@, final(self).connexions@),
            final(self).components@.map_values(|c: ComponentData| component_view(c)) == used_components(
                old(self).components@,
                old(self).connexions@,
            ),
            final(self).number_of_components == number_of_components(used_components(old(self).components@, old(self).connexions@)),
            *final(self) == (ExecutedTemplate {
                connexions: final(self).connexions,
                components: final(self).components,
                number_of_components: final(self).number_of_components,
                ..*old(self)
            }),
    {
        let mut connexions: Vec<Connexion> = Vec::new();
        std::mem::swap(&mut connexions, &mut self.connexions);
        self.connexions = sort_connexions(connexions);
        proof {
            lemma_sorted_reach(old(self).connexions@, self.connexions@);
            lemma_used_components_same(self.components@, self.connexions@, old(self).connexions@);
            assert forall|i: int| 0 <= i < self.components@.len() && occurs(self.connexions@, #[trigger] self.components@[i].name@)
                implies products_fit(self.components@[i].length@) by {
                assert(occurs(old(self).connexions@, self.components@[i].name@));
            }
        }
        let filtered = filter_used_components(self);
        self.components = filtered.0;
        self.number_of_components = filtered.1;
    }
}

} // verus!
