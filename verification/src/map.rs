//! A map from string keys to values that keeps its keys sorted, so that walking it
//! visits the keys in the order of `str`'s `Ord`.
use vstd::prelude::*;

use crate::text::chars_of;

verus! {

/// The order of `str`'s `Ord` on character sequences: lexicographic by code point
/// (the order of the UTF-8 bytes, which UTF-8 preserves).
pub open spec fn key_lt(a: Seq<char>, b: Seq<char>) -> bool
    decreases a.len(),
{
    if a.len() == 0 {
        b.len() > 0
    } else if b.len() == 0 {
        false
    } else if a[0] < b[0] {
        true
    } else if a[0] == b[0] {
        key_lt(a.drop_first(), b.drop_first())
    } else {
        false
    }
}

pub proof fn lemma_key_lt_irreflexive(a: Seq<char>)
    ensures
        !key_lt(a, a),
    decreases a.len(),
{
    if a.len() > 0 {
        lemma_key_lt_irreflexive(a.drop_first());
    }
}

pub proof fn lemma_key_lt_transitive(a: Seq<char>, b: Seq<char>, c: Seq<char>)
    requires
        key_lt(a, b),
        key_lt(b, c),
    ensures
        key_lt(a, c),
    decreases a.len(),
{
    if a.len() > 0 && b.len() > 0 && c.len() > 0 {
        if a[0] == b[0] && b[0] == c[0] {
            lemma_key_lt_transitive(a.drop_first(), b.drop_first(), c.drop_first());
        }
    }
}

pub proof fn lemma_key_lt_total(a: Seq<char>, b: Seq<char>)
    ensures
        a == b || key_lt(a, b) || key_lt(b, a),
    decreases a.len(),
{
    if a.len() > 0 && b.len() > 0 {
        if a[0] == b[0] {
            lemma_key_lt_total(a.drop_first(), b.drop_first());
            if a.drop_first() == b.drop_first() {
                assert(a == seq![a[0]] + a.drop_first());
                assert(b == seq![b[0]] + b.drop_first());
            }
        }
    } else if a.len() == 0 && b.len() == 0 {
        assert(a =~= b);
    }
}

pub proof fn lemma_key_lt_asymmetric(a: Seq<char>, b: Seq<char>)
    requires
        key_lt(a, b),
    ensures
        !key_lt(b, a),
        a != b,
{
    lemma_key_lt_irreflexive(a);
    if key_lt(b, a) {
        lemma_key_lt_transitive(a, b, a);
    }
}

/// `key_lt` on character vectors.
pub fn key_less(a: &Vec<char>, b: &Vec<char>) -> (r: bool)
    ensures
        r == key_lt(a@, b@),
{
    let mut i: usize = 0;
    assert(a@.skip(0) == a@);
    assert(b@.skip(0) == b@);
    while i < a.len() && i < b.len() && a[i] == b[i]
        invariant
            i <= a.len(),
            i <= b.len(),
            key_lt(a@, b@) == key_lt(a@.skip(i as int), b@.skip(i as int)),
        decreases a.len() - i,
    {
        assert(a@.skip(i as int).drop_first() == a@.skip(i + 1));
        assert(b@.skip(i as int).drop_first() == b@.skip(i + 1));
        i = i + 1;
    }
    if i == a.len() {
        i < b.len()
    } else if i == b.len() {
        false
    } else {
        a[i] < b[i]
    }
}

/// The keys of `ps` rise strictly, in the order of `key_lt`.
pub open spec fn sorted_keys<V>(ps: Seq<(Seq<char>, V)>) -> bool {
    forall|i: int, j: int| 0 <= i < j < ps.len() ==> key_lt(#[trigger] ps[i].0, #[trigger] ps[j].0)
}

/// The value of the first pair of `ps` with key `k`, if any.
pub open spec fn lookup<V>(ps: Seq<(Seq<char>, V)>, k: Seq<char>) -> Option<V>
    decreases ps.len(),
{
    if ps.len() == 0 {
        None
    } else if ps[0].0 == k {
        Some(ps[0].1)
    } else {
        lookup(ps.drop_first(), k)
    }
}

pub proof fn lemma_lookup_absent<V>(ps: Seq<(Seq<char>, V)>, k: Seq<char>)
    ensures
        (lookup(ps, k) is None) <==> (forall|i: int| 0 <= i < ps.len() ==> #[trigger] ps[i].0 != k),
    decreases ps.len(),
{
    if ps.len() > 0 {
        lemma_lookup_absent(ps.drop_first(), k);
        if ps[0].0 != k {
            assert forall|i: int| 0 <= i < ps.len() && #[trigger] ps[i].0 == k implies exists|
                j: int,
            | 0 <= j < ps.drop_first().len() && ps.drop_first()[j].0 == k by {
                assert(ps.drop_first()[i - 1].0 == k);
            }
        }
    }
}

pub proof fn lemma_lookup_at<V>(ps: Seq<(Seq<char>, V)>, i: int)
    requires
        0 <= i < ps.len(),
        forall|j: int| 0 <= j < i ==> #[trigger] ps[j].0 != ps[i].0,
    ensures
        lookup(ps, ps[i].0) == Some(ps[i].1),
    decreases i,
{
    if i > 0 {
        assert(ps[0].0 != ps[i].0);
        assert forall|j: int| 0 <= j < i - 1 implies #[trigger] ps.drop_first()[j].0 != ps.drop_first()[i
            - 1].0 by {
            assert(ps[j + 1].0 != ps[i].0);
        }
        lemma_lookup_at(ps.drop_first(), i - 1);
    }
}

/// In a sorted list, the pair at `i` is the one `lookup` finds for its key.
pub proof fn lemma_lookup_sorted<V>(ps: Seq<(Seq<char>, V)>, i: int)
    requires
        sorted_keys(ps),
        0 <= i < ps.len(),
    ensures
        lookup(ps, ps[i].0) == Some(ps[i].1),
{
    assert forall|j: int| 0 <= j < i implies #[trigger] ps[j].0 != ps[i].0 by {
        lemma_key_lt_asymmetric(ps[j].0, ps[i].0);
    }
    lemma_lookup_at(ps, i);
}

/// `ps` with the pair `(k, v)` put in its place by key: replacing the pair with key
/// `k`, or inserted before the first greater key.
pub open spec fn insert_sorted<V>(ps: Seq<(Seq<char>, V)>, k: Seq<char>, v: V) -> Seq<(Seq<char>, V)>
    decreases ps.len(),
{
    if ps.len() == 0 {
        seq![(k, v)]
    } else if ps[0].0 == k {
        seq![(k, v)] + ps.drop_first()
    } else if key_lt(k, ps[0].0) {
        seq![(k, v)] + ps
    } else {
        seq![ps[0]] + insert_sorted(ps.drop_first(), k, v)
    }
}

/// Putting `(k, v)` into `ps` keeps every pair of another key, adds `(k, v)`, and adds
/// nothing else.
pub proof fn lemma_insert_sorted_contains<V>(ps: Seq<(Seq<char>, V)>, k: Seq<char>, v: V)
    ensures
        insert_sorted(ps, k, v).contains((k, v)),
        forall|x: (Seq<char>, V)| #[trigger]
            insert_sorted(ps, k, v).contains(x) ==> x == (k, v) || ps.contains(x),
        forall|x: (Seq<char>, V)| #[trigger] ps.contains(x) && x.0 != k ==> insert_sorted(
            ps,
            k,
            v,
        ).contains(x),
    decreases ps.len(),
{
    let r = insert_sorted(ps, k, v);
    if ps.len() == 0 {
        assert(r[0] == (k, v));
    } else if ps[0].0 == k {
        assert(r[0] == (k, v));
        assert forall|x: (Seq<char>, V)| #[trigger] r.contains(x) implies x == (k, v) || ps.contains(x) by {
            let i = choose|i: int| 0 <= i < r.len() && r[i] == x;
            if i > 0 {
                assert(ps[i] == x);
            }
        }
        assert forall|x: (Seq<char>, V)| #[trigger] ps.contains(x) && x.0 != k implies r.contains(x) by {
            let i = choose|i: int| 0 <= i < ps.len() && ps[i] == x;
            assert(i > 0);
            assert(r[i] == x);
        }
    } else if key_lt(k, ps[0].0) {
        assert(r[0] == (k, v));
        assert forall|x: (Seq<char>, V)| #[trigger] r.contains(x) implies x == (k, v) || ps.contains(x) by {
            let i = choose|i: int| 0 <= i < r.len() && r[i] == x;
            if i > 0 {
                assert(ps[i - 1] == x);
            }
        }
        assert forall|x: (Seq<char>, V)| #[trigger] ps.contains(x) && x.0 != k implies r.contains(x) by {
            let i = choose|i: int| 0 <= i < ps.len() && ps[i] == x;
            assert(r[i + 1] == x);
        }
    } else {
        let t = ps.drop_first();
        lemma_insert_sorted_contains(t, k, v);
        let rt = insert_sorted(t, k, v);
        assert(r == seq![ps[0]] + rt);
        let i0 = choose|i: int| 0 <= i < rt.len() && rt[i] == (k, v);
        assert(r[i0 + 1] == (k, v));
        assert forall|x: (Seq<char>, V)| #[trigger] r.contains(x) implies x == (k, v) || ps.contains(x) by {
            let i = choose|i: int| 0 <= i < r.len() && r[i] == x;
            if i == 0 {
                assert(ps[0] == x);
            } else {
                assert(rt[i - 1] == x);
                assert(rt.contains(x));
                if t.contains(x) {
                    let m = choose|m: int| 0 <= m < t.len() && t[m] == x;
                    assert(ps[m + 1] == x);
                }
            }
        }
        assert forall|x: (Seq<char>, V)| #[trigger] ps.contains(x) && x.0 != k implies r.contains(x) by {
            let i = choose|i: int| 0 <= i < ps.len() && ps[i] == x;
            if i == 0 {
                assert(r[0] == x);
            } else {
                assert(t[i - 1] == x);
                assert(t.contains(x));
                let m = choose|m: int| 0 <= m < rt.len() && rt[m] == x;
                assert(r[m + 1] == x);
            }
        }
    }
}

/// After putting `(k, v)` into `ps`, the key `k` gives `v` and every other key gives
/// what it gave before.
pub proof fn lemma_insert_sorted_lookup<V>(ps: Seq<(Seq<char>, V)>, k: Seq<char>, v: V, q: Seq<char>)
    ensures
        lookup(insert_sorted(ps, k, v), q) == if q == k {
            Some(v)
        } else {
            lookup(ps, q)
        },
    decreases ps.len(),
{
    let r = insert_sorted(ps, k, v);
    assert(r.len() > 0);
    assert(lookup(r, q) == if r[0].0 == q {
        Some(r[0].1)
    } else {
        lookup(r.drop_first(), q)
    });
    if ps.len() == 0 {
        assert(r[0] == (k, v));
        assert(r.drop_first() =~= Seq::<(Seq<char>, V)>::empty());
        assert(lookup(r.drop_first(), q) is None);
    } else if ps[0].0 == k {
        assert(r[0] == (k, v));
        assert(r.drop_first() =~= ps.drop_first());
    } else if key_lt(k, ps[0].0) {
        assert(r[0] == (k, v));
        assert(r.drop_first() =~= ps);
    } else {
        lemma_insert_sorted_lookup(ps.drop_first(), k, v, q);
        assert(r[0] == ps[0]);
        assert(r.drop_first() =~= insert_sorted(ps.drop_first(), k, v));
    }
}

pub proof fn lemma_insert_sorted_at<V>(ps: Seq<(Seq<char>, V)>, k: Seq<char>, v: V, i: int)
    requires
        0 <= i <= ps.len(),
        forall|j: int| 0 <= j < i ==> key_lt(#[trigger] ps[j].0, k),
        i < ps.len() ==> !key_lt(ps[i].0, k),
    ensures
        insert_sorted(ps, k, v) == if i < ps.len() && ps[i].0 == k {
            ps.update(i, (k, v))
        } else {
            ps.insert(i, (k, v))
        },
    decreases i,
{
    if i == 0 {
        if ps.len() == 0 {
            assert(ps.insert(0, (k, v)) =~= seq![(k, v)]);
        } else if ps[0].0 == k {
            assert(ps.update(0, (k, v)) =~= seq![(k, v)] + ps.drop_first());
        } else {
            lemma_key_lt_total(ps[0].0, k);
            assert(ps.insert(0, (k, v)) =~= seq![(k, v)] + ps);
        }
    } else {
        assert(key_lt(ps[0].0, k));
        lemma_key_lt_asymmetric(ps[0].0, k);
        let t = ps.drop_first();
        assert forall|j: int| 0 <= j < i - 1 implies key_lt(#[trigger] t[j].0, k) by {
            assert(t[j] == ps[j + 1]);
        }
        lemma_insert_sorted_at(t, k, v, i - 1);
        if i < ps.len() && ps[i].0 == k {
            assert(seq![ps[0]] + t.update(i - 1, (k, v)) =~= ps.update(i, (k, v)));
        } else {
            assert(seq![ps[0]] + t.insert(i - 1, (k, v)) =~= ps.insert(i, (k, v)));
        }
    }
}

/// `ps` with `f` applied to each value.
pub open spec fn map_vals<V, W>(ps: Seq<(Seq<char>, V)>, f: spec_fn(V) -> W) -> Seq<(Seq<char>, W)> {
    ps.map_values(|p: (Seq<char>, V)| (p.0, f(p.1)))
}

pub proof fn lemma_insert_sorted_map_vals<V, W>(
    ps: Seq<(Seq<char>, V)>,
    k: Seq<char>,
    v: V,
    f: spec_fn(V) -> W,
)
    ensures
        map_vals(insert_sorted(ps, k, v), f) == insert_sorted(map_vals(ps, f), k, f(v)),
    decreases ps.len(),
{
    if ps.len() > 0 {
        assert(map_vals(ps, f).drop_first() =~= map_vals(ps.drop_first(), f));
        if ps[0].0 == k {
            assert(map_vals(seq![(k, v)] + ps.drop_first(), f) =~= seq![(k, f(v))] + map_vals(
                ps,
                f,
            ).drop_first());
        } else if key_lt(k, ps[0].0) {
            assert(map_vals(seq![(k, v)] + ps, f) =~= seq![(k, f(v))] + map_vals(ps, f));
        } else {
            lemma_insert_sorted_map_vals(ps.drop_first(), k, v, f);
            assert(map_vals(seq![ps[0]] + insert_sorted(ps.drop_first(), k, v), f) =~= seq![
                map_vals(ps, f)[0],
            ] + map_vals(insert_sorted(ps.drop_first(), k, v), f));
        }
    } else {
        assert(map_vals(seq![(k, v)], f) =~= seq![(k, f(v))]);
    }
}

/// `acc` with the pairs of `ps` from the `i`-th on inserted in order.
pub open spec fn insert_all<V>(acc: Seq<(Seq<char>, V)>, ps: Seq<(Seq<char>, V)>, i: int) -> Seq<
    (Seq<char>, V),
>
    decreases ps.len() - i,
{
    if i < 0 || i >= ps.len() {
        acc
    } else {
        insert_all(insert_sorted(acc, ps[i].0, ps[i].1), ps, i + 1)
    }
}

/// The pairs of `ps` before the `n`-th, as a map.
pub open spec fn prefix_map<V>(ps: Seq<(Seq<char>, V)>, n: int) -> Map<Seq<char>, V> {
    Map::new(|k: Seq<char>| lookup(ps.take(n), k) is Some, |k: Seq<char>| lookup(ps.take(n), k)->0)
}

pub proof fn lemma_lookup_push<V>(s: Seq<(Seq<char>, V)>, x: (Seq<char>, V), k: Seq<char>)
    ensures
        lookup(s.push(x), k) == if lookup(s, k) is Some {
            lookup(s, k)
        } else if x.0 == k {
            Some(x.1)
        } else {
            None
        },
    decreases s.len(),
{
    if s.len() > 0 {
        assert(s.push(x)[0] == s[0]);
        assert(s.push(x).drop_first() =~= s.drop_first().push(x));
        lemma_lookup_push(s.drop_first(), x, k);
    } else {
        assert(s.push(x)[0] == x);
        assert(s.push(x).drop_first() =~= Seq::<(Seq<char>, V)>::empty());
        assert(lookup(Seq::<(Seq<char>, V)>::empty(), k) is None);
    }
}

/// Taking one more pair of a sorted list adds that pair to the map of those before it.
pub proof fn lemma_prefix_map_step<V>(ps: Seq<(Seq<char>, V)>, n: int)
    requires
        sorted_keys(ps),
        0 <= n < ps.len(),
    ensures
        prefix_map(ps, n + 1) == prefix_map(ps, n).insert(ps[n].0, ps[n].1),
{
    assert(ps.take(n + 1) =~= ps.take(n).push(ps[n]));
    assert forall|j: int| 0 <= j < ps.take(n).len() implies #[trigger] ps.take(n)[j].0 != ps[n].0 by {
        lemma_key_lt_irreflexive(ps[n].0);
    }
    lemma_lookup_absent(ps.take(n), ps[n].0);
    assert forall|k: Seq<char>| #[trigger] lookup(ps.take(n + 1), k) == if lookup(ps.take(n), k) is Some {
        lookup(ps.take(n), k)
    } else if ps[n].0 == k {
        Some(ps[n].1)
    } else {
        None
    } by {
        lemma_lookup_push(ps.take(n), ps[n], k);
    }
    assert(prefix_map(ps, n + 1) =~= prefix_map(ps, n).insert(ps[n].0, ps[n].1));
}

/// A map from strings to `V`, kept sorted by key with no key twice.
#[derive(Debug, PartialEq, Eq)]
pub struct OrderedMap<V> {
    pub(crate) entries: Vec<(String, V)>,
}

impl<V> OrderedMap<V> {
    /// The pairs of the map, in the order of their keys.
    pub closed spec fn pairs(&self) -> Seq<(Seq<char>, V)> {
        self.entries@.map_values(|e: (String, V)| (e.0@, e.1))
    }

    /// The value stored under `k`, if any.
    pub open spec fn value_of(&self, k: Seq<char>) -> Option<V> {
        lookup(self.pairs(), k)
    }

    /// The map as a mathematical map.
    pub open spec fn view(&self) -> Map<Seq<char>, V> {
        Map::new(|k: Seq<char>| self.value_of(k) is Some, |k: Seq<char>| self.value_of(k)->0)
    }

    #[verifier::type_invariant]
    closed spec fn inv(&self) -> bool {
        sorted_keys(self.pairs())
    }

    pub fn new() -> (m: Self)
        ensures
            m.pairs() == Seq::<(Seq<char>, V)>::empty(),
            m.view() == Map::<Seq<char>, V>::empty(),
    {
        let m = OrderedMap { entries: Vec::new() };
        assert(m.pairs() =~= Seq::<(Seq<char>, V)>::empty());
        assert(m.view() =~= Map::<Seq<char>, V>::empty());
        m
    }

    /// The number of pairs; the keys of the pairs rise strictly.
    pub fn len(&self) -> (n: usize)
        ensures
            n == self.pairs().len(),
            sorted_keys(self.pairs()),
    {
        proof {
            use_type_invariant(self);
        }
        self.entries.len()
    }

    pub fn is_empty(&self) -> (b: bool)
        ensures
            b == (self.pairs().len() == 0),
    {
        self.entries.len() == 0
    }

    /// The `i`-th pair, in key order.
    pub fn entry(&self, i: usize) -> (r: (&String, &V))
        requires
            i < self.pairs().len(),
        ensures
            r.0@ == self.pairs()[i as int].0,
            *r.1 == self.pairs()[i as int].1,
    {
        let e = &self.entries[i];
        (&e.0, &e.1)
    }

    /// The pairs of the map, each value by its view.
    pub open spec fn view_pairs(&self) -> Seq<(Seq<char>, V::V)> where V: View {
        map_vals(self.pairs(), |v: V| v@)
    }

    /// The pairs are the stored entries, each key by its view.
    pub(crate) proof fn lemma_pairs(&self)
        ensures
            self.pairs().len() == self.entries@.len(),
            forall|i: int|
                0 <= i < self.entries@.len() ==> #[trigger] self.pairs()[i] == (
                    self.entries@[i].0@,
                    self.entries@[i].1,
                ),
    {
    }

    /// The `i`-th pair, in key order, as stored.
    pub(crate) fn entry_ref(&self, i: usize) -> (r: &(String, V))
        requires
            i < self.entries@.len(),
        ensures
            *r == self.entries@[i as int],
            r.0@ == self.pairs()[i as int].0,
            r.1 == self.pairs()[i as int].1,
    {
        &self.entries[i]
    }

    /// The index of the first pair whose key is not below `key`.
    fn position_of(&self, key: &Vec<char>) -> (i: usize)
        ensures
            i <= self.pairs().len(),
            forall|j: int| 0 <= j < i ==> key_lt(#[trigger] self.pairs()[j].0, key@),
            i < self.pairs().len() ==> !key_lt(self.pairs()[i as int].0, key@),
    {
        let mut i: usize = 0;
        while i < self.entries.len()
            invariant
                i <= self.entries.len(),
                forall|j: int| 0 <= j < i ==> key_lt(#[trigger] self.pairs()[j].0, key@),
            decreases self.entries.len() - i,
        {
            let k = chars_of(self.entries[i].0.as_str());
            if !key_less(&k, key) {
                return i;
            }
            i = i + 1;
        }
        i
    }

    /// The value stored under `key`, if any.
    pub fn get(&self, key: &str) -> (r: Option<&V>)
        ensures
            r.is_some() == self.value_of(key@).is_some(),
            r.is_some() ==> *r.unwrap() == self.value_of(key@).unwrap(),
    {
        proof {
            use_type_invariant(self);
        }
        let kc = chars_of(key);
        let i = self.position_of(&kc);
        if i < self.entries.len() {
            let k = chars_of(self.entries[i].0.as_str());
            if crate::text::chars_eq(&k, &kc) {
                proof {
                    lemma_lookup_sorted(self.pairs(), i as int);
                }
                return Some(&self.entries[i].1);
            }
            proof {
                lemma_key_lt_total(self.pairs()[i as int].0, key@);
                assert forall|j: int| 0 <= j < self.pairs().len() implies #[trigger] self.pairs()[j].0
                    != key@ by {
                    if j > i {
                        assert(key_lt(self.pairs()[i as int].0, self.pairs()[j].0));
                        lemma_key_lt_transitive(key@, self.pairs()[i as int].0, self.pairs()[j].0);
                        lemma_key_lt_irreflexive(key@);
                    } else if j < i {
                        lemma_key_lt_irreflexive(key@);
                    }
                }
            }
        } else {
            proof {
                assert forall|j: int| 0 <= j < self.pairs().len() implies #[trigger] self.pairs()[j].0
                    != key@ by {
                    lemma_key_lt_irreflexive(key@);
                }
            }
        }
        proof {
            lemma_lookup_absent(self.pairs(), key@);
        }
        None
    }

    /// Whether a value is stored under `key`.
    pub fn contains_key(&self, key: &str) -> (b: bool)
        ensures
            b == self.value_of(key@).is_some(),
    {
        self.get(key).is_some()
    }

    /// Stores `value` under `key`, replacing the value stored there before.
    pub fn insert(&mut self, key: String, value: V)
        ensures
            forall|k: Seq<char>| #[trigger]
                final(self).value_of(k) == if k == key@ {
                    Some(value)
                } else {
                    old(self).value_of(k)
                },
            final(self).view() == old(self).view().insert(key@, value),
            final(self).pairs() == insert_sorted(old(self).pairs(), key@, value),
    {
        proof {
            use_type_invariant(&*self);
        }
        let ghost old_pairs = self.pairs();
        let kc = chars_of(key.as_str());
        let i = self.position_of(&kc);
        let replace = if i < self.entries.len() {
            let k = chars_of(self.entries[i].0.as_str());
            crate::text::chars_eq(&k, &kc)
        } else {
            false
        };
        let ghost new_pair = (key@, value);
        let mut es: Vec<(String, V)> = Vec::new();
        std::mem::swap(&mut es, &mut self.entries);
        if replace {
            es.set(i, (key, value));
            proof {
                let ps = es@.map_values(|e: (String, V)| (e.0@, e.1));
                assert(ps =~= old_pairs.update(i as int, new_pair));
                assert forall|a: int, b: int| 0 <= a < b < ps.len() implies key_lt(
                    #[trigger] ps[a].0,
                    #[trigger] ps[b].0,
                ) by {
                    assert(old_pairs[i as int].0 == key@);
                }
            }
            self.entries = es;
        } else {
            es.insert(i, (key, value));
            proof {
                if i < old_pairs.len() {
                    lemma_key_lt_total(old_pairs[i as int].0, key@);
                }
                assert forall|j: int| 0 <= j < old_pairs.len() implies #[trigger] old_pairs[j].0
                    != key@ by {
                    lemma_key_lt_irreflexive(key@);
                    if j > i {
                        lemma_key_lt_transitive(key@, old_pairs[i as int].0, old_pairs[j].0);
                    }
                }
                let ps = es@.map_values(|e: (String, V)| (e.0@, e.1));
                assert(ps =~= old_pairs.insert(i as int, new_pair));
                if i < old_pairs.len() {
                    lemma_key_lt_total(old_pairs[i as int].0, key@);
                }
                assert forall|a: int, b: int| 0 <= a < b < ps.len() implies key_lt(
                    #[trigger] ps[a].0,
                    #[trigger] ps[b].0,
                ) by {
                    if a < i && b == i {
                    } else if a < i && b > i {
                        assert(ps[b].0 == old_pairs[b - 1].0);
                        if b - 1 > i {
                            lemma_key_lt_transitive(
                                key@,
                                old_pairs[i as int].0,
                                old_pairs[b - 1].0,
                            );
                        }
                        lemma_key_lt_transitive(ps[a].0, key@, ps[b].0);
                    } else if a == i {
                        assert(ps[b].0 == old_pairs[b - 1].0);
                        if b - 1 > i {
                            lemma_key_lt_transitive(
                                key@,
                                old_pairs[i as int].0,
                                old_pairs[b - 1].0,
                            );
                        }
                    } else if a > i {
                        assert(ps[a].0 == old_pairs[a - 1].0);
                        assert(ps[b].0 == old_pairs[b - 1].0);
                    }
                }
            }
            self.entries = es;
        }
        proof {
            use_type_invariant(&*self);
            lemma_insert_sorted_at(old_pairs, key@, value, i as int);
            self.lemma_insert_lookup(old_pairs, i as int, key@, value, replace);
            assert(self.view() =~= old(self).view().insert(key@, value));
        }
    }

    /// The pairs of the map, in the order of their keys.
    pub fn into_entries(self) -> (r: Vec<(String, V)>)
        ensures
            r@.map_values(|e: (String, V)| (e.0@, e.1)) == self.pairs(),
    {
        let OrderedMap { entries } = self;
        entries
    }

    /// Stores each pair of `other`, replacing what was stored under its keys.
    pub fn extend(&mut self, other: OrderedMap<V>)
        ensures
            final(self).view() == old(self).view().union_prefer_right(other.view()),
    {
        proof {
            use_type_invariant(&other);
        }
        let ghost ps = other.pairs();
        let ghost base = self.view();
        let OrderedMap { entries } = other;
        let mut es = entries;
        let ghost mut n: int = 0;
        proof {
            assert(es@.map_values(|e: (String, V)| (e.0@, e.1)) =~= ps.skip(0));
            assert(prefix_map(ps, 0) =~= Map::<Seq<char>, V>::empty());
            assert(base.union_prefer_right(prefix_map(ps, 0)) =~= base);
        }
        while es.len() > 0
            invariant
                sorted_keys(ps),
                0 <= n <= ps.len(),
                es@.map_values(|e: (String, V)| (e.0@, e.1)) == ps.skip(n),
                self.view() == base.union_prefer_right(prefix_map(ps, n)),
            decreases es.len(),
        {
            let ghost before = self.view();
            let ghost old_es = es@;
            proof {
                assert(old_es.map_values(|e: (String, V)| (e.0@, e.1)).len() == ps.skip(n).len());
                assert(n < ps.len());
                assert(old_es.map_values(|e: (String, V)| (e.0@, e.1))[0] == ps.skip(n)[0]);
            }
            let (k, v) = es.remove(0);
            proof {
                assert(es@ =~= old_es.drop_first());
                assert(ps.skip(n)[0] == ps[n]);
                assert(k@ == ps[n].0 && v == ps[n].1);
                let om = old_es.map_values(|e: (String, V)| (e.0@, e.1));
                let nm = es@.map_values(|e: (String, V)| (e.0@, e.1));
                assert forall|i: int| 0 <= i < es@.len() implies #[trigger] nm[i] == ps.skip(n + 1)[i] by {
                    assert(es@[i] == old_es[i + 1]);
                    assert(om[i + 1] == ps.skip(n)[i + 1]);
                }
                assert(nm =~= ps.skip(n + 1));
                lemma_prefix_map_step(ps, n);
            }
            self.insert(k, v);
            proof {
                assert(base.union_prefer_right(prefix_map(ps, n + 1)) =~= before.insert(ps[n].0, ps[n].1));
                n = n + 1;
            }
        }
        proof {
            assert(ps.take(n) =~= ps);
            assert(prefix_map(ps, n) =~= other.view());
        }
    }

    proof fn lemma_insert_lookup(
        &self,
        old_pairs: Seq<(Seq<char>, V)>,
        i: int,
        key: Seq<char>,
        value: V,
        replace: bool,
    )
        requires
            sorted_keys(self.pairs()),
            sorted_keys(old_pairs),
            0 <= i <= old_pairs.len(),
            replace ==> i < old_pairs.len() && old_pairs[i].0 == key && self.pairs()
                == old_pairs.update(i, (key, value)),
            !replace ==> self.pairs() == old_pairs.insert(i, (key, value)) && forall|j: int|
                0 <= j < old_pairs.len() ==> #[trigger] old_pairs[j].0 != key,
        ensures
            forall|k: Seq<char>| #[trigger]
                lookup(self.pairs(), k) == if k == key {
                    Some(value)
                } else {
                    lookup(old_pairs, k)
                },
    {
        let ps = self.pairs();
        assert forall|k: Seq<char>| #[trigger]
            lookup(ps, k) == if k == key {
                Some(value)
            } else {
                lookup(old_pairs, k)
            } by {
            if k == key {
                lemma_lookup_sorted(ps, i);
            } else {
                lemma_lookup_absent(ps, k);
                lemma_lookup_absent(old_pairs, k);
                if lookup(old_pairs, k) is Some {
                    let j = choose|j: int| 0 <= j < old_pairs.len() && old_pairs[j].0 == k;
                    lemma_lookup_sorted(old_pairs, j);
                    let nj = if replace || j < i {
                        j
                    } else {
                        j + 1
                    };
                    assert(ps[nj] == old_pairs[j]);
                    lemma_lookup_sorted(ps, nj);
                } else {
                    assert forall|m: int| 0 <= m < ps.len() implies #[trigger] ps[m].0 != k by {
                        if replace {
                            if m != i {
                                assert(ps[m] == old_pairs[m]);
                            }
                        } else {
                            if m < i {
                                assert(ps[m] == old_pairs[m]);
                            } else if m > i {
                                assert(ps[m] == old_pairs[m - 1]);
                            }
                        }
                    }
                }
            }
        }
    }
}

} // verus!
