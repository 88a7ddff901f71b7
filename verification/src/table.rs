//! A sorted table: keys in strictly increasing order, each with a value.
//!
//! To contracts a table is the map from each key it holds to the key's
//! value. Because the keys increase strictly, no key occurs twice, and
//! walking the table visits the keys in their order.

use vstd::prelude::*;
use crate::order::{Key, Rank};

verus! {

/// Whether the keys of `ks` increase strictly.
pub open spec fn increasing<K: Key>(ks: Seq<K::V>) -> bool {
    forall|i: int, j: int| 0 <= i < j < ks.len() ==> K::before(#[trigger] ks[i], #[trigger] ks[j])
}

/// Keys that increase strictly are all different.
pub proof fn lemma_increasing_is_distinct<K: Key>(ks: Seq<K::V>)
    requires
        increasing::<K>(ks),
    ensures
        ks.no_duplicates(),
{
    assert forall|i: int, j: int| 0 <= i < ks.len() && 0 <= j < ks.len() && i != j implies ks[i]
        != ks[j] by {
        if ks[i] == ks[j] {
            K::lemma_irreflexive(ks[i]);
            if i < j {
                assert(K::before(ks[i], ks[j]));
            } else {
                assert(K::before(ks[j], ks[i]));
            }
        }
    }
}

/// The map that holds, for each key of `pairs`, the value of the last pair
/// with that key.
pub open spec fn map_of<K, V>(pairs: Seq<(K, V)>) -> Map<K, V>
    decreases pairs.len(),
{
    if pairs.len() == 0 {
        Map::empty()
    } else {
        map_of(pairs.drop_last()).insert(pairs.last().0, pairs.last().1)
    }
}

/// The keys of `map_of(pairs)` are the keys of the pairs.
pub proof fn lemma_map_of_keys<K, V>(pairs: Seq<(K, V)>, k: K)
    ensures
        map_of(pairs).contains_key(k) <==> exists|i: int|
            0 <= i < pairs.len() && (#[trigger] pairs[i]).0 == k,
    decreases pairs.len(),
{
    if pairs.len() > 0 {
        let head = pairs.drop_last();
        lemma_map_of_keys(head, k);
        if map_of(pairs).contains_key(k) {
            if pairs.last().0 == k {
                assert(pairs[pairs.len() - 1].0 == k);
            } else {
                let i = choose|i: int| 0 <= i < head.len() && (#[trigger] head[i]).0 == k;
                assert(pairs[i].0 == k);
            }
        }
        if exists|i: int| 0 <= i < pairs.len() && (#[trigger] pairs[i]).0 == k {
            let i = choose|i: int| 0 <= i < pairs.len() && (#[trigger] pairs[i]).0 == k;
            if i < head.len() {
                assert(head[i].0 == k);
            }
        }
    }
}

/// The last pair with a key decides the key's value.
pub proof fn lemma_map_of_last_wins<K, V>(pairs: Seq<(K, V)>, i: int)
    requires
        0 <= i < pairs.len(),
        forall|j: int| i < j < pairs.len() ==> (#[trigger] pairs[j]).0 != pairs[i].0,
    ensures
        map_of(pairs).contains_key(pairs[i].0),
        map_of(pairs)[pairs[i].0] == pairs[i].1,
    decreases pairs.len(),
{
    if i < pairs.len() - 1 {
        let head = pairs.drop_last();
        assert(pairs[pairs.len() - 1].0 != pairs[i].0);
        assert forall|j: int| i < j < head.len() implies (#[trigger] head[j]).0 != head[i].0 by {
            assert(pairs[j].0 != pairs[i].0);
        }
        lemma_map_of_last_wins(head, i);
    }
}

/// The pairs of keys and values as contracts speak of them.
pub open spec fn pairs_of<K: Key, V: View>(items: Seq<(K, V)>) -> Seq<(K::V, V::V)> {
    Seq::new(items.len(), |i: int| (items[i].0@, items[i].1@))
}

/// Whether the keys of the pairs increase strictly.
pub open spec fn rising<K: Key, W>(pairs: Seq<(K::V, W)>) -> bool {
    forall|i: int, j: int|
        0 <= i < j < pairs.len() ==> K::before((#[trigger] pairs[i]).0, (#[trigger] pairs[j]).0)
}

/// Whether the keys of the pairs decrease strictly.
pub open spec fn falling<K: Key, W>(pairs: Seq<(K::V, W)>) -> bool {
    forall|i: int, j: int|
        0 <= i < j < pairs.len() ==> K::before((#[trigger] pairs[j]).0, (#[trigger] pairs[i]).0)
}

/// Whether every key of `low` comes before every key of `high`.
pub open spec fn all_before<K: Key, W>(low: Seq<(K::V, W)>, high: Seq<(K::V, W)>) -> bool {
    forall|i: int, j: int|
        0 <= i < low.len() && 0 <= j < high.len() ==> K::before(
            (#[trigger] low[i]).0,
            (#[trigger] high[j]).0,
        )
}

/// A pair with a key that `pairs` does not hold may as well come first.
pub proof fn lemma_map_of_front<A, B>(p: (A, B), pairs: Seq<(A, B)>)
    requires
        forall|i: int| 0 <= i < pairs.len() ==> (#[trigger] pairs[i]).0 != p.0,
    ensures
        map_of(seq![p] + pairs) == map_of(pairs).insert(p.0, p.1),
    decreases pairs.len(),
{
    let all = seq![p] + pairs;
    if pairs.len() == 0 {
        assert(all.drop_last() =~= Seq::empty());
        assert(map_of(all.drop_last()) =~= Map::empty());
    } else {
        let head = pairs.drop_last();
        assert(all.drop_last() =~= seq![p] + head);
        assert(all.last() == pairs.last());
        assert forall|i: int| 0 <= i < head.len() implies (#[trigger] head[i]).0 != p.0 by {
            assert(pairs[i].0 != p.0);
        }
        lemma_map_of_front(p, head);
        assert(pairs[pairs.len() - 1].0 != p.0);
        assert(map_of(all) =~= map_of(pairs).insert(p.0, p.1));
    }
}

/// The map of two sequences of pairs, one after the other, is the map of
/// the first overlaid with the map of the second.
pub proof fn lemma_map_of_concat<A, B>(x: Seq<(A, B)>, y: Seq<(A, B)>)
    ensures
        map_of(x + y) == map_of(x).union_prefer_right(map_of(y)),
    decreases y.len(),
{
    if y.len() == 0 {
        assert(x + y =~= x);
        assert(map_of(x).union_prefer_right(map_of(y)) =~= map_of(x));
    } else {
        assert((x + y).drop_last() =~= x + y.drop_last());
        assert((x + y).last() == y.last());
        lemma_map_of_concat(x, y.drop_last());
        assert(map_of(x + y) =~= map_of(x).union_prefer_right(map_of(y)));
    }
}

/// A table from keys of type `K` to values of type `V`.
#[derive(Debug, PartialEq, Eq)]
pub struct Table<K: Key, V: View> {
    items: Vec<(K, V)>,
}

impl<K: Key, V: View> View for Table<K, V> {
    type V = Map<K::V, V::V>;

    closed spec fn view(&self) -> Map<K::V, V::V> {
        let ks = self.keys();
        Map::new(|k: K::V| ks.contains(k), |k: K::V| self.items[ks.index_of(k)].1@)
    }
}

impl<K: Key, V: View> Table<K, V> {
    /// The keys of the table, in the order of the table.
    pub closed spec fn keys(&self) -> Seq<K::V> {
        Seq::new(self.items.len() as nat, |i: int| self.items[i].0@)
    }

    /// The values of the table, each at the position of its key.
    pub closed spec fn values(&self) -> Seq<V::V> {
        Seq::new(self.items.len() as nat, |i: int| self.items[i].1@)
    }

    #[verifier::type_invariant]
    spec fn sorted(&self) -> bool {
        increasing::<K>(self.keys())
    }

    /// How the map and the two sequences of a table belong together: the
    /// keys are the keys of the map, and the map takes each to the value at
    /// its position.
    proof fn lemma_shape_of_sorted(&self)
        requires
            increasing::<K>(self.keys()),
        ensures
            self.keys().no_duplicates(),
            self.keys().len() == self.values().len(),
            self@.dom() == self.keys().to_set(),
            self@.dom().finite(),
            self@.len() == self.keys().len(),
            forall|i: int|
                0 <= i < self.keys().len() ==> self@.contains_key(#[trigger] self.keys()[i])
                    && self@[self.keys()[i]] == self.values()[i],
    {
        let ks = self.keys();
        lemma_increasing_is_distinct::<K>(ks);
        assert(self@.dom() =~= ks.to_set());
        ks.unique_seq_to_set();
        assert forall|i: int| 0 <= i < ks.len() implies self@.contains_key(#[trigger] ks[i])
            && self@[ks[i]] == self.values()[i] by {
            assert(ks.contains(ks[i]));
            assert(ks.index_of(ks[i]) == i);
        }
    }

    /// The empty table.
    pub fn new() -> (t: Table<K, V>)
        ensures
            t@ == Map::<K::V, V::V>::empty(),
            t.keys() == Seq::<K::V>::empty(),
    {
        let t = Table { items: Vec::new() };
        assert(t.keys() =~= Seq::<K::V>::empty());
        assert(t@ =~= Map::<K::V, V::V>::empty());
        t
    }

    /// The number of keys.
    pub fn len(&self) -> (n: usize)
        ensures
            n == self@.len(),
            n == self.keys().len(),
            n == self.values().len(),
            increasing::<K>(self.keys()),
            self@.dom() == self.keys().to_set(),
    {
        proof {
            use_type_invariant(self);
            self.lemma_shape_of_sorted();
        }
        self.items.len()
    }

    /// Whether the table holds no key.
    pub fn is_empty(&self) -> (b: bool)
        ensures
            b == (self@.len() == 0),
            b == (self@ == Map::<K::V, V::V>::empty()),
    {
        proof {
            use_type_invariant(self);
            self.lemma_shape_of_sorted();
            if self.items.len() == 0 {
                assert(self@ =~= Map::<K::V, V::V>::empty());
            } else {
                assert(self@.contains_key(self.keys()[0]));
            }
        }
        self.items.len() == 0
    }

    /// Where `key` stands in the table: its position and `true` where the
    /// table holds it, else the position at which it would have to stand
    /// and `false`.
    fn locate(&self, key: &K) -> (r: (usize, bool))
        ensures
            r.0 <= self.keys().len(),
            r.1 ==> r.0 < self.keys().len() && self.keys()[r.0 as int] == key@,
            !r.1 ==> !self.keys().contains(key@),
            !r.1 ==> forall|i: int| 0 <= i < r.0 ==> K::before(#[trigger] self.keys()[i], key@),
            !r.1 ==> forall|i: int|
                r.0 <= i < self.keys().len() ==> K::before(key@, #[trigger] self.keys()[i]),
    {
        proof {
            use_type_invariant(self);
        }
        let ghost ks = self.keys();
        let mut lo: usize = 0;
        let mut hi: usize = self.items.len();
        while lo < hi
            invariant
                lo <= hi <= self.items.len(),
                ks == self.keys(),
                increasing::<K>(ks),
                forall|i: int| 0 <= i < lo ==> K::before(#[trigger] ks[i], key@),
                forall|i: int| hi <= i < ks.len() ==> K::before(key@, #[trigger] ks[i]),
            decreases hi - lo,
        {
            let mid: usize = lo + (hi - lo) / 2;
            assert(ks[mid as int] == self.items[mid as int].0@);
            match key.rank(&self.items[mid].0) {
                Rank::Same => {
                    return (mid, true);
                },
                Rank::Before => {
                    assert forall|i: int| mid <= i < ks.len() implies K::before(
                        key@,
                        #[trigger] ks[i],
                    ) by {
                        if mid < i {
                            K::lemma_transitive(key@, ks[mid as int], ks[i]);
                        }
                    }
                    hi = mid;
                },
                Rank::After => {
                    assert forall|i: int| 0 <= i < mid + 1 implies K::before(
                        #[trigger] ks[i],
                        key@,
                    ) by {
                        if i < mid {
                            K::lemma_transitive(ks[i], ks[mid as int], key@);
                        }
                    }
                    lo = mid + 1;
                },
            }
        }
        proof {
            if ks.contains(key@) {
                let i = ks.index_of(key@);
                K::lemma_irreflexive(key@);
            }
        }
        (lo, false)
    }

    /// Whether the table holds `key`.
    pub fn contains_key(&self, key: &K) -> (b: bool)
        ensures
            b == self@.contains_key(key@),
    {
        let (_, found) = self.locate(key);
        found
    }

    /// The value of `key`, where the table holds it.
    pub fn get(&self, key: &K) -> (r: Option<&V>)
        ensures
            match r {
                Some(v) => self@.contains_key(key@) && self@[key@] == v@,
                None => !self@.contains_key(key@),
            },
    {
        let (i, found) = self.locate(key);
        if found {
            proof {
                use_type_invariant(self);
                self.lemma_shape_of_sorted();
                assert(self.values()[i as int] == self.items[i as int].1@);
            }
            Some(&self.items[i].1)
        } else {
            None
        }
    }

    /// The key at position `i` of the table's order, and its value.
    pub fn entry(&self, i: usize) -> (r: (&K, &V))
        requires
            i < self.keys().len(),
        ensures
            r.0@ == self.keys()[i as int],
            r.1@ == self.values()[i as int],
            self@.contains_key(r.0@),
            self@[r.0@] == r.1@,
    {
        proof {
            use_type_invariant(self);
            self.lemma_shape_of_sorted();
        }
        (&self.items[i].0, &self.items[i].1)
    }

    /// Gives `key` the value `value`, whether or not the table held the key
    /// before.
    pub fn insert(&mut self, key: K, value: V)
        ensures
            final(self)@ == old(self)@.insert(key@, value@),
    {
        proof {
            use_type_invariant(&*self);
            self.lemma_shape_of_sorted();
        }
        let (pos, found) = self.locate(&key);
        let ghost before = *self;
        let ghost ks = self.keys();
        let ghost k = key@;
        let ghost v = value@;
        let mut taken: Table<K, V> = Table::new();
        core::mem::swap(self, &mut taken);
        let mut items = taken.items;
        if found {
            items.set(pos, (key, value));
            proof {
                let ns = Seq::new(items.len() as nat, |i: int| items[i].0@);
                assert(ns =~= ks);
            }
            *self = Table { items };
            proof {
                assert(self.keys() =~= ks);
                self.lemma_shape_of_sorted();
                assert forall|x: K::V| self@.contains_key(x) implies #[trigger] self@[x]
                    == before@.insert(k, v)[x] by {
                    let i = ks.index_of(x);
                    assert(ks[i] == x);
                    assert(self.values()[i] == self.items[i].1@);
                    if i != pos {
                        assert(before.values()[i] == before.items[i].1@);
                        assert(x != k);
                    }
                }
                assert(self@ =~= before@.insert(k, v));
            }
        } else {
            items.insert(pos, (key, value));
            proof {
                let ns = Seq::new(items.len() as nat, |i: int| items[i].0@);
                assert(ns =~= ks.insert(pos as int, k));
                assert forall|i: int, j: int| 0 <= i < j < ns.len() implies K::before(
                    #[trigger] ns[i],
                    #[trigger] ns[j],
                ) by {
                    let a = if i < pos { i } else { i - 1 };
                    let b = if j < pos { j } else { j - 1 };
                    if i != pos && j != pos {
                        assert(ns[i] == ks[a] && ns[j] == ks[b]);
                    } else if i == pos {
                        assert(ns[j] == ks[b]);
                    } else {
                        assert(ns[i] == ks[a]);
                    }
                }
            }
            *self = Table { items };
            proof {
                let ns = self.keys();
                assert(ns =~= ks.insert(pos as int, k));
                self.lemma_shape_of_sorted();
                assert forall|x: K::V| self@.contains_key(x) <==> before@.insert(
                    k,
                    v,
                ).contains_key(x) by {
                    if ns.contains(x) {
                        let i = ns.index_of(x);
                        if i != pos {
                            let a = if i < pos { i } else { i - 1 };
                            assert(ks[a] == x);
                        }
                    }
                    if ks.contains(x) {
                        let a = ks.index_of(x);
                        let i = if a < pos { a } else { a + 1 };
                        assert(ns[i] == x);
                    }
                    if x == k {
                        assert(ns[pos as int] == x);
                    }
                }
                assert forall|x: K::V| self@.contains_key(x) implies #[trigger] self@[x]
                    == before@.insert(k, v)[x] by {
                    let i = ns.index_of(x);
                    assert(ns[i] == x);
                    assert(self.values()[i] == self.items[i].1@);
                    if i != pos {
                        let a = if i < pos { i } else { i - 1 };
                        assert(ks[a] == x);
                        assert(before.values()[a] == before.items[a].1@);
                        assert(self.items[i] == before.items[a]);
                    }
                }
                assert(self@ =~= before@.insert(k, v));
            }
        }
    }

    /// The map of a table is the map of its pairs.
    proof fn lemma_view_is_map_of(&self)
        requires
            increasing::<K>(self.keys()),
        ensures
            self@ == map_of(pairs_of(self.items@)),
            rising::<K, V::V>(pairs_of(self.items@)),
    {
        let ks = self.keys();
        let ps = pairs_of(self.items@);
        self.lemma_shape_of_sorted();
        assert forall|i: int, j: int| 0 <= i < j < ps.len() implies K::before(
            (#[trigger] ps[i]).0,
            (#[trigger] ps[j]).0,
        ) by {
            assert(K::before(ks[i], ks[j]));
        }
        assert forall|k: K::V| self@.contains_key(k) <==> map_of(ps).contains_key(k) by {
            lemma_map_of_keys(ps, k);
            if ks.contains(k) {
                let i = ks.index_of(k);
                assert(ps[i].0 == k);
            }
            if map_of(ps).contains_key(k) {
                let i = choose|i: int| 0 <= i < ps.len() && (#[trigger] ps[i]).0 == k;
                assert(ks[i] == k);
            }
        }
        assert forall|k: K::V| self@.contains_key(k) implies #[trigger] self@[k] == map_of(ps)[k] by {
            let i = ks.index_of(k);
            assert(ks[i] == k);
            assert forall|j: int| i < j < ps.len() implies (#[trigger] ps[j]).0 != ps[i].0 by {
                assert(ks[j] != ks[i]);
            }
            lemma_map_of_last_wins(ps, i);
            assert(self.values()[i] == ps[i].1);
        }
        assert(self@ =~= map_of(ps));
    }

    /// The table that holds the keys of both tables; a key that both hold
    /// has the value that `later` gives it.
    pub fn merge(earlier: Table<K, V>, later: Table<K, V>) -> (t: Table<K, V>)
        ensures
            t@ == earlier@.union_prefer_right(later@),
    {
        proof {
            use_type_invariant(&earlier);
            use_type_invariant(&later);
            earlier.lemma_view_is_map_of();
            later.lemma_view_is_map_of();
        }
        let ghost pa = pairs_of(earlier.items@);
        let ghost pb = pairs_of(later.items@);
        let mut a = earlier.items;
        let mut b = later.items;
        let mut rev: Vec<(K, V)> = Vec::new();
        proof {
            assert(pa.take(a.len() as int) =~= pa);
            assert(pb.take(b.len() as int) =~= pb);
            assert(pa.skip(a.len() as int) =~= Seq::empty());
            assert(pb.skip(b.len() as int) =~= Seq::empty());
            assert(pairs_of(rev@) =~= Seq::empty());
            assert(map_of(pairs_of(rev@)) =~= map_of(pa.skip(a.len() as int)).union_prefer_right(
                map_of(pb.skip(b.len() as int)),
            ));
        }
        while a.len() > 0 || b.len() > 0
            invariant
                a.len() <= pa.len(),
                b.len() <= pb.len(),
                pairs_of(a@) == pa.take(a.len() as int),
                pairs_of(b@) == pb.take(b.len() as int),
                rising::<K, V::V>(pa),
                rising::<K, V::V>(pb),
                falling::<K, V::V>(pairs_of(rev@)),
                all_before::<K, V::V>(pa.take(a.len() as int), pairs_of(rev@)),
                all_before::<K, V::V>(pb.take(b.len() as int), pairs_of(rev@)),
                map_of(pairs_of(rev@)) == map_of(pa.skip(a.len() as int)).union_prefer_right(
                    map_of(pb.skip(b.len() as int)),
                ),
            decreases a.len() + b.len(),
        {
            let ghost na = a.len() as int;
            let ghost nb = b.len() as int;
            let ghost pr = pairs_of(rev@);
            let ghost ma = map_of(pa.skip(na));
            let ghost mb = map_of(pb.skip(nb));
            let from_a: bool;
            let from_b: bool;
            if a.len() == 0 {
                from_a = false;
                from_b = true;
            } else if b.len() == 0 {
                from_a = true;
                from_b = false;
            } else {
                proof {
                    assert(pairs_of(a@)[na - 1] == pa[na - 1]);
                    assert(pairs_of(b@)[nb - 1] == pb[nb - 1]);
                }
                match a[a.len() - 1].0.rank(&b[b.len() - 1].0) {
                    Rank::Before => {
                        from_a = false;
                        from_b = true;
                    },
                    Rank::After => {
                        from_a = true;
                        from_b = false;
                    },
                    Rank::Same => {
                        from_a = true;
                        from_b = true;
                    },
                }
            }
            if from_b {
                let x = b.pop().unwrap();
                let ghost xp = (x.0@, x.1@);
                if from_a {
                    let _ = a.pop();
                }
                rev.push(x);
                proof {
                    let nr = pairs_of(rev@);
                    assert(xp == pb[nb - 1]) by {
                        assert(pb.take(nb)[nb - 1] == pb[nb - 1]);
                    }
                    assert(nr =~= pr.push(xp));
                    assert(nr.drop_last() =~= pr);
                    assert(pairs_of(b@) =~= pb.take(nb - 1));
                    assert(pb.skip(nb - 1) =~= seq![xp] + pb.skip(nb));
                    assert forall|i: int| 0 <= i < pb.skip(nb).len() implies (#[trigger] pb.skip(
                        nb,
                    )[i]).0 != xp.0 by {
                        K::lemma_irreflexive(xp.0);
                        assert(K::before(pb[nb - 1].0, pb[nb + i].0));
                    }
                    lemma_map_of_front(xp, pb.skip(nb));
                    if from_a {
                        let yp = pa[na - 1];
                        assert(pa.take(na)[na - 1] == pa[na - 1]);
                        assert(yp.0 == xp.0);
                        assert(pairs_of(a@) =~= pa.take(na - 1));
                        assert(pa.skip(na - 1) =~= seq![yp] + pa.skip(na));
                        assert forall|i: int| 0 <= i < pa.skip(na).len() implies (
                        #[trigger] pa.skip(na)[i]).0 != yp.0 by {
                            K::lemma_irreflexive(yp.0);
                            assert(K::before(pa[na - 1].0, pa[na + i].0));
                        }
                        lemma_map_of_front(yp, pa.skip(na));
                        assert(map_of(nr) =~= map_of(pa.skip(na - 1)).union_prefer_right(
                            map_of(pb.skip(nb - 1)),
                        ));
                    } else {
                        assert(map_of(nr) =~= map_of(pa.skip(na)).union_prefer_right(
                            map_of(pb.skip(nb - 1)),
                        ));
                    }
                    assert forall|i: int, j: int| 0 <= i < j < nr.len() implies K::before(
                        (#[trigger] nr[j]).0,
                        (#[trigger] nr[i]).0,
                    ) by {
                        if j == pr.len() {
                            assert(K::before(pb.take(nb)[nb - 1].0, pr[i].0));
                        } else {
                            assert(K::before(pr[j].0, pr[i].0));
                        }
                    }
                    let la = pa.take(a.len() as int);
                    let lb = pb.take(b.len() as int);
                    assert forall|i: int, j: int|
                        0 <= i < lb.len() && 0 <= j < nr.len() implies K::before(
                        (#[trigger] lb[i]).0,
                        (#[trigger] nr[j]).0,
                    ) by {
                        if j == pr.len() {
                            assert(K::before(pb[i].0, pb[nb - 1].0));
                        } else {
                            assert(K::before(pb.take(nb)[i].0, pr[j].0));
                        }
                    }
                    assert forall|i: int, j: int|
                        0 <= i < la.len() && 0 <= j < nr.len() implies K::before(
                        (#[trigger] la[i]).0,
                        (#[trigger] nr[j]).0,
                    ) by {
                        if j == pr.len() {
                            if from_a {
                                assert(K::before(pa[i].0, pa[na - 1].0));
                            } else {
                                assert(K::before(pa[na - 1].0, xp.0));
                                if i < na - 1 {
                                    assert(K::before(pa[i].0, pa[na - 1].0));
                                    K::lemma_transitive(pa[i].0, pa[na - 1].0, xp.0);
                                }
                            }
                        } else {
                            assert(K::before(pa.take(na)[i].0, pr[j].0));
                        }
                    }
                }
            } else {
                let x = a.pop().unwrap();
                let ghost xp = (x.0@, x.1@);
                rev.push(x);
                proof {
                    let nr = pairs_of(rev@);
                    assert(xp == pa[na - 1]) by {
                        assert(pa.take(na)[na - 1] == pa[na - 1]);
                    }
                    assert(nr =~= pr.push(xp));
                    assert(nr.drop_last() =~= pr);
                    assert(pairs_of(a@) =~= pa.take(na - 1));
                    assert(pa.skip(na - 1) =~= seq![xp] + pa.skip(na));
                    assert forall|i: int| 0 <= i < pa.skip(na).len() implies (#[trigger] pa.skip(
                        na,
                    )[i]).0 != xp.0 by {
                        K::lemma_irreflexive(xp.0);
                        assert(K::before(pa[na - 1].0, pa[na + i].0));
                    }
                    lemma_map_of_front(xp, pa.skip(na));
                    assert(!mb.contains_key(xp.0)) by {
                        if mb.contains_key(xp.0) {
                            assert(map_of(pr).contains_key(xp.0));
                            lemma_map_of_keys(pr, xp.0);
                            let p = choose|p: int| 0 <= p < pr.len() && (#[trigger] pr[p]).0 == xp.0;
                            assert(K::before(pa.take(na)[na - 1].0, pr[p].0));
                            K::lemma_irreflexive(xp.0);
                        }
                    }
                    assert(map_of(nr) =~= map_of(pa.skip(na - 1)).union_prefer_right(
                        map_of(pb.skip(nb)),
                    ));
                    assert forall|i: int, j: int| 0 <= i < j < nr.len() implies K::before(
                        (#[trigger] nr[j]).0,
                        (#[trigger] nr[i]).0,
                    ) by {
                        if j == pr.len() {
                            assert(K::before(pa.take(na)[na - 1].0, pr[i].0));
                        } else {
                            assert(K::before(pr[j].0, pr[i].0));
                        }
                    }
                    let la = pa.take(a.len() as int);
                    let lb = pb.take(b.len() as int);
                    assert forall|i: int, j: int|
                        0 <= i < la.len() && 0 <= j < nr.len() implies K::before(
                        (#[trigger] la[i]).0,
                        (#[trigger] nr[j]).0,
                    ) by {
                        if j == pr.len() {
                            assert(K::before(pa[i].0, pa[na - 1].0));
                        } else {
                            assert(K::before(pa.take(na)[i].0, pr[j].0));
                        }
                    }
                    assert forall|i: int, j: int|
                        0 <= i < lb.len() && 0 <= j < nr.len() implies K::before(
                        (#[trigger] lb[i]).0,
                        (#[trigger] nr[j]).0,
                    ) by {
                        if j == pr.len() {
                            assert(K::before(pb[nb - 1].0, xp.0));
                            if i < nb - 1 {
                                assert(K::before(pb[i].0, pb[nb - 1].0));
                                K::lemma_transitive(pb[i].0, pb[nb - 1].0, xp.0);
                            }
                        } else {
                            assert(K::before(pb.take(nb)[i].0, pr[j].0));
                        }
                    }
                }
            }
        }
        proof {
            assert(pa.skip(0) =~= pa);
            assert(pb.skip(0) =~= pb);
        }
        Table::from_falling(rev)
    }

    /// The table of pairs whose keys decrease strictly.
    fn from_falling(rev: Vec<(K, V)>) -> (t: Table<K, V>)
        requires
            falling::<K, V::V>(pairs_of(rev@)),
        ensures
            t@ == map_of(pairs_of(rev@)),
    {
        let ghost pr = pairs_of(rev@);
        let mut rev = rev;
        let mut out: Vec<(K, V)> = Vec::new();
        proof {
            assert(pr.take(rev.len() as int) =~= pr);
            assert(pairs_of(out@) =~= Seq::empty());
            assert(map_of(pr.take(rev.len() as int)).union_prefer_right(map_of(pairs_of(out@)))
                =~= map_of(pr));
        }
        while rev.len() > 0
            invariant
                rev.len() <= pr.len(),
                pairs_of(rev@) == pr.take(rev.len() as int),
                falling::<K, V::V>(pr),
                rising::<K, V::V>(pairs_of(out@)),
                all_before::<K, V::V>(pairs_of(out@), pr.take(rev.len() as int)),
                map_of(pr.take(rev.len() as int)).union_prefer_right(map_of(pairs_of(out@)))
                    == map_of(pr),
            decreases rev.len(),
        {
            let ghost n = rev.len() as int;
            let ghost po = pairs_of(out@);
            let x = rev.pop().unwrap();
            let ghost xp = (x.0@, x.1@);
            out.push(x);
            proof {
                let no = pairs_of(out@);
                assert(xp == pr[n - 1]) by {
                    assert(pr.take(n)[n - 1] == pr[n - 1]);
                }
                assert(no =~= po.push(xp));
                assert(no.drop_last() =~= po);
                assert(pairs_of(rev@) =~= pr.take(n - 1));
                assert(pr.take(n).drop_last() =~= pr.take(n - 1));
                assert(pr.take(n).last() == xp);
                assert(!map_of(po).contains_key(xp.0)) by {
                    if map_of(po).contains_key(xp.0) {
                        lemma_map_of_keys(po, xp.0);
                        let i = choose|i: int| 0 <= i < po.len() && (#[trigger] po[i]).0 == xp.0;
                        assert(K::before(po[i].0, pr.take(n)[n - 1].0));
                        K::lemma_irreflexive(xp.0);
                    }
                }
                assert(map_of(pr.take(n - 1)).union_prefer_right(map_of(no)) =~= map_of(pr));
                assert forall|i: int, j: int| 0 <= i < j < no.len() implies K::before(
                    (#[trigger] no[i]).0,
                    (#[trigger] no[j]).0,
                ) by {
                    if j == po.len() {
                        assert(K::before(po[i].0, pr.take(n)[n - 1].0));
                    } else {
                        assert(K::before(po[i].0, po[j].0));
                    }
                }
                let lr = pr.take(n - 1);
                assert forall|i: int, j: int|
                    0 <= i < no.len() && 0 <= j < lr.len() implies K::before(
                    (#[trigger] no[i]).0,
                    (#[trigger] lr[j]).0,
                ) by {
                    if i == po.len() {
                        assert(K::before(pr[n - 1].0, pr[j].0));
                    } else {
                        assert(K::before(po[i].0, pr.take(n)[j].0));
                    }
                }
            }
        }
        proof {
            assert(pr.take(0) =~= Seq::empty());
            assert(map_of(pr.take(0)).union_prefer_right(map_of(pairs_of(out@))) =~= map_of(
                pairs_of(out@),
            ));
            let ks = Seq::new(out@.len(), |i: int| out@[i].0@);
            let po = pairs_of(out@);
            assert forall|i: int, j: int| 0 <= i < j < ks.len() implies K::before(
                #[trigger] ks[i],
                #[trigger] ks[j],
            ) by {
                assert(K::before(po[i].0, po[j].0));
            }
        }
        let t = Table { items: out };
        proof {
            t.lemma_view_is_map_of();
        }
        t
    }

    /// The table that holds, for each key of `pairs`, the value of the last
    /// pair with that key.
    pub fn from_pairs(pairs: Vec<(K, V)>) -> (t: Table<K, V>)
        ensures
            t@ == map_of(pairs_of(pairs@)),
        decreases pairs.len(),
    {
        let ghost all = pairs_of(pairs@);
        let mut pairs = pairs;
        if pairs.len() <= 1 {
            proof {
                assert forall|i: int, j: int| 0 <= i < j < all.len() implies K::before(
                    (#[trigger] all[j]).0,
                    (#[trigger] all[i]).0,
                ) by {}
            }
            return Table::from_falling(pairs);
        }
        let mid: usize = pairs.len() / 2;
        let right = pairs.split_off(mid);
        proof {
            assert(all =~= pairs_of(pairs@) + pairs_of(right@));
            lemma_map_of_concat(pairs_of(pairs@), pairs_of(right@));
        }
        let a = Table::from_pairs(pairs);
        let b = Table::from_pairs(right);
        Table::merge(a, b)
    }
}

} // verus!
