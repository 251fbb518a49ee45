//! A small insertion-ordered map.

use vstd::prelude::*;
use crate::entity::Key;

verus! {

/// A finite map that remembers the order in which its keys were inserted.
///
/// The map is meant for the handful of entries that one room holds: a lookup
/// walks the keys in order. Its contents are [`Table::view`], the order of its
/// keys is [`Table::order`].
pub struct Table<K, V> {
    keys: Vec<K>,
    values: Vec<V>,
}

/// The map that holds `values[i]` under `keys[i]`.
pub open spec fn contents<K, V>(keys: Seq<K>, values: Seq<V>) -> Map<K, V> {
    Map::new(|k: K| keys.contains(k), |k: K| values[keys.index_of(k)])
}

proof fn lemma_contents_update<K, V>(keys: Seq<K>, values: Seq<V>, i: int, value: V)
    requires
        keys.len() == values.len(),
        keys.no_duplicates(),
        0 <= i < keys.len(),
    ensures
        contents(keys, values.update(i, value)) == contents(keys, values).insert(keys[i], value),
{
    let after = contents(keys, values.update(i, value));
    let expected = contents(keys, values).insert(keys[i], value);
    assert(keys.contains(keys[i]));
    assert forall|k: K| after.dom().contains(k) implies #[trigger] after[k] == expected[k] by {
        let j = keys.index_of(k);
        assert(0 <= j < keys.len() && keys[j] == k);
    }
    assert(after =~= expected);
}

/// A record that carries a mark: whether it was seen in the current tick.
pub trait Visited: Copy {
    /// The record is marked.
    spec fn visited(&self) -> bool;

    /// The record without its mark, and otherwise the same.
    spec fn unvisited(&self) -> Self;

    /// Whether the record is marked.
    fn is_visited(&self) -> (r: bool)
        ensures
            r == self.visited(),
    ;

    /// The record without its mark.
    fn cleared(&self) -> (r: Self)
        ensures
            r == self.unvisited(),
            !r.visited(),
    ;
}

/// Tells whether the record under a key of `m` is marked.
pub open spec fn visited_in<K, V: Visited>(m: Map<K, V>) -> spec_fn(K) -> bool {
    |k: K| m[k].visited()
}

/// Tells whether the record under a key of `m` is not marked.
pub open spec fn unvisited_in<K, V: Visited>(m: Map<K, V>) -> spec_fn(K) -> bool {
    |k: K| !m[k].visited()
}

/// Pairs a key of `m` with its record.
pub open spec fn entry_in<K, V>(m: Map<K, V>) -> spec_fn(K) -> (K, V) {
    |k: K| (k, m[k])
}

/// `m` with every mark cleared.
pub open spec fn all_unvisited<K, V: Visited>(m: Map<K, V>) -> Map<K, V> {
    Map::new(|k: K| m.dom().contains(k), |k: K| m[k].unvisited())
}

/// The marked records of `m`.
pub open spec fn only_visited<K, V: Visited>(m: Map<K, V>) -> Map<K, V> {
    Map::new(|k: K| m.dom().contains(k) && m[k].visited(), |k: K| m[k])
}

impl<K: Key, V: Visited> Table<K, V> {
    /// Clears the mark of every record.
    pub fn clear_marks(&mut self)
        requires
            old(self).wf(),
        ensures
            final(self).wf(),
            final(self).order() == old(self).order(),
            final(self)@ == all_unvisited(old(self)@),
    {
        let n = self.values.len();
        let mut i: usize = 0;
        while i < n
            invariant
                i <= n,
                n == self.values@.len(),
                self.keys@ == old(self).keys@,
                self.values@.len() == old(self).values@.len(),
                forall|j: int| 0 <= j < i ==> self.values@[j] == old(self).values@[j].unvisited(),
                forall|j: int| i <= j < n ==> self.values@[j] == old(self).values@[j],
            decreases n - i,
        {
            let cleared = self.values[i].cleared();
            self.values[i] = cleared;
            i += 1;
        }
        proof {
            assert(self@ =~= all_unvisited(old(self)@)) by {
                assert forall|k: K| self@.dom().contains(k) implies #[trigger] self@[k]
                    == all_unvisited(old(self)@)[k] by {
                    let j = self.keys@.index_of(k);
                    assert(0 <= j < self.keys@.len() && self.keys@[j] == k);
                }
            }
        }
    }

    /// Takes every record without a mark out of the table and hands those
    /// entries back, in the order in which they stood. The marked records
    /// stay, in their order.
    pub fn sweep(&mut self) -> (dropped: Vec<(K, V)>)
        requires
            old(self).wf(),
        ensures
            final(self).wf(),
            final(self).order() == old(self).order().filter(visited_in(old(self)@)),
            final(self)@ == only_visited(old(self)@),
            dropped@ == old(self).order().filter(unvisited_in(old(self)@)).map_values(
                entry_in(old(self)@),
            ),
    {
        let ghost before = *self;
        let ghost m = before@;
        let ghost order = before.keys@;
        let mut keys: Vec<K> = Vec::new();
        let mut values: Vec<V> = Vec::new();
        let mut dropped: Vec<(K, V)> = Vec::new();
        let n = self.keys.len();
        let mut i: usize = 0;
        proof {
            assert(order.take(0) =~= Seq::<K>::empty());
            assert(order.take(0).filter(visited_in(m)) =~= Seq::<K>::empty());
            assert(order.take(0).filter(unvisited_in(m)) =~= Seq::<K>::empty());
            assert(Seq::<K>::empty().map_values(entry_in(m)) =~= Seq::<(K, V)>::empty());
        }
        while i < n
            invariant
                i <= n,
                n == order.len(),
                *self == before,
                before.wf(),
                m == before@,
                order == before.keys@,
                keys@ == order.take(i as int).filter(visited_in(m)),
                keys@.len() == values@.len(),
                forall|j: int|
                    0 <= j < keys@.len() ==> m.dom().contains(#[trigger] keys@[j]) && values@[j]
                        == m[keys@[j]],
                dropped@ == order.take(i as int).filter(unvisited_in(m)).map_values(entry_in(m)),
            decreases n - i,
        {
            let key = self.keys[i];
            let value = self.values[i];
            proof {
                before.lemma_value_at(i as int);
                assert(order.take(i as int + 1) =~= order.take(i as int).push(key));
                order.take(i as int).lemma_filter_push(key, visited_in(m));
                order.take(i as int).lemma_filter_push(key, unvisited_in(m));
            }
            if value.is_visited() {
                keys.push(key);
                values.push(value);
            } else {
                dropped.push((key, value));
                proof {
                    let earlier = order.take(i as int).filter(unvisited_in(m));
                    assert(earlier.push(key).map_values(entry_in(m)) =~= earlier.map_values(
                        entry_in(m),
                    ).push((key, value)));
                }
            }
            i += 1;
        }
        proof {
            assert(order.take(n as int) =~= order);
            let kept = order.filter(visited_in(m));
            assert(kept.no_duplicates()) by {
                assert forall|a: int, b: int| 0 <= a < kept.len() && 0 <= b < kept.len() && a
                    != b implies kept[a] != kept[b] by {
                    lemma_filter_keeps_distinct(order, visited_in(m), a, b);
                }
            }
            assert forall|k: K| kept.contains(k) <==> (order.contains(k) && m[k].visited()) by {
                if kept.contains(k) {
                    order.lemma_filter_contains_rev(visited_in(m), k);
                    let j = kept.index_of(k);
                    assert(0 <= j < kept.len() && kept[j] == k);
                    order.lemma_filter_pred(visited_in(m), j);
                }
                if order.contains(k) && m[k].visited() {
                    let j = order.index_of(k);
                    assert(0 <= j < order.len() && order[j] == k);
                    order.lemma_filter_contains(visited_in(m), j);
                }
            }
            assert(contents(keys@, values@) =~= only_visited(m)) by {
                assert forall|k: K| keys@.contains(k) implies #[trigger] contents(
                    keys@,
                    values@,
                )[k] == m[k] by {
                    let j = keys@.index_of(k);
                    assert(0 <= j < keys@.len() && keys@[j] == k);
                }
            }
        }
        self.keys = keys;
        self.values = values;
        dropped
    }
}

/// Two places of a filtered sequence hold different values when no value
/// stands twice in the sequence that was filtered.
proof fn lemma_filter_keeps_distinct<A>(s: Seq<A>, pred: spec_fn(A) -> bool, a: int, b: int)
    requires
        s.no_duplicates(),
        0 <= a < s.filter(pred).len(),
        0 <= b < s.filter(pred).len(),
        a != b,
    ensures
        s.filter(pred)[a] != s.filter(pred)[b],
    decreases s.len(),
{
    reveal(Seq::filter);
    if s.len() > 0 {
        let rest = s.drop_last();
        let kept = rest.filter(pred);
        assert(rest.no_duplicates());
        if pred(s.last()) {
            assert(s.filter(pred) == kept.push(s.last()));
            if a < kept.len() && b < kept.len() {
                lemma_filter_keeps_distinct(rest, pred, a, b);
            } else {
                let c = if a < kept.len() {
                    a
                } else {
                    b
                };
                assert(kept.contains(kept[c]));
                rest.lemma_filter_contains_rev(pred, kept[c]);
                let j = rest.index_of(kept[c]);
                assert(0 <= j < rest.len() && rest[j] == kept[c]);
                assert(s[j] == kept[c]);
            }
        } else {
            lemma_filter_keeps_distinct(rest, pred, a, b);
        }
    }
}

impl<K: Key, V> Table<K, V> {
    /// The keys, oldest insertion first.
    pub closed spec fn order(&self) -> Seq<K> {
        self.keys@
    }

    /// The contents.
    pub closed spec fn view(&self) -> Map<K, V> {
        contents(self.keys@, self.values@)
    }

    /// Every key is held once, with one value.
    pub closed spec fn wf(&self) -> bool {
        &&& self.keys@.len() == self.values@.len()
        &&& self.keys@.no_duplicates()
    }

    /// In a well-formed table the keys in order are exactly the keys of the
    /// contents, each once.
    pub proof fn lemma_order(&self)
        requires
            self.wf(),
        ensures
            self.order().no_duplicates(),
            self@.dom() =~= self.order().to_set(),
            self@.dom().finite(),
            forall|k: K| self@.dom().contains(k) <==> self.order().contains(k),
    {
        assert(self@.dom() =~= self.order().to_set());
        vstd::seq_lib::seq_to_set_is_finite(self.order());
    }

    proof fn lemma_value_at(&self, i: int)
        requires
            self.wf(),
            0 <= i < self.keys@.len(),
        ensures
            self@.dom().contains(self.keys@[i]),
            self@[self.keys@[i]] == self.values@[i],
    {
        let k = self.keys@[i];
        assert(self.keys@.contains(k));
        let j = self.keys@.index_of(k);
        assert(0 <= j < self.keys@.len() && self.keys@[j] == k);
    }

    /// The empty table.
    pub fn new() -> (t: Self)
        ensures
            t.wf(),
            t@ == Map::<K, V>::empty(),
            t.order() == Seq::<K>::empty(),
    {
        let t = Table { keys: Vec::new(), values: Vec::new() };
        assert(t@ =~= Map::<K, V>::empty());
        t
    }

    /// Takes every entry out of the table.
    pub fn clear(&mut self)
        ensures
            final(self).wf(),
            final(self)@ == Map::<K, V>::empty(),
            final(self).order() == Seq::<K>::empty(),
    {
        self.keys.clear();
        self.values.clear();
        assert(self@ =~= Map::<K, V>::empty());
    }

    /// The number of entries.
    pub fn len(&self) -> (n: usize)
        requires
            self.wf(),
        ensures
            n == self.order().len(),
    {
        self.keys.len()
    }

    /// Where `key` stands in the order, if the table holds it.
    pub fn position(&self, key: &K) -> (r: Option<usize>)
        requires
            self.wf(),
        ensures
            match r {
                Some(i) => i < self.order().len() && self.order()[i as int] == *key
                    && self@.dom().contains(*key),
                None => !self@.dom().contains(*key),
            },
    {
        let mut i: usize = 0;
        while i < self.keys.len()
            invariant
                i <= self.keys@.len(),
                forall|j: int| 0 <= j < i ==> self.keys@[j] != *key,
            decreases self.keys@.len() - i,
        {
            if self.keys[i].same(key) {
                assert(self.keys@.contains(*key));
                return Some(i);
            }
            i += 1;
        }
        None
    }

    /// Whether the table holds `key`.
    pub fn contains_key(&self, key: &K) -> (r: bool)
        requires
            self.wf(),
        ensures
            r == self@.dom().contains(*key),
    {
        self.position(key).is_some()
    }

    /// The value under `key`, if the table holds it.
    pub fn get(&self, key: &K) -> (r: Option<&V>)
        requires
            self.wf(),
        ensures
            match r {
                Some(v) => self@.dom().contains(*key) && *v == self@[*key],
                None => !self@.dom().contains(*key),
            },
    {
        match self.position(key) {
            Some(i) => {
                proof {
                    self.lemma_value_at(i as int);
                }
                Some(&self.values[i])
            },
            None => None,
        }
    }

    /// The key at place `i` of the order.
    pub fn key_at(&self, i: usize) -> (k: K)
        requires
            self.wf(),
            i < self.order().len(),
        ensures
            k == self.order()[i as int],
            self@.dom().contains(k),
    {
        proof {
            self.lemma_value_at(i as int);
        }
        self.keys[i]
    }

    /// The value of the key at place `i` of the order.
    pub fn value_at(&self, i: usize) -> (v: &V)
        requires
            self.wf(),
            i < self.order().len(),
        ensures
            self@.dom().contains(self.order()[i as int]),
            *v == self@[self.order()[i as int]],
    {
        proof {
            self.lemma_value_at(i as int);
        }
        &self.values[i]
    }

    /// The value of the key at place `i` of the order, to be changed in place.
    pub fn value_at_mut(&mut self, i: usize) -> (v: &mut V)
        requires
            old(self).wf(),
            i < old(self).order().len(),
        ensures
            old(self)@.dom().contains(old(self).order()[i as int]),
            *v == old(self)@[old(self).order()[i as int]],
            final(self).wf(),
            final(self).order() == old(self).order(),
            final(self)@ == old(self)@.insert(old(self).order()[i as int], *final(v)),
    {
        proof {
            self.lemma_value_at(i as int);
        }
        proof {
            let keys = self.keys@;
            let values = self.values@;
            assert forall|value: V| #[trigger]
                contents(keys, values.update(i as int, value)) == contents(keys, values).insert(
                    keys[i as int],
                    value,
                ) by {
                lemma_contents_update(keys, values, i as int, value);
            }
        }
        &mut self.values[i]
    }

    /// Puts `value` under `key`. A key that the table already holds keeps its
    /// place in the order and hands its earlier value back; a new key goes to
    /// the end.
    pub fn insert(&mut self, key: K, value: V) -> (r: Option<V>)
        requires
            old(self).wf(),
        ensures
            final(self).wf(),
            final(self)@ == old(self)@.insert(key, value),
            match r {
                Some(v) => old(self)@.dom().contains(key) && v == old(self)@[key]
                    && final(self).order() == old(self).order(),
                None => !old(self)@.dom().contains(key) && final(self).order() == old(
                    self,
                ).order().push(key),
            },
    {
        let ghost before = *self;
        match self.position(&key) {
            Some(i) => {
                proof {
                    self.lemma_value_at(i as int);
                }
                self.values.push(value);
                let earlier = self.values.swap_remove(i);
                proof {
                    assert(self.values@ =~= before.values@.update(i as int, value));
                    assert(self@ =~= before@.insert(key, value)) by {
                        assert forall|k: K| self@.dom().contains(k) implies #[trigger] self@[k]
                            == before@.insert(key, value)[k] by {
                            let j = before.keys@.index_of(k);
                            assert(0 <= j < before.keys@.len() && before.keys@[j] == k);
                        }
                    }
                }
                Some(earlier)
            },
            None => {
                self.keys.push(key);
                self.values.push(value);
                proof {
                    assert(self.keys@.no_duplicates());
                    assert forall|k: K| self.keys@.contains(k) <==> (before.keys@.contains(k) || k
                        == key) by {
                        if before.keys@.contains(k) {
                            let j = before.keys@.index_of(k);
                            assert(self.keys@[j] == k);
                        }
                        if k == key {
                            assert(self.keys@[before.keys@.len() as int] == k);
                        }
                    }
                    assert(self@ =~= before@.insert(key, value)) by {
                        assert forall|k: K| self@.dom().contains(k) implies #[trigger] self@[k]
                            == before@.insert(key, value)[k] by {
                            let j = self.keys@.index_of(k);
                            assert(0 <= j < self.keys@.len() && self.keys@[j] == k);
                            if k != key {
                                let j0 = before.keys@.index_of(k);
                                assert(0 <= j0 < before.keys@.len() && before.keys@[j0] == k);
                                assert(self.keys@[j0] == k);
                                assert(j == j0);
                            }
                        }
                    }
                }
                None
            },
        }
    }

    /// Takes the entry at place `i` of the order out of the table. The entries
    /// behind it move up by one place.
    pub fn remove_at(&mut self, i: usize) -> (r: (K, V))
        requires
            old(self).wf(),
            i < old(self).order().len(),
        ensures
            final(self).wf(),
            r.0 == old(self).order()[i as int],
            old(self)@.dom().contains(r.0),
            r.1 == old(self)@[r.0],
            final(self)@ == old(self)@.remove(r.0),
            final(self).order() == old(self).order().remove(i as int),
    {
        let ghost before = *self;
        proof {
            self.lemma_value_at(i as int);
        }
        let key = self.keys.remove(i);
        let value = self.values.remove(i);
        proof {
            assert(self.keys@ == before.keys@.remove(i as int));
            assert(self.values@ == before.values@.remove(i as int));
            assert forall|k: K| self.keys@.contains(k) <==> (before.keys@.contains(k) && k
                != key) by {
                if self.keys@.contains(k) {
                    let j = self.keys@.index_of(k);
                    assert(0 <= j < self.keys@.len() && self.keys@[j] == k);
                    if j < i {
                        assert(before.keys@[j] == k);
                    } else {
                        assert(before.keys@[j + 1] == k);
                    }
                }
                if before.keys@.contains(k) && k != key {
                    let j = before.keys@.index_of(k);
                    assert(0 <= j < before.keys@.len() && before.keys@[j] == k);
                    if j < i {
                        assert(self.keys@[j] == k);
                    } else {
                        assert(self.keys@[j - 1] == k);
                    }
                }
            }
            assert(self@ =~= before@.remove(key)) by {
                assert forall|k: K| self@.dom().contains(k) implies #[trigger] self@[k]
                    == before@.remove(key)[k] by {
                    let j = self.keys@.index_of(k);
                    assert(0 <= j < self.keys@.len() && self.keys@[j] == k);
                    let j0 = before.keys@.index_of(k);
                    assert(0 <= j0 < before.keys@.len() && before.keys@[j0] == k);
                    if j < i {
                        assert(before.keys@[j] == k);
                        assert(j0 == j);
                    } else {
                        assert(before.keys@[j + 1] == k);
                        assert(j0 == j + 1);
                    }
                }
            }
        }
        (key, value)
    }

    /// Takes `key` and its value out of the table, if the table holds it.
    pub fn remove(&mut self, key: &K) -> (r: Option<V>)
        requires
            old(self).wf(),
        ensures
            final(self).wf(),
            final(self)@ == old(self)@.remove(*key),
            match r {
                Some(v) => old(self)@.dom().contains(*key) && v == old(self)@[*key]
                    && final(self).order() == old(self).order().remove(
                    old(self).order().index_of(*key),
                ),
                None => !old(self)@.dom().contains(*key) && final(self).order() == old(
                    self,
                ).order() && final(self)@ == old(self)@,
            },
    {
        match self.position(key) {
            Some(i) => {
                proof {
                    let j = self.keys@.index_of(*key);
                    assert(0 <= j < self.keys@.len() && self.keys@[j] == *key);
                    assert(j == i);
                }
                let (_, value) = self.remove_at(i);
                Some(value)
            },
            None => {
                assert(self@ =~= self@.remove(*key));
                None
            },
        }
    }
}

} // verus!
