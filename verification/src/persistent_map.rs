//! Persistent maps on a hash array mapped trie.
//!
//! Updates return a new map that shares every unchanged node with the old
//! one; the old map is never changed.

use vstd::prelude::*;
use vstd::std_specs::cmp::PartialEqSpec;

use crate::hamt::{distinct_keys, lemma_pairs_contains, lemma_pairs_value, pairs_map, Hamt, HamtKey};
use crate::text::{push_char, push_str_chars, ToText};

verus! {

/// A persistent map from keys to values.
#[derive(Debug)]
pub struct PersistentMap<K: HamtKey, V>(Hamt<K, V>);

impl<K: HamtKey, V> PersistentMap<K, V> {
    /// The bindings held, keys taken by identity.
    pub closed spec fn bindings(self) -> Map<K::Id, V> {
        self.0@
    }
}

impl<K: HamtKey, V> View for PersistentMap<K, V> {
    type V = Map<K::Id, V>;

    open spec fn view(&self) -> Map<K::Id, V> {
        self.bindings()
    }
}

/// The map built by binding the pairs' keys to their values in order, a
/// later pair replacing an earlier one with the same key.
pub open spec fn map_of_pairs<K: HamtKey, V>(s: Seq<(K, V)>) -> Map<K::Id, V>
    decreases s.len(),
{
    if s.len() == 0 {
        Map::empty()
    } else {
        map_of_pairs(s.drop_last()).insert(s.last().0.key_id(), s.last().1)
    }
}

impl<K: HamtKey, V> PersistentMap<K, V> {
    /// The empty map.
    pub fn empty() -> (r: Self)
        ensures
            r@ == Map::<K::Id, V>::empty(),
    {
        PersistentMap(Hamt::new())
    }

    /// The map of the pairs, in order: a later pair replaces an earlier one
    /// with the same key.
    pub fn from_pairs(pairs: Vec<(K, V)>) -> (r: Self)
        ensures
            r@ == map_of_pairs(pairs@),
    {
        let mut map = Hamt::new();
        let count: usize = pairs.len();
        let ghost all = pairs@;
        for pair in it: pairs.into_iter()
            invariant
                it.seq() == all,
                map@ == map_of_pairs(all.take(it.index())),
                map@.dom().finite(),
                map@.len() <= it.index(),
                it.index() <= all.len(),
                all.len() == count,
        {
            proof {
                assert(all.take(it.index() + 1).drop_last() =~= all.take(it.index()));
            }
            let (key, value) = pair;
            map = map.insert(key, value);
        }
        proof {
            assert(all.take(all.len() as int) =~= all);
        }
        PersistentMap(map)
    }

    /// The value bound to `key`, if any.
    pub fn get(&self, key: &K) -> (r: Option<&V>)
        ensures
            r.is_some() == self@.dom().contains(key.key_id()),
            r.is_some() ==> *r.unwrap() == self@[key.key_id()],
    {
        self.0.get(key)
    }

    /// The number of entries.
    pub fn len(&self) -> (r: usize)
        ensures
            r == self@.len(),
            self@.dom().finite(),
    {
        self.0.len()
    }

    /// Whether the map has no entries.
    pub fn is_empty(&self) -> (r: bool)
        ensures
            r == (self@.len() == 0),
            r == (self@ == Map::<K::Id, V>::empty()),
    {
        self.0.is_empty()
    }

    /// Whether `key` is bound.
    pub fn contains_key(&self, key: &K) -> (r: bool)
        ensures
            r == self@.dom().contains(key.key_id()),
    {
        self.0.contains_key(key)
    }

    /// The map with `key` bound to `value`; this map is unchanged.
    pub fn assoc(&self, key: K, value: V) -> (r: Self)
        requires
            self@.len() < usize::MAX,
        ensures
            r@ == self@.insert(key.key_id(), value),
    {
        PersistentMap(self.0.insert(key, value))
    }

    /// The map without `key`; this map is unchanged.
    pub fn dissoc(&self, key: &K) -> (r: Self)
        ensures
            r@ == self@.remove(key.key_id()),
    {
        PersistentMap(self.0.remove(key))
    }

    /// The keys, each once, in the trie's order.
    pub fn keys(&self) -> (r: Vec<&K>)
        ensures
            exists|s: Seq<(&K, &V)>|
                pairs_map(s) == self@ && distinct_keys(s) && #[trigger] s.len() == r@.len()
                    && forall|i: int| 0 <= i < s.len() ==> r@[i] == s[i].0,
            r@.len() == self@.len(),
    {
        self.0.keys()
    }

    /// The values, one per key, in the order of [`PersistentMap::keys`].
    pub fn values(&self) -> (r: Vec<&V>)
        ensures
            exists|s: Seq<(&K, &V)>|
                pairs_map(s) == self@ && distinct_keys(s) && #[trigger] s.len() == r@.len()
                    && forall|i: int| 0 <= i < s.len() ==> r@[i] == s[i].1,
            r@.len() == self@.len(),
    {
        self.0.values()
    }

    /// The entries, each key once, in the trie's order (which follows the
    /// keys' hashes, not their order).
    pub fn iter(&self) -> (r: Vec<(&K, &V)>)
        ensures
            pairs_map(r@) == self@,
            distinct_keys(r@),
            r@.len() == self@.len(),
    {
        self.0.iter()
    }
}

/// The printed entries, key and value separated by a space and entries by
/// spaces.
pub open spec fn entries_text<K: ToText, V: ToText>(s: Seq<(&K, &V)>) -> Seq<char>
    decreases s.len(),
{
    if s.len() == 0 {
        Seq::empty()
    } else if s.len() == 1 {
        s[0].0.text() + seq![' '] + s[0].1.text()
    } else {
        entries_text(s.drop_last()) + seq![' '] + s.last().0.text() + seq![' '] + s.last().1.text()
    }
}

impl<K: HamtKey + ToText, V: ToText> PersistentMap<K, V> {
    /// The printed form, such as `{1 2 3 4}`, entries in the order of
    /// [`PersistentMap::iter`].
    pub fn to_string(&self) -> (r: String)
        ensures
            exists|s: Seq<(&K, &V)>|
                pairs_map(s) == self@ && distinct_keys(s) && r@ == seq!['{'] + #[trigger] entries_text(s)
                    + seq!['}'],
    {
        let pairs = self.0.iter();
        let mut out = String::new();
        push_char(&mut out, '{');
        let mut i: usize = 0;
        while i < pairs.len()
            invariant
                i <= pairs@.len(),
                out@ == seq!['{'] + entries_text(pairs@.take(i as int)),
            decreases pairs@.len() - i,
        {
            proof {
                assert(pairs@.take(i + 1).drop_last() =~= pairs@.take(i as int));
                assert(pairs@.take(i + 1).last() == pairs@[i as int]);
            }
            if i > 0 {
                push_char(&mut out, ' ');
            }
            let k = pairs[i].0.to_text();
            push_str_chars(&mut out, k.as_str());
            push_char(&mut out, ' ');
            let v = pairs[i].1.to_text();
            push_str_chars(&mut out, v.as_str());
            proof {
                if i == 0 {
                    assert(entries_text(pairs@.take(0)) =~= Seq::<char>::empty());
                }
                assert(out@ =~= seq!['{'] + entries_text(pairs@.take(i + 1)));
            }
            i = i + 1;
        }
        push_char(&mut out, '}');
        proof {
            assert(pairs@.take(pairs@.len() as int) =~= pairs@);
        }
        out
    }
}

impl<K: HamtKey, V> Clone for PersistentMap<K, V> {
    /// Another handle on the same trie.
    fn clone(&self) -> (r: Self)
        ensures
            r@ == self@,
    {
        PersistentMap(self.0.clone())
    }
}

impl<K: HamtKey, V> Default for PersistentMap<K, V> {
    fn default() -> (r: Self)
        ensures
            r@ == Map::<K::Id, V>::empty(),
    {
        PersistentMap(Hamt::new())
    }
}

/// Two maps with the same keys whose values are pairwise equal by the
/// value type's `==`.
pub open spec fn same_entries<I, V: PartialEq>(a: Map<I, V>, b: Map<I, V>) -> bool {
    &&& a.dom() == b.dom()
    &&& forall|k: I| #[trigger] a.dom().contains(k) ==> a[k].eq_spec(&b[k])
}

impl<K: HamtKey, V: PartialEq> PartialEq for PersistentMap<K, V> {
    /// Maps are equal when they bind the same keys to equal values, in
    /// whatever order they were built.
    fn eq(&self, other: &Self) -> (r: bool) {
        if self.0.len() != other.0.len() {
            return false;
        }
        let pairs = self.0.iter();
        let mut i: usize = 0;
        while i < pairs.len()
            invariant
                i <= pairs@.len(),
                pairs_map(pairs@) == self@,
                distinct_keys(pairs@),
                forall|j: int| 0 <= j < i ==> other@.dom().contains(#[trigger] pairs@[j].0.key_id()),
                V::obeys_eq_spec() ==> forall|j: int|
                    0 <= j < i ==> (*#[trigger] pairs@[j].1).eq_spec(&other@[pairs@[j].0.key_id()]),
            decreases pairs@.len() - i,
        {
            let (k, v) = pairs[i];
            proof {
                lemma_pairs_value(pairs@, i as int);
            }
            match other.0.get(k) {
                Some(w) => {
                    if !(*v == *w) {
                        return false;
                    }
                },
                None => {
                    return false;
                },
            }
            i = i + 1;
        }
        proof {
            assert forall|x: K::Id| self@.dom().contains(x) implies other@.dom().contains(x)
                && (V::obeys_eq_spec() ==> self@[x].eq_spec(&other@[x])) by {
                lemma_pairs_contains(pairs@, x);
                let j = choose|j: int| 0 <= j < pairs@.len() && #[trigger] pairs@[j].0.key_id() == x;
                lemma_pairs_value(pairs@, j);
            }
            vstd::set_lib::lemma_subset_equality(self@.dom(), other@.dom());
        }
        true
    }
}

impl<K: HamtKey, V: PartialEq> vstd::std_specs::cmp::PartialEqSpecImpl for PersistentMap<K, V> {
    open spec fn obeys_eq_spec() -> bool {
        V::obeys_eq_spec()
    }

    open spec fn eq_spec(&self, other: &Self) -> bool {
        same_entries(self@, other@)
    }
}

impl<K: HamtKey, V: Eq> Eq for PersistentMap<K, V> {}

} // verus!
