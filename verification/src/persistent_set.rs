//! Persistent sets on a hash array mapped trie.
//!
//! Updates return a new set that shares every unchanged node with the old
//! one; the old set is never changed.

use vstd::prelude::*;

use crate::hamt::{lemma_pairs_contains, Hamt, HamtKey};
use crate::text::{push_char, push_str_chars, ToText};

verus! {

/// A persistent set of keys.
#[derive(Debug)]
pub struct PersistentSet<K: HamtKey>(Hamt<K, ()>);

impl<K: HamtKey> PersistentSet<K> {
    /// The members, taken by identity.
    pub closed spec fn members(self) -> Set<K::Id> {
        self.0@.dom()
    }
}

impl<K: HamtKey> View for PersistentSet<K> {
    type V = Set<K::Id>;

    open spec fn view(&self) -> Set<K::Id> {
        self.members()
    }
}

/// The identities of the keys.
pub open spec fn ids_of<K: HamtKey>(s: Seq<K>) -> Set<K::Id>
    decreases s.len(),
{
    if s.len() == 0 {
        Set::empty()
    } else {
        ids_of(s.drop_last()).insert(s.last().key_id())
    }
}

/// The keys list each member of `ids` exactly once.
pub open spec fn lists_each_once<K: HamtKey>(ks: Seq<&K>, ids: Set<K::Id>) -> bool {
    &&& ks.len() == ids.len()
    &&& forall|i: int| 0 <= i < ks.len() ==> ids.contains(#[trigger] ks[i].key_id())
    &&& forall|x: K::Id| ids.contains(x) ==> exists|i: int| 0 <= i < ks.len() && #[trigger] ks[i].key_id() == x
    &&& forall|a: int, b: int| 0 <= a < b < ks.len() ==> #[trigger] ks[a].key_id() != #[trigger] ks[b].key_id()
}

impl<K: HamtKey> PersistentSet<K> {
    /// The empty set.
    pub fn empty() -> (r: Self)
        ensures
            r@ == Set::<K::Id>::empty(),
    {
        proof {
            assert(Map::<K::Id, ()>::empty().dom() =~= Set::<K::Id>::empty());
        }
        PersistentSet(Hamt::new())
    }

    /// The set of the values; duplicates count once.
    pub fn from_values(values: Vec<K>) -> (r: Self)
        ensures
            r@ == ids_of(values@),
    {
        let mut map: Hamt<K, ()> = Hamt::new();
        let count: usize = values.len();
        let ghost all = values@;
        proof {
            assert(map@.dom() =~= ids_of(all.take(0)));
        }
        for value in it: values.into_iter()
            invariant
                it.seq() == all,
                map@.dom() == ids_of(all.take(it.index())),
                map@.dom().finite(),
                map@.len() <= it.index(),
                it.index() <= all.len(),
                all.len() == count,
        {
            proof {
                assert(all.take(it.index() + 1).drop_last() =~= all.take(it.index()));
            }
            map = map.insert(value, ());
        }
        proof {
            assert(all.take(all.len() as int) =~= all);
        }
        PersistentSet(map)
    }

    /// The number of members.
    pub fn len(&self) -> (r: usize)
        ensures
            r == self@.len(),
            self@.finite(),
    {
        self.0.len()
    }

    /// Whether the set has no members.
    pub fn is_empty(&self) -> (r: bool)
        ensures
            r == (self@.len() == 0),
            r == (self@ == Set::<K::Id>::empty()),
    {
        let r = self.0.is_empty();
        proof {
            if r {
                assert(self@ =~= Set::<K::Id>::empty());
            } else {
                assert(self.0@ != Map::<K::Id, ()>::empty());
                if self@ == Set::<K::Id>::empty() {
                    assert(self.0@ =~= Map::<K::Id, ()>::empty());
                }
            }
        }
        r
    }

    /// Whether `value` is a member.
    pub fn contains(&self, value: &K) -> (r: bool)
        ensures
            r == self@.contains(value.key_id()),
    {
        self.0.contains_key(value)
    }

    /// The set with `value` added; this set is unchanged.
    pub fn insert(&self, value: K) -> (r: Self)
        requires
            self@.len() < usize::MAX,
        ensures
            r@ == self@.insert(value.key_id()),
    {
        let r = PersistentSet(self.0.insert(value, ()));
        proof {
            assert(r@ =~= self@.insert(value.key_id()));
        }
        r
    }

    /// The set without `value`; this set is unchanged.
    pub fn remove(&self, value: &K) -> (r: Self)
        ensures
            r@ == self@.remove(value.key_id()),
    {
        let r = PersistentSet(self.0.remove(value));
        proof {
            assert(r@ =~= self@.remove(value.key_id()));
        }
        r
    }

    /// The members, each once, in the trie's order (which follows the
    /// hashes, not the members' order).
    pub fn iter(&self) -> (r: Vec<&K>)
        ensures
            lists_each_once(r@, self@),
    {
        let pairs = self.0.iter();
        let mut out: Vec<&K> = Vec::new();
        let mut i: usize = 0;
        while i < pairs.len()
            invariant
                i <= pairs@.len(),
                out@.len() == i,
                forall|j: int| 0 <= j < i ==> out@[j] == pairs@[j].0,
            decreases pairs@.len() - i,
        {
            out.push(pairs[i].0);
            i = i + 1;
        }
        proof {
            assert forall|j: int| 0 <= j < out@.len() implies self@.contains(#[trigger] out@[j].key_id()) by {
                lemma_pairs_contains(pairs@, out@[j].key_id());
            }
            assert forall|x: K::Id| self@.contains(x) implies exists|j: int|
                0 <= j < out@.len() && #[trigger] out@[j].key_id() == x by {
                lemma_pairs_contains(pairs@, x);
                let j = choose|j: int| 0 <= j < pairs@.len() && #[trigger] pairs@[j].0.key_id() == x;
                assert(out@[j].key_id() == x);
            }
            assert forall|a: int, b: int| 0 <= a < b < out@.len() implies #[trigger] out@[a].key_id()
                != #[trigger] out@[b].key_id() by {
                assert(pairs@[a].0.key_id() != pairs@[b].0.key_id());
            }
        }
        out
    }
}

/// The printed forms of the keys, separated by single spaces.
pub open spec fn keys_text<K: ToText>(s: Seq<&K>) -> Seq<char>
    decreases s.len(),
{
    if s.len() == 0 {
        Seq::empty()
    } else if s.len() == 1 {
        s[0].text()
    } else {
        keys_text(s.drop_last()) + seq![' '] + s.last().text()
    }
}

impl<K: HamtKey + ToText> PersistentSet<K> {
    /// The printed form, such as `#{1 2 3}`, members in the order of
    /// [`PersistentSet::iter`].
    pub fn to_string(&self) -> (r: String)
        ensures
            exists|ks: Seq<&K>|
                lists_each_once(ks, self@) && r@ == seq!['#', '{'] + #[trigger] keys_text(ks) + seq!['}'],
    {
        let ks = self.iter();
        let mut out = String::new();
        push_char(&mut out, '#');
        push_char(&mut out, '{');
        let mut i: usize = 0;
        while i < ks.len()
            invariant
                i <= ks@.len(),
                out@ == seq!['#', '{'] + keys_text(ks@.take(i as int)),
            decreases ks@.len() - i,
        {
            proof {
                assert(ks@.take(i + 1).drop_last() =~= ks@.take(i as int));
                assert(ks@.take(i + 1).last() == ks@[i as int]);
            }
            if i > 0 {
                push_char(&mut out, ' ');
            }
            let t = ks[i].to_text();
            push_str_chars(&mut out, t.as_str());
            proof {
                if i == 0 {
                    assert(keys_text(ks@.take(0)) =~= Seq::<char>::empty());
                }
                assert(out@ =~= seq!['#', '{'] + keys_text(ks@.take(i + 1)));
            }
            i = i + 1;
        }
        push_char(&mut out, '}');
        proof {
            assert(ks@.take(ks@.len() as int) =~= ks@);
        }
        out
    }
}

impl<K: HamtKey> Clone for PersistentSet<K> {
    /// Another handle on the same trie.
    fn clone(&self) -> (r: Self)
        ensures
            r@ == self@,
    {
        PersistentSet(self.0.clone())
    }
}

impl<K: HamtKey> Default for PersistentSet<K> {
    fn default() -> (r: Self)
        ensures
            r@ == Set::<K::Id>::empty(),
    {
        PersistentSet::empty()
    }
}

impl<K: HamtKey> PartialEq for PersistentSet<K> {
    /// Sets are equal when they have the same members, in whatever order
    /// they were built.
    fn eq(&self, other: &Self) -> (r: bool) {
        if self.len() != other.len() {
            return false;
        }
        let ks = self.iter();
        let mut i: usize = 0;
        while i < ks.len()
            invariant
                i <= ks@.len(),
                lists_each_once(ks@, self@),
                forall|j: int| 0 <= j < i ==> other@.contains(#[trigger] ks@[j].key_id()),
            decreases ks@.len() - i,
        {
            if !other.contains(ks[i]) {
                return false;
            }
            i = i + 1;
        }
        proof {
            assert forall|x: K::Id| self@.contains(x) implies other@.contains(x) by {
                let j = choose|j: int| 0 <= j < ks@.len() && #[trigger] ks@[j].key_id() == x;
            }
            vstd::set_lib::lemma_subset_equality(self@, other@);
        }
        true
    }
}

impl<K: HamtKey> vstd::std_specs::cmp::PartialEqSpecImpl for PersistentSet<K> {
    open spec fn obeys_eq_spec() -> bool {
        true
    }

    open spec fn eq_spec(&self, other: &Self) -> bool {
        self@ == other@
    }
}

impl<K: HamtKey> Eq for PersistentSet<K> {}

} // verus!
