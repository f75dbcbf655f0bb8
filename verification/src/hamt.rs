//! A persistent hash map: a hash array mapped trie (HAMT).
//!
//! Each level of the trie consumes five bits of a key's 64-bit FNV-1a hash,
//! starting from the least significant bits. Branch nodes hold only the
//! children that exist, indexed through a 32-bit bitmap; keys whose whole
//! hashes are equal share a collision node. Updates copy the path to the
//! change and share everything else with the old map.

use std::rc::Rc;
use vstd::prelude::*;
use vstd::arithmetic::power2::{pow2, lemma_pow2_adds, lemma_pow2_pos, lemma2_to64, lemma_pow2_strictly_increases};
use vstd::arithmetic::div_mod::{lemma_mod_breakdown, lemma_mod_bound, lemma_small_mod, lemma_fundamental_div_mod};
use crate::fnv::{FnvHasher, fnv_hash};

verus! {

/// What the map needs of its keys: a hash and an equality that agree.
///
/// A key stands for its `key_id`; two keys are the same key exactly when
/// their ids are equal, and the hash depends on the id alone.
pub trait HamtKey: Sized {
    /// The identity of a key.
    type Id;

    /// The identity of this key.
    spec fn key_id(&self) -> Self::Id;

    /// The hash of every key with this identity.
    spec fn id_hash(id: Self::Id) -> u64;

    /// The key's hash.
    fn hash_key(&self) -> (h: u64)
        ensures
            h == Self::id_hash(self.key_id()),
    ;

    /// Whether two keys are the same key.
    fn same_key(&self, other: &Self) -> (b: bool)
        ensures
            b == (self.key_id() == other.key_id()),
    ;
}

/// One key-value entry with its key's hash.
#[derive(Debug)]
pub struct Entry<K, V> {
    /// Hash of the key.
    pub hash: u64,
    /// The key.
    pub key: K,
    /// The value.
    pub value: V,
}

/// A trie node.
#[derive(Debug)]
pub enum Node<K, V> {
    /// Children for the set bits of `bitmap`, in bit order.
    Branch { bitmap: u32, children: Rc<Vec<Child<K, V>>> },
    /// Entries whose keys share one hash.
    Collision { hash: u64, entries: Rc<Vec<Rc<Entry<K, V>>>> },
}

/// A child of a branch node.
#[derive(Debug)]
pub enum Child<K, V> {
    /// A single entry.
    Leaf(Rc<Entry<K, V>>),
    /// A sub-trie.
    Sub(Rc<Node<K, V>>),
}

// ---------------------------------------------------------------------------
// Hash bits
// ---------------------------------------------------------------------------

/// The five hash bits that choose a child at `depth` (0 once the 64 bits
/// are used up).
pub open spec fn idx(h: u64, depth: nat) -> nat {
    if 5 * depth < 64 {
        (h as nat / pow2(5 * depth)) % 32
    } else {
        0
    }
}

/// The depth of a node's children: one more, up to the depth at which all
/// 64 hash bits are used.
pub open spec fn deeper(d: nat) -> nat {
    if d < 13 {
        d + 1
    } else {
        13
    }
}

/// The hash bits consumed above `depth`.
pub open spec fn low(h: u64, depth: nat) -> nat {
    h as nat % pow2(5 * depth)
}

/// Whether bit `b` of a bitmap is set.
pub open spec fn bit_set(bm: u32, b: nat) -> bool {
    b < 32 && (bm >> (b as u32)) & 1u32 == 1u32
}

/// Number of set bits of `bm` below position `b`.
pub open spec fn rank(bm: u32, b: nat) -> nat
    decreases b,
{
    if b == 0 {
        0
    } else {
        rank(bm, (b - 1) as nat) + if bit_set(bm, (b - 1) as nat) {
            1nat
        } else {
            0nat
        }
    }
}

// ---------------------------------------------------------------------------
// Contents
// ---------------------------------------------------------------------------

/// The map held by a run of collision entries.
pub open spec fn entries_map<K: HamtKey, V>(es: Seq<Rc<Entry<K, V>>>) -> Map<K::Id, V>
    decreases es.len(),
{
    if es.len() == 0 {
        Map::empty()
    } else {
        entries_map(es.drop_last()).insert(es.last().key.key_id(), es.last().value)
    }
}

/// The map held by a node.
pub open spec fn node_map<K: HamtKey, V>(n: Node<K, V>) -> Map<K::Id, V>
    decreases n,
{
    match n {
        Node::Branch { bitmap, children } => branch_map(bitmap, children@, 32),
        Node::Collision { hash, entries } => entries_map(entries@),
    }
}

/// The map held by the child for bitmap bit `b`.
pub open spec fn slot_map<K: HamtKey, V>(bm: u32, ch: Seq<Child<K, V>>, b: nat) -> Map<K::Id, V>
    decreases ch, 0nat,
{
    if bit_set(bm, b) && rank(bm, b) < ch.len() {
        match ch[rank(bm, b) as int] {
            Child::Leaf(e) => Map::empty().insert(e.key.key_id(), e.value),
            Child::Sub(n) => node_map(*n),
        }
    } else {
        Map::empty()
    }
}

/// The union of the maps of the children for bits below `k`.
pub open spec fn branch_map<K: HamtKey, V>(bm: u32, ch: Seq<Child<K, V>>, k: nat) -> Map<K::Id, V>
    decreases ch, k,
{
    if k == 0 {
        Map::empty()
    } else {
        branch_map(bm, ch, (k - 1) as nat).union_prefer_right(slot_map(bm, ch, (k - 1) as nat))
    }
}

// ---------------------------------------------------------------------------
// Well-formedness
// ---------------------------------------------------------------------------

/// Every entry's hash is the hash of its key.
pub open spec fn entry_ok<K: HamtKey, V>(e: Entry<K, V>) -> bool {
    e.hash == K::id_hash(e.key.key_id())
}

/// A collision run: at least one entry, all with hash `h`, distinct keys.
pub open spec fn entries_ok<K: HamtKey, V>(es: Seq<Rc<Entry<K, V>>>, h: u64) -> bool {
    &&& es.len() >= 1
    &&& forall|i: int| 0 <= i < es.len() ==> #[trigger] es[i].hash == h && entry_ok(*es[i])
    &&& forall|i: int, j: int|
        0 <= i < j < es.len() ==> #[trigger] es[i].key.key_id() != #[trigger] es[j].key.key_id()
}

/// `n` is a trie node at `depth` whose entries' hashes all have the low
/// bits `prefix`; each child sits under the bit its hashes choose.
pub open spec fn wf_node<K: HamtKey, V>(n: Node<K, V>, depth: nat, prefix: nat) -> bool
    decreases n,
{
    &&& prefix < pow2(5 * depth)
    &&& match n {
        Node::Branch { bitmap, children } => {
            &&& bitmap != 0
            &&& children@.len() == rank(bitmap, 32)
            &&& forall|b: nat| b < 32 && #[trigger] bit_set(bitmap, b) ==> child_ok(
                children@,
                rank(bitmap, b),
                depth,
                prefix,
                b,
            )
        },
        Node::Collision { hash, entries } => {
            &&& low(hash, depth) == prefix
            &&& entries_ok(entries@, hash)
        },
    }
}

/// The child at compact position `r` is well formed for bit `b`.
pub open spec fn child_ok<K: HamtKey, V>(ch: Seq<Child<K, V>>, r: nat, depth: nat, prefix: nat, b: nat) -> bool
    decreases ch, 0nat,
{
    r < ch.len() && match ch[r as int] {
        Child::Leaf(e) => entry_ok(*e) && low(e.hash, depth) == prefix && idx(e.hash, depth) == b,
        Child::Sub(n) => {
            &&& (5 * depth >= 64 ==> b == 0)
            &&& wf_node(*n, deeper(depth), prefix + b * pow2(5 * depth))
        },
    }
}


// ---------------------------------------------------------------------------
// Hash-bit arithmetic
// ---------------------------------------------------------------------------

proof fn lemma_pow2_64()
    ensures
        pow2(64) == 0x1_0000_0000_0000_0000,
        pow2(5) == 32,
{
    lemma2_to64();
    vstd::arithmetic::power2::lemma2_to64_rest();
}

/// Consuming one more level of hash bits.
proof fn lemma_low_step(h: u64, d: nat)
    ensures
        idx(h, d) < 32,
        low(h, d) < pow2(5 * d),
        pow2(5 * d) > 0,
        low(h, d + 1) == low(h, d) + idx(h, d) * pow2(5 * d),
        5 * d >= 64 ==> low(h, d) == h,
{
    lemma_pow2_pos(5 * d);
    lemma_pow2_64();
    lemma_mod_bound(h as int, pow2(5 * d) as int);
    assert(5 * (d + 1) == 5 * d + 5);
    lemma_pow2_adds(5 * d, 5);
    if 5 * d < 64 {
        lemma_mod_breakdown(h as int, pow2(5 * d) as int, 32);
        lemma_mod_bound((h as nat / pow2(5 * d)) as int, 32);
        assert(pow2(5 * d) * 32 == pow2(5 * d + 5));
        vstd::arithmetic::mul::lemma_mul_is_commutative(idx(h, d) as int, pow2(5 * d) as int);
    } else {
        if 5 * d > 64 {
            lemma_pow2_strictly_increases(64, 5 * d);
        }
        lemma_pow2_strictly_increases(64, 5 * d + 5);
        lemma_small_mod(h as nat, pow2(5 * d));
        lemma_small_mod(h as nat, pow2(5 * d + 5));
    }
}

/// The low bits one level further down.
proof fn lemma_deeper(h: u64, d: nat)
    ensures
        low(h, deeper(d)) == low(h, d) + idx(h, d) * pow2(5 * d),
        low(h, deeper(d)) < pow2(5 * deeper(d)),
        5 * d >= 64 ==> idx(h, d) == 0,
{
    lemma_low_step(h, d);
    lemma_low_step(h, deeper(d));
    if d >= 13 {
        lemma_low_step(h, 13);
    }
}

/// The low bits and the next five bits of a hash are determined by its low
/// bits one level further down.
proof fn lemma_prefix_split(h: u64, d: nat, p: nat, b: nat)
    requires
        p < pow2(5 * d),
        b < 32,
        low(h, deeper(d)) == p + b * pow2(5 * d),
        5 * d >= 64 ==> b == 0,
    ensures
        low(h, d) == p,
        idx(h, d) == b,
{
    lemma_low_step(h, d);
    lemma_deeper(h, d);
    let m = pow2(5 * d) as int;
    let x = low(h, deeper(d)) as int;
    vstd::arithmetic::div_mod::lemma_fundamental_div_mod_converse(x, m, b as int, p as int);
    vstd::arithmetic::div_mod::lemma_fundamental_div_mod_converse(
        x,
        m,
        idx(h, d) as int,
        low(h, d) as int,
    );
}

// ---------------------------------------------------------------------------
// Bitmaps
// ---------------------------------------------------------------------------

proof fn lemma_bit_facts(bm: u32, b: u32, i: u32)
    by (bit_vector)
    requires
        b < 32,
        i < 32,
    ensures
        ((bm & (1u32 << b)) != 0) == ((bm >> b) & 1u32 == 1u32),
        ((bm | (1u32 << b)) >> i) & 1u32 == 1u32 <==> ((bm >> i) & 1u32 == 1u32 || i == b),
        (bm >> b) & 1u32 == 1u32 ==> (((bm ^ (1u32 << b)) >> i) & 1u32 == 1u32 <==> ((bm >> i)
            & 1u32 == 1u32 && i != b)),
        ((1u32 << b) >> i) & 1u32 == 1u32 <==> i == b,
        (0u32 >> i) & 1u32 != 1u32,
{
}

proof fn lemma_two_bits(b1: u32, b2: u32, i: u32)
    by (bit_vector)
    requires
        b1 < 32,
        b2 < 32,
        i < 32,
    ensures
        (((1u32 << b1) | (1u32 << b2)) >> i) & 1u32 == 1u32 <==> (i == b1 || i == b2),
{
}

/// Rank counts set bits, so it grows by one past each set bit.
proof fn lemma_rank_mono(bm: u32, a: nat, b: nat)
    requires
        a <= b,
    ensures
        rank(bm, a) <= rank(bm, b),
        rank(bm, b) <= rank(bm, a) + (b - a),
        a < b && bit_set(bm, a) ==> rank(bm, a) < rank(bm, b),
    decreases b - a,
{
    if a < b {
        lemma_rank_mono(bm, a, (b - 1) as nat);
        if a + 1 == b {
        } else {
            lemma_rank_mono(bm, a, (a + 1) as nat);
            lemma_rank_mono(bm, (a + 1) as nat, (b - 1) as nat);
        }
    }
}

/// Setting a clear bit shifts the ranks above it by one.
proof fn lemma_rank_set(bm: u32, bm2: u32, b0: nat, j: nat)
    requires
        b0 < 32,
        !bit_set(bm, b0),
        forall|i: nat| i < 32 ==> #[trigger] bit_set(bm2, i) == (bit_set(bm, i) || i == b0),
        j <= 32,
    ensures
        rank(bm2, j) == rank(bm, j) + if j > b0 {
            1nat
        } else {
            0nat
        },
    decreases j,
{
    if j > 0 {
        lemma_rank_set(bm, bm2, b0, (j - 1) as nat);
    }
}

/// Clearing a set bit shifts the ranks above it back by one.
proof fn lemma_rank_clear(bm: u32, bm2: u32, b0: nat, j: nat)
    requires
        b0 < 32,
        bit_set(bm, b0),
        forall|i: nat| i < 32 ==> #[trigger] bit_set(bm2, i) == (bit_set(bm, i) && i != b0),
        j <= 32,
    ensures
        rank(bm, j) == rank(bm2, j) + if j > b0 {
            1nat
        } else {
            0nat
        },
    decreases j,
{
    if j > 0 {
        lemma_rank_clear(bm, bm2, b0, (j - 1) as nat);
    }
}

/// Bitmaps agreeing on all 32 bits have the same ranks.
proof fn lemma_rank_same(bm: u32, bm2: u32, j: nat)
    requires
        forall|i: nat| i < 32 ==> #[trigger] bit_set(bm2, i) == bit_set(bm, i),
        j <= 32,
    ensures
        rank(bm2, j) == rank(bm, j),
    decreases j,
{
    if j > 0 {
        lemma_rank_same(bm, bm2, (j - 1) as nat);
    }
}

/// The five hash bits used at `depth`.
fn index_at_depth(hash: u64, depth: u32) -> (r: u32)
    ensures
        r == idx(hash, depth as nat),
        r < 32,
{
    if depth < 13 {
        let shift = (depth * 5) as u64;
        let shifted = hash >> shift;
        proof {
            vstd::bits::lemma_u64_shr_is_div(hash, shift);
            vstd::bits::lemma_u64_low_bits_mask_is_mod(shifted, 5);
            vstd::bits::lemma_low_bits_mask_values();
            lemma_pow2_64();
            lemma_mod_bound(shifted as int, 32);
        }
        (shifted & 31) as u32
    } else {
        0
    }
}

/// Whether bit `b` of `bm` is set.
fn test_bit(bm: u32, b: u32) -> (r: bool)
    requires
        b < 32,
    ensures
        r == bit_set(bm, b as nat),
{
    proof {
        lemma_bit_facts(bm, b, 0);
    }
    (bm & (1u32 << b)) != 0
}

/// Position among the children of the child for bit `b`: the number of
/// set bits below it.
fn bitmap_to_index(bitmap: u32, bit: u32) -> (r: usize)
    requires
        bit < 32,
    ensures
        r == rank(bitmap, bit as nat),
{
    let mut count: usize = 0;
    let mut i: u32 = 0;
    while i < bit
        invariant
            i <= bit,
            bit < 32,
            count == rank(bitmap, i as nat),
            count <= i,
        decreases bit - i,
    {
        if test_bit(bitmap, i) {
            count = count + 1;
        }
        i = i + 1;
    }
    count
}

// ---------------------------------------------------------------------------
// Contents lemmas
// ---------------------------------------------------------------------------

/// Every id held by the child for a bit is routed to that bit.
pub open spec fn routed<K: HamtKey, V>(bm: u32, ch: Seq<Child<K, V>>, depth: nat) -> bool {
    forall|b: nat, x: K::Id|
        b < 32 && #[trigger] slot_map(bm, ch, b).dom().contains(x) ==> idx(K::id_hash(x), depth)
            == b
}

/// The node behind a shared pointer.
#[verifier::inline]
pub open spec fn deref_node<K, V>(r: Rc<Node<K, V>>) -> Node<K, V> {
    *r
}

/// The entry behind a shared pointer.
#[verifier::inline]
pub open spec fn deref_entry<K, V>(r: Rc<Entry<K, V>>) -> Entry<K, V> {
    *r
}

/// The map of a child.
pub open spec fn child_map<K: HamtKey, V>(c: Child<K, V>) -> Map<K::Id, V> {
    match c {
        Child::Leaf(e) => Map::empty().insert(e.key.key_id(), e.value),
        Child::Sub(n) => node_map(*n),
    }
}

proof fn lemma_slot_is_child<K: HamtKey, V>(bm: u32, ch: Seq<Child<K, V>>, b: nat)
    requires
        bit_set(bm, b),
        rank(bm, b) < ch.len(),
    ensures
        slot_map(bm, ch, b) == child_map(ch[rank(bm, b) as int]),
{
}

/// An id held by the first `k` slots is held by one of them.
proof fn lemma_branch_some<K: HamtKey, V>(bm: u32, ch: Seq<Child<K, V>>, k: nat, x: K::Id)
    requires
        branch_map(bm, ch, k).dom().contains(x),
    ensures
        exists|b: nat| b < k && #[trigger] slot_map(bm, ch, b).dom().contains(x),
    decreases k,
{
    if k > 0 {
        if slot_map(bm, ch, (k - 1) as nat).dom().contains(x) {
        } else {
            lemma_branch_some(bm, ch, (k - 1) as nat, x);
        }
    }
}

/// Where an id lives in a routed branch: only in the slot of its bit.
proof fn lemma_branch_lookup<K: HamtKey, V>(bm: u32, ch: Seq<Child<K, V>>, depth: nat, k: nat, x: K::Id)
    requires
        routed(bm, ch, depth),
        k <= 32,
    ensures
        branch_map(bm, ch, k).dom().contains(x) == (idx(K::id_hash(x), depth) < k && slot_map(
            bm,
            ch,
            idx(K::id_hash(x), depth),
        ).dom().contains(x)),
        branch_map(bm, ch, k).dom().contains(x) ==> branch_map(bm, ch, k)[x] == slot_map(
            bm,
            ch,
            idx(K::id_hash(x), depth),
        )[x],
    decreases k,
{
    if k > 0 {
        lemma_branch_lookup(bm, ch, depth, (k - 1) as nat, x);
        if slot_map(bm, ch, (k - 1) as nat).dom().contains(x) {
            assert(idx(K::id_hash(x), depth) == k - 1);
        }
    }
}

/// Ids held by a collision run are those of its entries.
proof fn lemma_entries_contains<K: HamtKey, V>(es: Seq<Rc<Entry<K, V>>>, x: K::Id)
    ensures
        entries_map(es).dom().contains(x) == exists|i: int| 0 <= i < es.len() && #[trigger] es[i].key.key_id() == x,
        entries_map(es).dom().finite(),
    decreases es.len(),
{
    if es.len() > 0 {
        lemma_entries_contains(es.drop_last(), x);
        if entries_map(es.drop_last()).dom().contains(x) {
            let i = choose|i: int| 0 <= i < es.drop_last().len() && #[trigger] es.drop_last()[i].key.key_id() == x;
            assert(es[i].key.key_id() == x);
        }
        if exists|i: int| 0 <= i < es.len() && #[trigger] es[i].key.key_id() == x {
            let i = choose|i: int| 0 <= i < es.len() && #[trigger] es[i].key.key_id() == x;
            if i < es.len() - 1 {
                assert(es.drop_last()[i].key.key_id() == x);
            }
        }
    }
}

/// With distinct keys, a collision run maps each entry's key to its value
/// and holds as many ids as entries.
proof fn lemma_entries_value<K: HamtKey, V>(es: Seq<Rc<Entry<K, V>>>, i: int)
    requires
        0 <= i < es.len(),
        forall|a: int, b: int|
            0 <= a < b < es.len() ==> #[trigger] es[a].key.key_id() != #[trigger] es[b].key.key_id(),
    ensures
        entries_map(es).dom().contains(es[i].key.key_id()),
        entries_map(es)[es[i].key.key_id()] == es[i].value,
    decreases es.len(),
{
    if i < es.len() - 1 {
        lemma_entries_value(es.drop_last(), i);
        assert(es[i].key.key_id() != es.last().key.key_id());
    }
}

proof fn lemma_entries_len<K: HamtKey, V>(es: Seq<Rc<Entry<K, V>>>)
    requires
        forall|a: int, b: int|
            0 <= a < b < es.len() ==> #[trigger] es[a].key.key_id() != #[trigger] es[b].key.key_id(),
    ensures
        entries_map(es).dom().finite(),
        entries_map(es).len() == es.len(),
    decreases es.len(),
{
    if es.len() > 0 {
        lemma_entries_len(es.drop_last());
        lemma_entries_contains(es.drop_last(), es.last().key.key_id());
        if entries_map(es.drop_last()).dom().contains(es.last().key.key_id()) {
            let i = choose|i: int| 0 <= i < es.drop_last().len() && #[trigger] es.drop_last()[i].key.key_id() == es.last().key.key_id();
            assert(es[i].key.key_id() == es[es.len() - 1].key.key_id());
        }
    }
}

/// Every id held by a well-formed node has a hash with the node's prefix.
proof fn lemma_node_prefix<K: HamtKey, V>(n: Node<K, V>, depth: nat, prefix: nat, x: K::Id)
    requires
        wf_node(n, depth, prefix),
        node_map(n).dom().contains(x),
    ensures
        low(K::id_hash(x), depth) == prefix,
    decreases n,
{
    match n {
        Node::Branch { bitmap, children } => {
            lemma_branch_some(bitmap, children@, 32, x);
            let b = choose|b: nat| b < 32 && #[trigger] slot_map(bitmap, children@, b).dom().contains(x);
            assert(bit_set(bitmap, b));
            assert(children@.len() == rank(bitmap, 32));
            assert(child_ok(children@, rank(bitmap, b), depth, prefix, b));
            match children@[rank(bitmap, b) as int] {
                Child::Leaf(e) => {},
                Child::Sub(sub) => {
                    lemma_node_prefix(deref_node(sub), deeper(depth), prefix + b * pow2(5 * depth), x);
                    lemma_prefix_split(K::id_hash(x), depth, prefix, b);
                },
            }
        },
        Node::Collision { hash, entries } => {
            lemma_entries_contains(entries@, x);
            let i = choose|i: int| 0 <= i < entries@.len() && #[trigger] entries@[i].key.key_id() == x;
            assert(entries@[i].hash == hash && entry_ok(*entries@[i]));
        },
    }
}

/// A bitmap with a set bit is nonzero.
proof fn lemma_set_nonzero(bm: u32, b: nat)
    requires
        bit_set(bm, b),
    ensures
        bm != 0,
{
    lemma_bit_facts(bm, b as u32, b as u32);
}

/// A nonzero bitmap has a set bit.
proof fn lemma_some_bit(bm: u32)
    requires
        bm != 0,
    ensures
        exists|b: nat| b < 32 && #[trigger] bit_set(bm, b),
{
    assert((bm >> 0u32) & 1u32 == 1u32 || (bm >> 1u32) & 1u32 == 1u32 || (bm >> 2u32) & 1u32 == 1u32 || (bm >> 3u32) & 1u32 == 1u32 || (bm >> 4u32) & 1u32 == 1u32 || (bm >> 5u32) & 1u32 == 1u32 || (bm >> 6u32) & 1u32 == 1u32 || (bm >> 7u32) & 1u32 == 1u32 || (bm >> 8u32) & 1u32 == 1u32 || (bm >> 9u32) & 1u32 == 1u32 || (bm >> 10u32) & 1u32 == 1u32 || (bm >> 11u32) & 1u32 == 1u32 || (bm >> 12u32) & 1u32 == 1u32 || (bm >> 13u32) & 1u32 == 1u32 || (bm >> 14u32) & 1u32 == 1u32 || (bm >> 15u32) & 1u32 == 1u32 || (bm >> 16u32) & 1u32 == 1u32 || (bm >> 17u32) & 1u32 == 1u32 || (bm >> 18u32) & 1u32 == 1u32 || (bm >> 19u32) & 1u32 == 1u32 || (bm >> 20u32) & 1u32 == 1u32 || (bm >> 21u32) & 1u32 == 1u32 || (bm >> 22u32) & 1u32 == 1u32 || (bm >> 23u32) & 1u32 == 1u32 || (bm >> 24u32) & 1u32 == 1u32 || (bm >> 25u32) & 1u32 == 1u32 || (bm >> 26u32) & 1u32 == 1u32 || (bm >> 27u32) & 1u32 == 1u32 || (bm >> 28u32) & 1u32 == 1u32 || (bm >> 29u32) & 1u32 == 1u32 || (bm >> 30u32) & 1u32 == 1u32 || (bm >> 31u32) & 1u32 == 1u32) by (bit_vector)
        requires
            bm != 0,
    ;
    if (bm >> 0u32) & 1u32 == 1u32 {
        assert(bit_set(bm, 0nat));
    }
    if (bm >> 1u32) & 1u32 == 1u32 {
        assert(bit_set(bm, 1nat));
    }
    if (bm >> 2u32) & 1u32 == 1u32 {
        assert(bit_set(bm, 2nat));
    }
    if (bm >> 3u32) & 1u32 == 1u32 {
        assert(bit_set(bm, 3nat));
    }
    if (bm >> 4u32) & 1u32 == 1u32 {
        assert(bit_set(bm, 4nat));
    }
    if (bm >> 5u32) & 1u32 == 1u32 {
        assert(bit_set(bm, 5nat));
    }
    if (bm >> 6u32) & 1u32 == 1u32 {
        assert(bit_set(bm, 6nat));
    }
    if (bm >> 7u32) & 1u32 == 1u32 {
        assert(bit_set(bm, 7nat));
    }
    if (bm >> 8u32) & 1u32 == 1u32 {
        assert(bit_set(bm, 8nat));
    }
    if (bm >> 9u32) & 1u32 == 1u32 {
        assert(bit_set(bm, 9nat));
    }
    if (bm >> 10u32) & 1u32 == 1u32 {
        assert(bit_set(bm, 10nat));
    }
    if (bm >> 11u32) & 1u32 == 1u32 {
        assert(bit_set(bm, 11nat));
    }
    if (bm >> 12u32) & 1u32 == 1u32 {
        assert(bit_set(bm, 12nat));
    }
    if (bm >> 13u32) & 1u32 == 1u32 {
        assert(bit_set(bm, 13nat));
    }
    if (bm >> 14u32) & 1u32 == 1u32 {
        assert(bit_set(bm, 14nat));
    }
    if (bm >> 15u32) & 1u32 == 1u32 {
        assert(bit_set(bm, 15nat));
    }
    if (bm >> 16u32) & 1u32 == 1u32 {
        assert(bit_set(bm, 16nat));
    }
    if (bm >> 17u32) & 1u32 == 1u32 {
        assert(bit_set(bm, 17nat));
    }
    if (bm >> 18u32) & 1u32 == 1u32 {
        assert(bit_set(bm, 18nat));
    }
    if (bm >> 19u32) & 1u32 == 1u32 {
        assert(bit_set(bm, 19nat));
    }
    if (bm >> 20u32) & 1u32 == 1u32 {
        assert(bit_set(bm, 20nat));
    }
    if (bm >> 21u32) & 1u32 == 1u32 {
        assert(bit_set(bm, 21nat));
    }
    if (bm >> 22u32) & 1u32 == 1u32 {
        assert(bit_set(bm, 22nat));
    }
    if (bm >> 23u32) & 1u32 == 1u32 {
        assert(bit_set(bm, 23nat));
    }
    if (bm >> 24u32) & 1u32 == 1u32 {
        assert(bit_set(bm, 24nat));
    }
    if (bm >> 25u32) & 1u32 == 1u32 {
        assert(bit_set(bm, 25nat));
    }
    if (bm >> 26u32) & 1u32 == 1u32 {
        assert(bit_set(bm, 26nat));
    }
    if (bm >> 27u32) & 1u32 == 1u32 {
        assert(bit_set(bm, 27nat));
    }
    if (bm >> 28u32) & 1u32 == 1u32 {
        assert(bit_set(bm, 28nat));
    }
    if (bm >> 29u32) & 1u32 == 1u32 {
        assert(bit_set(bm, 29nat));
    }
    if (bm >> 30u32) & 1u32 == 1u32 {
        assert(bit_set(bm, 30nat));
    }
    if (bm >> 31u32) & 1u32 == 1u32 {
        assert(bit_set(bm, 31nat));
    }
}

/// A well-formed node holds at least one entry.
proof fn lemma_nonempty<K: HamtKey, V>(n: Node<K, V>, depth: nat, prefix: nat)
    requires
        wf_node(n, depth, prefix),
    ensures
        exists|y: K::Id| #[trigger] node_map(n).dom().contains(y),
        node_map(n) != Map::<K::Id, V>::empty(),
    decreases n,
{
    match n {
        Node::Branch { bitmap, children } => {
            lemma_some_bit(bitmap);
            let b = choose|b: nat| b < 32 && #[trigger] bit_set(bitmap, b);
            let ch = children@;
            assert(child_ok(ch, rank(bitmap, b), depth, prefix, b));
            lemma_rank_mono(bitmap, b, 32);
            lemma_slot_is_child(bitmap, ch, b);
            lemma_branch_routed(bitmap, ch, depth, prefix);
            let y = match ch[rank(bitmap, b) as int] {
                Child::Leaf(e) => e.key.key_id(),
                Child::Sub(sub) => {
                    lemma_nonempty(deref_node(sub), deeper(depth), prefix + b * pow2(5 * depth));
                    choose|y: K::Id| #[trigger] node_map(deref_node(sub)).dom().contains(y)
                },
            };
            assert(slot_map(bitmap, ch, b).dom().contains(y));
            lemma_branch_lookup(bitmap, ch, depth, 32, y);
            assert(node_map(n).dom().contains(y));
        },
        Node::Collision { hash, entries } => {
            lemma_entries_contains(entries@, entries@[0].key.key_id());
            assert(node_map(n).dom().contains(entries@[0].key.key_id()));
        },
    }
}

/// The children of a well-formed branch are routed.
proof fn lemma_branch_routed<K: HamtKey, V>(bm: u32, ch: Seq<Child<K, V>>, depth: nat, prefix: nat)
    requires
        prefix < pow2(5 * depth),
        forall|b: nat| b < 32 && bit_set(bm, b) ==> #[trigger] child_ok(ch, rank(bm, b), depth, prefix, b),
    ensures
        routed(bm, ch, depth),
{
    assert forall|b: nat, x: K::Id| b < 32 && #[trigger] slot_map(bm, ch, b).dom().contains(x) implies idx(
        K::id_hash(x),
        depth,
    ) == b by {
        assert(bit_set(bm, b));
        assert(child_ok(ch, rank(bm, b), depth, prefix, b));
        match ch[rank(bm, b) as int] {
            Child::Leaf(e) => {},
            Child::Sub(sub) => {
                lemma_node_prefix(deref_node(sub), deeper(depth), prefix + b * pow2(5 * depth), x);
                lemma_prefix_split(K::id_hash(x), depth, prefix, b);
            },
        }
    }
}

/// A node holds finitely many ids.
proof fn lemma_node_finite<K: HamtKey, V>(n: Node<K, V>)
    ensures
        node_map(n).dom().finite(),
    decreases n,
{
    match n {
        Node::Branch { bitmap, children } => {
            lemma_branch_finite(bitmap, children@, 32);
        },
        Node::Collision { hash, entries } => {
            lemma_entries_contains(entries@, arbitrary());
        },
    }
}

proof fn lemma_branch_finite<K: HamtKey, V>(bm: u32, ch: Seq<Child<K, V>>, k: nat)
    ensures
        branch_map(bm, ch, k).dom().finite(),
    decreases ch, k,
{
    if k > 0 {
        lemma_branch_finite(bm, ch, (k - 1) as nat);
        let b = (k - 1) as nat;
        if bit_set(bm, b) && rank(bm, b) < ch.len() {
            match ch[rank(bm, b) as int] {
                Child::Leaf(e) => {
                    assert(Map::<K::Id, V>::empty().insert(e.key.key_id(), e.value).dom().finite());
                },
                Child::Sub(sub) => {
                    lemma_node_finite(deref_node(sub));
                },
            }
        }
        let m1 = branch_map(bm, ch, (k - 1) as nat);
        let m2 = slot_map(bm, ch, b);
        assert(branch_map(bm, ch, k).dom() =~= m1.dom().union(m2.dom()));
        vstd::set::axiom_set_union_finite(m1.dom(), m2.dom());
    }
}

/// Changing one slot of a routed branch changes the branch's map only at
/// the ids routed to that slot.
proof fn lemma_branch_change<K: HamtKey, V>(
    bm1: u32,
    ch1: Seq<Child<K, V>>,
    bm2: u32,
    ch2: Seq<Child<K, V>>,
    depth: nat,
    b0: nat,
)
    requires
        routed(bm1, ch1, depth),
        routed(bm2, ch2, depth),
        b0 < 32,
        forall|b: nat| b < 32 && b != b0 ==> #[trigger] slot_map(bm2, ch2, b) == slot_map(bm1, ch1, b),
    ensures
        forall|x: K::Id|
            #![trigger branch_map(bm2, ch2, 32).dom().contains(x)]
            idx(K::id_hash(x), depth) != b0 ==> (branch_map(bm2, ch2, 32).dom().contains(x)
                == branch_map(bm1, ch1, 32).dom().contains(x) && (branch_map(
                bm1,
                ch1,
                32,
            ).dom().contains(x) ==> branch_map(bm2, ch2, 32)[x] == branch_map(bm1, ch1, 32)[x])),
        forall|x: K::Id|
            #![trigger branch_map(bm2, ch2, 32).dom().contains(x)]
            idx(K::id_hash(x), depth) == b0 ==> (branch_map(bm2, ch2, 32).dom().contains(x)
                == slot_map(bm2, ch2, b0).dom().contains(x) && (slot_map(bm2, ch2, b0).dom().contains(x)
                ==> branch_map(bm2, ch2, 32)[x] == slot_map(bm2, ch2, b0)[x]))
            && (branch_map(bm1, ch1, 32).dom().contains(x) == slot_map(bm1, ch1, b0).dom().contains(x)
                && (slot_map(bm1, ch1, b0).dom().contains(x) ==> branch_map(bm1, ch1, 32)[x]
                == slot_map(bm1, ch1, b0)[x])),
{
    assert forall|x: K::Id| #![trigger branch_map(bm2, ch2, 32).dom().contains(x)]
        idx(K::id_hash(x), depth) != b0 implies (branch_map(bm2, ch2, 32).dom().contains(x)
        == branch_map(bm1, ch1, 32).dom().contains(x) && (branch_map(bm1, ch1, 32).dom().contains(x)
        ==> branch_map(bm2, ch2, 32)[x] == branch_map(bm1, ch1, 32)[x])) by {
        lemma_branch_lookup(bm1, ch1, depth, 32, x);
        lemma_branch_lookup(bm2, ch2, depth, 32, x);
        lemma_low_step(K::id_hash(x), depth);
        assert(slot_map(bm2, ch2, idx(K::id_hash(x), depth)) == slot_map(bm1, ch1, idx(K::id_hash(x), depth)));
    }
    assert forall|x: K::Id| #![trigger branch_map(bm2, ch2, 32).dom().contains(x)]
        idx(K::id_hash(x), depth) == b0 implies (branch_map(bm2, ch2, 32).dom().contains(x)
        == slot_map(bm2, ch2, b0).dom().contains(x) && (slot_map(bm2, ch2, b0).dom().contains(x)
        ==> branch_map(bm2, ch2, 32)[x] == slot_map(bm2, ch2, b0)[x]))
        && (branch_map(bm1, ch1, 32).dom().contains(x) == slot_map(bm1, ch1, b0).dom().contains(x)
        && (slot_map(bm1, ch1, b0).dom().contains(x) ==> branch_map(bm1, ch1, 32)[x]
        == slot_map(bm1, ch1, b0)[x])) by {
        lemma_branch_lookup(bm1, ch1, depth, 32, x);
        lemma_branch_lookup(bm2, ch2, depth, 32, x);
    }
}


// ---------------------------------------------------------------------------
// Updating one slot of a branch
// ---------------------------------------------------------------------------

/// The empty bitmap has no set bits below any position.
proof fn lemma_rank_zero(j: nat)
    ensures
        rank(0, j) == 0,
        forall|i: nat| !#[trigger] bit_set(0u32, i),
    decreases j,
{
    assert forall|i: nat| !#[trigger] bit_set(0u32, i) by {
        if i < 32 {
            lemma_bit_facts(0, 0, i as u32);
        }
    }
    if j > 0 {
        lemma_rank_zero((j - 1) as nat);
    }
}

/// The bits of `bm | (1 << b)`.
proof fn lemma_bits_or(bm: u32, b: u32)
    requires
        b < 32,
    ensures
        forall|i: nat| i < 32 ==> #[trigger] bit_set(bm | (1u32 << b), i) == (bit_set(bm, i) || i == b),
        bit_set(1u32 << b, b as nat),
        forall|i: nat| i < 32 ==> #[trigger] bit_set(1u32 << b, i) == (i == b),
{
    assert forall|i: nat| i < 32 implies #[trigger] bit_set(bm | (1u32 << b), i) == (bit_set(bm, i)
        || i == b) by {
        lemma_bit_facts(bm, b, i as u32);
    }
    assert forall|i: nat| i < 32 implies #[trigger] bit_set(1u32 << b, i) == (i == b) by {
        lemma_bit_facts(bm, b, i as u32);
    }
}

/// The bits of `bm ^ (1 << b)` when bit `b` is set.
proof fn lemma_bits_clear(bm: u32, b: u32)
    requires
        b < 32,
        bit_set(bm, b as nat),
    ensures
        forall|i: nat| i < 32 ==> #[trigger] bit_set(bm ^ (1u32 << b), i) == (bit_set(bm, i) && i != b),
{
    assert forall|i: nat| i < 32 implies #[trigger] bit_set(bm ^ (1u32 << b), i) == (bit_set(bm, i)
        && i != b) by {
        lemma_bit_facts(bm, b, i as u32);
    }
}

/// Children of two branches agree on every bit but `b0`.
pub open spec fn same_other_slots<K, V>(
    bm1: u32,
    ch1: Seq<Child<K, V>>,
    bm2: u32,
    ch2: Seq<Child<K, V>>,
    b0: nat,
) -> bool {
    forall|b: nat|
        b < 32 && b != b0 ==> (#[trigger] bit_set(bm2, b) == bit_set(bm1, b)) && (bit_set(bm1, b)
            ==> rank(bm2, b) < ch2.len() && rank(bm1, b) < ch1.len() && ch2[rank(bm2, b) as int]
            == ch1[rank(bm1, b) as int])
}

/// Inserting a child for a clear bit keeps the other children in place.
proof fn lemma_slots_insert<K, V>(
    bm1: u32,
    ch1: Seq<Child<K, V>>,
    b0: nat,
    c: Child<K, V>,
)
    requires
        b0 < 32,
        !bit_set(bm1, b0),
        ch1.len() == rank(bm1, 32),
    ensures
        ({
            let bm2 = bm1 | (1u32 << (b0 as u32));
            let ch2 = ch1.insert(rank(bm1, b0) as int, c);
            &&& same_other_slots(bm1, ch1, bm2, ch2, b0)
            &&& bit_set(bm2, b0)
            &&& rank(bm2, b0) == rank(bm1, b0)
            &&& ch2[rank(bm2, b0) as int] == c
            &&& ch2.len() == rank(bm2, 32)
        }),
{
    let bm2 = bm1 | (1u32 << (b0 as u32));
    let ch2 = ch1.insert(rank(bm1, b0) as int, c);
    lemma_bits_or(bm1, b0 as u32);
    lemma_rank_set(bm1, bm2, b0, 32);
    lemma_rank_set(bm1, bm2, b0, b0);
    lemma_rank_mono(bm1, b0, 32);
    assert forall|b: nat| b < 32 && b != b0 implies (#[trigger] bit_set(bm2, b) == bit_set(bm1, b))
        && (bit_set(bm1, b) ==> rank(bm2, b) < ch2.len() && rank(bm1, b) < ch1.len()
        && ch2[rank(bm2, b) as int] == ch1[rank(bm1, b) as int]) by {
        lemma_rank_set(bm1, bm2, b0, b);
        if bit_set(bm1, b) {
            lemma_rank_mono(bm1, b, 32);
            if b < b0 {
                lemma_rank_mono(bm1, b, b0);
            } else {
                lemma_rank_mono(bm1, b0, b);
            }
        }
    }
}

/// Removing the child for a set bit keeps the other children in place.
proof fn lemma_slots_remove<K, V>(bm1: u32, ch1: Seq<Child<K, V>>, b0: nat)
    requires
        b0 < 32,
        bit_set(bm1, b0),
        ch1.len() == rank(bm1, 32),
    ensures
        ({
            let bm2 = bm1 ^ (1u32 << (b0 as u32));
            let ch2 = ch1.remove(rank(bm1, b0) as int);
            &&& same_other_slots(bm1, ch1, bm2, ch2, b0)
            &&& !bit_set(bm2, b0)
            &&& ch2.len() == rank(bm2, 32)
        }),
{
    let bm2 = bm1 ^ (1u32 << (b0 as u32));
    let ch2 = ch1.remove(rank(bm1, b0) as int);
    lemma_bits_clear(bm1, b0 as u32);
    lemma_rank_clear(bm1, bm2, b0, 32);
    lemma_rank_mono(bm1, b0, 32);
    assert forall|b: nat| b < 32 && b != b0 implies (#[trigger] bit_set(bm2, b) == bit_set(bm1, b))
        && (bit_set(bm1, b) ==> rank(bm2, b) < ch2.len() && rank(bm1, b) < ch1.len()
        && ch2[rank(bm2, b) as int] == ch1[rank(bm1, b) as int]) by {
        lemma_rank_clear(bm1, bm2, b0, b);
        if bit_set(bm1, b) {
            lemma_rank_mono(bm1, b, 32);
            if b < b0 {
                lemma_rank_mono(bm1, b, b0);
            } else {
                lemma_rank_mono(bm1, b0, b);
            }
        }
    }
}

/// Replacing the child for a set bit keeps the other children in place.
proof fn lemma_slots_update<K, V>(bm1: u32, ch1: Seq<Child<K, V>>, b0: nat, c: Child<K, V>)
    requires
        b0 < 32,
        bit_set(bm1, b0),
        ch1.len() == rank(bm1, 32),
    ensures
        ({
            let ch2 = ch1.update(rank(bm1, b0) as int, c);
            &&& same_other_slots(bm1, ch1, bm1, ch2, b0)
            &&& ch2.len() == rank(bm1, 32)
            &&& rank(bm1, b0) < ch2.len()
            &&& ch2[rank(bm1, b0) as int] == c
        }),
{
    let ch2 = ch1.update(rank(bm1, b0) as int, c);
    lemma_rank_mono(bm1, b0, 32);
    assert forall|b: nat| b < 32 && b != b0 implies (#[trigger] bit_set(bm1, b) == bit_set(bm1, b))
        && (bit_set(bm1, b) ==> rank(bm1, b) < ch2.len() && rank(bm1, b) < ch1.len()
        && ch2[rank(bm1, b) as int] == ch1[rank(bm1, b) as int]) by {
        if bit_set(bm1, b) {
            lemma_rank_mono(bm1, b, 32);
            if b < b0 {
                lemma_rank_mono(bm1, b, b0);
            } else {
                lemma_rank_mono(bm1, b0, b);
            }
        }
    }
}

/// With the other children in place, the other slots hold the same maps
/// and stay well formed.
proof fn lemma_other_slots<K: HamtKey, V>(
    bm1: u32,
    ch1: Seq<Child<K, V>>,
    bm2: u32,
    ch2: Seq<Child<K, V>>,
    b0: nat,
    depth: nat,
    prefix: nat,
)
    requires
        same_other_slots(bm1, ch1, bm2, ch2, b0),
        forall|b: nat| b < 32 && #[trigger] bit_set(bm1, b) ==> child_ok(ch1, rank(bm1, b), depth, prefix, b),
    ensures
        forall|b: nat| b < 32 && b != b0 ==> #[trigger] slot_map(bm2, ch2, b) == slot_map(bm1, ch1, b),
        forall|b: nat| b < 32 && b != b0 && #[trigger] bit_set(bm2, b) ==> child_ok(ch2, rank(bm2, b), depth, prefix, b),
{
    assert forall|b: nat| b < 32 && b != b0 implies #[trigger] slot_map(bm2, ch2, b) == slot_map(bm1, ch1, b) by {
        assert(bit_set(bm2, b) == bit_set(bm1, b));
    }
    assert forall|b: nat| b < 32 && b != b0 && #[trigger] bit_set(bm2, b) implies child_ok(ch2, rank(bm2, b), depth, prefix, b) by {
        assert(bit_set(bm2, b) == bit_set(bm1, b));
        assert(child_ok(ch1, rank(bm1, b), depth, prefix, b));
    }
}

/// A branch whose slot for `b0` changed by inserting or removing one id
/// routed there changed by the same insertion or removal.
proof fn lemma_branch_result<K: HamtKey, V>(
    bm1: u32,
    ch1: Seq<Child<K, V>>,
    bm2: u32,
    ch2: Seq<Child<K, V>>,
    depth: nat,
    b0: nat,
    x: K::Id,
    v: V,
    del: bool,
)
    requires
        routed(bm1, ch1, depth),
        routed(bm2, ch2, depth),
        b0 < 32,
        idx(K::id_hash(x), depth) == b0,
        forall|b: nat| b < 32 && b != b0 ==> #[trigger] slot_map(bm2, ch2, b) == slot_map(bm1, ch1, b),
        del ==> slot_map(bm2, ch2, b0) == slot_map(bm1, ch1, b0).remove(x),
        !del ==> slot_map(bm2, ch2, b0) == slot_map(bm1, ch1, b0).insert(x, v),
    ensures
        del ==> branch_map(bm2, ch2, 32) == branch_map(bm1, ch1, 32).remove(x),
        !del ==> branch_map(bm2, ch2, 32) == branch_map(bm1, ch1, 32).insert(x, v),
        branch_map(bm1, ch1, 32).dom().contains(x) == slot_map(bm1, ch1, b0).dom().contains(x),
{
    lemma_branch_change(bm1, ch1, bm2, ch2, depth, b0);
    lemma_branch_lookup(bm1, ch1, depth, 32, x);
    let m1 = branch_map(bm1, ch1, 32);
    let m2 = branch_map(bm2, ch2, 32);
    if del {
        assert forall|y: K::Id| #[trigger] m2.dom().contains(y) == m1.remove(x).dom().contains(y) by {
            lemma_branch_lookup(bm1, ch1, depth, 32, y);
            lemma_branch_lookup(bm2, ch2, depth, 32, y);
        }
        assert(m2 =~= m1.remove(x));
    } else {
        assert forall|y: K::Id| #[trigger] m2.dom().contains(y) == m1.insert(x, v).dom().contains(y) by {
            lemma_branch_lookup(bm1, ch1, depth, 32, y);
            lemma_branch_lookup(bm2, ch2, depth, 32, y);
        }
        assert(m2 =~= m1.insert(x, v));
    }
}


// ---------------------------------------------------------------------------
// Lookup
// ---------------------------------------------------------------------------

/// The depth of a node's children.
fn deeper_depth(depth: u32) -> (r: u32)
    requires
        depth <= 13,
    ensures
        r == deeper(depth as nat),
        r <= 13,
{
    if depth < 13 {
        depth + 1
    } else {
        13
    }
}

/// A copy of a branch's child handles (the children themselves are shared).
fn copy_children<K, V>(ch: &Vec<Child<K, V>>) -> (v: Vec<Child<K, V>>)
    ensures
        v@ == ch@,
{
    let mut v: Vec<Child<K, V>> = Vec::new();
    let mut i: usize = 0;
    while i < ch.len()
        invariant
            i <= ch@.len(),
            v@ == ch@.subrange(0, i as int),
        decreases ch@.len() - i,
    {
        match &ch[i] {
            Child::Leaf(e) => v.push(Child::Leaf(Rc::clone(e))),
            Child::Sub(n) => v.push(Child::Sub(Rc::clone(n))),
        }
        i = i + 1;
        assert(v@ =~= ch@.subrange(0, i as int));
    }
    assert(v@ =~= ch@);
    v
}

/// A copy of a collision run's entry handles.
fn copy_entries<K, V>(es: &Vec<Rc<Entry<K, V>>>) -> (v: Vec<Rc<Entry<K, V>>>)
    ensures
        v@ == es@,
{
    let mut v: Vec<Rc<Entry<K, V>>> = Vec::new();
    let mut i: usize = 0;
    while i < es.len()
        invariant
            i <= es@.len(),
            v@ == es@.subrange(0, i as int),
        decreases es@.len() - i,
    {
        v.push(Rc::clone(&es[i]));
        i = i + 1;
        assert(v@ =~= es@.subrange(0, i as int));
    }
    assert(v@ =~= es@);
    v
}

/// Finds the value for `key` in a node at `depth`.
fn get_rec<'a, K: HamtKey, V>(
    node: &'a Node<K, V>,
    key: &K,
    hash: u64,
    depth: u32,
    Ghost(prefix): Ghost<nat>,
) -> (r: Option<&'a V>)
    requires
        wf_node(*node, depth as nat, prefix),
        depth <= 13,
        hash == K::id_hash(key.key_id()),
    ensures
        r.is_some() == node_map(*node).dom().contains(key.key_id()),
        r.is_some() ==> *r.unwrap() == node_map(*node)[key.key_id()],
    decreases node,
{
    match node {
        Node::Branch { bitmap, children } => {
            let b = index_at_depth(hash, depth);
            proof {
                lemma_branch_routed(*bitmap, children@, depth as nat, prefix);
                lemma_branch_lookup(*bitmap, children@, depth as nat, 32, key.key_id());
            }
            if !test_bit(*bitmap, b) {
                return None;
            }
            let ci = bitmap_to_index(*bitmap, b);
            proof {
                assert(child_ok(children@, rank(*bitmap, b as nat), depth as nat, prefix, b as nat));
            }
            match &children[ci] {
                Child::Leaf(e) => {
                    if e.key.same_key(key) {
                        Some(&e.value)
                    } else {
                        None
                    }
                },
                Child::Sub(sub) => {
                    let ghost p2: nat = prefix + (b as nat) * pow2(5 * depth as nat);
                    get_rec(&**sub, key, hash, deeper_depth(depth), Ghost(p2))
                },
            }
        },
        Node::Collision { hash: _, entries } => {
            let ghost es = entries@;
            let mut i: usize = 0;
            while i < entries.len()
                invariant
                    es == entries@,
                    node_map(*node) == entries_map(es),
                    i <= es.len(),
                    forall|a: int, c: int|
                        0 <= a < c < es.len() ==> #[trigger] es[a].key.key_id() != #[trigger] es[c].key.key_id(),
                    forall|j: int| 0 <= j < i ==> #[trigger] es[j].key.key_id() != key.key_id(),
                decreases es.len() - i,
            {
                if entries[i].key.same_key(key) {
                    proof {
                        lemma_entries_value(es, i as int);
                    }
                    return Some(&entries[i].value);
                }
                i = i + 1;
            }
            proof {
                lemma_entries_contains(es, key.key_id());
            }
            None
        },
    }
}


// ---------------------------------------------------------------------------
// Insertion
// ---------------------------------------------------------------------------

/// A child all of whose entries have hash `h`: a leaf, or a collision node.
pub open spec fn holds_hash<K: HamtKey, V>(c: Child<K, V>, h: u64) -> bool {
    match c {
        Child::Leaf(e) => entry_ok(*e) && e.hash == h,
        Child::Sub(n) => match *n {
            Node::Collision { hash, entries } => hash == h && entries_ok(entries@, h),
            Node::Branch { .. } => false,
        },
    }
}

/// A child whose entries all have hash `h` fits wherever `h` is routed.
proof fn lemma_holds_hash<K: HamtKey, V>(c: Child<K, V>, h: u64, d: nat, p: nat, b: nat)
    requires
        holds_hash(c, h),
        low(h, d) == p,
        idx(h, d) == b,
    ensures
        child_ok(seq![c], 0, d, p, b),
        forall|x: K::Id| #[trigger] child_map(c).dom().contains(x) ==> K::id_hash(x) == h,
        child_map(c).dom().finite(),
{
    lemma_deeper(h, d);
    lemma_low_step(h, d);
    assert(seq![c][0] == c);
    match c {
        Child::Leaf(e) => {
            assert(child_map(c).dom() =~= set![e.key.key_id()]);
        },
        Child::Sub(n) => {
            match *n {
                Node::Collision { hash, entries } => {
                    assert forall|x: K::Id| #[trigger] child_map(c).dom().contains(x) implies K::id_hash(x) == h by {
                        lemma_entries_contains(entries@, x);
                        let i = choose|i: int| 0 <= i < entries@.len() && #[trigger] entries@[i].key.key_id() == x;
                        assert(entries@[i].hash == h && entry_ok(*entries@[i]));
                    }
                    lemma_entries_contains(entries@, arbitrary());
                },
                Node::Branch { .. } => {},
            }
        },
    }
}

/// A well-formed branch whose slots hold exactly the entries of `m`,
/// each under the bit its hash chooses, holds `m`.
proof fn lemma_branch_is<K: HamtKey, V>(bm: u32, ch: Seq<Child<K, V>>, d: nat, p: nat, m: Map<K::Id, V>)
    requires
        p < pow2(5 * d),
        forall|b: nat| b < 32 && #[trigger] bit_set(bm, b) ==> child_ok(ch, rank(bm, b), d, p, b),
        forall|y: K::Id| #[trigger] m.dom().contains(y) ==> slot_map(bm, ch, idx(K::id_hash(y), d)).dom().contains(y)
            && slot_map(bm, ch, idx(K::id_hash(y), d))[y] == m[y],
        forall|b: nat, y: K::Id| b < 32 && #[trigger] slot_map(bm, ch, b).dom().contains(y) ==> m.dom().contains(y),
    ensures
        branch_map(bm, ch, 32) == m,
{
    lemma_branch_routed(bm, ch, d, p);
    assert forall|y: K::Id| #[trigger] branch_map(bm, ch, 32).dom().contains(y) == m.dom().contains(y) by {
        lemma_branch_lookup(bm, ch, d, 32, y);
        lemma_low_step(K::id_hash(y), d);
        if branch_map(bm, ch, 32).dom().contains(y) {
            assert(slot_map(bm, ch, idx(K::id_hash(y), d)).dom().contains(y));
        }
    }
    assert forall|y: K::Id| #[trigger] m.dom().contains(y) implies branch_map(bm, ch, 32)[y] == m[y] by {
        lemma_branch_lookup(bm, ch, d, 32, y);
        lemma_low_step(K::id_hash(y), d);
    }
    assert(branch_map(bm, ch, 32) =~= m);
}

/// Ranks in a bitmap with the single bit `b`.
proof fn lemma_one_bit(b: u32)
    requires
        b < 32,
    ensures
        forall|i: nat| i < 32 ==> #[trigger] bit_set(1u32 << b, i) == (i == b),
        forall|j: nat| j <= 32 ==> #[trigger] rank(1u32 << b, j) == if j > b { 1nat } else { 0nat },
{
    lemma_bits_or(0, b);
    lemma_rank_zero(32);
    assert forall|j: nat| j <= 32 implies #[trigger] rank(1u32 << b, j) == if j > b { 1nat } else { 0nat } by {
        lemma_rank_zero(j);
        lemma_rank_set(0, 1u32 << b, b as nat, j);
    }
}

/// Ranks in a bitmap with the two bits `lo < hi`.
proof fn lemma_two_bit_ranks(lo: u32, hi: u32, bm: u32)
    requires
        lo < hi < 32,
        bm == (1u32 << lo) | (1u32 << hi) || bm == (1u32 << hi) | (1u32 << lo),
    ensures
        forall|i: nat| i < 32 ==> #[trigger] bit_set(bm, i) == (i == lo || i == hi),
        rank(bm, lo as nat) == 0,
        rank(bm, hi as nat) == 1,
        rank(bm, 32) == 2,
{
    lemma_one_bit(lo);
    assert forall|i: nat| i < 32 implies #[trigger] bit_set(bm, i) == (i == lo || i == hi) by {
        lemma_two_bits(lo, hi, i as u32);
        lemma_two_bits(hi, lo, i as u32);
    }
    lemma_rank_set(1u32 << lo, bm, hi as nat, lo as nat);
    lemma_rank_set(1u32 << lo, bm, hi as nat, hi as nat);
    lemma_rank_set(1u32 << lo, bm, hi as nat, 32);
}

/// Replacing the entry for an id in a collision run.
proof fn lemma_entries_update<K: HamtKey, V>(es: Seq<Rc<Entry<K, V>>>, i: int, e: Rc<Entry<K, V>>)
    requires
        0 <= i < es.len(),
        es[i].key.key_id() == e.key.key_id(),
        forall|a: int, b: int|
            0 <= a < b < es.len() ==> #[trigger] es[a].key.key_id() != #[trigger] es[b].key.key_id(),
    ensures
        entries_map(es.update(i, e)) == entries_map(es).insert(e.key.key_id(), e.value),
    decreases es.len(),
{
    let es2 = es.update(i, e);
    if i == es.len() - 1 {
        assert(es2.drop_last() =~= es.drop_last());
        assert(entries_map(es2) =~= entries_map(es).insert(e.key.key_id(), e.value));
    } else {
        assert(es2.drop_last() =~= es.drop_last().update(i, e));
        lemma_entries_update(es.drop_last(), i, e);
        assert(es.last().key.key_id() != e.key.key_id());
        assert(entries_map(es2) =~= entries_map(es).insert(e.key.key_id(), e.value));
    }
}

/// Two children with different hashes, routed to one slot above `depth`,
/// as a sub-trie at `depth`.
fn merge_leaves<K: HamtKey, V>(
    c1: Child<K, V>,
    h1: u64,
    e2: Rc<Entry<K, V>>,
    depth: u32,
    Ghost(prefix): Ghost<nat>,
) -> (r: Node<K, V>)
    requires
        depth <= 13,
        holds_hash(c1, h1),
        entry_ok(*e2),
        e2.hash != h1,
        low(h1, depth as nat) == prefix,
        low(e2.hash, depth as nat) == prefix,
    ensures
        wf_node(r, depth as nat, prefix),
        node_map(r) == child_map(c1).insert(e2.key.key_id(), e2.value),
        !child_map(c1).dom().contains(e2.key.key_id()),
    decreases 13 - depth,
{
    let h2 = e2.hash;
    let ghost d = depth as nat;
    let ghost id2 = e2.key.key_id();
    let ghost m = child_map(c1).insert(id2, deref_entry(e2).value);
    proof {
        lemma_low_step(h1, d);
        lemma_low_step(h2, d);
        lemma_deeper(h1, d);
        lemma_deeper(h2, d);
        lemma_holds_hash(c1, h1, d, prefix, idx(h1, d));
        if d >= 13 {
            lemma_pow2_64();
            vstd::arithmetic::power2::lemma_pow2_strictly_increases(64, 5 * d);
            assert(false);
        }
    }
    let i1 = index_at_depth(h1, depth);
    let i2 = index_at_depth(h2, depth);
    if i1 == i2 {
        let ghost p2: nat = prefix + (i1 as nat) * pow2(5 * d);
        let sub = merge_leaves(c1, h1, e2, depth + 1, Ghost(p2));
        let bm = 1u32 << i1;
        let mut v: Vec<Child<K, V>> = Vec::new();
        v.push(Child::Sub(Rc::new(sub)));
        proof {
            lemma_one_bit(i1);
            let ch = v@;
            assert(ch[0] == Child::Sub(Rc::new(sub)));
            assert forall|b: nat| b < 32 && #[trigger] bit_set(bm, b) implies child_ok(ch, rank(bm, b), d, prefix, b) by {
                assert(b == i1);
            }
            assert forall|y: K::Id| #[trigger] m.dom().contains(y) implies slot_map(bm, ch, idx(K::id_hash(y), d)).dom().contains(y)
                && slot_map(bm, ch, idx(K::id_hash(y), d))[y] == m[y] by {
                lemma_node_prefix(sub, d + 1, p2, y);
                lemma_prefix_split(K::id_hash(y), d, prefix, i1 as nat);
                lemma_slot_is_child(bm, ch, i1 as nat);
            }
            assert forall|b: nat, y: K::Id| b < 32 && #[trigger] slot_map(bm, ch, b).dom().contains(y) implies m.dom().contains(y) by {
                if bit_set(bm, b) {
                    lemma_slot_is_child(bm, ch, b);
                }
            }
            lemma_set_nonzero(bm, i1 as nat);
            lemma_branch_is(bm, ch, d, prefix, m);
        }
        Node::Branch { bitmap: bm, children: Rc::new(v) }
    } else {
        let bm = (1u32 << i1) | (1u32 << i2);
        let leaf2 = Child::Leaf(e2);
        let mut v: Vec<Child<K, V>> = Vec::new();
        if i1 < i2 {
            v.push(c1);
            v.push(leaf2);
        } else {
            v.push(leaf2);
            v.push(c1);
        }
        proof {
            let ch = v@;
            if i1 < i2 {
                lemma_two_bit_ranks(i1, i2, bm);
            } else {
                lemma_two_bit_ranks(i2, i1, bm);
            }
            assert(ch[rank(bm, i1 as nat) as int] == c1);
            assert(ch[rank(bm, i2 as nat) as int] == leaf2);
            assert forall|b: nat| b < 32 && #[trigger] bit_set(bm, b) implies child_ok(ch, rank(bm, b), d, prefix, b) by {
                if b == i1 {
                    assert(seq![c1][0] == c1);
                }
            }
            lemma_slot_is_child(bm, ch, i1 as nat);
            lemma_slot_is_child(bm, ch, i2 as nat);
            assert forall|y: K::Id| #[trigger] m.dom().contains(y) implies slot_map(bm, ch, idx(K::id_hash(y), d)).dom().contains(y)
                && slot_map(bm, ch, idx(K::id_hash(y), d))[y] == m[y] by {
                if y != id2 {
                    assert(child_map(c1).dom().contains(y));
                    assert(K::id_hash(y) == h1);
                }
            }
            assert forall|b: nat, y: K::Id| b < 32 && #[trigger] slot_map(bm, ch, b).dom().contains(y) implies m.dom().contains(y) by {
                if bit_set(bm, b) {
                    lemma_slot_is_child(bm, ch, b);
                }
            }
            lemma_set_nonzero(bm, i1 as nat);
            lemma_branch_is(bm, ch, d, prefix, m);
        }
        Node::Branch { bitmap: bm, children: Rc::new(v) }
    }
}


/// Inserting at a slot that holds the single entry `e`: replace it, make
/// a collision node, or grow a sub-trie.
fn insert_at_leaf<K: HamtKey, V>(
    e: &Rc<Entry<K, V>>,
    key: K,
    value: V,
    hash: u64,
    depth: u32,
    Ghost(prefix): Ghost<nat>,
    Ghost(b): Ghost<nat>,
) -> (r: (Child<K, V>, bool))
    requires
        depth <= 13,
        entry_ok(**e),
        low(e.hash, depth as nat) == prefix,
        idx(e.hash, depth as nat) == b,
        hash == K::id_hash(key.key_id()),
        low(hash, depth as nat) == prefix,
        idx(hash, depth as nat) == b,
    ensures
        child_ok(seq![r.0], 0, depth as nat, prefix, b),
        child_map(r.0) == child_map(Child::Leaf(*e)).insert(key.key_id(), value),
        r.1 == (e.key.key_id() != key.key_id()),
{
    let ghost d = depth as nat;
    let ghost id = key.key_id();
    proof {
        lemma_deeper(hash, d);
        lemma_deeper(e.hash, d);
        lemma_low_step(hash, d);
    }
    if e.key.same_key(&key) {
        let c = Child::Leaf(Rc::new(Entry { hash, key, value }));
        proof {
            assert(seq![c][0] == c);
            assert(child_map(c) =~= child_map(Child::Leaf(*e)).insert(id, value));
        }
        (c, false)
    } else if e.hash == hash {
        let mut v: Vec<Rc<Entry<K, V>>> = Vec::new();
        v.push(Rc::clone(e));
        v.push(Rc::new(Entry { hash, key, value }));
        let ghost es = v@;
        let c = Child::Sub(Rc::new(Node::Collision { hash, entries: Rc::new(v) }));
        proof {
            assert(es.drop_last() =~= seq![*e]);
            assert(seq![*e].drop_last() =~= Seq::<Rc<Entry<K, V>>>::empty());
            assert(seq![*e].last() == *e);
            assert(entries_map(Seq::<Rc<Entry<K, V>>>::empty()) == Map::<K::Id, V>::empty());
            assert(entries_map(seq![*e]) =~= Map::<K::Id, V>::empty().insert(e.key.key_id(), e.value));
            assert(entries_map(es) == entries_map(seq![*e]).insert(id, value));
            assert(entries_ok(es, hash));
            assert(child_map(c) =~= child_map(Child::Leaf(*e)).insert(id, value));
            lemma_holds_hash(c, hash, d, prefix, b);
        }
        (c, true)
    } else {
        let ghost p2: nat = prefix + b * pow2(5 * d);
        let old_leaf = Child::Leaf(Rc::clone(e));
        let n = merge_leaves(old_leaf, e.hash, Rc::new(Entry { hash, key, value }), deeper_depth(depth), Ghost(p2));
        let c = Child::Sub(Rc::new(n));
        proof {
            assert(seq![c][0] == c);
        }
        (c, true)
    }
}

/// Inserting into a collision node: replace or add an entry of the same
/// hash; a key of another hash splits the node into a branch.
fn insert_into_collision<K: HamtKey, V>(
    coll_hash: u64,
    entries: &Rc<Vec<Rc<Entry<K, V>>>>,
    key: K,
    value: V,
    hash: u64,
    depth: u32,
    Ghost(prefix): Ghost<nat>,
) -> (r: (Node<K, V>, bool))
    requires
        depth <= 13,
        wf_node(Node::Collision { hash: coll_hash, entries: *entries }, depth as nat, prefix),
        hash == K::id_hash(key.key_id()),
        low(hash, depth as nat) == prefix,
    ensures
        wf_node(r.0, depth as nat, prefix),
        node_map(r.0) == entries_map(entries@).insert(key.key_id(), value),
        r.1 == !entries_map(entries@).dom().contains(key.key_id()),
{
    let ghost d = depth as nat;
    let ghost id = key.key_id();
    let ghost es = entries@;
    proof {
        lemma_entries_contains(es, id);
    }
    if hash == coll_hash {
        let mut pos: usize = 0;
        while pos < entries.len()
            invariant
                es == entries@,
                id == key.key_id(),
                pos <= es.len(),
                forall|j: int| 0 <= j < pos ==> #[trigger] es[j].key.key_id() != id,
            ensures
                pos < es.len() ==> es[pos as int].key.key_id() == id,
            decreases es.len() - pos,
        {
            if entries[pos].key.same_key(&key) {
                break;
            }
            pos = pos + 1;
        }
        let mut v = copy_entries(entries);
        let ne = Rc::new(Entry { hash, key, value });
        if pos < v.len() {
            v.set(pos, ne);
            let ghost es2 = v@;
            proof {
                lemma_entries_update(es, pos as int, ne);
                assert forall|i: int, j: int| 0 <= i < j < es2.len() implies #[trigger] es2[i].key.key_id()
                    != #[trigger] es2[j].key.key_id() by {
                    if i != pos && j != pos {
                        assert(es[i].key.key_id() != es[j].key.key_id());
                    } else if i == pos {
                        assert(es[i].key.key_id() != es[j].key.key_id());
                    } else {
                        assert(es[i].key.key_id() != es[j].key.key_id());
                    }
                }
                assert(entries_ok(es2, coll_hash));
            }
            (Node::Collision { hash: coll_hash, entries: Rc::new(v) }, false)
        } else {
            v.push(ne);
            let ghost es2 = v@;
            proof {
                assert(es2.drop_last() =~= es);
                assert forall|i: int, j: int| 0 <= i < j < es2.len() implies #[trigger] es2[i].key.key_id()
                    != #[trigger] es2[j].key.key_id() by {
                    if j < es.len() {
                        assert(es[i].key.key_id() != es[j].key.key_id());
                    }
                }
                assert(entries_ok(es2, coll_hash));
                if entries_map(es).dom().contains(id) {
                    let i = choose|i: int| 0 <= i < es.len() && #[trigger] es[i].key.key_id() == id;
                    assert(false);
                }
            }
            (Node::Collision { hash: coll_hash, entries: Rc::new(v) }, true)
        }
    } else {
        let c1 = Child::Sub(Rc::new(Node::Collision { hash: coll_hash, entries: Rc::clone(entries) }));
        let ne = Rc::new(Entry { hash, key, value });
        proof {
            if entries_map(es).dom().contains(id) {
                let i = choose|i: int| 0 <= i < es.len() && #[trigger] es[i].key.key_id() == id;
                assert(es[i].hash == coll_hash && entry_ok(*es[i]));
                assert(false);
            }
        }
        let n = merge_leaves(c1, coll_hash, ne, depth, Ghost(prefix));
        (n, true)
    }
}

/// Inserts into a node at `depth`, copying the path to the change.
fn insert_rec<K: HamtKey, V>(
    node: &Node<K, V>,
    key: K,
    value: V,
    hash: u64,
    depth: u32,
    Ghost(prefix): Ghost<nat>,
) -> (r: (Node<K, V>, bool))
    requires
        depth <= 13,
        wf_node(*node, depth as nat, prefix),
        hash == K::id_hash(key.key_id()),
        low(hash, depth as nat) == prefix,
    ensures
        wf_node(r.0, depth as nat, prefix),
        node_map(r.0) == node_map(*node).insert(key.key_id(), value),
        r.1 == !node_map(*node).dom().contains(key.key_id()),
    decreases node,
{
    match node {
        Node::Branch { bitmap, children } => insert_into_branch(*bitmap, children, key, value, hash, depth, Ghost(prefix)),
        Node::Collision { hash: coll_hash, entries } => insert_into_collision(*coll_hash, entries, key, value, hash, depth, Ghost(prefix)),
    }
}

/// Inserts into a branch node: a new leaf in an empty slot, or an
/// insertion into the child of an occupied one.
fn insert_into_branch<K: HamtKey, V>(
    bitmap: u32,
    children: &Rc<Vec<Child<K, V>>>,
    key: K,
    value: V,
    hash: u64,
    depth: u32,
    Ghost(prefix): Ghost<nat>,
) -> (r: (Node<K, V>, bool))
    requires
        depth <= 13,
        wf_node(Node::Branch { bitmap, children: *children }, depth as nat, prefix),
        hash == K::id_hash(key.key_id()),
        low(hash, depth as nat) == prefix,
    ensures
        wf_node(r.0, depth as nat, prefix),
        node_map(r.0) == branch_map(bitmap, children@, 32).insert(key.key_id(), value),
        r.1 == !branch_map(bitmap, children@, 32).dom().contains(key.key_id()),
    decreases children@,
{
    let ghost d = depth as nat;
    let ghost id = key.key_id();
    let ghost ch = children@;
    let b = index_at_depth(hash, depth);
    let ci = bitmap_to_index(bitmap, b);
    proof {
        lemma_low_step(hash, d);
        lemma_branch_routed(bitmap, ch, d, prefix);
        lemma_rank_mono(bitmap, b as nat, 32);
    }
    if !test_bit(bitmap, b) {
        let mut v = copy_children(children);
        let leaf = Child::Leaf(Rc::new(Entry { hash, key, value }));
        v.insert(ci, leaf);
        let bm2 = bitmap | (1u32 << b);
        proof {
            let ch2 = v@;
            lemma_slots_insert(bitmap, ch, b as nat, leaf);
            lemma_other_slots(bitmap, ch, bm2, ch2, b as nat, d, prefix);
            assert forall|bb: nat| bb < 32 && #[trigger] bit_set(bm2, bb) implies child_ok(ch2, rank(bm2, bb), d, prefix, bb) by {
                if bb != b {
                } else {
                    assert(ch2[rank(bm2, bb) as int] == leaf);
                }
            }
            lemma_branch_routed(bm2, ch2, d, prefix);
            lemma_slot_is_child(bm2, ch2, b as nat);
            lemma_set_nonzero(bm2, b as nat);
            assert(slot_map(bm2, ch2, b as nat) =~= slot_map(bitmap, ch, b as nat).insert(id, value));
            lemma_branch_result(bitmap, ch, bm2, ch2, d, b as nat, id, value, false);
        }
        return (Node::Branch { bitmap: bm2, children: Rc::new(v) }, true);
    }
    proof {
        assert(child_ok(ch, rank(bitmap, b as nat), d, prefix, b as nat));
        lemma_slot_is_child(bitmap, ch, b as nat);
    }
    let (new_child, added) = match &children[ci] {
        Child::Leaf(e) => insert_at_leaf(e, key, value, hash, depth, Ghost(prefix), Ghost(b as nat)),
        Child::Sub(sub) => {
            let ghost p2: nat = prefix + (b as nat) * pow2(5 * d);
            proof {
                lemma_deeper(hash, d);
            }
            let (n2, a) = insert_rec(&**sub, key, value, hash, deeper_depth(depth), Ghost(p2));
            let c = Child::Sub(Rc::new(n2));
            proof {
                assert(seq![c][0] == c);
            }
            (c, a)
        },
    };
    let mut v = copy_children(children);
    v.set(ci, new_child);
    proof {
        let ch2 = v@;
        lemma_slots_update(bitmap, ch, b as nat, new_child);
        lemma_other_slots(bitmap, ch, bitmap, ch2, b as nat, d, prefix);
        assert forall|bb: nat| bb < 32 && #[trigger] bit_set(bitmap, bb) implies child_ok(ch2, rank(bitmap, bb), d, prefix, bb) by {
            if bb == b {
                assert(ch2[rank(bitmap, bb) as int] == new_child);
                assert(seq![new_child][0] == new_child);
            }
        }
        lemma_branch_routed(bitmap, ch2, d, prefix);
        lemma_slot_is_child(bitmap, ch2, b as nat);
        lemma_branch_result(bitmap, ch, bitmap, ch2, d, b as nat, id, value, false);
    }
    (Node::Branch { bitmap, children: Rc::new(v) }, added)
}


// ---------------------------------------------------------------------------
// Removal
// ---------------------------------------------------------------------------

/// What removing a key from a node gave.
pub enum RemoveResult<K, V> {
    /// The key was not there.
    NotFound,
    /// The key was removed; `None` when nothing is left of the node.
    Removed(Option<Node<K, V>>),
}

/// `r` is the outcome of removing `x` from a node at `depth` with prefix
/// `prefix` that held `m`.
pub open spec fn removed_ok<K: HamtKey, V>(r: RemoveResult<K, V>, m: Map<K::Id, V>, x: K::Id, depth: nat, prefix: nat) -> bool {
    match r {
        RemoveResult::NotFound => !m.dom().contains(x),
        RemoveResult::Removed(None) => m.dom().contains(x) && m.remove(x) == Map::<K::Id, V>::empty(),
        RemoveResult::Removed(Some(n)) => {
            &&& m.dom().contains(x)
            &&& wf_node(n, depth, prefix)
            &&& node_map(n) == m.remove(x)
            &&& m.remove(x) != Map::<K::Id, V>::empty()
        },
    }
}

/// The branch with no children holds nothing.
proof fn lemma_empty_branch<K: HamtKey, V>(d: nat, p: nat)
    requires
        p < pow2(5 * d),
    ensures
        branch_map(0u32, Seq::<Child<K, V>>::empty(), 32) == Map::<K::Id, V>::empty(),
        routed(0u32, Seq::<Child<K, V>>::empty(), d),
{
    lemma_rank_zero(32);
    lemma_branch_is(0u32, Seq::<Child<K, V>>::empty(), d, p, Map::<K::Id, V>::empty());
    lemma_branch_routed(0u32, Seq::<Child<K, V>>::empty(), d, p);
}

/// Drops the child for bit `b`, whose whole map is the entry for `x`.
fn remove_child_at<K: HamtKey, V>(
    bitmap: u32,
    b: u32,
    ci: usize,
    children: &Rc<Vec<Child<K, V>>>,
    Ghost(d): Ghost<nat>,
    Ghost(prefix): Ghost<nat>,
    Ghost(x): Ghost<K::Id>,
) -> (r: RemoveResult<K, V>)
    requires
        b < 32,
        bit_set(bitmap, b as nat),
        ci == rank(bitmap, b as nat),
        wf_node(Node::Branch { bitmap, children: *children }, d, prefix),
        slot_map(bitmap, children@, b as nat).dom().contains(x),
        slot_map(bitmap, children@, b as nat).remove(x) == Map::<K::Id, V>::empty(),
        idx(K::id_hash(x), d) == b,
    ensures
        removed_ok(r, branch_map(bitmap, children@, 32), x, d, prefix),
        !(r is NotFound),
{
    let ghost ch = children@;
    let new_bitmap = bitmap ^ (1u32 << b);
    proof {
        lemma_branch_routed(bitmap, ch, d, prefix);
        lemma_slots_remove(bitmap, ch, b as nat);
        lemma_other_slots(bitmap, ch, new_bitmap, ch.remove(ci as int), b as nat, d, prefix);
    }
    if new_bitmap == 0 {
        proof {
            lemma_rank_zero(32);
            lemma_empty_branch::<K, V>(d, prefix);
            let e = Seq::<Child<K, V>>::empty();
            assert forall|bb: nat| bb < 32 && bb != b implies #[trigger] slot_map(0u32, e, bb) == slot_map(bitmap, ch, bb) by {
                assert(slot_map(bitmap, ch, bb) == slot_map(new_bitmap, ch.remove(ci as int), bb));
            }
            assert(slot_map(0u32, e, b as nat) =~= slot_map(bitmap, ch, b as nat).remove(x));
            lemma_branch_result(bitmap, ch, 0u32, e, d, b as nat, x, arbitrary(), true);
        }
        return RemoveResult::Removed(None);
    }
    let mut v = copy_children(children);
    v.remove(ci);
    proof {
        let ch2 = v@;
        assert(ch2 == ch.remove(ci as int));
        lemma_branch_routed(new_bitmap, ch2, d, prefix);
        assert(slot_map(new_bitmap, ch2, b as nat) =~= slot_map(bitmap, ch, b as nat).remove(x));
        lemma_branch_result(bitmap, ch, new_bitmap, ch2, d, b as nat, x, arbitrary(), true);
    }
    let n = Node::Branch { bitmap: new_bitmap, children: Rc::new(v) };
    proof {
        lemma_nonempty(n, d, prefix);
    }
    RemoveResult::Removed(Some(n))
}

/// Removes `key` from a node at `depth`.
fn remove_rec<K: HamtKey, V>(
    node: &Node<K, V>,
    key: &K,
    hash: u64,
    depth: u32,
    Ghost(prefix): Ghost<nat>,
) -> (r: RemoveResult<K, V>)
    requires
        depth <= 13,
        wf_node(*node, depth as nat, prefix),
        hash == K::id_hash(key.key_id()),
    ensures
        removed_ok(r, node_map(*node), key.key_id(), depth as nat, prefix),
    decreases node,
{
    match node {
        Node::Branch { bitmap, children } => remove_from_branch(*bitmap, children, key, hash, depth, Ghost(prefix)),
        Node::Collision { hash: coll_hash, entries } => remove_from_collision(*coll_hash, entries, key, depth, Ghost(prefix)),
    }
}

/// Removes `key` from a branch node.
fn remove_from_branch<K: HamtKey, V>(
    bitmap: u32,
    children: &Rc<Vec<Child<K, V>>>,
    key: &K,
    hash: u64,
    depth: u32,
    Ghost(prefix): Ghost<nat>,
) -> (r: RemoveResult<K, V>)
    requires
        depth <= 13,
        wf_node(Node::Branch { bitmap, children: *children }, depth as nat, prefix),
        hash == K::id_hash(key.key_id()),
    ensures
        removed_ok(r, branch_map(bitmap, children@, 32), key.key_id(), depth as nat, prefix),
    decreases children@,
{
    let ghost d = depth as nat;
    let ghost id = key.key_id();
    let ghost ch = children@;
    let b = index_at_depth(hash, depth);
    proof {
        lemma_low_step(hash, d);
        lemma_branch_routed(bitmap, ch, d, prefix);
        lemma_branch_lookup(bitmap, ch, d, 32, id);
        lemma_rank_mono(bitmap, b as nat, 32);
    }
    if !test_bit(bitmap, b) {
        return RemoveResult::NotFound;
    }
    let ci = bitmap_to_index(bitmap, b);
    proof {
        assert(child_ok(ch, rank(bitmap, b as nat), d, prefix, b as nat));
        lemma_slot_is_child(bitmap, ch, b as nat);
    }
    match &children[ci] {
        Child::Leaf(e) => {
            if !e.key.same_key(key) {
                return RemoveResult::NotFound;
            }
            proof {
                assert(slot_map(bitmap, ch, b as nat).remove(id) =~= Map::<K::Id, V>::empty());
            }
            remove_child_at(bitmap, b, ci, children, Ghost(d), Ghost(prefix), Ghost(id))
        },
        Child::Sub(sub) => {
            let ghost p2: nat = prefix + (b as nat) * pow2(5 * d);
            match remove_rec(&**sub, key, hash, deeper_depth(depth), Ghost(p2)) {
                RemoveResult::NotFound => RemoveResult::NotFound,
                RemoveResult::Removed(None) => remove_child_at(bitmap, b, ci, children, Ghost(d), Ghost(prefix), Ghost(id)),
                RemoveResult::Removed(Some(n2)) => {
                    let c = Child::Sub(Rc::new(n2));
                    let mut v = copy_children(children);
                    v.set(ci, c);
                    proof {
                        let ch2 = v@;
                        lemma_slots_update(bitmap, ch, b as nat, c);
                        lemma_other_slots(bitmap, ch, bitmap, ch2, b as nat, d, prefix);
                        assert forall|bb: nat| bb < 32 && #[trigger] bit_set(bitmap, bb) implies child_ok(ch2, rank(bitmap, bb), d, prefix, bb) by {
                            if bb == b {
                                assert(ch2[rank(bitmap, bb) as int] == c);
                            }
                        }
                        lemma_branch_routed(bitmap, ch2, d, prefix);
                        lemma_slot_is_child(bitmap, ch2, b as nat);
                        lemma_branch_result(bitmap, ch, bitmap, ch2, d, b as nat, id, arbitrary(), true);
                    }
                    let n = Node::Branch { bitmap, children: Rc::new(v) };
                    proof {
                        lemma_nonempty(n, d, prefix);
                    }
                    RemoveResult::Removed(Some(n))
                },
            }
        },
    }
}

/// The entries whose keys are not `x`, in their order.
pub open spec fn entries_without<K: HamtKey, V>(es: Seq<Rc<Entry<K, V>>>, x: K::Id) -> Seq<Rc<Entry<K, V>>>
    decreases es.len(),
{
    if es.len() == 0 {
        Seq::empty()
    } else if es.last().key.key_id() == x {
        entries_without(es.drop_last(), x)
    } else {
        entries_without(es.drop_last(), x).push(es.last())
    }
}

/// Removes `key` from a collision node; a single entry left becomes a
/// branch holding it as a leaf.
fn remove_from_collision<K: HamtKey, V>(
    coll_hash: u64,
    entries: &Rc<Vec<Rc<Entry<K, V>>>>,
    key: &K,
    depth: u32,
    Ghost(prefix): Ghost<nat>,
) -> (r: RemoveResult<K, V>)
    requires
        depth <= 13,
        wf_node(Node::Collision { hash: coll_hash, entries: *entries }, depth as nat, prefix),
    ensures
        removed_ok(r, entries_map(entries@), key.key_id(), depth as nat, prefix),
        ({
            let kept = entries_without(entries@, key.key_id());
            &&& kept.len() == entries@.len() ==> r is NotFound
            &&& kept.len() + 1 == entries@.len() && kept.len() == 0 ==> r is Removed && r->0 is None
            &&& kept.len() + 1 == entries@.len() && kept.len() == 1 ==> (r matches RemoveResult::Removed(
                Some(Node::Branch { bitmap, children }),
            ) && bitmap == 1u32 << (idx(coll_hash, depth as nat) as u32) && children@ == seq![
                Child::Leaf(kept[0]),
            ])
            &&& kept.len() + 1 == entries@.len() && kept.len() > 1 ==> (r matches RemoveResult::Removed(
                Some(Node::Collision { hash, entries: rest }),
            ) && hash == coll_hash && rest@ == kept)
        }),
{
    let ghost d = depth as nat;
    let ghost id = key.key_id();
    let ghost es = entries@;
    let mut kept: Vec<Rc<Entry<K, V>>> = Vec::new();
    let mut found = false;
    let mut i: usize = 0;
    while i < entries.len()
        invariant
            es == entries@,
            id == key.key_id(),
            i <= es.len(),
            entries_ok(es, coll_hash),
            !found ==> forall|j: int| 0 <= j < i ==> #[trigger] es[j].key.key_id() != id,
            found ==> exists|j: int| 0 <= j < i && #[trigger] es[j].key.key_id() == id,
            kept@.len() + (if found { 1int } else { 0int }) == i,
            entries_map(kept@) == entries_map(es.take(i as int)).remove(id),
            kept@ == entries_without(es.take(i as int), id),
            forall|a: int| 0 <= a < kept@.len() ==> #[trigger] kept@[a].hash == coll_hash && entry_ok(*kept@[a]),
            forall|a: int, c: int|
                0 <= a < c < kept@.len() ==> #[trigger] kept@[a].key.key_id() != #[trigger] kept@[c].key.key_id(),
            forall|a: int, k: int| 0 <= a < kept@.len() && i <= k < es.len() ==> #[trigger] kept@[a].key.key_id() != #[trigger] es[k].key.key_id(),
            forall|a: int| 0 <= a < kept@.len() ==> #[trigger] kept@[a].key.key_id() != id,
        decreases es.len() - i,
    {
        let ghost t = es.take(i as int);
        let ghost t1 = es.take(i + 1);
        proof {
            assert(t1.drop_last() =~= t);
            assert(t1.last() == es[i as int]);
        }
        if entries[i].key.same_key(key) {
            proof {
                if found {
                    let j = choose|j: int| 0 <= j < i && #[trigger] es[j].key.key_id() == id;
                    assert(es[j].key.key_id() != es[i as int].key.key_id());
                }
                assert(entries_map(kept@) =~= entries_map(t1).remove(id));
            }
            found = true;
        } else {
            let ghost k0 = kept@;
            kept.push(Rc::clone(&entries[i]));
            proof {
                assert(kept@.drop_last() =~= k0);
                assert(entries_map(kept@) =~= entries_map(t1).remove(id));
                assert forall|a: int, c: int| 0 <= a < c < kept@.len() implies #[trigger] kept@[a].key.key_id() != #[trigger] kept@[c].key.key_id() by {
                    if c == kept@.len() - 1 {
                        assert(k0[a].key.key_id() != es[i as int].key.key_id());
                    }
                }
                assert forall|a: int, k: int| 0 <= a < kept@.len() && i + 1 <= k < es.len() implies #[trigger] kept@[a].key.key_id() != #[trigger] es[k].key.key_id() by {
                    if a == kept@.len() - 1 {
                        assert(es[i as int].key.key_id() != es[k].key.key_id());
                    }
                }
            }
        }
        i = i + 1;
    }
    proof {
        assert(es.take(es.len() as int) =~= es);
        lemma_entries_contains(es, id);
        lemma_entries_len(kept@);
    }
    if !found {
        return RemoveResult::NotFound;
    }
    if kept.len() == 0 {
        proof {
            assert(kept@ =~= Seq::<Rc<Entry<K, V>>>::empty());
        }
        return RemoveResult::Removed(None);
    }
    if kept.len() == 1 {
        let ghost k1 = kept@;
        let e = kept.pop().unwrap();
        let b = index_at_depth(coll_hash, depth);
        let bm = 1u32 << b;
        let leaf = Child::Leaf(e);
        let mut v: Vec<Child<K, V>> = Vec::new();
        v.push(leaf);
        proof {
            let ch = v@;
            lemma_one_bit(b);
            lemma_low_step(coll_hash, d);
            assert(ch[0] == leaf);
            assert forall|bb: nat| bb < 32 && #[trigger] bit_set(bm, bb) implies child_ok(ch, rank(bm, bb), d, prefix, bb) by {
                assert(bb == b);
            }
            let m = es_map_of_one(e);
            assert(k1 =~= seq![e]);
            assert(entries_map(k1) =~= m) by {
                assert(k1.drop_last() =~= Seq::<Rc<Entry<K, V>>>::empty());
                assert(k1.last() == e);
                assert(entries_map(Seq::<Rc<Entry<K, V>>>::empty()) == Map::<K::Id, V>::empty());
            }
            lemma_slot_is_child(bm, ch, b as nat);
            assert forall|bb: nat, y: K::Id| bb < 32 && #[trigger] slot_map(bm, ch, bb).dom().contains(y) implies m.dom().contains(y) by {
                if bit_set(bm, bb) {
                    lemma_slot_is_child(bm, ch, bb);
                }
            }
            lemma_set_nonzero(bm, b as nat);
            lemma_branch_is(bm, ch, d, prefix, m);
        }
        let n = Node::Branch { bitmap: bm, children: Rc::new(v) };
        proof {
            lemma_nonempty(n, d, prefix);
        }
        return RemoveResult::Removed(Some(n));
    }
    proof {
        assert(entries_ok(kept@, coll_hash));
    }
    let n = Node::Collision { hash: coll_hash, entries: Rc::new(kept) };
    proof {
        lemma_nonempty(n, d, prefix);
    }
    RemoveResult::Removed(Some(n))
}

/// The map of a single entry.
pub open spec fn es_map_of_one<K: HamtKey, V>(e: Rc<Entry<K, V>>) -> Map<K::Id, V> {
    Map::empty().insert(e.key.key_id(), e.value)
}


// ---------------------------------------------------------------------------
// Traversal
// ---------------------------------------------------------------------------

/// The map held by a run of borrowed key-value pairs.
pub open spec fn pairs_map<K: HamtKey, V>(s: Seq<(&K, &V)>) -> Map<K::Id, V>
    decreases s.len(),
{
    if s.len() == 0 {
        Map::empty()
    } else {
        pairs_map(s.drop_last()).insert(s.last().0.key_id(), *s.last().1)
    }
}

/// No key occurs twice among the pairs.
pub open spec fn distinct_keys<K: HamtKey, V>(s: Seq<(&K, &V)>) -> bool {
    forall|a: int, b: int| 0 <= a < b < s.len() ==> #[trigger] s[a].0.key_id() != #[trigger] s[b].0.key_id()
}

pub(crate) proof fn lemma_pairs_contains<K: HamtKey, V>(s: Seq<(&K, &V)>, x: K::Id)
    ensures
        pairs_map(s).dom().contains(x) == exists|i: int| 0 <= i < s.len() && #[trigger] s[i].0.key_id() == x,
        pairs_map(s).dom().finite(),
    decreases s.len(),
{
    if s.len() > 0 {
        lemma_pairs_contains(s.drop_last(), x);
        if pairs_map(s.drop_last()).dom().contains(x) {
            let i = choose|i: int| 0 <= i < s.drop_last().len() && #[trigger] s.drop_last()[i].0.key_id() == x;
            assert(s[i].0.key_id() == x);
        }
        if exists|i: int| 0 <= i < s.len() && #[trigger] s[i].0.key_id() == x {
            let i = choose|i: int| 0 <= i < s.len() && #[trigger] s[i].0.key_id() == x;
            if i < s.len() - 1 {
                assert(s.drop_last()[i].0.key_id() == x);
            }
        }
    }
}

pub(crate) proof fn lemma_pairs_len<K: HamtKey, V>(s: Seq<(&K, &V)>)
    requires
        distinct_keys(s),
    ensures
        pairs_map(s).len() == s.len(),
        pairs_map(s).dom().finite(),
    decreases s.len(),
{
    if s.len() > 0 {
        lemma_pairs_len(s.drop_last());
        lemma_pairs_contains(s.drop_last(), s.last().0.key_id());
        if pairs_map(s.drop_last()).dom().contains(s.last().0.key_id()) {
            let i = choose|i: int| 0 <= i < s.drop_last().len() && #[trigger] s.drop_last()[i].0.key_id() == s.last().0.key_id();
            assert(s[i].0.key_id() == s[s.len() - 1].0.key_id());
        }
    }
}

/// Among pairs with distinct keys, each pair's value is the one the pairs
/// map its key to.
pub(crate) proof fn lemma_pairs_value<K: HamtKey, V>(s: Seq<(&K, &V)>, i: int)
    requires
        distinct_keys(s),
        0 <= i < s.len(),
    ensures
        pairs_map(s).dom().contains(s[i].0.key_id()),
        pairs_map(s)[s[i].0.key_id()] == *s[i].1,
    decreases s.len(),
{
    lemma_pairs_contains(s, s[i].0.key_id());
    if i < s.len() - 1 {
        assert(s.drop_last()[i] == s[i]);
        assert(distinct_keys(s.drop_last()));
        lemma_pairs_value(s.drop_last(), i);
        assert(s[i].0.key_id() != s[s.len() - 1].0.key_id());
    }
}

/// Appends a pair whose key is new to the pairs.
fn push_pair<'a, K: HamtKey, V>(out: &mut Vec<(&'a K, &'a V)>, k: &'a K, v: &'a V)
    requires
        distinct_keys(old(out)@),
        !pairs_map(old(out)@).dom().contains(k.key_id()),
    ensures
        final(out)@ == old(out)@.push((k, v)),
        pairs_map(final(out)@) == pairs_map(old(out)@).insert(k.key_id(), *v),
        distinct_keys(final(out)@),
{
    let ghost s0 = out@;
    out.push((k, v));
    proof {
        assert(out@.drop_last() =~= s0);
        assert forall|a: int, b: int| 0 <= a < b < out@.len() implies #[trigger] out@[a].0.key_id() != #[trigger] out@[b].0.key_id() by {
            if b == out@.len() - 1 {
                lemma_pairs_contains(s0, k.key_id());
                assert(s0[a].0.key_id() != k.key_id());
            }
        }
    }
}

/// Appends the pairs held by `node` to `out`.
fn collect_node<'a, K: HamtKey, V>(
    node: &'a Node<K, V>,
    out: &mut Vec<(&'a K, &'a V)>,
    Ghost(d): Ghost<nat>,
    Ghost(prefix): Ghost<nat>,
)
    requires
        wf_node(*node, d, prefix),
        distinct_keys(old(out)@),
        forall|x: K::Id| #[trigger] pairs_map(old(out)@).dom().contains(x) ==> !node_map(*node).dom().contains(x),
    ensures
        pairs_map(final(out)@) == pairs_map(old(out)@).union_prefer_right(node_map(*node)),
        distinct_keys(final(out)@),
    decreases node,
{
    let ghost s0 = out@;
    match node {
        Node::Branch { bitmap, children } => {
            let ghost ch = children@;
            proof {
                lemma_branch_routed(*bitmap, ch, d, prefix);
            }
            let mut b: u32 = 0;
            let mut ci: usize = 0;
            let n = children.len();
            while b < 32
                invariant
                    b <= 32,
                    ch == children@,
                    n == ch.len(),
                    ci == rank(*bitmap, b as nat),
                    ch.len() == rank(*bitmap, 32),
                    wf_node(*node, d, prefix),
                    *node == (Node::Branch { bitmap: *bitmap, children: *children }),
                    routed(*bitmap, ch, d),
                    forall|x: K::Id| #[trigger] pairs_map(s0).dom().contains(x) ==> !node_map(*node).dom().contains(x),
                    pairs_map(out@) == pairs_map(s0).union_prefer_right(branch_map(*bitmap, ch, b as nat)),
                    distinct_keys(out@),
                decreases 32 - b,
            {
                let ghost before = out@;
                proof {
                    lemma_rank_mono(*bitmap, b as nat, 32);
                    lemma_branch_lookup(*bitmap, ch, d, b as nat, arbitrary());
                    assert forall|x: K::Id| #[trigger] pairs_map(before).dom().contains(x) implies !slot_map(*bitmap, ch, b as nat).dom().contains(x) by {
                        lemma_branch_lookup(*bitmap, ch, d, b as nat, x);
                        lemma_branch_lookup(*bitmap, ch, d, 32, x);
                        if slot_map(*bitmap, ch, b as nat).dom().contains(x) {
                            assert(idx(K::id_hash(x), d) == b);
                        }
                    }
                }
                if test_bit(*bitmap, b) {
                    proof {
                        assert(child_ok(ch, rank(*bitmap, b as nat), d, prefix, b as nat));
                        lemma_slot_is_child(*bitmap, ch, b as nat);
                    }
                    match &children[ci] {
                        Child::Leaf(e) => {
                            push_pair(out, &e.key, &e.value);
                            proof {
                                assert(pairs_map(out@) =~= pairs_map(before).union_prefer_right(slot_map(*bitmap, ch, b as nat)));
                            }
                        },
                        Child::Sub(sub) => {
                            let ghost p2: nat = prefix + (b as nat) * pow2(5 * d);
                            collect_node(&**sub, out, Ghost(deeper(d)), Ghost(p2));
                        },
                    }
                    ci = ci + 1;
                } else {
                    proof {
                        assert(pairs_map(out@) =~= pairs_map(before).union_prefer_right(slot_map(*bitmap, ch, b as nat)));
                    }
                }
                proof {
                    assert(pairs_map(out@) =~= pairs_map(s0).union_prefer_right(branch_map(*bitmap, ch, (b + 1) as nat)));
                }
                b = b + 1;
            }
        },
        Node::Collision { hash: _, entries } => {
            let ghost es = entries@;
            let mut i: usize = 0;
            while i < entries.len()
                invariant
                    es == entries@,
                    i <= es.len(),
                    wf_node(*node, d, prefix),
                    node_map(*node) == entries_map(es),
                    entries_ok(es, node->Collision_hash),
                    forall|x: K::Id| #[trigger] pairs_map(s0).dom().contains(x) ==> !node_map(*node).dom().contains(x),
                    pairs_map(out@) == pairs_map(s0).union_prefer_right(entries_map(es.take(i as int))),
                    distinct_keys(out@),
                decreases es.len() - i,
            {
                let ghost before = out@;
                let ghost t1 = es.take(i + 1);
                proof {
                    assert(t1.drop_last() =~= es.take(i as int));
                    lemma_entries_contains(es, es[i as int].key.key_id());
                    lemma_entries_contains(es.take(i as int), es[i as int].key.key_id());
                    if entries_map(es.take(i as int)).dom().contains(es[i as int].key.key_id()) {
                        let j = choose|j: int| 0 <= j < es.take(i as int).len() && #[trigger] es.take(i as int)[j].key.key_id() == es[i as int].key.key_id();
                        assert(es[j].key.key_id() != es[i as int].key.key_id());
                    }
                }
                let e = &entries[i];
                push_pair(out, &e.key, &e.value);
                proof {
                    assert(pairs_map(out@) =~= pairs_map(s0).union_prefer_right(entries_map(t1)));
                }
                i = i + 1;
            }
            proof {
                assert(es.take(es.len() as int) =~= es);
            }
        },
    }
}

// ---------------------------------------------------------------------------
// The map
// ---------------------------------------------------------------------------

/// A persistent hash map: updates return a new map and leave the old one
/// as it was, sharing all unchanged nodes.
#[derive(Debug)]
pub struct Hamt<K: HamtKey, V> {
    len: usize,
    root: Option<Rc<Node<K, V>>>,
}

impl<K: HamtKey, V> Hamt<K, V> {
    /// The key-value pairs held, keys taken by identity.
    pub closed spec fn map(self) -> Map<K::Id, V> {
        match self.root {
            Some(r) => node_map(*r),
            None => Map::empty(),
        }
    }

    #[verifier::type_invariant]
    spec fn inv(self) -> bool {
        &&& match self.root {
            Some(r) => wf_node(*r, 0, 0),
            None => true,
        }
        &&& self.map().dom().finite()
        &&& self.len == self.map().len()
    }
}

impl<K: HamtKey, V> View for Hamt<K, V> {
    type V = Map<K::Id, V>;

    open spec fn view(&self) -> Map<K::Id, V> {
        self.map()
    }
}

impl<K: HamtKey, V> Hamt<K, V> {
    /// The empty map.
    pub fn new() -> (r: Self)
        ensures
            r@ == Map::<K::Id, V>::empty(),
    {
        Hamt { len: 0, root: None }
    }

    /// The number of entries.
    pub fn len(&self) -> (r: usize)
        ensures
            r == self@.len(),
            self@.dom().finite(),
    {
        proof {
            use_type_invariant(self);
        }
        self.len
    }

    /// Whether the map has no entries.
    pub fn is_empty(&self) -> (r: bool)
        ensures
            r == (self@.len() == 0),
            r == (self@ == Map::<K::Id, V>::empty()),
    {
        proof {
            use_type_invariant(self);
            if self@.len() == 0 {
                assert(self@.dom() =~= Set::<K::Id>::empty());
                assert(self@ =~= Map::<K::Id, V>::empty());
            }
        }
        self.len == 0
    }

    /// The value for `key`, if the map has it.
    pub fn get(&self, key: &K) -> (r: Option<&V>)
        ensures
            r.is_some() == self@.dom().contains(key.key_id()),
            r.is_some() ==> *r.unwrap() == self@[key.key_id()],
    {
        proof {
            use_type_invariant(self);
        }
        let hash = key.hash_key();
        match &self.root {
            None => None,
            Some(node) => get_rec(&**node, key, hash, 0, Ghost(0)),
        }
    }

    /// Whether the map has `key`.
    pub fn contains_key(&self, key: &K) -> (r: bool)
        ensures
            r == self@.dom().contains(key.key_id()),
    {
        self.get(key).is_some()
    }

    /// The map with `key` bound to `value`, replacing any earlier value.
    pub fn insert(&self, key: K, value: V) -> (r: Self)
        requires
            self@.len() < usize::MAX,
        ensures
            r@ == self@.insert(key.key_id(), value),
    {
        proof {
            use_type_invariant(self);
        }
        let ghost id = key.key_id();
        let hash = key.hash_key();
        match &self.root {
            None => {
                let b = index_at_depth(hash, 0);
                let bm = 1u32 << b;
                let leaf = Child::Leaf(Rc::new(Entry { hash, key, value }));
                let mut v: Vec<Child<K, V>> = Vec::new();
                v.push(leaf);
                let root = Node::Branch { bitmap: bm, children: Rc::new(v) };
                proof {
                    let ch = v@;
                    let m = Map::<K::Id, V>::empty().insert(id, value);
                    lemma_one_bit(b);
                    lemma_low_step(hash, 0);
                    lemma_pow2_64();
                    vstd::arithmetic::power2::lemma2_to64();
                    assert(ch[0] == leaf);
                    assert forall|bb: nat| bb < 32 && #[trigger] bit_set(bm, bb) implies child_ok(ch, rank(bm, bb), 0, 0, bb) by {
                        assert(bb == b);
                    }
                    lemma_slot_is_child(bm, ch, b as nat);
                    assert forall|bb: nat, y: K::Id| bb < 32 && #[trigger] slot_map(bm, ch, bb).dom().contains(y) implies m.dom().contains(y) by {
                        if bit_set(bm, bb) {
                            lemma_slot_is_child(bm, ch, bb);
                        }
                    }
                    lemma_set_nonzero(bm, b as nat);
                    lemma_branch_is(bm, ch, 0, 0, m);
                    assert(self@ == Map::<K::Id, V>::empty());
                    assert(m.dom() =~= set![id]);
                }
                Hamt { len: 1, root: Some(Rc::new(root)) }
            },
            Some(node) => {
                proof {
                    lemma_low_step(hash, 0);
                    vstd::arithmetic::power2::lemma2_to64();
                }
                let (n, added) = insert_rec(&**node, key, value, hash, 0, Ghost(0));
                let new_len = if added {
                    self.len + 1
                } else {
                    self.len
                };
                proof {
                    lemma_node_finite(n);
                    if !added {
                        assert(self@.insert(id, value).dom() =~= self@.dom());
                    }
                }
                Hamt { len: new_len, root: Some(Rc::new(n)) }
            },
        }
    }

    /// The map without `key`.
    pub fn remove(&self, key: &K) -> (r: Self)
        ensures
            r@ == self@.remove(key.key_id()),
    {
        proof {
            use_type_invariant(self);
        }
        let ghost id = key.key_id();
        let hash = key.hash_key();
        match &self.root {
            None => {
                proof {
                    assert(self@.remove(id) =~= Map::<K::Id, V>::empty());
                }
                Self::new()
            },
            Some(node) => {
                match remove_rec(&**node, key, hash, 0, Ghost(0)) {
                    RemoveResult::NotFound => {
                        proof {
                            assert(self@.remove(id) =~= self@);
                        }
                        self.clone()
                    },
                    RemoveResult::Removed(None) => Self::new(),
                    RemoveResult::Removed(Some(n)) => {
                        proof {
                            lemma_node_finite(n);
                        }
                        Hamt { len: self.len - 1, root: Some(Rc::new(n)) }
                    },
                }
            },
        }
    }

    /// The key-value pairs, each key once, in trie order.
    pub fn iter(&self) -> (r: Vec<(&K, &V)>)
        ensures
            pairs_map(r@) == self@,
            distinct_keys(r@),
            r@.len() == self@.len(),
    {
        proof {
            use_type_invariant(self);
        }
        let mut out: Vec<(&K, &V)> = Vec::new();
        proof {
            assert(pairs_map(out@) == Map::<K::Id, V>::empty());
        }
        match &self.root {
            None => {},
            Some(node) => {
                collect_node(&**node, &mut out, Ghost(0), Ghost(0));
            },
        }
        proof {
            assert(pairs_map(out@) =~= self@);
            lemma_pairs_len(out@);
        }
        out
    }

    /// The keys, each once, in the order of [`Hamt::iter`].
    pub fn keys(&self) -> (r: Vec<&K>)
        ensures
            exists|s: Seq<(&K, &V)>|
                pairs_map(s) == self@ && distinct_keys(s) && #[trigger] s.len() == r@.len()
                    && forall|i: int| 0 <= i < s.len() ==> r@[i] == s[i].0,
            r@.len() == self@.len(),
    {
        let pairs = self.iter();
        let mut r: Vec<&K> = Vec::new();
        let mut i: usize = 0;
        while i < pairs.len()
            invariant
                i <= pairs@.len(),
                r@.len() == i,
                forall|j: int| 0 <= j < i ==> r@[j] == pairs@[j].0,
            decreases pairs@.len() - i,
        {
            r.push(pairs[i].0);
            i = i + 1;
        }
        r
    }

    /// The values, one per key, in the order of [`Hamt::iter`].
    pub fn values(&self) -> (r: Vec<&V>)
        ensures
            exists|s: Seq<(&K, &V)>|
                pairs_map(s) == self@ && distinct_keys(s) && #[trigger] s.len() == r@.len()
                    && forall|i: int| 0 <= i < s.len() ==> r@[i] == s[i].1,
            r@.len() == self@.len(),
    {
        let pairs = self.iter();
        let mut r: Vec<&V> = Vec::new();
        let mut i: usize = 0;
        while i < pairs.len()
            invariant
                i <= pairs@.len(),
                r@.len() == i,
                forall|j: int| 0 <= j < i ==> r@[j] == pairs@[j].1,
            decreases pairs@.len() - i,
        {
            r.push(pairs[i].1);
            i = i + 1;
        }
        r
    }
}

impl<K: HamtKey, V> Clone for Hamt<K, V> {
    fn clone(&self) -> (r: Self)
        ensures
            r@ == self@,
    {
        proof {
            use_type_invariant(self);
        }
        Hamt {
            len: self.len,
            root: match &self.root {
                Some(r) => Some(Rc::clone(r)),
                None => None,
            },
        }
    }
}

impl<K: HamtKey, V> Default for Hamt<K, V> {
    fn default() -> (r: Self)
        ensures
            r@ == Map::<K::Id, V>::empty(),
    {
        Self::new()
    }
}


// ---------------------------------------------------------------------------
// Keys
// ---------------------------------------------------------------------------

/// The `n` low bytes of `x`, least significant first.
pub open spec fn le_bytes(x: u64, n: nat) -> Seq<u8>
    decreases n,
{
    if n == 0 {
        Seq::empty()
    } else {
        seq![(x % 256) as u8] + le_bytes(x / 256, (n - 1) as nat)
    }
}

/// The `n` low bytes of `x`, least significant first.
fn le_bytes_vec(x: u64, n: usize) -> (v: Vec<u8>)
    ensures
        v@ == le_bytes(x, n as nat),
{
    let mut v: Vec<u8> = Vec::new();
    let mut cur = x;
    let mut i: usize = 0;
    while i < n
        invariant
            i <= n,
            v@ + le_bytes(cur, (n - i) as nat) == le_bytes(x, n as nat),
        decreases n - i,
    {
        let byte = (cur & 0xff) as u8;
        proof {
            assert(cur & 0xff == cur % 256) by (bit_vector);
            assert(cur >> 8 == cur / 256) by (bit_vector);
            let rest = le_bytes(cur / 256, (n - i - 1) as nat);
            assert(le_bytes(cur, (n - i) as nat) == seq![(cur % 256) as u8] + rest);
            assert(v@.push(byte) + rest =~= v@ + (seq![(cur % 256) as u8] + rest));
        }
        v.push(byte);
        cur = cur >> 8;
        i = i + 1;
    }
    assert(v@ + le_bytes(cur, 0) =~= v@);
    v
}

/// FNV-1a of the `n` little-endian bytes of `x`.
fn hash_le(x: u64, n: usize) -> (h: u64)
    ensures
        h == fnv_hash(le_bytes(x, n as nat)),
{
    let bytes = le_bytes_vec(x, n);
    let mut hasher = FnvHasher::new();
    hasher.write_bytes(bytes.as_slice());
    hasher.finish_hash()
}

impl HamtKey for i32 {
    type Id = i32;

    open spec fn key_id(&self) -> i32 {
        *self
    }

    open spec fn id_hash(id: i32) -> u64 {
        fnv_hash(le_bytes(id as u32 as u64, 4))
    }

    fn hash_key(&self) -> (h: u64) {
        hash_le(*self as u32 as u64, 4)
    }

    fn same_key(&self, other: &Self) -> (b: bool) {
        *self == *other
    }
}

impl HamtKey for i64 {
    type Id = i64;

    open spec fn key_id(&self) -> i64 {
        *self
    }

    open spec fn id_hash(id: i64) -> u64 {
        fnv_hash(le_bytes(id as u64, 8))
    }

    fn hash_key(&self) -> (h: u64) {
        hash_le(*self as u64, 8)
    }

    fn same_key(&self, other: &Self) -> (b: bool) {
        *self == *other
    }
}

impl HamtKey for u32 {
    type Id = u32;

    open spec fn key_id(&self) -> u32 {
        *self
    }

    open spec fn id_hash(id: u32) -> u64 {
        fnv_hash(le_bytes(id as u64, 4))
    }

    fn hash_key(&self) -> (h: u64) {
        hash_le(*self as u64, 4)
    }

    fn same_key(&self, other: &Self) -> (b: bool) {
        *self == *other
    }
}

impl HamtKey for u64 {
    type Id = u64;

    open spec fn key_id(&self) -> u64 {
        *self
    }

    open spec fn id_hash(id: u64) -> u64 {
        fnv_hash(le_bytes(id, 8))
    }

    fn hash_key(&self) -> (h: u64) {
        hash_le(*self, 8)
    }

    fn same_key(&self, other: &Self) -> (b: bool) {
        *self == *other
    }
}

impl HamtKey for String {
    type Id = Seq<char>;

    open spec fn key_id(&self) -> Seq<char> {
        self@
    }

    /// A string hashes as its UTF-8 bytes followed by `0xff`.
    open spec fn id_hash(id: Seq<char>) -> u64 {
        fnv_hash(vstd::utf8::encode_utf8(id).push(0xffu8))
    }

    fn hash_key(&self) -> (h: u64) {
        let bytes = self.as_str().as_bytes();
        let mut hasher = FnvHasher::new();
        hasher.write_bytes(bytes);
        let mut end: Vec<u8> = Vec::new();
        end.push(0xffu8);
        hasher.write_bytes(end.as_slice());
        proof {
            crate::fnv::law_fnv_fold_concat(crate::fnv::FNV_OFFSET, bytes@, end@);
            assert(bytes@ + end@ =~= vstd::utf8::encode_utf8(self@).push(0xffu8));
        }
        hasher.finish_hash()
    }

    fn same_key(&self, other: &Self) -> (b: bool) {
        *self == *other
    }
}

// ---------------------------------------------------------------------------
// Laws
// ---------------------------------------------------------------------------

/// Reading back a write: after `insert(k, v)` the map has `k` with value
/// `v`, and every other key is as it was.
pub proof fn law_get_after_insert<I, V>(m: Map<I, V>, k: I, v: V, other: I)
    requires
        other != k,
    ensures
        m.insert(k, v).dom().contains(k),
        m.insert(k, v)[k] == v,
        m.insert(k, v).dom().contains(other) == m.dom().contains(other),
        m.dom().contains(other) ==> m.insert(k, v)[other] == m[other],
{
}

/// After `remove(k)` the map lacks `k`, and every other key is as it was.
pub proof fn law_get_after_remove<I, V>(m: Map<I, V>, k: I, other: I)
    requires
        other != k,
    ensures
        !m.remove(k).dom().contains(k),
        m.remove(k).dom().contains(other) == m.dom().contains(other),
        m.dom().contains(other) ==> m.remove(k)[other] == m[other],
{
}

/// Removing a key just inserted into a map that lacked it gives the map
/// back.
pub proof fn law_remove_undoes_insert<I, V>(m: Map<I, V>, k: I, v: V)
    requires
        !m.dom().contains(k),
    ensures
        m.insert(k, v).remove(k) == m,
{
    assert(m.insert(k, v).remove(k) =~= m);
}

/// Inserting grows the count by one exactly when the key is new.
pub proof fn law_len_after_insert<I, V>(m: Map<I, V>, k: I, v: V)
    requires
        m.dom().finite(),
    ensures
        m.insert(k, v).len() == m.len() + if m.dom().contains(k) { 0int } else { 1int },
{
    if m.dom().contains(k) {
        assert(m.insert(k, v).dom() =~= m.dom());
    }
}

/// Removing shrinks the count by one exactly when the key was there.
pub proof fn law_len_after_remove<I, V>(m: Map<I, V>, k: I)
    requires
        m.dom().finite(),
    ensures
        m.remove(k).len() == m.len() - if m.dom().contains(k) { 1int } else { 0int },
{
    if !m.dom().contains(k) {
        assert(m.remove(k).dom() =~= m.dom());
    }
}

/// A second insertion of a key overrides the first.
pub proof fn law_insert_overrides<I, V>(m: Map<I, V>, k: I, v1: V, v2: V)
    ensures
        m.insert(k, v1).insert(k, v2) == m.insert(k, v2),
{
    assert(m.insert(k, v1).insert(k, v2) =~= m.insert(k, v2));
}

} // verus!
