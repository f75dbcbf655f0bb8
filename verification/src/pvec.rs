//! Persistent vector: a 32-way trie of full leaves plus a tail buffer that
//! holds the last (up to 32) elements.
//!
//! Every update returns a new vector that shares all untouched nodes with
//! the old one; the old vector is never changed.

use std::rc::Rc;
use vstd::prelude::*;
use vstd::arithmetic::power2::{pow2, lemma_pow2_adds, lemma_pow2_pos, lemma2_to64};
use vstd::arithmetic::div_mod::{
    lemma_mod_breakdown, lemma_mod_bound, lemma_div_denominator, lemma_small_mod,
    lemma_fundamental_div_mod, lemma_div_multiples_vanish_fancy,
};
use vstd::arithmetic::mul::{lemma_mul_strict_inequality, lemma_mul_inequality, lemma_mul_is_distributive_add};
use vstd::bits::{lemma_u64_shr_is_div, lemma_u64_low_bits_mask_is_mod, lemma_low_bits_mask_values};

verus! {

/// A trie node: a branch of 32 optional children, or a leaf of 32 values.
pub enum Node<T> {
    /// Interior node.
    Branch(Rc<Vec<Option<Rc<Node<T>>>>>),
    /// Leaf holding values.
    Leaf(Rc<Vec<Rc<T>>>),
}

/// Position among the 32 children of a node at `level` that index `i`
/// belongs to.
pub open spec fn slot(i: nat, level: nat) -> nat {
    (i / pow2(level)) % 32
}

/// The value reached by following index `i` down from `node` at `level`.
pub open spec fn lookup<T>(node: Node<T>, i: nat, level: nat) -> T
    decreases level,
{
    match node {
        Node::Leaf(vals) => *vals@[(i % 32) as int],
        Node::Branch(ch) => {
            if level >= 5 {
                match ch@[slot(i, level) as int] {
                    Some(c) => lookup(*c, i, (level - 5) as nat),
                    None => arbitrary(),
                }
            } else {
                arbitrary()
            }
        },
    }
}

/// Number of values held by child `j` of a node at `level` holding `count`.
pub open spec fn child_count(count: nat, level: nat, j: int) -> nat {
    let cap = pow2(level);
    if count - j * cap >= cap {
        cap
    } else {
        (count - j * cap) as nat
    }
}

/// `node` is a trie of height `level` holding `count` values, packed from
/// the left in full leaves: child `j` exists exactly when values start in it,
/// every child but the last is full.
pub open spec fn wf_node<T>(node: Node<T>, level: nat, count: nat) -> bool
    decreases level,
{
    &&& count % 32 == 0
    &&& 0 < count <= pow2(level + 5)
    &&& match node {
        Node::Leaf(vals) => level == 0 && vals@.len() == 32,
        Node::Branch(ch) => {
            &&& level >= 5
            &&& ch@.len() == 32
            &&& forall|j: int|
                0 <= j < 32 ==> {
                    &&& (#[trigger] ch@[j] is Some <==> j * pow2(level) < count)
                    &&& (ch@[j] matches Some(c) ==> wf_node(
                        *c,
                        (level - 5) as nat,
                        child_count(count, level, j),
                    ))
                }
        },
    }
}

/// Index where the tail starts in a vector of `len` values.
pub open spec fn tail_offset_of(len: nat) -> nat {
    if len < 32 {
        0
    } else {
        ((len - 1) as nat / 32) * 32
    }
}

/// A vector of at most 33 values whose tail holds more than one of them
/// keeps all of them in the tail.
proof fn lemma_short_no_trie(len: nat)
    requires
        len <= 33,
        len - tail_offset_of(len) > 1,
    ensures
        tail_offset_of(len) == 0,
{
    if len == 33 {
        assert(((33 - 1) as nat / 32) * 32 == 32);
    } else if len == 32 {
        assert(((32 - 1) as nat / 32) * 32 == 0);
    }
}

proof fn lemma_pow2_5()
    ensures
        pow2(5) == 32,
        pow2(10) == 1024,
{
    lemma2_to64();
}

/// Splitting an index at a level into its slot and the offset below.
proof fn lemma_split(i: nat, level: nat)
    ensures
        pow2(level) > 0,
        pow2(level + 5) == pow2(level) * 32,
        slot(i, level) < 32,
        i % pow2(level) < pow2(level),
        i % pow2(level + 5) == pow2(level) * slot(i, level) + i % pow2(level),
        i % pow2(level + 5) < pow2(level + 5),
{
    lemma_pow2_pos(level);
    lemma_pow2_adds(level, 5);
    lemma_pow2_5();
    lemma_mod_breakdown(i as int, pow2(level) as int, 32);
    lemma_mod_bound(i as int, pow2(level) as int);
    lemma_mod_bound((i / pow2(level)) as int, 32);
    lemma_mod_bound(i as int, pow2(level + 5) as int);
}

/// Levels of the trie are at least one leaf wide.
proof fn lemma_pow2_ge_32(level: nat)
    requires
        level >= 5,
    ensures
        pow2(level) >= 32,
        pow2(level) % 32 == 0,
{
    lemma_pow2_adds((level - 5) as nat, 5);
    lemma_pow2_5();
    lemma_pow2_pos((level - 5) as nat);
    assert(pow2(level) == pow2((level - 5) as nat) * 32);
    vstd::arithmetic::div_mod::lemma_mod_multiples_basic(pow2((level - 5) as nat) as int, 32);
}

proof fn lemma_mul_order(j: int, d: int, cap: int)
    by (nonlinear_arith)
    requires
        cap > 0,
    ensures
        j * cap == cap * j,
        j < d ==> j * cap + cap <= d * cap,
        j > d ==> j * cap >= d * cap + cap,
        j >= 0 ==> j * cap >= 0,
        j >= 1 ==> j * cap >= cap,
{
}

/// The child that holds the value at index `i` exists, and `i` falls
/// inside it.
proof fn lemma_child_of(i: nat, level: nat, count: nat)
    requires
        i % pow2(level + 5) < count,
    ensures
        slot(i, level) * pow2(level) < count,
        slot(i, level) * pow2(level) <= i % pow2(level + 5),
        i % pow2(level) < child_count(count, level, slot(i, level) as int),
{
    lemma_split(i, level);
    lemma_mul_order(slot(i, level) as int, 0, pow2(level) as int);
}

/// Below a branch level, an index that is a multiple of 32 stays one.
proof fn lemma_low_aligned(i: nat, level: nat)
    requires
        level >= 5,
        i % 32 == 0,
    ensures
        (i % pow2(level)) % 32 == 0,
{
    lemma_pow2_adds(5, (level - 5) as nat);
    lemma_pow2_5();
    lemma_pow2_pos((level - 5) as nat);
    assert(5 + (level - 5) as nat == level);
    vstd::arithmetic::div_mod::lemma_mod_mod(i as int, 32, pow2((level - 5) as nat) as int);
}

/// Two multiples of 32 differ by at least 32.
proof fn lemma_aligned_gap(a: nat, b: nat)
    requires
        a % 32 == 0,
        b % 32 == 0,
        a < b,
    ensures
        a + 32 <= b,
{
    lemma_fundamental_div_mod(a as int, 32);
    lemma_fundamental_div_mod(b as int, 32);
    assert(a / 32 < b / 32) by (nonlinear_arith)
        requires
            a == 32 * (a / 32),
            b == 32 * (b / 32),
            a < b;
}

/// Slot of `i` at `level`, computed with a shift and a mask.
fn slot_of(i: usize, level: u32) -> (d: usize)
    requires
        level < 64,
    ensures
        d == slot(i as nat, level as nat),
        d < 32,
{
    let x = i as u64;
    let s = level as u64;
    let shifted = x >> s;
    proof {
        lemma_u64_shr_is_div(x, s);
        lemma_u64_low_bits_mask_is_mod(shifted, 5);
        lemma_low_bits_mask_values();
        lemma_pow2_5();
        lemma_mod_bound(shifted as int, 32);
    }
    (shifted & 31) as usize
}

/// The offset of `i` within its leaf.
fn leaf_index(i: usize) -> (k: usize)
    ensures
        k == i % 32,
{
    let x = i as u64;
    proof {
        lemma_u64_low_bits_mask_is_mod(x, 5);
        lemma_low_bits_mask_values();
        lemma_pow2_5();
    }
    (x & 31) as usize
}

/// A copy of a leaf's value handles (the values themselves are shared).
fn copy_values<T>(vals: &Vec<Rc<T>>) -> (v: Vec<Rc<T>>)
    ensures
        v@ == vals@,
{
    let mut v: Vec<Rc<T>> = Vec::new();
    let mut i: usize = 0;
    while i < vals.len()
        invariant
            i <= vals@.len(),
            v@ == vals@.subrange(0, i as int),
        decreases vals@.len() - i,
    {
        v.push(Rc::clone(&vals[i]));
        i = i + 1;
        assert(v@ =~= vals@.subrange(0, i as int));
    }
    assert(v@ =~= vals@);
    v
}

/// A copy of a branch's child handles (the children are shared).
fn copy_children<T>(ch: &Vec<Option<Rc<Node<T>>>>) -> (v: Vec<Option<Rc<Node<T>>>>)
    ensures
        v@ == ch@,
{
    let mut v: Vec<Option<Rc<Node<T>>>> = Vec::new();
    let mut i: usize = 0;
    while i < ch.len()
        invariant
            i <= ch@.len(),
            v@ == ch@.subrange(0, i as int),
        decreases ch@.len() - i,
    {
        match &ch[i] {
            Some(c) => v.push(Some(Rc::clone(c))),
            None => v.push(None),
        }
        i = i + 1;
        assert(v@ =~= ch@.subrange(0, i as int));
    }
    assert(v@ =~= ch@);
    v
}

/// Thirty-two empty child slots.
fn empty_children<T>() -> (v: Vec<Option<Rc<Node<T>>>>)
    ensures
        v@.len() == 32,
        forall|j: int| 0 <= j < 32 ==> #[trigger] v@[j] is None,
{
    let mut v: Vec<Option<Rc<Node<T>>>> = Vec::new();
    let mut i: usize = 0;
    while i < 32
        invariant
            i <= 32,
            v@.len() == i,
            forall|j: int| 0 <= j < i ==> #[trigger] v@[j] is None,
        decreases 32 - i,
    {
        v.push(None);
        i = i + 1;
    }
    v
}

/// Whether any child slot is occupied.
fn any_child<T>(ch: &Vec<Option<Rc<Node<T>>>>) -> (b: bool)
    ensures
        b == exists|j: int| 0 <= j < ch@.len() && #[trigger] ch@[j] is Some,
{
    let mut i: usize = 0;
    while i < ch.len()
        invariant
            i <= ch@.len(),
            forall|j: int| 0 <= j < i ==> #[trigger] ch@[j] is None,
        decreases ch@.len() - i,
    {
        if ch[i].is_some() {
            return true;
        }
        i = i + 1;
    }
    false
}

/// The value at `index` in a well-formed trie.
fn get_in<T>(node: &Node<T>, index: usize, level: u32, Ghost(count): Ghost<nat>) -> (r: &T)
    requires
        wf_node(*node, level as nat, count),
        index as nat % pow2(level as nat + 5) < count,
        level <= 60,
    ensures
        *r == lookup(*node, index as nat, level as nat),
    decreases level,
{
    match node {
        Node::Leaf(vals) => {
            proof {
                lemma_pow2_5();
            }
            let k = leaf_index(index);
            &*vals[k]
        },
        Node::Branch(ch) => {
            let d = slot_of(index, level);
            proof {
                lemma_child_of(index as nat, level as nat, count);
            }
            let c = ch[d].as_ref().unwrap();
            let ghost cc = child_count(count, level as nat, d as int);
            proof {
                assert((level - 5) as nat + 5 == level as nat);
            }
            get_in(&**c, index, level - 5, Ghost(cc))
        },
    }
}

/// A copy of the trie with the value at `index` replaced.
fn assoc_in<T>(node: &Rc<Node<T>>, index: usize, value: Rc<T>, level: u32, Ghost(count): Ghost<nat>) -> (r: Node<T>)
    requires
        wf_node(**node, level as nat, count),
        index as nat % pow2(level as nat + 5) < count,
        level <= 60,
    ensures
        wf_node(r, level as nat, count),
        forall|q: nat|
            q % pow2(level as nat + 5) < count ==> #[trigger] lookup(r, q, level as nat) == if q
                % pow2(level as nat + 5) == index as nat % pow2(level as nat + 5) {
                *value
            } else {
                lookup(**node, q, level as nat)
            },
    decreases level,
{
    match &**node {
        Node::Leaf(vals) => {
            proof {
                lemma_pow2_5();
            }
            let mut nv = copy_values(vals);
            let k = leaf_index(index);
            nv.set(k, value);
            let r = Node::Leaf(Rc::new(nv));
            proof {
                assert forall|q: nat| q % pow2(level as nat + 5) < count implies #[trigger] lookup(
                    r,
                    q,
                    level as nat,
                ) == if q % pow2(level as nat + 5) == index as nat % pow2(level as nat + 5) {
                    *value
                } else {
                    lookup(**node, q, level as nat)
                } by {
                    lemma_mod_bound(q as int, 32);
                }
            }
            r
        },
        Node::Branch(ch) => {
            let d = slot_of(index, level);
            let ghost cap = pow2(level as nat);
            let ghost lv = (level - 5) as nat;
            proof {
                lemma_child_of(index as nat, level as nat, count);
                assert(lv + 5 == level as nat);
            }
            let c = ch[d].as_ref().unwrap();
            let ghost cc = child_count(count, level as nat, d as int);
            let new_child = assoc_in(c, index, value, level - 5, Ghost(cc));
            let mut nch = copy_children(ch);
            nch.set(d, Some(Rc::new(new_child)));
            let r = Node::Branch(Rc::new(nch));
            proof {
                assert forall|q: nat| q % pow2(level as nat + 5) < count implies #[trigger] lookup(
                    r,
                    q,
                    level as nat,
                ) == if q % pow2(level as nat + 5) == index as nat % pow2(level as nat + 5) {
                    *value
                } else {
                    lookup(**node, q, level as nat)
                } by {
                    lemma_split(q, level as nat);
                    lemma_split(index as nat, level as nat);
                    lemma_child_of(q, level as nat, count);
                    let sq = slot(q, level as nat);
                    if sq == d {
                        assert(lookup(r, q, level as nat) == lookup(new_child, q, lv));
                        assert(lookup(**node, q, level as nat) == lookup(**c, q, lv));
                    } else {
                        lemma_mul_order(sq as int, d as int, cap as int);
                        assert(q % pow2(level as nat + 5) != index as nat % pow2(level as nat + 5));
                    }
                }
                assert forall|j: int| 0 <= j < 32 implies {
                    &&& (#[trigger] nch@[j] is Some <==> j * cap < count)
                    &&& (nch@[j] matches Some(c) ==> wf_node(*c, lv, child_count(count, level as nat, j)))
                } by {
                    assert(ch@[j] is Some <==> j * cap < count);
                }
            }
            r
        },
    }
}

/// A path of single-child branches from `level` down to `leaf`.
fn new_path<T>(level: u32, leaf: Node<T>) -> (r: Node<T>)
    requires
        wf_node(leaf, 0, 32),
        level <= 60,
        level % 5 == 0,
    ensures
        wf_node(r, level as nat, 32),
        forall|q: nat|
            q % pow2(level as nat + 5) < 32 ==> #[trigger] lookup(r, q, level as nat) == lookup(
                leaf,
                q,
                0,
            ),
    decreases level,
{
    if level == 0 {
        return leaf;
    }
    let sub = new_path(level - 5, leaf);
    let mut children: Vec<Option<Rc<Node<T>>>> = empty_children();
    children.set(0, Some(Rc::new(sub)));
    let r = Node::Branch(Rc::new(children));
    proof {
        let cap = pow2(level as nat);
        let lv = (level - 5) as nat;
        lemma_pow2_ge_32(level as nat);
        assert(lv + 5 == level as nat);
        lemma_split(0, level as nat);
        assert forall|j: int| 0 <= j < 32 implies {
            &&& (#[trigger] children@[j] is Some <==> j * cap < 32)
            &&& (children@[j] matches Some(c) ==> wf_node(*c, lv, child_count(32, level as nat, j)))
        } by {
            lemma_mul_order(j, 0, cap as int);
        }
        assert(wf_node(r, level as nat, 32));
        assert forall|q: nat| q % pow2(level as nat + 5) < 32 implies #[trigger] lookup(
            r,
            q,
            level as nat,
        ) == lookup(leaf, q, 0) by {
            lemma_split(q, level as nat);
            let s = slot(q, level as nat);
            lemma_mul_order(s as int, 0, cap as int);
            assert(s == 0);
            assert(lookup(r, q, level as nat) == lookup(sub, q, lv));
        }
    }
    r
}

/// The trie with a full leaf appended after its `count` values.
fn push_tail_in<T>(level: u32, node: &Rc<Node<T>>, leaf: Node<T>, index: usize, Ghost(count): Ghost<nat>) -> (r: Node<T>)
    requires
        level >= 5,
        level <= 60,
        level % 5 == 0,
        wf_node(**node, level as nat, count),
        wf_node(leaf, 0, 32),
        index as nat % pow2(level as nat + 5) == count,
        index as nat % 32 == 0,
        count + 32 <= pow2(level as nat + 5),
    ensures
        wf_node(r, level as nat, count + 32),
        forall|q: nat|
            q % pow2(level as nat + 5) < count + 32 ==> #[trigger] lookup(r, q, level as nat) == if q
                % pow2(level as nat + 5) < count {
                lookup(**node, q, level as nat)
            } else {
                lookup(leaf, q, 0)
            },
    decreases level,
{
    let ch = match &**node {
        Node::Branch(ch) => ch,
        Node::Leaf(_) => {
            proof {
                assert(false);
            }
            return leaf;
        },
    };
    let d = slot_of(index, level);
    let ghost cap = pow2(level as nat);
    let ghost low = index as nat % cap;
    let ghost lv = (level - 5) as nat;
    proof {
        lemma_split(index as nat, level as nat);
        lemma_pow2_ge_32(level as nat);
        lemma_low_aligned(index as nat, level as nat);
        lemma_aligned_gap(low, cap);
        lemma_mul_order(d as int, d as int, cap as int);
        assert(lv + 5 == level as nat);
        assert(count == cap * d + low);
        assert(ch@[d as int] is Some <==> low > 0);
    }
    let mut nch = copy_children(ch);
    let new_child = if level == 5 {
        proof {
            lemma_pow2_5();
            lemma_small_mod(low, 32);
            assert(low == 0);
        }
        leaf
    } else {
        match &ch[d] {
            Some(c) => {
                let ghost cc = child_count(count, level as nat, d as int);
                proof {
                    assert(cc == low);
                    assert(lv + 5 == level as nat);
                    lemma_small_mod(low, cap);
                    vstd::arithmetic::div_mod::lemma_mod_mod(index as int, cap as int, 32);
                }
                push_tail_in(level - 5, c, leaf, index, Ghost(cc))
            },
            None => new_path(level - 5, leaf),
        }
    };
    nch.set(d, Some(Rc::new(new_child)));
    let r = Node::Branch(Rc::new(nch));
    proof {
        assert(child_count(count + 32, level as nat, d as int) == low + 32);
        assert(wf_node(new_child, lv, low + 32));
        assert forall|j: int| 0 <= j < 32 implies {
            &&& (#[trigger] nch@[j] is Some <==> j * cap < count + 32)
            &&& (nch@[j] matches Some(c) ==> wf_node(*c, lv, child_count(count + 32, level as nat, j)))
        } by {
            lemma_mul_order(j, d as int, cap as int);
            if j < d {
                assert(child_count(count + 32, level as nat, j) == child_count(count, level as nat, j));
            }
        }
        assert(wf_node(r, level as nat, count + 32));
        assert forall|q: nat| q % pow2(level as nat + 5) < count + 32 implies #[trigger] lookup(
            r,
            q,
            level as nat,
        ) == if q % pow2(level as nat + 5) < count {
            lookup(**node, q, level as nat)
        } else {
            lookup(leaf, q, 0)
        } by {
            lemma_split(q, level as nat);
            let s = slot(q, level as nat);
            lemma_mul_order(s as int, d as int, cap as int);
            if s != d {
                assert(q % pow2(level as nat + 5) < count);
            } else {
                assert(lookup(r, q, level as nat) == lookup(new_child, q, lv));
                if level == 5 {
                    lemma_pow2_5();
                    assert(lookup(new_child, q, lv) == lookup(leaf, q, 0));
                } else if low > 0 {
                    assert(lookup(**node, q, level as nat) == lookup(*ch@[d as int]->0, q, lv));
                } else {
                    assert(q % cap < 32);
                }
            }
        }
    }
    r
}

/// The 32 values of the leaf that holds `index`.
fn leaf_at<T>(node: &Node<T>, index: usize, level: u32, Ghost(count): Ghost<nat>) -> (r: Vec<Rc<T>>)
    requires
        wf_node(*node, level as nat, count),
        index as nat % 32 == 0,
        index as nat % pow2(level as nat + 5) + 32 <= count,
        level <= 60,
    ensures
        r@.len() == 32,
        forall|k: int| 0 <= k < 32 ==> *#[trigger] r@[k] == lookup(*node, (index + k) as nat, level as nat),
    decreases level,
{
    match node {
        Node::Leaf(vals) => {
            proof {
                lemma_pow2_5();
                assert forall|k: int| 0 <= k < 32 implies *#[trigger] vals@[k] == lookup(*node, (index + k) as nat, level as nat) by {
                    lemma_fundamental_div_mod(index as int, 32);
                    vstd::arithmetic::div_mod::lemma_mod_multiples_vanish((index / 32) as int, k, 32);
                    lemma_small_mod(k as nat, 32);
                }
            }
            copy_values(vals)
        },
        Node::Branch(ch) => {
            let d = slot_of(index, level);
            let ghost cap = pow2(level as nat);
            let ghost lv = (level - 5) as nat;
            let ghost low = index as nat % cap;
            proof {
                lemma_split(index as nat, level as nat);
                lemma_pow2_ge_32(level as nat);
                lemma_child_of(index as nat, level as nat, count);
                lemma_low_aligned(index as nat, level as nat);
                lemma_aligned_gap(low, cap);
                lemma_mul_order(d as int, d as int, cap as int);
                assert(lv + 5 == level as nat);
            }
            let c = ch[d].as_ref().unwrap();
            let ghost cc = child_count(count, level as nat, d as int);
            proof {
                assert(low + 32 <= cc);
            }
            let r = leaf_at(&**c, index, level - 5, Ghost(cc));
            proof {
                assert forall|k: int| 0 <= k < 32 implies *#[trigger] r@[k] == lookup(*node, (index + k) as nat, level as nat) by {
                    lemma_same_slot(index as nat, k as nat, level as nat);
                    assert(lookup(*node, (index + k) as nat, level as nat) == lookup(**c, (index + k) as nat, lv));
                }
            }
            r
        },
    }
}

/// Indices in the same leaf share their slot at every branch level.
proof fn lemma_same_slot(index: nat, k: nat, level: nat)
    requires
        index as nat % 32 == 0,
        k < 32,
        level >= 5,
    ensures
        slot(index + k, level) == slot(index, level),
{
    lemma_pow2_adds((level - 5) as nat, 5);
    lemma_pow2_5();
    lemma_pow2_pos((level - 5) as nat);
    let p = pow2((level - 5) as nat);
    assert(pow2(level) == 32 * p);
    lemma_div_denominator((index + k) as int, 32, p as int);
    lemma_div_denominator(index as int, 32, p as int);
    lemma_fundamental_div_mod(index as int, 32);
    lemma_div_multiples_vanish_fancy((index / 32) as int, k as int, 32);
    lemma_div_multiples_vanish_fancy((index / 32) as int, 0, 32);
}

/// The trie without its last leaf, which starts at `index`; `None` when
/// that leaf was its only content.
fn pop_tail_in<T>(level: u32, node: &Rc<Node<T>>, index: usize, Ghost(count): Ghost<nat>) -> (r: Option<Rc<Node<T>>>)
    requires
        level >= 5,
        level <= 60,
        level % 5 == 0,
        wf_node(**node, level as nat, count),
        count >= 32,
        index as nat % pow2(level as nat + 5) == count - 32,
        index as nat % 32 == 0,
    ensures
        r is None <==> count == 32,
        r matches Some(n) ==> wf_node(*n, level as nat, (count - 32) as nat) && forall|q: nat|
            q % pow2(level as nat + 5) < count - 32 ==> #[trigger] lookup(*n, q, level as nat)
                == lookup(**node, q, level as nat),
    decreases level,
{
    let ch = match &**node {
        Node::Branch(ch) => ch,
        Node::Leaf(_) => {
            proof {
                assert(false);
            }
            return None;
        },
    };
    let d = slot_of(index, level);
    let ghost cap = pow2(level as nat);
    let ghost low = index as nat % cap;
    let ghost lv = (level - 5) as nat;
    proof {
        lemma_split(index as nat, level as nat);
        lemma_pow2_ge_32(level as nat);
        lemma_low_aligned(index as nat, level as nat);
        lemma_aligned_gap(low, cap);
        lemma_mul_order(d as int, d as int, cap as int);
        assert(lv + 5 == level as nat);
        assert(count - 32 == cap * d + low);
        assert(ch@[d as int] is Some);
        assert(child_count(count, level as nat, d as int) == low + 32);
    }
    let mut nch = copy_children(ch);
    let ghost new_child: Option<Rc<Node<T>>>;
    if level == 5 {
        proof {
            lemma_pow2_5();
            lemma_small_mod(low, 32);
            assert(low == 0);
        }
        nch.set(d, None);
        proof {
            new_child = None;
        }
    } else {
        let c = ch[d].as_ref().unwrap();
        let ghost cc = child_count(count, level as nat, d as int);
        proof {
            lemma_small_mod(low, cap);
            vstd::arithmetic::div_mod::lemma_mod_mod(index as int, cap as int, 32);
            assert(lv + 5 == level as nat);
        }
        let nc = pop_tail_in(level - 5, c, index, Ghost(cc));
        proof {
            new_child = nc;
        }
        nch.set(d, nc);
    }
    proof {
        assert(nch@[d as int] == new_child);
        assert(new_child is None <==> low == 0);
        assert forall|j: int| 0 <= j < 32 implies {
            &&& (#[trigger] nch@[j] is Some <==> j * cap < count - 32)
            &&& (nch@[j] matches Some(c) ==> wf_node(*c, lv, child_count((count - 32) as nat, level as nat, j)))
        } by {
            lemma_mul_order(j, d as int, cap as int);
            if j < d {
                assert(child_count((count - 32) as nat, level as nat, j) == child_count(count, level as nat, j));
            }
            if j == d && low > 0 {
                assert(child_count((count - 32) as nat, level as nat, j) == low);
            }
        }
    }
    if !any_child(&nch) {
        proof {
            assert(nch@[0] is None);
            lemma_mul_order(0, d as int, cap as int);
        }
        return None;
    }
    let r = Node::Branch(Rc::new(nch));
    proof {
        assert(exists|j: int| 0 <= j < nch@.len() && #[trigger] nch@[j] is Some);
        let jj = choose|j: int| 0 <= j < nch@.len() && #[trigger] nch@[j] is Some;
        lemma_mul_order(jj, 0, cap as int);
        assert(count > 32);
        assert(wf_node(r, level as nat, (count - 32) as nat));
        assert forall|q: nat| q % pow2(level as nat + 5) < count - 32 implies #[trigger] lookup(
            r,
            q,
            level as nat,
        ) == lookup(**node, q, level as nat) by {
            lemma_split(q, level as nat);
            let s = slot(q, level as nat);
            lemma_mul_order(s as int, d as int, cap as int);
            if s == d {
                assert(low > 0);
                assert(lookup(r, q, level as nat) == lookup(*new_child->0, q, lv));
                assert(lookup(**node, q, level as nat) == lookup(*ch@[d as int]->0, q, lv));
            }
        }
    }
    Some(Rc::new(r))
}

/// A persistent vector with 32-way structural sharing.
pub struct PersistentVec<T> {
    len: usize,
    shift: u32,
    root: Option<Rc<Node<T>>>,
    tail: Rc<Vec<Rc<T>>>,
}

impl<T> View for PersistentVec<T> {
    type V = Seq<T>;

    closed spec fn view(&self) -> Seq<T> {
        let off = tail_offset_of(self.len as nat);
        Seq::new(
            self.len as nat,
            |i: int|
                if i < off {
                    match self.root {
                        Some(r) => lookup(*r, i as nat, self.shift as nat),
                        None => arbitrary(),
                    }
                } else {
                    *self.tail@[i - off]
                },
        )
    }
}

impl<T> PersistentVec<T> {
    /// Layout of the vector: the tail holds the values past the last full
    /// leaf, the trie holds the rest.
    #[verifier::type_invariant]
    spec fn inv(self) -> bool {
        let off = tail_offset_of(self.len as nat);
        &&& self.tail@.len() == self.len - off
        &&& self.shift % 5 == 0
        &&& 5 <= self.shift <= 60
        &&& match self.root {
            None => off == 0 && self.shift == 5,
            Some(r) => off > 0 && wf_node(*r, self.shift as nat, off) && off <= pow2(
                self.shift as nat + 5,
            ),
        }
    }

    /// The number of index bits consumed above the leaves: 5 for a trie of
    /// one level of leaves, 5 more for each level of branches above.
    pub closed spec fn height(self) -> nat {
        self.shift as nat
    }

    /// An empty vector.
    pub fn new() -> (r: Self)
        ensures
            r@ == Seq::<T>::empty(),
            r.height() == 5,
    {
        let r = PersistentVec { len: 0, shift: 5, root: None, tail: Rc::new(Vec::new()) };
        assert(r@ =~= Seq::<T>::empty());
        r
    }

    /// Number of values.
    pub fn len(&self) -> (n: usize)
        ensures
            n == self@.len(),
    {
        self.len
    }

    /// Whether there are no values.
    pub fn is_empty(&self) -> (b: bool)
        ensures
            b == (self@.len() == 0),
    {
        self.len == 0
    }

    fn tail_offset(&self) -> (off: usize)
        ensures
            off == tail_offset_of(self.len as nat),
    {
        if self.len < 32 {
            0
        } else {
            ((self.len - 1) / 32) * 32
        }
    }

    /// The value at `index`, or `None` past the end.
    pub fn get(&self, index: usize) -> (r: Option<&T>)
        ensures
            r is Some <==> index < self@.len(),
            r matches Some(v) ==> *v == self@[index as int],
    {
        proof {
            use_type_invariant(self);
        }
        if index >= self.len {
            return None;
        }
        let off = self.tail_offset();
        if index >= off {
            return Some(&*self.tail[index - off]);
        }
        let root = self.root.as_ref().unwrap();
        proof {
            lemma_small_mod(index as nat, pow2(self.shift as nat + 5));
        }
        Some(get_in(&**root, index, self.shift, Ghost(off as nat)))
    }

    /// A vector with the value at `index` replaced, or `None` past the end.
    pub fn assoc(&self, index: usize, value: T) -> (r: Option<Self>)
        ensures
            r is Some <==> index < self@.len(),
            r matches Some(v) ==> v@ == self@.update(index as int, value),
    {
        proof {
            use_type_invariant(self);
        }
        if index >= self.len {
            return None;
        }
        let off = self.tail_offset();
        if index >= off {
            let mut nt = copy_values(&self.tail);
            nt.set(index - off, Rc::new(value));
            let r = PersistentVec {
                len: self.len,
                shift: self.shift,
                root: match &self.root {
                    Some(rt) => Some(Rc::clone(rt)),
                    None => None,
                },
                tail: Rc::new(nt),
            };
            assert(r@ =~= self@.update(index as int, value));
            return Some(r);
        }
        let root = self.root.as_ref().unwrap();
        proof {
            lemma_small_mod(index as nat, pow2(self.shift as nat + 5));
        }
        let v = Rc::new(value);
        let new_root = assoc_in(root, index, v, self.shift, Ghost(off as nat));
        let r = PersistentVec {
            len: self.len,
            shift: self.shift,
            root: Some(Rc::new(new_root)),
            tail: Rc::clone(&self.tail),
        };
        proof {
            assert forall|i: int| 0 <= i < self@.len() implies #[trigger] r@[i] == self@.update(
                index as int,
                value,
            )[i] by {
                if i < off {
                    lemma_small_mod(i as nat, pow2(self.shift as nat + 5));
                }
            }
        }
        assert(r@ =~= self@.update(index as int, value));
        Some(r)
    }

    /// The root after moving a full tail leaf into the trie, and its shift.
    fn push_tail(&self, tail_node: Node<T>) -> (r: (Rc<Node<T>>, u32))
        requires
            self.inv(),
            wf_node(tail_node, 0, 32),
            self.tail@.len() == 32,
        ensures
            r.1 % 5 == 0,
            5 <= r.1 <= 60,
            tail_offset_of(self.len as nat) + 32 <= pow2(r.1 as nat + 5),
            wf_node(*r.0, r.1 as nat, tail_offset_of(self.len as nat) + 32),
            forall|q: nat|
                q < tail_offset_of(self.len as nat) + 32 ==> #[trigger] lookup(
                    *r.0,
                    q,
                    r.1 as nat,
                ) == if q < tail_offset_of(self.len as nat) {
                    lookup(*self.root->0, q, self.shift as nat)
                } else {
                    lookup(tail_node, q, 0)
                },
    {
        let off = self.tail_offset();
        proof {
            lemma_pow2_5();
            lemma_pow2_ge_32(self.shift as nat);
            lemma_pow2_adds(self.shift as nat, 5);
        }
        match &self.root {
            None => {
                let mut children: Vec<Option<Rc<Node<T>>>> = empty_children();
                children.set(0, Some(Rc::new(tail_node)));
                let r = Node::Branch(Rc::new(children));
                proof {
                    assert forall|j: int| 0 <= j < 32 implies {
                        &&& (#[trigger] children@[j] is Some <==> j * pow2(5) < 32)
                        &&& (children@[j] matches Some(c) ==> wf_node(
                            *c,
                            0,
                            child_count(32, 5, j),
                        ))
                    } by {}
                    assert(wf_node(r, 5, 32));
                    assert forall|q: nat| q < 32 implies #[trigger] lookup(r, q, 5) == lookup(tail_node, q, 0) by {
                        lemma_small_mod(q, 32);
                        vstd::arithmetic::div_mod::lemma_basic_div(q as int, 32);
                        lemma_small_mod(0, 32);
                        assert(slot(q, 5) == 0);
                    }
                }
                (Rc::new(r), 5)
            },
            Some(root) => {
                let grow = if self.shift < 59 {
                    proof {
                        vstd::bits::lemma_u64_pow2_no_overflow(self.shift as nat + 5);
                        vstd::bits::lemma_u64_shl_is_mul(1, (self.shift + 5) as u64);
                    }
                    let capacity: u64 = 1u64 << ((self.shift + 5) as u64);
                    (off as u64) >= capacity
                } else {
                    proof {
                        vstd::arithmetic::power2::lemma_pow2_strictly_increases(64, self.shift as nat + 5);
                        assert(pow2(64) == 0x1_0000_0000_0000_0000) by {
                            lemma2_to64();
                            vstd::arithmetic::power2::lemma2_to64_rest();
                        }
                    }
                    false
                };
                if grow {
                    let np = new_path(self.shift, tail_node);
                    let mut children: Vec<Option<Rc<Node<T>>>> = empty_children();
                    children.set(0, Some(Rc::clone(root)));
                    children.set(1, Some(Rc::new(np)));
                    let ns = self.shift + 5;
                    let r = Node::Branch(Rc::new(children));
                    proof {
                        let cap = pow2(self.shift as nat + 5);
                        let lv = self.shift as nat;
                        lemma_pow2_adds(ns as nat, 5);
                        lemma_pow2_ge_32(ns as nat);
                        assert(ns as nat == lv + 5);
                        assert(pow2(ns as nat) == cap);
                        assert(off == cap);
                        assert forall|j: int| 0 <= j < 32 implies {
                            &&& (#[trigger] children@[j] is Some <==> j * cap < off + 32)
                            &&& (children@[j] matches Some(c) ==> wf_node(
                                *c,
                                lv,
                                child_count((off + 32) as nat, ns as nat, j),
                            ))
                        } by {
                            lemma_mul_order(j, 1, cap as int);
                            lemma_mul_order(j, 0, cap as int);
                            if j == 0 {
                                assert(child_count((off + 32) as nat, ns as nat, j) == cap);
                            }
                            if j == 1 {
                                assert(child_count((off + 32) as nat, ns as nat, j) == 32);
                            }
                        }
                        assert(((ns - 5) as nat) == lv);
                        assert(wf_node(r, ns as nat, (off + 32) as nat));
                        assert forall|q: nat| q < off + 32 implies #[trigger] lookup(r, q, ns as nat)
                            == if q < off {
                            lookup(*self.root->0, q, self.shift as nat)
                        } else {
                            lookup(tail_node, q, 0)
                        } by {
                            lemma_pow2_pos(ns as nat);
                            if q < off {
                                vstd::arithmetic::div_mod::lemma_basic_div(q as int, cap as int);
                                lemma_small_mod(0, 32);
                                assert(slot(q, ns as nat) == 0);
                                assert(lookup(r, q, ns as nat) == lookup(*self.root->0, q, lv));
                            } else {
                                vstd::arithmetic::div_mod::lemma_div_multiples_vanish_fancy(1, (q - cap) as int, cap as int);
                                vstd::arithmetic::div_mod::lemma_mod_multiples_vanish(1, (q - cap) as int, cap as int);
                                lemma_small_mod(1, 32);
                                lemma_small_mod((q - cap) as nat, cap);
                                assert(slot(q, ns as nat) == 1);
                                assert(q % cap == q - cap);
                                assert(lookup(r, q, ns as nat) == lookup(np, q, lv));
                            }
                        }
                        assert(off + 32 <= pow2(ns as nat + 5));
                    }
                    (Rc::new(r), ns)
                } else {
                    proof {
                        lemma_small_mod(off as nat, pow2(self.shift as nat + 5));
                        assert(off + 32 <= pow2(self.shift as nat + 5)) by {
                            vstd::arithmetic::div_mod::lemma_mod_multiples_basic(pow2(self.shift as nat) as int, 32);
                        }
                    }
                    let nr = push_tail_in(self.shift, root, tail_node, off, Ghost(off as nat));
                    proof {
                        assert forall|q: nat| q < off + 32 implies #[trigger] lookup(nr, q, self.shift as nat)
                            == if q < off {
                            lookup(*self.root->0, q, self.shift as nat)
                        } else {
                            lookup(tail_node, q, 0)
                        } by {
                            lemma_small_mod(q, pow2(self.shift as nat + 5));
                        }
                    }
                    (Rc::new(nr), self.shift)
                }
            },
        }
    }

    /// A vector with `value` appended.
    pub fn push(&self, value: T) -> (r: Self)
        requires
            self@.len() < usize::MAX,
        ensures
            r@ == self@.push(value),
    {
        proof {
            use_type_invariant(self);
            lemma_pow2_5();
        }
        let off = self.tail_offset();
        if self.tail.len() < 32 {
            let mut nt = copy_values(&self.tail);
            nt.push(Rc::new(value));
            let r = PersistentVec {
                len: self.len + 1,
                shift: self.shift,
                root: match &self.root {
                    Some(rt) => Some(Rc::clone(rt)),
                    None => None,
                },
                tail: Rc::new(nt),
            };
            proof {
                lemma_tail_offset_same(self.len as nat);
            }
            assert(r@ =~= self@.push(value));
            return r;
        }
        let tail_node = Node::Leaf(Rc::clone(&self.tail));
        let (new_root, new_shift) = self.push_tail(tail_node);
        let mut nt: Vec<Rc<T>> = Vec::new();
        nt.push(Rc::new(value));
        let r = PersistentVec { len: self.len + 1, shift: new_shift, root: Some(new_root), tail: Rc::new(nt) };
        proof {
            lemma_tail_offset_next(self.len as nat);
            assert forall|i: int| 0 <= i < r@.len() implies #[trigger] r@[i] == self@.push(value)[i] by {
                if i < off + 32 && i >= off {
                    lemma_small_mod((i - off) as nat, 32);
                    vstd::arithmetic::div_mod::lemma_mod_multiples_vanish((off / 32) as int, i - off, 32);
                    lemma_fundamental_div_mod(off as int, 32);
                }
            }
        }
        assert(r@ =~= self@.push(value));
        r
    }

    /// A vector without its last value, or `None` when empty.
    pub fn pop(&self) -> (r: Option<Self>)
        ensures
            r is Some <==> self@.len() > 0,
            r matches Some(v) ==> v@ == self@.drop_last(),
            r matches Some(v) ==> v.height() == (if v@.len() <= 32 { 5 } else { self.height() }),
    {
        proof {
            use_type_invariant(self);
            lemma_pow2_5();
        }
        if self.len == 0 {
            return None;
        }
        let new_len = self.len - 1;
        if self.tail.len() > 1 {
            let mut nt: Vec<Rc<T>> = Vec::new();
            let mut i: usize = 0;
            let n = self.tail.len() - 1;
            while i < n
                invariant
                    n == self.tail@.len() - 1,
                    i <= n,
                    nt@ == self.tail@.subrange(0, i as int),
                decreases n - i,
            {
                nt.push(Rc::clone(&self.tail[i]));
                i = i + 1;
                assert(nt@ =~= self.tail@.subrange(0, i as int));
            }
            let r = PersistentVec {
                len: new_len,
                shift: self.shift,
                root: match &self.root {
                    Some(rt) => Some(Rc::clone(rt)),
                    None => None,
                },
                tail: Rc::new(nt),
            };
            proof {
                lemma_tail_offset_prev(self.len as nat);
                if new_len <= 32 {
                    lemma_short_no_trie(self.len as nat);
                    assert(self.root is None);
                    assert(self.shift == 5);
                }
            }
            assert(r@ =~= self@.drop_last());
            return Some(r);
        }
        if new_len == 0 {
            let r = Self::new();
            assert(r@ =~= self@.drop_last());
            return Some(r);
        }
        let off = self.tail_offset();
        let new_off = off - 32;
        proof {
            lemma_tail_offset_back(self.len as nat);
        }
        let root = self.root.as_ref().unwrap();
        proof {
            lemma_small_mod(new_off as nat, pow2(self.shift as nat + 5));
            lemma_pow2_ge_32(self.shift as nat);
        }
        let leaf = leaf_at(&**root, new_off, self.shift, Ghost(off as nat));
        let new_root = pop_tail_in(self.shift, root, new_off, Ghost(off as nat));
        let new_shift = if new_root.is_some() { self.shift } else { 5 };
        let r = PersistentVec { len: new_len, shift: new_shift, root: new_root, tail: Rc::new(leaf) };
        proof {
            assert forall|i: int| 0 <= i < r@.len() implies #[trigger] r@[i] == self@.drop_last()[i] by {
                if i < new_off {
                    lemma_small_mod(i as nat, pow2(self.shift as nat + 5));
                } else {
                    assert(*leaf@[i - new_off] == lookup(*self.root->0, (new_off + (i - new_off)) as nat, self.shift as nat));
                }
            }
            if new_root.is_some() {
                vstd::arithmetic::power2::lemma_pow2_strictly_increases(0, 1);
            }
        }
        assert(r@ =~= self@.drop_last());
        Some(r)
    }

    /// A vector holding the values of `values` in order.
    pub fn from_vec(values: Vec<T>) -> (r: Self)
        ensures
            r@ == values@,
    {
        let n = values.len();
        let mut rest = values;
        let ghost orig = rest@;
        let mut reversed: Vec<T> = Vec::new();
        while rest.len() > 0
            invariant
                rest@ + reversed@.reverse() == orig,
            decreases rest@.len(),
        {
            let x = rest.pop().unwrap();
            reversed.push(x);
            assert(rest@ + reversed@.reverse() =~= orig);
        }
        let mut r = Self::new();
        while reversed.len() > 0
            invariant
                r@ + reversed@.reverse() == orig,
                r@.len() + reversed@.len() == orig.len(),
                orig.len() == values@.len(),
                orig.len() == n,
            decreases reversed@.len(),
        {
            let x = reversed.pop().unwrap();
            r = r.push(x);
            assert(r@ + reversed@.reverse() =~= orig);
        }
        assert(r@ =~= orig);
        r
    }

    /// References to all values in order.
    pub fn iter(&self) -> (r: Vec<&T>)
        ensures
            r@.len() == self@.len(),
            forall|i: int| 0 <= i < r@.len() ==> *#[trigger] r@[i] == self@[i],
    {
        let mut r: Vec<&T> = Vec::new();
        let mut i: usize = 0;
        while i < self.len
            invariant
                i <= self@.len(),
                self.len == self@.len(),
                r@.len() == i,
                forall|j: int| 0 <= j < i ==> *#[trigger] r@[j] == self@[j],
            decreases self@.len() - i,
        {
            r.push(self.get(i).unwrap());
            i = i + 1;
        }
        r
    }

    /// The values after the last full leaf, in order.
    pub fn tail_slice(&self) -> (r: &[Rc<T>])
        ensures
            r@.len() == self@.len() - tail_offset_of(self@.len()),
            forall|k: int| 0 <= k < r@.len() ==> *#[trigger] r@[k] == self@[tail_offset_of(self@.len()) + k],
    {
        proof {
            use_type_invariant(self);
        }
        self.tail.as_slice()
    }
}

proof fn lemma_tail_offset_same(len: nat)
    requires
        len - tail_offset_of(len) < 32,
    ensures
        tail_offset_of(len + 1) == tail_offset_of(len),
{
}

proof fn lemma_tail_offset_next(len: nat)
    requires
        len - tail_offset_of(len) == 32,
    ensures
        tail_offset_of(len + 1) == tail_offset_of(len) + 32,
        tail_offset_of(len + 1) == len,
{
}

#[verifier::spinoff_prover]
proof fn lemma_tail_offset_prev(len: nat)
    requires
        len - tail_offset_of(len) > 1,
    ensures
        tail_offset_of((len - 1) as nat) == tail_offset_of(len),
{
}

proof fn lemma_tail_offset_back(len: nat)
    requires
        len >= 2,
        len - tail_offset_of(len) == 1,
    ensures
        tail_offset_of(len) >= 32,
        tail_offset_of((len - 1) as nat) == tail_offset_of(len) - 32,
        tail_offset_of(len) % 32 == 0,
{
}

impl<T> Default for PersistentVec<T> {
    fn default() -> (r: Self)
        ensures
            r@ == Seq::<T>::empty(),
    {
        Self::new()
    }
}

impl<T> Clone for PersistentVec<T> {
    fn clone(&self) -> (r: Self)
        ensures
            r@ == self@,
    {
        proof {
            use_type_invariant(self);
        }
        PersistentVec {
            len: self.len,
            shift: self.shift,
            root: match &self.root {
                Some(rt) => Some(Rc::clone(rt)),
                None => None,
            },
            tail: Rc::clone(&self.tail),
        }
    }
}


/// Popping what was just pushed gives the vector back.
pub proof fn law_pop_undoes_push<T>(s: Seq<T>, v: T)
    ensures
        s.push(v).drop_last() == s,
        s.push(v).len() == s.len() + 1,
        s.push(v)[s.len() as int] == v,
{
    assert(s.push(v).drop_last() =~= s);
}

/// Reading back a write: after `assoc(i, v)` index `i` holds `v`, every
/// other index holds what it held, and the length is unchanged.
pub proof fn law_get_after_assoc<T>(s: Seq<T>, i: int, v: T, j: int)
    requires
        0 <= i < s.len(),
        0 <= j < s.len(),
        j != i,
    ensures
        s.update(i, v)[i] == v,
        s.update(i, v)[j] == s[j],
        s.update(i, v).len() == s.len(),
{
}

/// Pushing keeps every earlier element in place.
pub proof fn law_push_keeps_prefix<T>(s: Seq<T>, v: T, j: int)
    requires
        0 <= j < s.len(),
    ensures
        s.push(v)[j] == s[j],
{
}

} // verus!
