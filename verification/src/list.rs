//! Persistent singly linked lists built from cons cells.
//!
//! Prepending is constant time and the new list shares its tail with the
//! old one; no list is ever changed after it is built.

use std::rc::Rc;
use vstd::prelude::*;
use vstd::std_specs::cmp::PartialEqSpec;

use crate::text::{push_char, push_str_chars, spaced, ToText};

verus! {

/// One link of a list: an element and the rest of the list.
#[derive(Debug)]
struct ConsCell<T> {
    head: T,
    tail: List<T>,
}

/// A persistent, immutable linked list.
#[derive(Debug)]
pub struct List<T>(Option<Rc<ConsCell<T>>>);

impl<T> List<T> {
    /// The elements, first to last.
    pub closed spec fn elems(self) -> Seq<T>
        decreases self,
    {
        match self.0 {
            None => Seq::empty(),
            Some(cell) => seq![cell.head] + cell.tail.elems(),
        }
    }
}

impl<T> View for List<T> {
    type V = Seq<T>;

    open spec fn view(&self) -> Seq<T> {
        self.elems()
    }
}

impl<T> List<T> {
    /// The empty list.
    pub fn empty() -> (r: Self)
        ensures
            r@ == Seq::<T>::empty(),
    {
        List(None)
    }

    /// The list with `head` in front of this one; this list becomes its
    /// tail, shared and unchanged.
    pub fn cons(&self, head: T) -> (r: Self)
        ensures
            r@ == seq![head] + self@,
    {
        let tail = self.clone();
        List(Some(Rc::new(ConsCell { head, tail })))
    }

    /// The list of the vector's elements, in the vector's order.
    pub fn from_vec(values: Vec<T>) -> (r: Self)
        ensures
            r@ == values@,
    {
        let mut rest = values;
        let mut list = List(None);
        let ghost all = rest@;
        while rest.len() > 0
            invariant
                rest@ + list@ == all,
            decreases rest.len(),
        {
            let ghost before = rest@;
            let value = rest.pop().unwrap();
            proof {
                assert(before == rest@.push(value));
            }
            list = list.cons(value);
            proof {
                assert(rest@ + (seq![value] + list@.drop_first()) =~= before + list@.drop_first());
            }
        }
        assert(rest@ + list@ =~= list@);
        list
    }

    /// The first element, if there is one.
    pub fn first(&self) -> (r: Option<&T>)
        ensures
            match r {
                Some(x) => self@.len() > 0 && *x == self@[0],
                None => self@.len() == 0,
            },
    {
        match &self.0 {
            Some(cell) => Some(&cell.head),
            None => None,
        }
    }

    /// Everything after the first element (the empty list for the empty
    /// list). It is shared with this list, not copied.
    pub fn rest(&self) -> (r: Self)
        ensures
            r@ == (if self@.len() == 0 {
                Seq::<T>::empty()
            } else {
                self@.drop_first()
            }),
    {
        match &self.0 {
            Some(cell) => {
                proof {
                    assert((seq![cell.head] + cell.tail@).drop_first() =~= cell.tail@);
                }
                cell.tail.clone()
            },
            None => List(None),
        }
    }

    /// Whether the list has no elements.
    pub fn is_empty(&self) -> (r: bool)
        ensures
            r == (self@.len() == 0),
    {
        self.0.is_none()
    }

    /// The number of elements, counted by walking the list; a count that
    /// does not fit in `usize` stops at `usize::MAX`.
    pub fn len(&self) -> (r: usize)
        ensures
            r == (if self@.len() <= usize::MAX {
                self@.len()
            } else {
                usize::MAX as nat
            }),
    {
        let mut count: usize = 0;
        let mut current = self;
        loop
            invariant
                count <= usize::MAX,
                (if count as nat + current@.len() <= usize::MAX {
                    count as nat + current@.len()
                } else {
                    usize::MAX as nat
                }) == (if self@.len() <= usize::MAX {
                    self@.len()
                } else {
                    usize::MAX as nat
                }),
                count < usize::MAX || self@.len() >= usize::MAX,
            decreases current@.len(),
        {
            match &current.0 {
                Some(cell) => {
                    count = count.saturating_add(1);
                    current = &cell.tail;
                },
                None => {
                    return count;
                },
            }
        }
    }

    /// References to the elements, first to last.
    pub fn iter(&self) -> (r: Vec<&T>)
        ensures
            r@.len() == self@.len(),
            forall|i: int| 0 <= i < r@.len() ==> *#[trigger] r@[i] == self@[i],
    {
        let mut out: Vec<&T> = Vec::new();
        let mut current = self;
        loop
            invariant
                out@.len() + current@.len() == self@.len(),
                forall|i: int| 0 <= i < out@.len() ==> *#[trigger] out@[i] == self@[i],
                forall|i: int|
                    0 <= i < current@.len() ==> #[trigger] current@[i] == self@[out@.len() + i],
            decreases current@.len(),
        {
            match &current.0 {
                Some(cell) => {
                    proof {
                        assert(current@[0] == cell.head);
                        assert forall|i: int| 0 <= i < cell.tail@.len() implies #[trigger] cell.tail@[i]
                            == self@[out@.len() + 1 + i] by {
                            assert(current@[i + 1] == cell.tail@[i]);
                        }
                    }
                    out.push(&cell.head);
                    current = &cell.tail;
                },
                None => {
                    return out;
                },
            }
        }
    }
}

impl<T: ToText> List<T> {
    /// How the list prints: its elements' printed forms, separated by
    /// spaces, in parentheses.
    pub open spec fn text(&self) -> Seq<char> {
        seq!['('] + spaced(self@) + seq![')']
    }

    /// The printed form, such as `(1 2 3)`.
    pub fn to_string(&self) -> (r: String)
        ensures
            r@ == self.text(),
    {
        let mut out = String::new();
        push_char(&mut out, '(');
        let mut current = self;
        let ghost mut k: int = 0;
        let mut first = true;
        loop
            invariant
                0 <= k <= self@.len(),
                first == (k == 0),
                k + current@.len() == self@.len(),
                forall|i: int| 0 <= i < current@.len() ==> #[trigger] current@[i] == self@[k + i],
                out@ == seq!['('] + spaced(self@.take(k)),
            decreases current@.len(),
        {
            match &current.0 {
                Some(cell) => {
                    proof {
                        assert(current@[0] == cell.head);
                        assert forall|i: int| 0 <= i < cell.tail@.len() implies #[trigger] cell.tail@[i]
                            == self@[k + 1 + i] by {
                            assert(current@[i + 1] == cell.tail@[i]);
                        }
                        assert(self@.take(k + 1).drop_last() =~= self@.take(k));
                        assert(self@.take(k + 1).last() == cell.head);
                    }
                    if !first {
                        push_char(&mut out, ' ');
                    }
                    first = false;
                    let t = cell.head.to_text();
                    push_str_chars(&mut out, t.as_str());
                    proof {
                        if k == 0 {
                            assert(self@.take(1) =~= seq![cell.head]);
                            assert(spaced(self@.take(0)) =~= Seq::<char>::empty());
                        }
                        assert(out@ =~= seq!['('] + spaced(self@.take(k + 1)));
                        k = k + 1;
                    }
                    current = &cell.tail;
                },
                None => {
                    push_char(&mut out, ')');
                    proof {
                        assert(self@.take(k) =~= self@);
                    }
                    return out;
                },
            }
        }
    }
}

impl<T: ToText> ToText for List<T> {
    open spec fn text(&self) -> Seq<char> {
        seq!['('] + spaced(self@) + seq![')']
    }

    fn to_text(&self) -> (r: String) {
        self.to_string()
    }
}


impl<T> Clone for List<T> {
    /// Another handle on the same cells.
    fn clone(&self) -> (r: Self)
        ensures
            r@ == self@,
    {
        match &self.0 {
            Some(cell) => List(Some(Rc::clone(cell))),
            None => List(None),
        }
    }
}

impl<T> Default for List<T> {
    fn default() -> (r: Self)
        ensures
            r@ == Seq::<T>::empty(),
    {
        List(None)
    }
}

/// Two sequences of equal length whose elements are pairwise equal by
/// the element type's `==`.
pub open spec fn pointwise_eq<T: PartialEq>(a: Seq<T>, b: Seq<T>) -> bool {
    &&& a.len() == b.len()
    &&& forall|i: int| 0 <= i < a.len() ==> (#[trigger] a[i]).eq_spec(&b[i])
}

impl<T: PartialEq> PartialEq for List<T> {
    /// Lists are equal when they have the same length and their elements
    /// are pairwise equal.
    fn eq(&self, other: &Self) -> (r: bool) {
        let mut left = self;
        let mut right = other;
        let ghost mut k: int = 0;
        loop
            invariant
                0 <= k,
                k + left@.len() == self@.len(),
                k + right@.len() == other@.len(),
                forall|i: int| 0 <= i < left@.len() ==> #[trigger] left@[i] == self@[k + i],
                forall|i: int| 0 <= i < right@.len() ==> #[trigger] right@[i] == other@[k + i],
                T::obeys_eq_spec() ==> forall|i: int|
                    0 <= i < k ==> (#[trigger] self@[i]).eq_spec(&other@[i]),
            decreases left@.len(),
        {
            match (&left.0, &right.0) {
                (None, None) => {
                    return true;
                },
                (Some(a), Some(b)) => {
                    proof {
                        assert(left@[0] == a.head);
                        assert(right@[0] == b.head);
                        assert forall|i: int| 0 <= i < a.tail@.len() implies #[trigger] a.tail@[i]
                            == self@[k + 1 + i] by {
                            assert(left@[i + 1] == a.tail@[i]);
                        }
                        assert forall|i: int| 0 <= i < b.tail@.len() implies #[trigger] b.tail@[i]
                            == other@[k + 1 + i] by {
                            assert(right@[i + 1] == b.tail@[i]);
                        }
                    }
                    if a.head == b.head {
                        left = &a.tail;
                        right = &b.tail;
                        proof {
                            k = k + 1;
                        }
                    } else {
                        return false;
                    }
                },
                _ => {
                    return false;
                },
            }
        }
    }
}

impl<T: PartialEq> vstd::std_specs::cmp::PartialEqSpecImpl for List<T> {
    open spec fn obeys_eq_spec() -> bool {
        T::obeys_eq_spec()
    }

    open spec fn eq_spec(&self, other: &Self) -> bool {
        pointwise_eq(self@, other@)
    }
}

impl<T: Eq> Eq for List<T> {}

/// Taking the rest of a list just built by `cons` gives back the list it
/// was built on, and its first element is the one prepended.
pub proof fn law_rest_undoes_cons<T>(l: Seq<T>, x: T)
    ensures
        (seq![x] + l).drop_first() == l,
        (seq![x] + l)[0] == x,
        (seq![x] + l).len() == l.len() + 1,
{
    assert((seq![x] + l).drop_first() =~= l);
}

} // verus!
