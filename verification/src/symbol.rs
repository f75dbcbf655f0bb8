//! Symbol interning: each distinct name is stored once and stands for a
//! small integer id.

use vstd::prelude::*;
use crate::text::{decimal_text, push_decimal, push_str_chars};

verus! {

/// A symbol: the index of its name in an [`Interner`].
#[derive(Debug, Clone, Copy, PartialEq, Eq, Structural, PartialOrd, Ord, Hash)]
pub struct Id(u32);

impl Id {
    /// The raw index.
    pub closed spec fn raw(self) -> u32 {
        self.0
    }

    /// The id with the given raw index.
    pub fn new(index: u32) -> (r: Self)
        ensures
            r.raw() == index,
    {
        Id(index)
    }

    /// The raw index.
    pub fn as_u32(self) -> (r: u32)
        ensures
            r == self.raw(),
    {
        self.0
    }

    /// The raw index as a `usize`.
    pub fn as_usize(self) -> (r: usize)
        ensures
            r == self.raw(),
    {
        self.0 as usize
    }
}

/// The table of interned names.
pub struct Interner {
    strings: Vec<String>,
    gensym_counter: u64,
}

/// No name occurs twice.
pub open spec fn distinct_names(s: Seq<Seq<char>>) -> bool {
    forall|i: int, j: int| 0 <= i < j < s.len() ==> #[trigger] s[i] != #[trigger] s[j]
}

/// The name generated for `prefix` and counter value `n`: the prefix,
/// two underscores and `n` in decimal.
pub open spec fn gensym_name(prefix: Seq<char>, n: u64) -> Seq<char> {
    prefix + seq!['_', '_'] + decimal_text(n as nat)
}

impl View for Interner {
    type V = Seq<Seq<char>>;

    /// The interned names; a symbol's id is its name's position.
    closed spec fn view(&self) -> Seq<Seq<char>> {
        self.strings@.map_values(|s: String| s@)
    }
}

impl Interner {
    #[verifier::type_invariant]
    spec fn inv(self) -> bool {
        &&& distinct_names(self@)
        &&& self@.len() <= 0x1_0000_0000
    }

    /// The counter that numbers generated symbols.
    pub closed spec fn counter(self) -> u64 {
        self.gensym_counter
    }

    /// An empty interner.
    pub fn new() -> (r: Self)
        ensures
            r@ == Seq::<Seq<char>>::empty(),
            r.counter() == 0,
            distinct_names(r@),
    {
        let r = Interner { strings: Vec::new(), gensym_counter: 0 };
        assert(r@ =~= Seq::<Seq<char>>::empty());
        r
    }

    /// The position of `name`, if it is interned.
    fn find(&self, name: &String) -> (r: Option<usize>)
        ensures
            match r {
                Some(i) => i < self@.len() && self@[i as int] == name@,
                None => !self@.contains(name@),
            },
    {
        let mut i: usize = 0;
        while i < self.strings.len()
            invariant
                i <= self.strings@.len(),
                self@ == self.strings@.map_values(|s: String| s@),
                forall|j: int| 0 <= j < i ==> #[trigger] self@[j] != name@,
            decreases self.strings@.len() - i,
        {
            if self.strings[i] == *name {
                return Some(i);
            }
            i = i + 1;
        }
        proof {
            if self@.contains(name@) {
                let j = choose|j: int| 0 <= j < self@.len() && self@[j] == name@;
                assert(self@[j] != name@);
            }
        }
        None
    }

    /// The symbol for `name`, interning it if it is new.
    pub fn intern(&mut self, name: &str) -> (r: Id)
        requires
            old(self)@.contains(name@) || old(self)@.len() <= u32::MAX,
        ensures
            final(self).counter() == old(self).counter(),
            old(self)@.contains(name@) ==> final(self)@ == old(self)@,
            !old(self)@.contains(name@) ==> final(self)@ == old(self)@.push(name@),
            r.raw() < final(self)@.len(),
            final(self)@[r.raw() as int] == name@,
            !old(self)@.contains(name@) ==> r.raw() == old(self)@.len(),
            distinct_names(final(self)@),
    {
        proof {
            use_type_invariant(&*self);
        }
        let target = name.to_owned();
        match self.find(&target) {
            Some(i) => Id(i as u32),
            None => {
                let n = self.strings.len();
                let ghost before = self@;
                let mut strings: Vec<String> = Vec::new();
                std::mem::swap(&mut strings, &mut self.strings);
                strings.push(target);
                let ghost after = strings@.map_values(|s: String| s@);
                proof {
                    assert(after =~= before.push(name@));
                    assert forall|i: int, j: int| 0 <= i < j < after.len() implies #[trigger] after[i] != #[trigger] after[j] by {
                        if j == n {
                            assert(before.contains(before[i]));
                        }
                    }
                }
                self.strings = strings;
                Id(n as u32)
            },
        }
    }

    /// The name of a symbol of this interner.
    pub fn resolve(&self, id: Id) -> (r: String)
        requires
            (id.raw() as int) < self@.len(),
        ensures
            r@ == self@[id.raw() as int],
    {
        self.strings[id.0 as usize].clone()
    }

    /// The symbol for `name`, if it is interned.
    pub fn get(&self, name: &str) -> (r: Option<Id>)
        ensures
            match r {
                Some(id) => (id.raw() as int) < self@.len() && self@[id.raw() as int] == name@,
                None => !self@.contains(name@),
            },
            distinct_names(self@),
    {
        proof {
            use_type_invariant(self);
        }
        let target = name.to_owned();
        match self.find(&target) {
            Some(i) => Some(Id(i as u32)),
            None => None,
        }
    }

    /// The number of interned names.
    pub fn len(&self) -> (r: usize)
        ensures
            r == self@.len(),
            distinct_names(self@),
    {
        proof {
            use_type_invariant(self);
        }
        self.strings.len()
    }

    /// Whether no name is interned.
    pub fn is_empty(&self) -> (r: bool)
        ensures
            r == (self@.len() == 0),
    {
        self.strings.len() == 0
    }

    /// A fresh symbol named by the prefix (`G` when none is given), two
    /// underscores and the value of a counter that then moves on by one
    /// (wrapping around).
    pub fn gensym(&mut self, prefix: Option<&str>) -> (r: Id)
        requires
            old(self)@.len() <= u32::MAX,
        ensures
            ({
                let p = match prefix {
                    Some(p) => p@,
                    None => seq!['G'],
                };
                let name = gensym_name(p, old(self).counter());
                &&& final(self).counter() == (if old(self).counter() == u64::MAX { 0 } else { (old(self).counter() + 1) as u64 })
                &&& old(self)@.contains(name) ==> final(self)@ == old(self)@
                &&& !old(self)@.contains(name) ==> final(self)@ == old(self)@.push(name)
                &&& r.raw() < final(self)@.len()
                &&& final(self)@[r.raw() as int] == name
                &&& !old(self)@.contains(name) ==> r.raw() == old(self)@.len()
            }),
            distinct_names(final(self)@),
    {
        proof {
            use_type_invariant(&*self);
        }
        let current = self.gensym_counter;
        self.gensym_counter = current.wrapping_add(1);
        let mut name = String::new();
        match prefix {
            Some(p) => push_str_chars(&mut name, p),
            None => push_str_chars(&mut name, "G"),
        }
        push_str_chars(&mut name, "__");
        push_decimal(&mut name, current);
        proof {
            reveal_strlit("G");
            reveal_strlit("__");
            let p = match prefix {
                Some(p) => p@,
                None => seq!['G'],
            };
            assert(name@ =~= gensym_name(p, current));
        }
        self.intern(name.as_str())
    }
}

impl Default for Interner {
    fn default() -> (r: Self)
        ensures
            r@ == Seq::<Seq<char>>::empty(),
            r.counter() == 0,
            distinct_names(r@),
    {
        Interner::new()
    }
}

/// Interning is idempotent and injective: interning a name twice gives the
/// same symbol, and distinct names get distinct symbols, because no name
/// is stored twice.
pub proof fn law_intern_injective(names: Seq<Seq<char>>, i: int, j: int)
    requires
        distinct_names(names),
        0 <= i < names.len(),
        0 <= j < names.len(),
    ensures
        (names[i] == names[j]) == (i == j),
{
}

} // verus!
