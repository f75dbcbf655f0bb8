//! Checks on concrete values of the properties the library states.

use lona::binary::{Binary, Error};
use lona::chunk::{ConstantPoolFullError, UpvalueSource};
use lona::error_context::{ArityExpectation, TypeExpectation};
use lona::fnv::FnvHasher;
use lona::hamt::{Hamt, HamtKey};
use lona::integer::{BigNum, Integer};
use lona::opcode::{
    decode_a, decode_b, decode_bx, decode_c, decode_op, decode_sbx, encode_abc, encode_abx,
    encode_asbx, rk_constant, rk_index, rk_is_constant, rk_register, Opcode,
};
use lona::pvec::PersistentVec;
use lona::ratio::Ratio;
use lona::source::{Entry, Registry};
use lona::span::Span;
use lona::string::HeapStr;
use lona::symbol::Interner;
use lona::value::Kind;
use std::hash::{Hash, Hasher};

/// A key whose hash the test chooses.
#[derive(Clone, Debug, PartialEq, Eq)]
struct Forced {
    id: u32,
    hash: u64,
}

impl HamtKey for Forced {
    type Id = (u32, u64);

    fn key_id(&self) -> (u32, u64) {
        (self.id, self.hash)
    }

    fn id_hash(id: (u32, u64)) -> u64 {
        let mut hasher = FnvHasher::new();
        hasher.write_bytes(&id.1.to_le_bytes());
        hasher.finish_hash()
    }

    fn hash_key(&self) -> u64 {
        Self::id_hash(self.key_id())
    }

    fn same_key(&self, other: &Self) -> bool {
        self == other
    }
}

#[test]
fn hamt_get_after_insert_and_remove() {
    let mut m: Hamt<u64, u64> = Hamt::new();
    for i in 0..500_u64 {
        m = m.insert(i, i * 3);
    }
    let m2 = m.insert(7, 1000);
    assert_eq!(m2.get(&7), Some(&1000));
    assert_eq!(m2.get(&8), Some(&24));
    assert_eq!(m2.len(), 500);
    let m3 = m2.remove(&7);
    assert_eq!(m3.get(&7), None);
    assert_eq!(m3.get(&9), Some(&27));
    assert_eq!(m3.len(), 499);
    assert_eq!(m.get(&7), Some(&21));
}

#[test]
fn hamt_remove_undoes_insert() {
    let mut m: Hamt<i64, i64> = Hamt::new();
    for i in -50..50_i64 {
        m = m.insert(i, -i);
    }
    let m2 = m.insert(1000, 1).remove(&1000);
    assert_eq!(m2.len(), m.len());
    for i in -50..50_i64 {
        assert_eq!(m2.get(&i), Some(&-i));
    }
    assert!(!m2.contains_key(&1000));
}

#[test]
fn hamt_remove_everything() {
    let mut m: Hamt<u32, u32> = Hamt::new();
    for i in 0..300_u32 {
        m = m.insert(i, i);
    }
    for i in 0..300_u32 {
        m = m.remove(&i);
        assert_eq!(m.len(), (299 - i) as usize);
    }
    assert!(m.is_empty());
    assert!(m.iter().is_empty());
}

#[test]
fn hamt_iter_lists_each_key_once() {
    let mut m: Hamt<u64, u64> = Hamt::new();
    for i in 0..200_u64 {
        m = m.insert(i * 7919, i);
    }
    let mut keys: Vec<u64> = m.keys().into_iter().copied().collect();
    keys.sort();
    keys.dedup();
    assert_eq!(keys.len(), 200);
    let mut values: Vec<u64> = m.values().into_iter().copied().collect();
    values.sort();
    assert_eq!(values, (0..200_u64).collect::<Vec<u64>>());
}

#[test]
fn hamt_collision_split_by_a_third_hash() {
    // Two keys share a hash; a third hash agrees with it on the low five
    // bits only, so it reaches the collision node and splits it.
    let a = Forced { id: 1, hash: 0x41 };
    let b = Forced { id: 2, hash: 0x41 };
    let h = Forced::id_hash((0, 0x41));
    let mut other = 0_u64;
    let mut found = false;
    let mut x = 0x42_u64;
    while !found {
        let hx = Forced::id_hash((0, x));
        if hx & 31 == h & 31 && hx != h {
            other = x;
            found = true;
        }
        x += 1;
    }
    let c = Forced { id: 3, hash: other };
    let m: Hamt<Forced, &str> = Hamt::new();
    let m = m.insert(a.clone(), "a").insert(b.clone(), "b").insert(c.clone(), "c");
    assert_eq!(m.len(), 3);
    assert_eq!(m.get(&a), Some(&"a"));
    assert_eq!(m.get(&b), Some(&"b"));
    assert_eq!(m.get(&c), Some(&"c"));
    let m = m.remove(&a);
    assert_eq!(m.get(&b), Some(&"b"));
    assert_eq!(m.get(&c), Some(&"c"));
    assert_eq!(m.len(), 2);
}

#[test]
fn hamt_string_and_integer_keys_hash_like_std() {
    let mut h = FnvHasher::new();
    "abc".hash(&mut h);
    assert_eq!(String::from("abc").hash_key(), h.finish());
    let mut h = FnvHasher::new();
    42_i32.hash(&mut h);
    assert_eq!(42_i32.hash_key(), h.finish());
}

#[test]
fn pvec_pop_undoes_push() {
    let mut v: PersistentVec<u32> = PersistentVec::new();
    for i in 0..100 {
        v = v.push(i);
    }
    let w = v.push(100).pop().unwrap();
    assert_eq!(w.len(), 100);
    for i in 0..100 {
        assert_eq!(w.get(i as usize), Some(&i));
    }
}

#[test]
fn pvec_get_after_assoc() {
    let mut v: PersistentVec<u32> = PersistentVec::new();
    for i in 0..40 {
        v = v.push(i);
    }
    let w = v.assoc(33, 7).unwrap();
    assert_eq!(w.get(33), Some(&7));
    assert_eq!(w.get(32), Some(&32));
    assert_eq!(v.get(33), Some(&33));
    assert!(v.assoc(40, 1).is_none());
}

#[test]
fn opcode_round_trips() {
    for byte in 0_u8..=255 {
        match Opcode::from_u8(byte) {
            Some(op) => {
                assert!(byte <= Opcode::MAX);
                assert_eq!(op as u8, byte);
                let w = encode_abc(op, 3, 200, 7);
                assert_eq!(decode_op(w), Some(op));
                assert_eq!((decode_a(w), decode_b(w), decode_c(w)), (3, 200, 7));
                let w = encode_abx(op, 9, 0xBEEF);
                assert_eq!((decode_a(w), decode_bx(w)), (9, 0xBEEF));
                let w = encode_asbx(op, 1, -2);
                assert_eq!(decode_sbx(w), -2);
                assert_eq!(w >> 16, 0xFFFE);
            },
            None => assert!(byte > Opcode::MAX),
        }
    }
    assert_eq!(encode_abc(Opcode::Add, 1, 2, 3), 0x0302_0107);
}

#[test]
fn rk_operands_never_coincide() {
    for i in 0_u8..=127 {
        let r = rk_register(i).unwrap();
        let c = rk_constant(i).unwrap();
        assert_ne!(r, c);
        assert!(!rk_is_constant(r));
        assert!(rk_is_constant(c));
        assert_eq!(rk_index(r), i);
        assert_eq!(rk_index(c), i);
    }
}

#[test]
fn symbol_interning_is_injective() {
    let mut interner = Interner::new();
    let a = interner.intern("a");
    let b = interner.intern("b");
    assert_eq!(interner.intern("a"), a);
    assert_ne!(a, b);
    assert_eq!(interner.len(), 2);
    let g0 = interner.gensym(None);
    let g1 = interner.gensym(Some("tmp"));
    assert_eq!(interner.resolve(g0), "G__0");
    assert_eq!(interner.resolve(g1), "tmp__1");
    assert_eq!(interner.get("tmp__1"), Some(g1));
}

#[test]
fn line_col_counts_characters_not_bytes() {
    let entry = Entry::new("t".to_string(), "é\nxé y".to_string());
    assert_eq!(entry.line_col(0), (1, 1));
    assert_eq!(entry.line_col(1), (1, 2));
    assert_eq!(entry.line_col(2), (1, 2));
    assert_eq!(entry.line_col(3), (2, 1));
    assert_eq!(entry.line_col(4), (2, 2));
    assert_eq!(entry.line_col(6), (2, 3));
    assert_eq!(entry.line_col(7), (2, 4));
}

#[test]
fn registry_hands_out_ids_in_order() {
    let mut registry = Registry::new();
    for i in 0..5_u32 {
        let id = registry.add(format!("s{i}"), String::new()).unwrap();
        assert_eq!(id.index(), i);
    }
    assert_eq!(registry.get(lona::source::Id::new(3)).unwrap().name, "s3");
}

#[test]
fn binary_errors_and_messages() {
    let owned = Binary::from_vec(vec![1, 2, 3]);
    assert_eq!(owned.set(3, 0), Err(Error::OutOfBounds));
    assert_eq!(owned.view().set(0, 0), Err(Error::ReadOnly));
    assert_eq!(owned.get(3), Ok(None));
    assert!(owned.slice(2, 2).is_none());
    assert_eq!(owned.slice(1, 2).unwrap().len(), 2);
    assert_eq!(Error::ReadOnly.message(), "binary buffer is read-only");
    assert_eq!(Error::Zombie.message(), "binary buffer has been transferred");
    assert_eq!(Error::OutOfBounds.message(), "index out of bounds");
    assert!(!owned.is_zombie());
}

#[test]
fn expectations_describe_themselves() {
    assert_eq!(TypeExpectation::Either(Kind::Integer, Kind::Bool).description(), "one of two types");
    assert!(TypeExpectation::Either(Kind::Integer, Kind::Bool).matches(Kind::Bool));
    assert!(TypeExpectation::Collection.matches(Kind::Nil));
    assert!(!TypeExpectation::Collection.matches(Kind::HashMap));
    assert!(TypeExpectation::MetaSupporting.matches(Kind::HashSet));
    assert_eq!(ArityExpectation::AtLeast(0).description(), "at least 0");
    assert_eq!(ArityExpectation::Range { min: 0, max: 255 }.description(), "0 to 255");
    assert!(ArityExpectation::Range { min: 3, max: 3 }.matches(3));
}

#[test]
fn heap_str_debug_escapes() {
    let s = HeapStr::new("a\"b\\c\nd\te");
    assert_eq!(s.debug_text(), "\"a\\\"b\\\\c\\nd\\te\"");
    assert_eq!(format!("{:?}", s.as_str()), s.debug_text());
}

#[test]
fn integer_division_truncates_toward_zero() {
    let q = Integer::from_i64(-7).checked_div(&Integer::from_i64(2)).unwrap();
    assert_eq!(q, Integer::from_i64(-3));
    let r = Integer::from_i64(-7).checked_rem(&Integer::from_i64(2)).unwrap();
    assert_eq!(r, Integer::from_i64(-1));
    let r = Integer::from_i64(7).checked_rem(&Integer::from_i64(-2)).unwrap();
    assert_eq!(r, Integer::from_i64(1));
    let g = Integer::from_i64(-12).gcd(&Integer::from_i64(18));
    assert_eq!(g, Integer::from_i64(6));
}

#[test]
fn integer_big_values_print_and_compare() {
    let big = Integer::from_i64(i64::MIN).negated();
    assert_eq!(big.to_string(), "9223372036854775808");
    assert_eq!(big.negated().to_string(), "-9223372036854775808");
    assert_eq!(Integer::from_i64(i64::MIN).to_string(), "-9223372036854775808");
    let product = &big * &big;
    assert_eq!(product.to_string(), "85070591730234615865843651857942052864");
    assert!(product > big);
    assert_eq!(Integer::Big(BigNum::from_i64(-5)), Integer::from_i64(-5));
    assert!(Integer::Big(BigNum { negative: true, magnitude: vec![0, 0] }).is_zero());
}

#[test]
fn ratio_arithmetic_stays_in_lowest_terms() {
    let a = Ratio::from_i64(1, 6);
    let b = Ratio::from_i64(1, 3);
    let sum = &a + &b;
    assert_eq!(sum, Ratio::from_i64(1, 2));
    assert_eq!(&b - &a, a);
    assert_eq!(&a * &b, Ratio::from_i64(1, 18));
    assert_eq!(&a / &b, Ratio::from_i64(1, 2));
    assert_eq!(Ratio::from_i64(4, -6).to_string(), "-2/3");
    assert!(Ratio::from_i64(-1, 2) < Ratio::from_i64(1, 3));
    assert_eq!(Ratio::from_i64(-3, 4).recip(), Ratio::from_i64(-4, 3));
}

#[test]
fn spans_and_chunk_errors_print() {
    let span = Span::new(3, 9);
    assert_eq!(span.to_string(), "3..9");
    assert_eq!(span.len(), 6);
    assert_eq!(Span::new(9, 3).len(), 0);
    let err = ConstantPoolFullError::new(span);
    assert_eq!(err.to_string(), "too many constants in chunk (maximum 65535) at 3..9");
    assert_ne!(UpvalueSource::Local(1), UpvalueSource::ParentUpvalue(1));
}
