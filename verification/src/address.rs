//! Account identifiers: 20-byte addresses, held as three plain integer
//! fields so that equality and map lookups stay inside verified code,
//! plus the association maps the engine keys by address.

use vstd::prelude::*;
use crate::word::{nat_of_bytes_be, Word};

verus! {

/// A 20-byte account identifier. `hi` holds bytes 0..8 (big-endian),
/// `mid` bytes 8..16, and `lo` bytes 16..20.
#[derive(Clone, Copy, Debug, PartialEq, Eq, Structural)]
pub struct Address {
    pub hi: u64,
    pub mid: u64,
    pub lo: u32,
}

impl Address {
    /// The 160-bit unsigned value of the identifier.
    pub open spec fn as_nat(self) -> nat {
        (self.hi * 0x1_0000_0000_0000_0000_0000_0000nat + self.mid * 0x1_0000_0000nat
            + self.lo) as nat
    }

    pub open spec fn spec_zero() -> Address {
        Address { hi: 0, mid: 0, lo: 0 }
    }

    pub fn zero() -> (r: Address)
        ensures
            r == Self::spec_zero(),
    {
        Address { hi: 0, mid: 0, lo: 0 }
    }

    /// The identifier denoted by exactly 20 big-endian bytes.
    pub fn from_bytes(bytes: &Vec<u8>) -> (r: Address)
        requires
            bytes@.len() == 20,
        ensures
            r.hi == nat_of_bytes_be(bytes@.subrange(0, 8)),
            r.mid == nat_of_bytes_be(bytes@.subrange(8, 16)),
            r.lo == nat_of_bytes_be(bytes@.subrange(16, 20)),
    {
        let hi = pack_be_u64(bytes, 0, 8);
        let mid = pack_be_u64(bytes, 8, 16);
        let lo = pack_be_u64(bytes, 16, 20);
        proof {
            crate::word::lemma_nat_of_bytes_bound(bytes@.subrange(16, 20));
            crate::word::lemma_pow_byte_values();
        }
        Address { hi, mid, lo: lo as u32 }
    }

    /// The identifier widened to a word: the same 160-bit value.
    pub fn to_word(&self) -> (r: Word)
        ensures
            r.as_nat() == self.as_nat(),
    {
        Word {
            l0: (self.mid % 0x1_0000_0000) * 0x1_0000_0000 + (self.lo as u64),
            l1: (self.hi % 0x1_0000_0000) * 0x1_0000_0000 + self.mid / 0x1_0000_0000,
            l2: self.hi / 0x1_0000_0000,
            l3: 0,
        }
    }
}

/// Packs bytes `from..to` of `bytes` (fewer than nine of them) into a
/// big-endian unsigned integer.
fn pack_be_u64(bytes: &Vec<u8>, from: usize, to: usize) -> (r: u64)
    requires
        from <= to <= bytes@.len(),
        to - from <= 8,
    ensures
        r == nat_of_bytes_be(bytes@.subrange(from as int, to as int)),
{
    let mut acc: u64 = 0;
    let mut i: usize = from;
    while i < to
        invariant
            from <= i <= to <= bytes@.len(),
            to - from <= 8,
            acc == nat_of_bytes_be(bytes@.subrange(from as int, i as int)),
            acc < crate::word::pow_byte((i - from) as nat),
        decreases to - i,
    {
        proof {
            crate::word::lemma_pow_byte_mono((i - from) as nat, 7);
            crate::word::lemma_pow_byte_values();
            assert(crate::word::pow_byte(7) * 256 == crate::word::pow_byte(8)) by {
                crate::word::lemma_pow_byte_adds(7, 1);
                assert(crate::word::pow_byte(1) == 256) by {
                    reveal_with_fuel(crate::word::pow_byte, 2);
                }
            }
        }
        acc = acc * 256 + (bytes[i] as u64);
        proof {
            assert(bytes@.subrange(from as int, i + 1 as int).drop_last() =~= bytes@.subrange(
                from as int,
                i as int,
            ));
            crate::word::lemma_nat_of_bytes_bound(bytes@.subrange(from as int, i + 1 as int));
        }
        i += 1;
    }
    acc
}

/// An association list from addresses to values; a later entry for the
/// same address shadows an earlier one, so its mathematical reading is
/// the map built by inserting the entries in order.
pub struct AddrMap<V> {
    pub entries: Vec<(Address, V)>,
}

/// The map denoted by an entry sequence, inserting in order.
pub open spec fn spec_assoc_map<V>(s: Seq<(Address, V)>) -> Map<Address, V>
    decreases s.len(),
{
    if s.len() == 0 {
        Map::empty()
    } else {
        spec_assoc_map(s.drop_last()).insert(s.last().0, s.last().1)
    }
}

/// The entries with a given address removed, keeping order.
pub open spec fn spec_assoc_remove<V>(s: Seq<(Address, V)>, k: Address) -> Seq<(Address, V)>
    decreases s.len(),
{
    if s.len() == 0 {
        s
    } else if s.last().0 == k {
        spec_assoc_remove(s.drop_last(), k)
    } else {
        spec_assoc_remove(s.drop_last(), k).push(s.last())
    }
}

/// Dropping every entry of one address reads as removing that address
/// from the map.
proof fn lemma_assoc_remove<V>(s: Seq<(Address, V)>, k: Address)
    ensures
        spec_assoc_map(spec_assoc_remove(s, k)) == spec_assoc_map(s).remove(k),
    decreases s.len(),
{
    if s.len() == 0 {
        assert(spec_assoc_map(spec_assoc_remove(s, k)) =~= spec_assoc_map(s).remove(k));
    } else {
        lemma_assoc_remove(s.drop_last(), k);
        if s.last().0 == k {
            assert(spec_assoc_map(s).remove(k) =~= spec_assoc_map(s.drop_last()).remove(k));
        } else {
            let t = spec_assoc_remove(s.drop_last(), k).push(s.last());
            assert(t.drop_last() =~= spec_assoc_remove(s.drop_last(), k));
            assert(t.last() == s.last());
            assert(spec_assoc_map(s).remove(k) =~= spec_assoc_map(
                spec_assoc_remove(s.drop_last(), k),
            ).insert(s.last().0, s.last().1));
        }
    }
}

impl<V> AddrMap<V> {
    /// The map this association list denotes.
    pub open spec fn view(self) -> Map<Address, V> {
        spec_assoc_map(self.entries@)
    }

    pub fn new() -> (r: AddrMap<V>)
        ensures
            r@ == Map::<Address, V>::empty(),
    {
        let r = AddrMap { entries: Vec::new() };
        proof {
            assert(r@ =~= Map::<Address, V>::empty());
        }
        r
    }

    /// The position of the entry that the map reading takes for `k`,
    /// if the address is bound at all.
    pub fn find(&self, k: &Address) -> (r: Option<usize>)
        ensures
            match r {
                Some(i) => self@.contains_key(*k) && i < self.entries@.len()
                    && self.entries@[i as int].0 == *k && self@[*k] == self.entries@[i as int].1,
                None => !self@.contains_key(*k),
            },
    {
        let mut i: usize = self.entries.len();
        proof {
            assert(self.entries@.take(i as int) =~= self.entries@);
        }
        while i > 0
            invariant
                i <= self.entries@.len(),
                spec_assoc_map(self.entries@).contains_key(*k) <==> spec_assoc_map(
                    self.entries@.take(i as int),
                ).contains_key(*k),
                spec_assoc_map(self.entries@).contains_key(*k) ==> spec_assoc_map(
                    self.entries@,
                )[*k] == spec_assoc_map(self.entries@.take(i as int))[*k],
            decreases i,
        {
            proof {
                assert(self.entries@.take(i as int).drop_last() =~= self.entries@.take(i - 1));
                assert(self.entries@.take(i as int).last() == self.entries@[i - 1]);
            }
            if self.entries[i - 1].0 == *k {
                return Some(i - 1);
            }
            i -= 1;
        }
        proof {
            assert(self.entries@.take(0) =~= Seq::<(Address, V)>::empty());
        }
        None
    }

    /// Whether the map binds `k`.
    pub fn contains(&self, k: &Address) -> (r: bool)
        ensures
            r <==> self@.contains_key(*k),
    {
        self.find(k).is_some()
    }

    /// Binds `k` to `v`, shadowing any earlier binding.
    pub fn insert(&mut self, k: Address, v: V)
        ensures
            final(self)@ == old(self)@.insert(k, v),
    {
        self.entries.push((k, v));
        proof {
            assert(self.entries@.drop_last() =~= old(self).entries@);
            assert(self.entries@.last() == (k, v));
        }
    }

    /// Drops every binding of `k`.
    pub fn remove(&mut self, k: &Address)
        ensures
            final(self)@ == old(self)@.remove(*k),
    {
        let ghost orig = self.entries@;
        let n = self.entries.len();
        let mut out: Vec<(Address, V)> = Vec::new();
        let mut i: usize = 0;
        while i < n
            invariant
                i <= n,
                n == orig.len(),
                self.entries@ == orig.skip(i as int),
                out@ == spec_assoc_remove(orig.take(i as int), *k),
            decreases n - i,
        {
            proof {
                assert(orig.take(i + 1 as int).drop_last() =~= orig.take(i as int));
                assert(orig.take(i + 1 as int).last() == orig[i as int]);
                assert(orig.skip(i as int)[0] == orig[i as int]);
                assert(orig.skip(i as int).remove(0) =~= orig.skip(i + 1 as int));
            }
            let entry = self.entries.remove(0);
            if entry.0 == *k {
            } else {
                out.push(entry);
            }
            i += 1;
        }
        proof {
            assert(orig.take(n as int) =~= orig);
            lemma_assoc_remove(orig, *k);
        }
        self.entries = out;
    }

    pub fn entry_count(&self) -> (r: usize)
        ensures
            r == self.entries@.len(),
    {
        self.entries.len()
    }
}

} // verus!
