//! Persistent storage: a mapping from word keys to word values scoped
//! to one account address, fronted by a write-once commit protocol.
//! A slot, once committed, may never be committed again; reading an
//! unset slot yields the zero word.

use vstd::prelude::*;
use crate::address::Address;
use crate::errors::StorageError;
use crate::word::Word;

verus! {

/// The slot an entry sequence binds `k` to, the latest entry winning.
pub open spec fn spec_slot(s: Seq<(Word, Word)>, k: Word) -> Option<Word>
    decreases s.len(),
{
    if s.len() == 0 {
        None
    } else if s.last().0 == k {
        Some(s.last().1)
    } else {
        spec_slot(s.drop_last(), k)
    }
}

/// An address-scoped persistent store. Entries hold the slots already
/// committed; the commit protocol admits one commit per slot.
pub struct Storage {
    pub address: Address,
    pub entries: Vec<(Word, Word)>,
}

impl Storage {
    /// Whether the slot `k` has been committed.
    pub open spec fn spec_committed(self, k: Word) -> bool {
        spec_slot(self.entries@, k) is Some
    }

    /// The value a read of `k` returns: the committed value, or the
    /// zero word for a slot never written.
    pub open spec fn spec_read(self, k: Word) -> nat {
        match spec_slot(self.entries@, k) {
            Some(v) => v.as_nat(),
            None => 0,
        }
    }

    /// A fresh store bound to one account address.
    pub fn new(address: Address) -> (r: Storage)
        ensures
            r.address == address,
            forall|k: Word| !r.spec_committed(k),
            r.entries@.len() == 0,
    {
        Storage { address, entries: Vec::new() }
    }

    /// The position of the committed entry for `k`, if any.
    fn find(&self, k: &Word) -> (r: Option<usize>)
        ensures
            match r {
                Some(i) => self.spec_committed(*k) && i < self.entries@.len()
                    && self.entries@[i as int].0 == *k && spec_slot(self.entries@, *k) == Some(
                    self.entries@[i as int].1,
                ),
                None => !self.spec_committed(*k),
            },
    {
        let mut i: usize = self.entries.len();
        proof {
            assert(self.entries@.take(i as int) =~= self.entries@);
        }
        while i > 0
            invariant
                i <= self.entries@.len(),
                spec_slot(self.entries@, *k) == spec_slot(self.entries@.take(i as int), *k),
            decreases i,
        {
            proof {
                assert(self.entries@.take(i as int).drop_last() =~= self.entries@.take(i - 1));
                assert(self.entries@.take(i as int).last() == self.entries@[i - 1]);
            }
            if self.entries[i - 1].0 == *k {
                return Some(i - 1);
            }
            i -= 1;
        }
        None
    }

    /// Reads slot `key`: the committed value, or the zero word for a
    /// slot never written. The in-memory store meets every read
    /// precondition, so a read never fails here.
    pub fn read(&self, key: &Word) -> (r: Result<Word, StorageError>)
        ensures
            r is Ok,
            r matches Ok(v) ==> v.as_nat() == self.spec_read(*key),
    {
        match self.find(key) {
            Some(i) => Ok(self.entries[i].1),
            None => Ok(Word::zero()),
        }
    }

    /// Whether a write to slot `key` would be permissible: the
    /// "require" check of the commit protocol.
    pub fn require_uncommitted(&self, key: &Word) -> (r: bool)
        ensures
            r <==> !self.spec_committed(*key),
    {
        self.find(key).is_none()
    }

    /// Writes slot `key` under the commit protocol: the write commits
    /// if and only if the slot was never committed before; a second
    /// commit on the same slot fails with `AlreadyCommitted` and
    /// changes nothing.
    pub fn write(&mut self, key: &Word, value: &Word) -> (r: Result<(), StorageError>)
        ensures
            old(self).spec_committed(*key) ==> r == Result::<(), StorageError>::Err(
                StorageError::AlreadyCommitted,
            ) && *final(self) == *old(self),
            !old(self).spec_committed(*key) ==> r is Ok && final(self).entries@ == old(
                self,
            ).entries@.push((*key, *value)),
            final(self).address == old(self).address,
            r is Ok <==> !old(self).spec_committed(*key),
            r is Ok ==> final(self).spec_read(*key) == value.as_nat() && forall|k2: Word|
                k2 != *key ==> final(self).spec_read(k2) == old(self).spec_read(k2)
                    && (final(self).spec_committed(k2) <==> old(self).spec_committed(k2)),
    {
        if self.require_uncommitted(key) {
            self.entries.push((*key, *value));
            proof {
                assert(self.entries@.drop_last() =~= old(self).entries@);
                assert(self.entries@.last() == (*key, *value));
            }
            Ok(())
        } else {
            Err(StorageError::AlreadyCommitted)
        }
    }
}

/// The storage round-trip law. In a store where slot `k` was never
/// committed, a read of `k` returns the zero word; after a first write
/// of `v` to `k` commits, a read of `k` returns `v` and every other
/// slot reads as before; and a second commit on `k` is rejected with
/// `AlreadyCommitted`, whatever value it carries.
pub proof fn lemma_storage_round_trip(s: Storage, t: Storage, k: Word, v: Word)
    requires
        !s.spec_committed(k),
        t.entries@ == s.entries@.push((k, v)),
    ensures
        s.spec_read(k) == 0,
        t.spec_read(k) == v.as_nat(),
        t.spec_committed(k),
        forall|k2: Word| k2 != k ==> #[trigger] t.spec_read(k2) == s.spec_read(k2),
{
    assert(t.entries@.drop_last() =~= s.entries@);
    assert(t.entries@.last() == (k, v));
}

} // verus!
