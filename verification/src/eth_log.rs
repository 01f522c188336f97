//! Log records emitted by the LOG family of opcodes.

use vstd::prelude::*;
use crate::address::Address;
use crate::word::Word;

verus! {

/// One emitted log record: the emitting address, an opaque byte
/// payload read from memory, and an ordered list of topic words.
/// Created once per LOG opcode and immutable thereafter.
#[derive(Clone, Debug)]
pub struct Log {
    pub address: Address,
    pub data: Vec<u8>,
    pub topics: Vec<Word>,
}

impl Log {
    /// A record carries at most four topic words.
    pub open spec fn wf(self) -> bool {
        self.topics@.len() <= 4
    }
}

} // verus!
