//! The decoded transaction record an execution runs under. The engine
//! treats it as context: signature validity is outside its
//! responsibility.

use vstd::prelude::*;
use crate::address::Address;
use crate::word::Word;

verus! {

/// One decoded transaction.
#[derive(Clone, Debug)]
pub struct Transaction {
    /// Nonce.
    pub nonce: Word,
    /// Gas price.
    pub gas_price: Word,
    /// Start gas.
    pub start_gas: Word,
    /// Recipient; absent for a contract creation.
    pub to: Option<Address>,
    /// Transferred value.
    pub value: Word,
    /// Payload bytes; used as code when the recipient runs.
    pub data: Vec<u8>,
    /// The standardised V field of the signature.
    pub v: Word,
    /// The R field of the signature.
    pub r: Word,
    /// The S field of the signature.
    pub s: Word,
}

/// The configuration marker of the proof-of-work consensus a
/// transaction pool can run under. It carries no parameters.
#[derive(Clone, Copy, Debug, PartialEq, Eq, Structural)]
pub struct EthashConfiguration;

impl EthashConfiguration {
    pub fn new() -> (r: EthashConfiguration)
        ensures
            r == EthashConfiguration,
    {
        EthashConfiguration
    }
}

} // verus!
