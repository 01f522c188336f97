//! A verified stack-based bytecode interpreter in the style of the
//! Ethereum virtual machine: 256-bit words, a bounds-checked operand
//! stack of 1024 slots, byte-addressable volatile memory, an
//! address-scoped persistent store with a write-once commit protocol,
//! emitted log records, and an account table mutated by contract
//! creation and self-destruction.

pub mod account;
pub mod address;
pub mod errors;
pub mod eth_log;
pub mod memory;
pub mod opcode;
pub mod storage;
pub mod transaction;
pub mod vm;
pub mod word;
