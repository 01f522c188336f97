use fvm::errors::{StorageError, VMError};
use fvm::storage::Storage;
use fvm::transaction::Transaction;
use fvm::vm::VM;
use fvm::word::Word;

fn w(x: u64) -> Word {
    Word::from_u64(x)
}

fn all_ones() -> Word {
    Word { l0: u64::MAX, l1: u64::MAX, l2: u64::MAX, l3: u64::MAX }
}

#[test]
fn add_wraps_at_the_boundary() {
    // (2^256 - 1) + 1 == 0.
    let mut code = vec![0x7f];
    code.extend(vec![0xff; 32]);
    code.extend(vec![0x60, 0x01, 0x01]);
    let mut vm = VM::new(code);
    assert!(vm.execute().is_ok());
    assert_eq!(vm.stack_pointer, 1);
    assert_eq!(vm.registers[0], w(0));
}

#[test]
fn add_then_sub_returns_first_operand() {
    // Stack [b, a + b]; SUB computes (a + b) - b == a, with a at the
    // wraparound boundary.
    let mut code = vec![0x60, 0x07]; // b
    code.push(0x7f); // a = 2^256 - 1
    code.extend(vec![0xff; 32]);
    code.extend(vec![0x60, 0x07, 0x01, 0x03]); // b; ADD; SUB
    let mut vm = VM::new(code);
    assert!(vm.execute().is_ok());
    assert_eq!(vm.stack_pointer, 1);
    assert_eq!(vm.registers[0], all_ones());
}

#[test]
fn push_then_pop_restores_stack_pointer() {
    for n in 1u8..=32 {
        let mut code = vec![0x5f + n];
        code.extend(vec![0xab; n as usize]);
        code.push(0x50);
        let mut vm = VM::new(code);
        assert!(vm.execute().is_ok());
        assert_eq!(vm.stack_pointer, 0);
    }
}

#[test]
fn storage_round_trip_and_double_commit() {
    let mut store = Storage::new(fvm::address::Address::zero());
    // A slot never written reads as the zero word.
    assert_eq!(store.read(&w(9)).unwrap(), w(0));
    // A first commit succeeds and reads back.
    assert!(store.write(&w(9), &w(77)).is_ok());
    assert_eq!(store.read(&w(9)).unwrap(), w(77));
    // A second commit on the same slot is rejected.
    assert_eq!(store.write(&w(9), &w(78)), Err(StorageError::AlreadyCommitted));
    assert_eq!(store.read(&w(9)).unwrap(), w(77));
    // Other slots are untouched.
    assert_eq!(store.read(&w(10)).unwrap(), w(0));
}

#[test]
fn log_two_topics_records_payload() {
    // Write the word 5 at offset 0, then LOG2 over 32 bytes with the
    // topic words 8 (popped first) and 7.
    let code = vec![
        0x60, 0x05, 0x60, 0x00, 0x52, // MSTORE
        0x60, 0x07, 0x60, 0x08, // topics
        0x60, 0x20, 0x60, 0x00, // length 32, offset 0
        0xa2,
    ];
    let mut vm = VM::new(code).with_simple_memory().with_random_address();
    assert!(vm.execute().is_ok());
    assert_eq!(vm.logs.len(), 1);
    let log = &vm.logs[0];
    assert_eq!(log.topics.len(), 2);
    assert_eq!(log.topics[0], w(8));
    assert_eq!(log.topics[1], w(7));
    assert_eq!(log.data.len(), 32);
    assert_eq!(log.data[31], 5);
    assert!(log.data[..31].iter().all(|b| *b == 0));
    assert_eq!(log.address, vm.address.unwrap());
}

#[test]
fn create_registers_one_account() {
    let mut vm = VM::new(vec![
        0x60, 0x03, // size 3
        0x60, 0x00, // storage start 0
        0x60, 0x2a, // identifier seed 42
        0xf0,
    ])
    .with_storage(fvm::address::Address::zero());
    if let Some(ref mut store) = vm.storage {
        assert!(store.write(&w(0), &w(0x60)).is_ok());
        assert!(store.write(&w(1), &w(0x2a)).is_ok());
        assert!(store.write(&w(2), &w(0x00)).is_ok());
    }
    assert!(vm.execute().is_ok());
    assert_eq!(vm.accounts.entries.len(), 1);
    assert_eq!(vm.account_code.entries.len(), 1);
    // RLP of the value 42 is the single byte 0x2a, so the derived
    // 20-byte identifier is 0x2a followed by nineteen zero bytes.
    let expected_id = fvm::address::Address { hi: 0x2a00_0000_0000_0000, mid: 0, lo: 0 };
    assert_eq!(vm.accounts.entries[0].0, expected_id);
    assert_eq!(vm.accounts.entries[0].1.id, expected_id);
    assert_eq!(vm.accounts.entries[0].1.version, 0);
    assert_eq!(vm.account_code.entries[0].0, expected_id);
    assert_eq!(vm.account_code.entries[0].1, vec![0x60, 0x2a, 0x00]);
}

#[test]
fn scenario_push_push_add() {
    let mut vm = VM::new(vec![0x60, 0x0a, 0x60, 0x0a, 0x01]);
    assert!(vm.execute().is_ok());
    assert_eq!(vm.registers[0], w(20));
    assert_eq!(vm.stack_pointer, 1);
}

#[test]
fn scenario_addmod() {
    let mut vm = VM::new(vec![0x60, 0x0d, 0x60, 0x03, 0x60, 0x05, 0x08]);
    assert!(vm.execute().is_ok());
    // (13 + 3) mod 5 == 1, the reduced form; the safety net pushes it
    // unchanged.
    assert_eq!(vm.registers[0], w(1));
    assert_eq!(vm.stack_pointer, 1);
}

#[test]
fn scenario_invalid_halts_without_rollback() {
    let mut vm = VM::new(vec![0x60, 0x01, 0xfe, 0x60, 0x02]);
    let r = vm.execute();
    assert_eq!(r, Err(VMError::InvalidInstruction));
    // The push before the INVALID is intact; nothing after it ran.
    assert_eq!(vm.stack_pointer, 1);
    assert_eq!(vm.registers[0], w(1));
    assert_eq!(vm.registers[1], w(0));
}

#[test]
fn unknown_bytes_fail_with_unknown_opcode() {
    for b in 0u16..=255 {
        let b = b as u8;
        if fvm::opcode::Opcode::decode(b).is_none() {
            let mut vm = VM::new(vec![b]);
            assert_eq!(vm.execute(), Err(VMError::UnknownOpcodeError));
            assert_eq!(vm.execute_one(), Err(VMError::UnknownOpcodeError));
            assert_eq!(vm.pc, 0);
        }
    }
}

#[test]
fn stack_underflow_is_reported() {
    let mut vm = VM::new(vec![0x01]);
    assert_eq!(vm.execute(), Err(VMError::StackUnderflow));
}

#[test]
fn stack_overflow_is_reported() {
    let mut code = Vec::new();
    for _ in 0..1025 {
        code.extend(vec![0x60, 0x01]);
    }
    let mut vm = VM::new(code);
    assert_eq!(vm.execute(), Err(VMError::StackOverflow));
    assert_eq!(vm.stack_pointer, 1024);
}

#[test]
fn missing_memory_is_reported() {
    let mut vm = VM::new(vec![0x60, 0x00, 0x51]);
    assert_eq!(vm.execute(), Err(VMError::MemoryError));
}

#[test]
fn missing_storage_is_reported() {
    let mut vm = VM::new(vec![0x60, 0x00, 0x54]);
    assert_eq!(vm.execute(), Err(VMError::MemoryError));
}

#[test]
fn double_commit_through_sstore() {
    let code = vec![0x60, 0x05, 0x60, 0x00, 0x55, 0x60, 0x06, 0x60, 0x00, 0x55];
    let mut vm = VM::new(code).with_storage(fvm::address::Address::zero());
    assert_eq!(vm.execute(), Err(VMError::StorageFailure(StorageError::AlreadyCommitted)));
    assert_eq!(vm.storage.as_ref().unwrap().read(&w(0)).unwrap(), w(5));
}

#[test]
fn budget_exhaustion_is_reported() {
    let mut vm = VM::new(vec![0x60, 0x01, 0x60, 0x02, 0x01]);
    assert_eq!(vm.execute_with_budget(1), Err(VMError::BudgetExhausted));
    let mut vm2 = VM::new(vec![0x60, 0x01, 0x60, 0x02, 0x01]);
    assert!(vm2.execute_with_budget(3).is_ok());
}

#[test]
fn call_depth_limit_is_reported() {
    // The created account's code pushes five zeros and calls itself,
    // so the nesting can only stop at the depth limit.
    let callee: Vec<u8> = vec![
        0x60, 0x00, 0x60, 0x00, 0x60, 0x00, 0x60, 0x00, 0x60, 0x2a, 0xf1,
    ];
    let mut code = vec![
        0x60, 0x0b, // size 11
        0x60, 0x00, // storage start 0
        0x60, 0x2a, // seed 42
        0xf0, // CREATE
        0x60, 0x00, 0x60, 0x00, 0x60, 0x00, 0x60, 0x00, 0x60, 0x2a, // call operands
        0xf1, // CALL
    ];
    code.push(0x00);
    let mut vm = VM::new(code)
        .with_simple_memory()
        .with_storage(fvm::address::Address::zero());
    if let Some(ref mut store) = vm.storage {
        for (i, b) in callee.iter().enumerate() {
            assert!(store.write(&w(i as u64), &w(*b as u64)).is_ok());
        }
    }
    assert_eq!(vm.execute(), Err(VMError::CallDepthExceeded));
}

#[test]
fn signed_division_rounds_toward_zero() {
    // Stack [2, -10]; SDIV computes -10 / 2 == -5.
    let code = vec![0x60, 0x02, 0x60, 0x0a, 0x60, 0x00, 0x03, 0x05];
    let mut vm = VM::new(code);
    assert!(vm.execute().is_ok());
    let minus_five = Word { l0: u64::MAX - 4, l1: u64::MAX, l2: u64::MAX, l3: u64::MAX };
    assert_eq!(vm.registers[0], minus_five);
}

#[test]
fn signed_remainder_follows_dividend() {
    // Stack [3, -10]; SMOD computes -10 smod 3 == -1.
    let code = vec![0x60, 0x03, 0x60, 0x0a, 0x60, 0x00, 0x03, 0x07];
    let mut vm = VM::new(code);
    assert!(vm.execute().is_ok());
    assert_eq!(vm.registers[0], all_ones());
}

#[test]
fn signed_comparison_orders_negatives_first() {
    // Stack [1, -1]; SLT asks whether 1 < -1 under the signed reading.
    let code = vec![0x60, 0x01, 0x60, 0x01, 0x60, 0x00, 0x03, 0x12];
    let mut vm = VM::new(code);
    assert!(vm.execute().is_ok());
    assert_eq!(vm.registers[0], w(0));
    // Stack [1, -1]; SGT asks whether 1 > -1 under the signed reading.
    let code2 = vec![0x60, 0x01, 0x60, 0x01, 0x60, 0x00, 0x03, 0x13];
    let mut vm2 = VM::new(code2);
    assert!(vm2.execute().is_ok());
    assert_eq!(vm2.registers[0], w(1));
}

#[test]
fn byte_extracts_high_order_first() {
    // BYTE 31 of 0xabcd is the low-order byte 0xcd.
    let code = vec![0x61, 0xab, 0xcd, 0x60, 0x1f, 0x1a];
    let mut vm = VM::new(code);
    assert!(vm.execute().is_ok());
    assert_eq!(vm.registers[0], w(0xcd));
    // BYTE 30 of 0xabcd is 0xab.
    let code2 = vec![0x61, 0xab, 0xcd, 0x60, 0x1e, 0x1a];
    let mut vm2 = VM::new(code2);
    assert!(vm2.execute().is_ok());
    assert_eq!(vm2.registers[0], w(0xab));
    // An index past 31 yields zero.
    let code3 = vec![0x61, 0xab, 0xcd, 0x60, 0x20, 0x1a];
    let mut vm3 = VM::new(code3);
    assert!(vm3.execute().is_ok());
    assert_eq!(vm3.registers[0], w(0));
}

#[test]
fn signextend_widens_the_low_byte() {
    let code = vec![0x60, 0xff, 0x60, 0x00, 0x0b];
    let mut vm = VM::new(code);
    assert!(vm.execute().is_ok());
    assert_eq!(vm.registers[0], all_ones());
    // A positive byte stays as it is.
    let code2 = vec![0x60, 0x7f, 0x60, 0x00, 0x0b];
    let mut vm2 = VM::new(code2);
    assert!(vm2.execute().is_ok());
    assert_eq!(vm2.registers[0], w(0x7f));
}

#[test]
fn exp_is_a_byte_mask_selector() {
    // A selector of 32 or more leaves the base untouched.
    let code = vec![0x60, 0x05, 0x60, 0x28, 0x0a];
    let mut vm = VM::new(code);
    assert!(vm.execute().is_ok());
    assert_eq!(vm.registers[0], w(5));
    // A selector of zero composes the sign-extension of the low byte.
    let code2 = vec![0x60, 0xff, 0x60, 0x00, 0x0a];
    let mut vm2 = VM::new(code2);
    assert!(vm2.execute().is_ok());
    assert_eq!(vm2.registers[0], all_ones());
}

#[test]
fn sha3_of_the_empty_range_matches_the_vector() {
    // SHA3-256 of the empty input.
    let expected: Vec<u8> = vec![
        0xa7, 0xff, 0xc6, 0xf8, 0xbf, 0x1e, 0xd7, 0x66, 0x51, 0xc1, 0x47, 0x56, 0xa0, 0x61,
        0xd6, 0x62, 0xf5, 0x80, 0xff, 0x4d, 0xe4, 0x3b, 0x49, 0xfa, 0x82, 0xd8, 0x0a, 0x4b,
        0x80, 0xf8, 0x43, 0x4a,
    ];
    let code = vec![0x60, 0x00, 0x60, 0x00, 0x20];
    let mut vm = VM::new(code).with_simple_memory();
    assert!(vm.execute().is_ok());
    assert_eq!(vm.registers[0], Word::from_bytes_be(&expected));
}

#[test]
fn codecopy_persists_code_into_storage() {
    let code = vec![0x60, 0x02, 0x60, 0x00, 0x60, 0x07, 0x39];
    let mut vm = VM::new(code).with_storage(fvm::address::Address::zero());
    assert!(vm.execute().is_ok());
    let store = vm.storage.as_ref().unwrap();
    assert_eq!(store.read(&w(7)).unwrap(), w(0x60));
    assert_eq!(store.read(&w(8)).unwrap(), w(0x02));
    assert_eq!(store.read(&w(9)).unwrap(), w(0));
}

#[test]
fn return_pushes_the_memory_range_and_halts() {
    let code = vec![0x60, 0x05, 0x60, 0x00, 0x52, 0x60, 0x20, 0x60, 0x00, 0xf3, 0x60, 0x09];
    let mut vm = VM::new(code).with_simple_memory();
    assert!(vm.execute().is_ok());
    assert_eq!(vm.registers[0], w(5));
    assert_eq!(vm.pc, 12);
    // The trailing push never ran.
    assert_eq!(vm.stack_pointer, 1);
}

#[test]
fn suicide_removes_the_sender_account() {
    let sender = fvm::address::Address { hi: 1, mid: 2, lo: 3 };
    let mut vm = VM::new(vec![]);
    vm.accounts.insert(sender, fvm::vm::AccountRecord { id: sender, version: 0 });
    vm.account_code.insert(sender, vec![0x00]);
    let tx = Transaction {
        nonce: w(0),
        gas_price: w(0),
        start_gas: w(0),
        to: None,
        value: w(0),
        data: vec![0xff],
        v: w(0),
        r: w(0),
        s: w(0),
    };
    vm.set_instructions(tx, sender);
    assert!(vm.execute().is_ok());
    assert_eq!(vm.accounts.entries.len(), 0);
    assert_eq!(vm.account_code.entries.len(), 0);
}

#[test]
fn jump_redirects_and_jumpi_tests_zero() {
    // JUMP over an INVALID byte onto a JUMPDEST.
    let code = vec![0x60, 0x04, 0x56, 0xfe, 0x5b];
    let mut vm = VM::new(code);
    assert!(vm.execute().is_ok());
    // JUMPI with a zero check word takes the jump.
    let code2 = vec![0x60, 0x00, 0x60, 0x06, 0x57, 0xfe, 0x5b];
    let mut vm2 = VM::new(code2);
    assert!(vm2.execute().is_ok());
    // JUMPI with a nonzero check word falls through to the INVALID.
    let code3 = vec![0x60, 0x01, 0x60, 0x06, 0x57, 0xfe, 0x5b];
    let mut vm3 = VM::new(code3);
    assert_eq!(vm3.execute(), Err(VMError::InvalidInstruction));
}

#[test]
fn environment_opcodes_read_the_context() {
    // PC pushes the offset of the PC instruction itself.
    let mut vm = VM::new(vec![0x60, 0x01, 0x58]);
    assert!(vm.execute().is_ok());
    assert_eq!(vm.registers[1], w(2));
    // CODESIZE pushes the length of the code buffer.
    let mut vm2 = VM::new(vec![0x38]);
    assert!(vm2.execute().is_ok());
    assert_eq!(vm2.registers[0], w(1));
    // MSIZE reports the extent after a word write at offset zero.
    let mut vm3 = VM::new(vec![0x60, 0x05, 0x60, 0x00, 0x52, 0x59]).with_simple_memory();
    assert!(vm3.execute().is_ok());
    assert_eq!(vm3.registers[0], w(32));
    // GAS sums an empty gas table to zero.
    let mut vm4 = VM::new(vec![0x5a]);
    assert!(vm4.execute().is_ok());
    assert_eq!(vm4.registers[0], w(0));
    // ADDRESS pushes the engine's own address.
    let addr = fvm::address::Address { hi: 7, mid: 8, lo: 9 };
    let mut vm5 = VM::new(vec![0x30]).with_address(addr);
    assert!(vm5.execute().is_ok());
    assert_eq!(vm5.registers[0], addr.to_word());
}

#[test]
fn gas_counts_each_account_once() {
    let a = fvm::address::Address { hi: 1, mid: 0, lo: 0 };
    let b = fvm::address::Address { hi: 2, mid: 0, lo: 0 };
    let mut vm = VM::new(vec![0x5a]);
    vm.account_gas.insert(a, w(5));
    vm.account_gas.insert(b, w(10));
    // Rebinding an address shadows its earlier entry: only the latest
    // binding counts toward the total.
    vm.account_gas.insert(a, w(7));
    assert!(vm.execute().is_ok());
    assert_eq!(vm.registers[0], w(17));
}

#[test]
fn stepping_interface_reports_progress() {
    let mut vm = VM::new(vec![0x60, 0x01, 0x00]);
    assert!(vm.can_run());
    assert!(vm.is_done());
    assert_eq!(vm.get_pc(), 0);
    assert_eq!(vm.get_next_instruction(), Some(fvm::opcode::Opcode::Push(1)));
    assert!(vm.execute_one().is_ok());
    assert_eq!(vm.get_pc(), 2);
    assert_eq!(vm.get_next_instruction(), Some(fvm::opcode::Opcode::Stop));
    vm.increase_pc(1);
    assert_eq!(vm.get_pc(), 3);
    assert!(!vm.is_done());
    assert_eq!(vm.get_next_instruction(), None);
}

#[test]
fn execute_instruction_dispatches_one_decoded_opcode() {
    let mut vm = VM::new(vec![0x01]);
    vm.registers[0] = w(3);
    vm.registers[1] = w(2);
    vm.stack_pointer = 2;
    assert!(vm.execute_instruction(fvm::opcode::Opcode::Add).is_ok());
    assert_eq!(vm.registers[0], w(5));
    assert_eq!(vm.stack_pointer, 1);
}
