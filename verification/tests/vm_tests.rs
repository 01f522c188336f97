use fvm::storage::Storage;
use fvm::vm::VM;
use fvm::word::Word;

fn w(x: u64) -> Word {
    Word::from_u64(x)
}

#[test]
fn test_create_vm() {
    let default_code = vec![0];
    let vm = VM::new(default_code);
    assert_eq!(vm.registers.len(), 1024);
}

#[test]
fn test_stop_opcode() {
    let default_code = vec![0];
    let mut vm = VM::new(default_code);
    assert!(vm.execute_one().is_ok())
}

#[test]
fn test_push_opcode() {
    let default_code = vec![0x60, 0xa];
    let mut vm = VM::new(default_code);
    let result = vm.execute_one();
    assert!(result.is_ok());
    assert_eq!(vm.registers[0], w(10));
}

#[test]
fn test_add_opcode() {
    let default_code = vec![0x60, 0xa, 0x60, 0xa, 0x01];
    let mut vm = VM::new(default_code);
    let result = vm.execute_one();
    assert!(result.is_ok());
    let result = vm.execute_one();
    assert!(result.is_ok());
    let result = vm.execute_one();
    assert!(result.is_ok());
    assert_eq!(vm.registers[0], w(20));
}

#[test]
fn test_sub_opcode() {
    let default_code = vec![0x60, 0xa, 0x60, 0xa, 0x03];
    let mut vm = VM::new(default_code);
    let result = vm.execute_one();
    assert!(result.is_ok());
    let result = vm.execute_one();
    assert!(result.is_ok());
    let result = vm.execute_one();
    assert!(result.is_ok());
    assert_eq!(vm.registers[0], w(0));
}

#[test]
fn test_mul_opcode() {
    let default_code = vec![0x60, 0xa, 0x60, 0xa, 0x02];
    let mut vm = VM::new(default_code);
    let result = vm.execute_one();
    assert!(result.is_ok());
    let result = vm.execute_one();
    assert!(result.is_ok());
    let result = vm.execute_one();
    assert!(result.is_ok());
    assert_eq!(vm.registers[0], w(100));
}

#[test]
fn test_div_opcode() {
    let default_code = vec![0x60, 0xa, 0x60, 0xa, 0x04];
    let mut vm = VM::new(default_code);
    let result = vm.execute_one();
    assert!(result.is_ok());
    let result = vm.execute_one();
    assert!(result.is_ok());
    let result = vm.execute_one();
    assert!(result.is_ok());
    assert_eq!(vm.registers[0], w(1));
}

#[test]
fn test_sdiv_opcode() {
    let default_code = vec![0x60, 0xa, 0x60, 0xa, 0x05];
    let mut vm = VM::new(default_code);
    let result = vm.execute_one();
    assert!(result.is_ok());
    let result = vm.execute_one();
    assert!(result.is_ok());
    let result = vm.execute_one();
    assert!(result.is_ok());
    assert_eq!(vm.registers[0], w(1));
}

#[test]
fn test_smod_opcode() {
    let default_code = vec![0x60, 0xa, 0x60, 0xb, 0x07];
    let mut vm = VM::new(default_code);
    let result = vm.execute_one();
    assert!(result.is_ok());
    let result = vm.execute_one();
    assert!(result.is_ok());
    let result = vm.execute_one();
    assert!(result.is_ok());
    assert_eq!(vm.registers[0], w(1));
}

#[test]
fn test_mod_opcode() {
    let default_code = vec![0x60, 0xa, 0x60, 0xb, 0x06];
    let mut vm = VM::new(default_code);
    let result = vm.execute_one();
    assert!(result.is_ok());
    let result = vm.execute_one();
    assert!(result.is_ok());
    let result = vm.execute_one();
    assert!(result.is_ok());
    assert_eq!(vm.registers[0], w(1));
}

#[test]
fn test_lt_opcode() {
    let default_code = vec![0x60, 0xa, 0x60, 0xb, 0x10];
    let mut vm = VM::new(default_code);
    let result = vm.execute_one();
    assert!(result.is_ok());
    let result = vm.execute_one();
    assert!(result.is_ok());
    let result = vm.execute_one();
    assert!(result.is_ok());
    assert_eq!(vm.registers[0], w(1));
}

#[test]
fn test_gt_opcode() {
    let default_code = vec![0x60, 0xa, 0x60, 0xb, 0x11];
    let mut vm = VM::new(default_code);
    let result = vm.execute_one();
    assert!(result.is_ok());
    let result = vm.execute_one();
    assert!(result.is_ok());
    let result = vm.execute_one();
    assert!(result.is_ok());
    assert_eq!(vm.registers[0], w(0));
}

#[test]
fn test_bitwise_and_opcode() {
    let default_code = vec![0x60, 0xa, 0x60, 0xb, 0x16];
    let mut vm = VM::new(default_code);
    let result = vm.execute_one();
    assert!(result.is_ok());
    let result = vm.execute_one();
    assert!(result.is_ok());
    let result = vm.execute_one();
    assert!(result.is_ok());
    assert_eq!(vm.registers[0], w(10));
}

#[test]
fn test_bitwise_or_opcode() {
    let default_code = vec![0x60, 0xa, 0x60, 0xb, 0x17];
    let mut vm = VM::new(default_code);
    let result = vm.execute_one();
    assert!(result.is_ok());
    let result = vm.execute_one();
    assert!(result.is_ok());
    let result = vm.execute_one();
    assert!(result.is_ok());
    assert_eq!(vm.registers[0], w(11));
}

#[test]
fn test_bitwise_xor_opcode() {
    let default_code = vec![0x60, 0xa, 0x60, 0xb, 0x18];
    let mut vm = VM::new(default_code);
    let result = vm.execute_one();
    assert!(result.is_ok());
    let result = vm.execute_one();
    assert!(result.is_ok());
    let result = vm.execute_one();
    assert!(result.is_ok());
    assert_eq!(vm.registers[0], w(1));
}

#[test]
fn test_addmod_opcode() {
    let default_code = vec![0x60, 0x0d, 0x60, 0x03, 0x60, 0x05, 0x08];
    let mut vm = VM::new(default_code);
    let result = vm.execute_one();
    assert!(result.is_ok());
    let result = vm.execute_one();
    assert!(result.is_ok());
    let result = vm.execute_one();
    assert!(result.is_ok());
    assert_eq!(vm.registers[0], w(13));
}

#[test]
fn test_mulmod_opcode() {
    let default_code = vec![0x60, 0x10, 0x60, 0x05, 0x60, 0x05, 0x09];
    let mut vm = VM::new(default_code);
    let result = vm.execute_one();
    assert!(result.is_ok());
    let result = vm.execute_one();
    assert!(result.is_ok());
    let result = vm.execute_one();
    assert!(result.is_ok());
    assert_eq!(vm.registers[0], w(16));
}

#[test]
fn test_memstore_opcode() {
    let default_code = vec![0x60, 0x05, 0x60, 0x01, 0x52];
    let mut vm = VM::new(default_code).with_simple_memory();
    let result = vm.execute_one();
    assert!(result.is_ok());
    let result = vm.execute_one();
    assert!(result.is_ok());
    let result = vm.execute_one();
    assert!(result.is_ok());
    let memory = vm.memory.unwrap();
    assert!(memory.size() > 0);
}

#[test]
fn test_memstore8_opcode() {
    let default_code = vec![0x60, 0x05, 0x60, 0x01, 0x53];
    let mut vm = VM::new(default_code).with_simple_memory();
    let result = vm.execute_one();
    assert!(result.is_ok());
    let result = vm.execute_one();
    assert!(result.is_ok());
    let result = vm.execute_one();
    assert!(result.is_ok());
    let memory = vm.memory.unwrap();
    assert!(memory.size() > 0);
}

#[test]
fn test_memload_opcode() {
    let default_code = vec![0x60, 0x05, 0x60, 0x01, 0x52, 0x01, 0x51];
    let mut vm = VM::new(default_code).with_simple_memory();
    let result = vm.execute_one();
    assert!(result.is_ok());
    let result = vm.execute_one();
    assert!(result.is_ok());
    let result = vm.execute_one();
    assert!(result.is_ok());
    assert_eq!(vm.registers[0], w(5));
}

#[test]
fn test_dup_opcode() {
    let default_code = vec![0x60, 0x05, 0x60, 0x01, 0x80];
    let mut vm = VM::new(default_code).with_simple_memory();
    let result = vm.execute_one();
    assert!(result.is_ok());
    let result = vm.execute_one();
    assert!(result.is_ok());
    let result = vm.execute_one();
    assert!(result.is_ok());
    // DUP1 duplicates the top of stack, so the copied word is the 1,
    // not the 5 below it.
    assert_eq!(vm.registers[2], w(1));
}

#[test]
fn test_swap_opcode() {
    let default_code = vec![0x60, 0x05, 0x60, 0x01, 0x90];
    let mut vm = VM::new(default_code).with_simple_memory();
    let result = vm.execute_one();
    assert!(result.is_ok());
    let result = vm.execute_one();
    assert!(result.is_ok());
    let result = vm.execute_one();
    assert!(result.is_ok());
    assert_eq!(vm.registers[0], w(1));
    assert_eq!(vm.registers[1], w(5));
}

#[test]
fn test_log_opcode() {
    let default_code = vec![0x60, 0x05, 0x60, 0x01, 0x60, 0x00, 0x60, 0x01, 0xa1];
    let mut vm = VM::new(default_code).with_simple_memory().with_random_address();
    let result = vm.execute_one();
    assert!(result.is_ok());
    let result = vm.execute_one();
    assert!(result.is_ok());
    let result = vm.execute_one();
    assert!(result.is_ok());
    let result = vm.execute_one();
    assert!(result.is_ok());
    let result = vm.execute_one();
    assert!(result.is_ok());
    assert!(vm.logs.len() > 0);
}

#[test]
fn test_sload_opcode() {
    let default_code = vec![0x60, 0x05, 0x60, 0x01, 0x54];
    let mut vm = VM::new(default_code).with_simple_memory().with_random_address();
    vm.storage = Some(Storage::new(vm.address.unwrap()));
    if let Some(ref mut store) = vm.storage {
        assert!(store.write(&w(0), &w(100)).is_ok());
    };
    assert!(vm.execute_one().is_ok());
    assert!(vm.execute_one().is_ok());
}

#[test]
fn test_store_opcode() {
    let default_code = vec![0x60, 0x00, 0x60, 0x05, 0x55];
    let mut vm = VM::new(default_code).with_simple_memory().with_random_address();
    vm.storage = Some(Storage::new(vm.address.unwrap()));
    assert!(vm.execute_one().is_ok());
    assert!(vm.execute_one().is_ok());
}

#[test]
fn test_sha3_opcode() {
    let default_code = vec![0x60, 0x05, 0x60, 0x00, 0x52, 0x20];
    let mut vm = VM::new(default_code).with_simple_memory().with_random_address();
    assert!(vm.execute_one().is_ok());
    assert!(vm.execute_one().is_ok());
    assert!(vm.execute_one().is_ok());
    // MSTORE consumed both operands, so the SHA3 step finds too few
    // and reports the stack-bounds violation instead of reading past
    // the stack.
    assert!(vm.execute_one().is_err());
}
