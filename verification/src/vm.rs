//! The execution engine: an operand stack of 1024 word registers, a
//! program counter over an immutable code buffer, optional memory and
//! storage capabilities, an account table, and a log accumulator. The
//! engine fetches one opcode at a time and dispatches it; execution
//! halts on STOP, RETURN or SUICIDE (each forces the program counter to
//! the end of the code), naturally when the counter reaches the end,
//! or on the first error.

use vstd::prelude::*;
use tiny_keccak::Hasher;
use crate::address::{Address, AddrMap};
use crate::errors::{StorageError, VMError};
use crate::eth_log::Log;
use crate::memory::{spec_grow, spec_read_bytes, spec_write_bytes, SimpleMemory};
use crate::opcode::{spec_decode, Opcode};
use crate::storage::Storage;
use crate::transaction::Transaction;
use crate::word::{
    nat_of_bytes_be, spec_add, spec_byte_op, spec_bytes_of, spec_div, spec_mul,
    spec_rem, spec_sdiv, spec_sign_extend, spec_smod, spec_sub, spec_word_of, word_add, word_div,
    word_mul, word_rem, word_sdiv, word_sign_extend, word_smod, word_sub, word_byte_op, Word,
};

verus! {

/// The greatest number of nested calls a run may enter.
pub const MAX_CALL_DEPTH: u64 = 1024;

/// One account registered by CREATE: its identifier and a lifecycle
/// version counter. The associated code blob is stored separately.
#[derive(Clone, Copy, Debug, PartialEq, Eq, Structural)]
pub struct AccountRecord {
    pub id: Address,
    pub version: u64,
}

/// The execution engine.
pub struct VM {
    pub accounts: AddrMap<AccountRecord>,
    pub account_gas: AddrMap<Word>,
    pub account_code: AddrMap<Vec<u8>>,
    pub address: Option<Address>,
    pub registers: Vec<Word>,
    pub memory: Option<SimpleMemory>,
    pub storage: Option<Storage>,
    pub code: Vec<u8>,
    pub pc: usize,
    pub stack_pointer: usize,
    pub logs: Vec<Log>,
    pub current_transaction: Option<Transaction>,
    pub current_sender: Option<Address>,
}

impl VM {
    /// The structural invariant of an engine: a full register file of
    /// 1024 slots, the stack pointer within it, and the program counter
    /// within the code buffer (one past its end meaning halted).
    pub open spec fn wf(self) -> bool {
        &&& self.registers@.len() == 1024
        &&& self.stack_pointer <= 1024
        &&& self.pc <= self.code@.len()
    }

    /// The operand stack: the registers below the stack pointer, the
    /// last being the top of stack.
    pub open spec fn stack(self) -> Seq<Word> {
        self.registers@.take(self.stack_pointer as int)
    }

    /// The opcode the engine would dispatch next.
    pub open spec fn spec_next_opcode(self) -> Option<Opcode> {
        spec_decode(self.code@[self.pc as int])
    }
}

/// The account tables are unchanged between two engine states.
pub open spec fn same_maps(pre: VM, post: VM) -> bool {
    &&& post.accounts == pre.accounts
    &&& post.account_code == pre.account_code
    &&& post.account_gas == pre.account_gas
}

/// Address, transaction and sender context are unchanged.
pub open spec fn same_context(pre: VM, post: VM) -> bool {
    &&& post.address == pre.address
    &&& post.current_transaction == pre.current_transaction
    &&& post.current_sender == pre.current_sender
}

/// Everything but the registers, the stack pointer and the program
/// counter is unchanged.
pub open spec fn frame_stack_op(pre: VM, post: VM) -> bool {
    &&& post.code == pre.code
    &&& post.memory == pre.memory
    &&& post.storage == pre.storage
    &&& post.logs == pre.logs
    &&& same_maps(pre, post)
    &&& same_context(pre, post)
}

/// The register file of `post` agrees with `pre` everywhere but at
/// index `idx`.
pub open spec fn regs_update1(pre: VM, post: VM, idx: int) -> bool {
    &&& post.registers@.len() == 1024
    &&& forall|i: int| 0 <= i < 1024 && i != idx ==> post.registers@[i] == pre.registers@[i]
}

/// The register file is untouched.
pub open spec fn regs_same(pre: VM, post: VM) -> bool {
    post.registers@ == pre.registers@
}

/// Log records are append-only: the records of `pre` stand unchanged
/// at the front of `post`'s list; nothing is removed, reordered or
/// mutated.
pub open spec fn logs_extended(pre: VM, post: VM) -> bool {
    &&& post.logs@.len() >= pre.logs@.len()
    &&& forall|i: int| 0 <= i < pre.logs@.len() ==> post.logs@[i] == pre.logs@[i]
}

/// The operations that pop two operands and push one result word.
pub open spec fn is_binary_op(op: Opcode) -> bool {
    match op {
        Opcode::Add | Opcode::Mul | Opcode::Sub | Opcode::Div | Opcode::SDiv | Opcode::Mod
            | Opcode::SMod | Opcode::Exp | Opcode::SignExtend | Opcode::Lt | Opcode::Gt
            | Opcode::SLt | Opcode::SGt | Opcode::Equal | Opcode::And | Opcode::Or | Opcode::Xor
            | Opcode::Byte => true,
        _ => false,
    }
}

/// The value a binary operation pushes, from the popped top `t` and
/// second `s`. The comparison family reads the operands in the order
/// they were pushed: LT pushes 1 exactly when the earlier-pushed word
/// is below the later-pushed one.
pub open spec fn spec_binary_value(op: Opcode, t: Word, s: Word) -> nat {
    match op {
        Opcode::Add => spec_add(t.as_nat(), s.as_nat()),
        Opcode::Mul => spec_mul(t.as_nat(), s.as_nat()),
        Opcode::Sub => spec_sub(t.as_nat(), s.as_nat()),
        Opcode::Div => spec_div(t.as_nat(), s.as_nat()),
        Opcode::SDiv => spec_sdiv(t.as_nat(), s.as_nat()),
        Opcode::Mod => spec_rem(t.as_nat(), s.as_nat()),
        Opcode::SMod => spec_smod(t.as_nat(), s.as_nat()),
        Opcode::Exp => if t.as_nat() >= 32 {
            s.as_nat()
        } else {
            spec_sign_extend(s.as_nat(), t.as_nat())
        },
        Opcode::SignExtend => if t.as_nat() < 32 {
            spec_sign_extend(s.as_nat(), t.as_nat())
        } else {
            s.as_nat()
        },
        Opcode::Lt => if s.as_nat() < t.as_nat() {
            1
        } else {
            0
        },
        Opcode::Gt => if s.as_nat() > t.as_nat() {
            1
        } else {
            0
        },
        Opcode::SLt => if s.as_signed() < t.as_signed() {
            1
        } else {
            0
        },
        Opcode::SGt => if s.as_signed() > t.as_signed() {
            1
        } else {
            0
        },
        Opcode::Equal => if t == s {
            1
        } else {
            0
        },
        Opcode::And => Word::spec_and(t, s).as_nat(),
        Opcode::Or => Word::spec_or(t, s).as_nat(),
        Opcode::Xor => Word::spec_xor(t, s).as_nat(),
        Opcode::Byte => spec_byte_op(s.as_nat(), t.as_nat()),
        _ => 0,
    }
}

/// The transition of a successful binary operation.
pub open spec fn binary_op_post(pre: VM, post: VM, op: Opcode) -> bool {
    let t = pre.registers@[pre.stack_pointer - 1];
    let s = pre.registers@[pre.stack_pointer - 2];
    &&& frame_stack_op(pre, post)
    &&& post.stack_pointer == pre.stack_pointer - 1
    &&& regs_update1(pre, post, pre.stack_pointer - 2)
    &&& post.registers@[pre.stack_pointer - 2].as_nat() == spec_binary_value(op, t, s)
    &&& post.pc == pre.pc + 1
}

/// A binary operation underflows below two operands; otherwise it
/// replaces them by its result and advances.
pub open spec fn binary_case(pre: VM, post: VM, r: Result<(), VMError>, op: Opcode) -> bool {
    if pre.stack_pointer < 2 {
        r == Result::<(), VMError>::Err(VMError::StackUnderflow) && post == pre
    } else {
        r is Ok && binary_op_post(pre, post, op)
    }
}

impl VM {
    /// Creates an engine over raw bytecode, with a zeroed register
    /// file and no memory, storage, address or transaction attached.
    pub fn new(code: Vec<u8>) -> (vm: VM)
        ensures
            vm.wf(),
            vm.code == code,
            vm.pc == 0,
            vm.stack_pointer == 0,
            forall|i: int| 0 <= i < 1024 ==> vm.registers@[i].as_nat() == 0,
            vm.memory is None,
            vm.storage is None,
            vm.address is None,
            vm.current_transaction is None,
            vm.current_sender is None,
            vm.logs@.len() == 0,
            vm.accounts@ == Map::<Address, AccountRecord>::empty(),
            vm.account_code@ == Map::<Address, Vec<u8>>::empty(),
            vm.account_gas@ == Map::<Address, Word>::empty(),
    {
        let mut registers: Vec<Word> = Vec::new();
        let mut i: usize = 0;
        while i < 1024
            invariant
                i <= 1024,
                registers@.len() == i,
                forall|t: int| 0 <= t < i ==> registers@[t].as_nat() == 0,
            decreases 1024 - i,
        {
            registers.push(Word::zero());
            i += 1;
        }
        VM {
            accounts: AddrMap::new(),
            account_code: AddrMap::new(),
            account_gas: AddrMap::new(),
            address: None,
            current_transaction: None,
            current_sender: None,
            registers,
            memory: None,
            storage: None,
            stack_pointer: 0,
            code,
            pc: 0,
            logs: Vec::new(),
        }
    }

    /// Attaches a fresh, empty volatile memory.
    pub fn with_simple_memory(self) -> (vm: VM)
        ensures
            vm.memory matches Some(m) && m@ == Seq::<u8>::empty(),
            vm.registers == self.registers,
            vm.stack_pointer == self.stack_pointer,
            vm.code == self.code,
            vm.pc == self.pc,
            vm.storage == self.storage,
            vm.logs == self.logs,
            same_maps(self, vm),
            same_context(self, vm),
            self.wf() ==> vm.wf(),
    {
        let mut vm = self;
        vm.memory = Some(SimpleMemory::new());
        vm
    }

    /// Attaches a fresh persistent store bound to `address`.
    pub fn with_storage(self, address: Address) -> (vm: VM)
        ensures
            vm.storage matches Some(s) && s.address == address && s.entries@.len() == 0,
            vm.registers == self.registers,
            vm.stack_pointer == self.stack_pointer,
            vm.code == self.code,
            vm.pc == self.pc,
            vm.memory == self.memory,
            vm.logs == self.logs,
            same_maps(self, vm),
            same_context(self, vm),
            self.wf() ==> vm.wf(),
    {
        let mut vm = self;
        vm.storage = Some(Storage::new(address));
        vm
    }

    /// Sets the execution address.
    pub fn with_address(self, address: Address) -> (vm: VM)
        ensures
            vm.address == Some(address),
            vm.registers == self.registers,
            vm.stack_pointer == self.stack_pointer,
            vm.code == self.code,
            vm.pc == self.pc,
            vm.memory == self.memory,
            vm.storage == self.storage,
            vm.logs == self.logs,
            same_maps(self, vm),
            vm.current_transaction == self.current_transaction,
            vm.current_sender == self.current_sender,
            self.wf() ==> vm.wf(),
    {
        let mut vm = self;
        vm.address = Some(address);
        vm
    }

    /// Sets a random execution address, mainly for testing.
    pub fn with_random_address(self) -> (vm: VM)
        ensures
            vm.address is Some,
            vm.registers == self.registers,
            vm.stack_pointer == self.stack_pointer,
            vm.code == self.code,
            vm.pc == self.pc,
            vm.memory == self.memory,
            vm.storage == self.storage,
            vm.logs == self.logs,
            same_maps(self, vm),
            vm.current_transaction == self.current_transaction,
            vm.current_sender == self.current_sender,
            self.wf() ==> vm.wf(),
    {
        let bytes = random_address_bytes();
        let addr = Address::from_bytes(&bytes);
        self.with_address(addr)
    }

    /// The current program counter.
    pub fn get_pc(&self) -> (r: usize)
        ensures
            r == self.pc,
    {
        self.pc
    }

    /// The engine never suspends; it can always take a step.
    pub fn can_run(&self) -> (r: bool)
        ensures
            r,
    {
        true
    }

    /// Whether an instruction remains to fetch at the program counter.
    pub fn is_done(&self) -> (r: bool)
        ensures
            r <==> self.pc < self.code@.len(),
    {
        self.pc < self.code.len()
    }

    /// Decodes the instruction at the program counter, if one remains
    /// and its byte is in the opcode table.
    pub fn get_next_instruction(&self) -> (r: Option<Opcode>)
        requires
            self.wf(),
        ensures
            self.pc < self.code@.len() ==> r == self.spec_next_opcode(),
            self.pc >= self.code@.len() ==> r is None,
    {
        if self.pc < self.code.len() {
            Opcode::decode(self.code[self.pc])
        } else {
            None
        }
    }

    /// Advances the program counter by `steps` without executing.
    pub fn increase_pc(&mut self, steps: usize)
        requires
            old(self).wf(),
            old(self).pc + steps <= old(self).code@.len(),
        ensures
            final(self).pc == old(self).pc + steps,
            (*final(self) == VM { pc: final(self).pc, ..*old(self) }),
            final(self).wf(),
    {
        let limit = self.code.len();
        proof {
            assert(self.pc + steps <= limit);
        }
        self.pc = self.pc + steps;
    }

    /// Installs a transaction as the engine's context: its payload
    /// becomes the code to run from the start, and `sender` becomes
    /// the current sender.
    pub fn set_instructions(&mut self, transaction: Transaction, sender: Address)
        ensures
            final(self).code@ == transaction.data@,
            final(self).current_transaction == Some(transaction),
            final(self).current_sender == Some(sender),
            final(self).pc == 0,
            final(self).registers == old(self).registers,
            final(self).stack_pointer == old(self).stack_pointer,
            final(self).memory == old(self).memory,
            final(self).storage == old(self).storage,
            final(self).logs == old(self).logs,
            same_maps(*old(self), *final(self)),
            final(self).address == old(self).address,
            old(self).wf() ==> final(self).wf(),
    {
        let code = clone_bytes(&transaction.data);
        self.code = code;
        self.current_transaction = Some(transaction);
        self.current_sender = Some(sender);
        self.pc = 0;
    }
}

/// Copies a byte vector element by element.
fn clone_bytes(v: &Vec<u8>) -> (r: Vec<u8>)
    ensures
        r@ == v@,
{
    let mut r: Vec<u8> = Vec::new();
    let mut i: usize = 0;
    while i < v.len()
        invariant
            i <= v@.len(),
            r@ == v@.take(i as int),
        decreases v@.len() - i,
    {
        r.push(v[i]);
        proof {
            assert(v@.take(i + 1 as int) =~= v@.take(i as int).push(v@[i as int]));
        }
        i += 1;
    }
    proof {
        assert(v@.take(v@.len() as int) =~= v@);
    }
    r
}

/// Relies on `rand::random`: twenty bytes drawn from the thread-local
/// generator. Nothing is promised of their values.
#[verifier::external_body]
fn random_address_bytes() -> (r: Vec<u8>)
    ensures
        r@.len() == 20,
{
    let bytes: [u8; 20] = rand::random();
    bytes.to_vec()
}

impl Default for VM {
    /// An engine with no code, a zeroed register file and a fresh
    /// memory attached; storage and address stay unset. The register
    /// file has 1024 slots, the stack limit of this machine.
    fn default() -> (vm: VM)
        ensures
            vm.wf(),
            vm.code@.len() == 0,
            vm.pc == 0,
            vm.stack_pointer == 0,
            vm.memory matches Some(m) && m@ == Seq::<u8>::empty(),
            vm.storage is None,
            vm.address is None,
            vm.current_transaction is None,
            vm.current_sender is None,
            vm.logs@.len() == 0,
            forall|i: int| 0 <= i < 1024 ==> vm.registers@[i].as_nat() == 0,
            vm.accounts@ == Map::<Address, AccountRecord>::empty(),
            vm.account_code@ == Map::<Address, Vec<u8>>::empty(),
            vm.account_gas@ == Map::<Address, Word>::empty(),
    {
        VM::new(Vec::new()).with_simple_memory()
    }
}

impl VM {
    /// Dispatches one binary operation: pops the top two operands and
    /// pushes the result in their place.
    fn step_binary(&mut self, op: Opcode) -> (r: Result<(), VMError>)
        requires
            old(self).wf(),
            old(self).pc < old(self).code@.len(),
            is_binary_op(op),
        ensures
            final(self).wf(),
            binary_case(*old(self), *final(self), r, op),
    {
        if self.stack_pointer < 2 {
            return Err(VMError::StackUnderflow);
        }
        let t = self.registers[self.stack_pointer - 1];
        let s = self.registers[self.stack_pointer - 2];
        let v = match op {
            Opcode::Add => word_add(&t, &s),
            Opcode::Mul => word_mul(&t, &s),
            Opcode::Sub => word_sub(&t, &s),
            Opcode::Div => word_div(&t, &s),
            Opcode::SDiv => word_sdiv(&t, &s),
            Opcode::Mod => word_rem(&t, &s),
            Opcode::SMod => word_smod(&t, &s),
            Opcode::Exp => {
                match t.to_u64() {
                    Some(k) if k < 32 => word_sign_extend(&s, k),
                    _ => s,
                }
            },
            Opcode::SignExtend => {
                match t.to_u64() {
                    Some(k) if k < 32 => word_sign_extend(&s, k),
                    _ => s,
                }
            },
            Opcode::Lt => bool_word(s.lt(&t)),
            Opcode::Gt => bool_word(t.lt(&s)),
            Opcode::SLt => bool_word(s.slt(&t)),
            Opcode::SGt => bool_word(t.slt(&s)),
            Opcode::Equal => bool_word(t == s),
            Opcode::And => t.bit_and(&s),
            Opcode::Or => t.bit_or(&s),
            Opcode::Xor => t.bit_xor(&s),
            Opcode::Byte => word_byte_op(&t, &s),
            _ => {
                proof {
                    assert(false);
                }
                Word::zero()
            },
        };
        self.registers.set(self.stack_pointer - 2, v);
        self.stack_pointer = self.stack_pointer - 1;
        self.advance_pc();
        Ok(())
    }
}

/// The value a unary operation leaves on top, from the popped top `t`.
pub open spec fn spec_unary_value(op: Opcode, t: Word) -> nat {
    match op {
        Opcode::IsZero => if t.as_nat() == 0 {
            1
        } else {
            0
        },
        Opcode::Not => Word::spec_not(t).as_nat(),
        _ => 0,
    }
}

/// A unary operation underflows on an empty stack; otherwise it
/// replaces the top word by its result and advances.
pub open spec fn unary_case(pre: VM, post: VM, r: Result<(), VMError>, op: Opcode) -> bool {
    if pre.stack_pointer < 1 {
        r == Result::<(), VMError>::Err(VMError::StackUnderflow) && post == pre
    } else {
        &&& r is Ok
        &&& frame_stack_op(pre, post)
        &&& post.stack_pointer == pre.stack_pointer
        &&& regs_update1(pre, post, pre.stack_pointer - 1)
        &&& post.registers@[pre.stack_pointer - 1].as_nat() == spec_unary_value(
            op,
            pre.registers@[pre.stack_pointer - 1],
        )
        &&& post.pc == pre.pc + 1
    }
}

/// Only the program counter moved, to `pc`.
pub open spec fn only_pc_moved(pre: VM, post: VM, pc: int) -> bool {
    &&& frame_stack_op(pre, post)
    &&& regs_same(pre, post)
    &&& post.stack_pointer == pre.stack_pointer
    &&& post.pc == pc
}

/// STOP halts: the program counter is forced to the end of the code.
pub open spec fn stop_case(pre: VM, post: VM, r: Result<(), VMError>) -> bool {
    r is Ok && only_pc_moved(pre, post, pre.code@.len() as int)
}

/// JUMPDEST does nothing but advance.
pub open spec fn jumpdest_case(pre: VM, post: VM, r: Result<(), VMError>) -> bool {
    r is Ok && only_pc_moved(pre, post, pre.pc + 1)
}

/// POP drops the top word.
pub open spec fn pop_case(pre: VM, post: VM, r: Result<(), VMError>) -> bool {
    if pre.stack_pointer < 1 {
        r == Result::<(), VMError>::Err(VMError::StackUnderflow) && post == pre
    } else {
        &&& r is Ok
        &&& frame_stack_op(pre, post)
        &&& regs_same(pre, post)
        &&& post.stack_pointer == pre.stack_pointer - 1
        &&& post.pc == pre.pc + 1
    }
}

/// The program counter after a PUSH of `n` operand bytes: past the
/// operand, clamped to the end of the code.
pub open spec fn push_next_pc(pre: VM, n: nat) -> int {
    if pre.pc + 1 + n <= pre.code@.len() {
        pre.pc + 1 + n
    } else {
        pre.code@.len() as int
    }
}

/// PUSH overflows on a full stack; otherwise it pushes the word spelled
/// by the next `n` code bytes, big-endian, zero-filled where the code
/// ends early, and advances past the operand.
pub open spec fn push_case(pre: VM, post: VM, r: Result<(), VMError>, n: nat) -> bool {
    if pre.stack_pointer >= 1024 {
        r == Result::<(), VMError>::Err(VMError::StackOverflow) && post == pre
    } else {
        &&& r is Ok
        &&& frame_stack_op(pre, post)
        &&& post.stack_pointer == pre.stack_pointer + 1
        &&& regs_update1(pre, post, pre.stack_pointer as int)
        &&& post.registers@[pre.stack_pointer as int].as_nat() == nat_of_bytes_be(
            spec_read_bytes(pre.code@, pre.pc + 1, n),
        )
        &&& post.pc == push_next_pc(pre, n)
    }
}

/// DUP pushes a copy of the word `n` positions below the free slot:
/// DUP1 duplicates the top of stack.
pub open spec fn dup_case(pre: VM, post: VM, r: Result<(), VMError>, n: nat) -> bool {
    if pre.stack_pointer < n {
        r == Result::<(), VMError>::Err(VMError::StackUnderflow) && post == pre
    } else if pre.stack_pointer >= 1024 {
        r == Result::<(), VMError>::Err(VMError::StackOverflow) && post == pre
    } else {
        &&& r is Ok
        &&& frame_stack_op(pre, post)
        &&& post.stack_pointer == pre.stack_pointer + 1
        &&& regs_update1(pre, post, pre.stack_pointer as int)
        &&& post.registers@[pre.stack_pointer as int] == pre.registers@[pre.stack_pointer - n]
        &&& post.pc == pre.pc + 1
    }
}

/// SWAP exchanges the top word with the one `n` positions below it.
pub open spec fn swap_case(pre: VM, post: VM, r: Result<(), VMError>, n: nat) -> bool {
    if pre.stack_pointer < n + 1 {
        r == Result::<(), VMError>::Err(VMError::StackUnderflow) && post == pre
    } else {
        let a = pre.stack_pointer - 1;
        let b = pre.stack_pointer - 1 - n;
        &&& r is Ok
        &&& frame_stack_op(pre, post)
        &&& post.stack_pointer == pre.stack_pointer
        &&& post.registers@.len() == 1024
        &&& (forall|i: int|
            0 <= i < 1024 && i != a && i != b ==> post.registers@[i] == pre.registers@[i])
        &&& post.registers@[a] == pre.registers@[b]
        &&& post.registers@[b] == pre.registers@[a]
        &&& post.pc == pre.pc + 1
    }
}

/// A plain push of one word whose value is `v`, advancing by one.
pub open spec fn push_value_case(pre: VM, post: VM, r: Result<(), VMError>, v: nat) -> bool {
    if pre.stack_pointer >= 1024 {
        r == Result::<(), VMError>::Err(VMError::StackOverflow) && post == pre
    } else {
        &&& r is Ok
        &&& frame_stack_op(pre, post)
        &&& post.stack_pointer == pre.stack_pointer + 1
        &&& regs_update1(pre, post, pre.stack_pointer as int)
        &&& post.registers@[pre.stack_pointer as int].as_nat() == v
        &&& post.pc == pre.pc + 1
    }
}

/// Whether any entry of the list binds `k`.
pub open spec fn has_addr(s: Seq<(Address, Word)>, k: Address) -> bool {
    exists|j: int| 0 <= j < s.len() && (#[trigger] s[j]).0 == k
}

/// The placeholder gas total: the wrapping sum of the per-account gas
/// table's map reading. An entry shadowed by a later binding of the
/// same address does not count, so each account's value is folded in
/// once.
pub open spec fn spec_gas_sum(s: Seq<(Address, Word)>) -> nat
    decreases s.len(),
{
    if s.len() == 0 {
        0
    } else if has_addr(s.skip(1), s[0].0) {
        spec_gas_sum(s.skip(1))
    } else {
        spec_add(s[0].1.as_nat(), spec_gas_sum(s.skip(1)))
    }
}

/// The gas total is a reduced word value.
proof fn lemma_gas_sum_bound(s: Seq<(Address, Word)>)
    ensures
        spec_gas_sum(s) < crate::word::word_modulus(),
    decreases s.len(),
{
    if s.len() > 0 {
        lemma_gas_sum_bound(s.skip(1));
    }
}

/// ADDRESS pushes the engine's own address; with none attached it only
/// advances, pushing nothing.
pub open spec fn address_case(pre: VM, post: VM, r: Result<(), VMError>) -> bool {
    match pre.address {
        Some(a) => push_value_case(pre, post, r, a.as_nat()),
        None => r is Ok && only_pc_moved(pre, post, pre.pc + 1),
    }
}

/// A jump target clamped into the code: any destination past the end
/// halts execution, as any out-of-range counter does.
pub open spec fn clamp_dest(pre: VM, dest: nat) -> int {
    if dest <= pre.code@.len() {
        dest as int
    } else {
        pre.code@.len() as int
    }
}

/// JUMP pops the destination and redirects the program counter to it,
/// without destination validation.
pub open spec fn jump_case(pre: VM, post: VM, r: Result<(), VMError>) -> bool {
    if pre.stack_pointer < 1 {
        r == Result::<(), VMError>::Err(VMError::StackUnderflow) && post == pre
    } else {
        &&& r is Ok
        &&& frame_stack_op(pre, post)
        &&& regs_same(pre, post)
        &&& post.stack_pointer == pre.stack_pointer - 1
        &&& post.pc == clamp_dest(pre, pre.registers@[pre.stack_pointer - 1].as_nat())
    }
}

/// JUMPI pops a destination and a check word and jumps exactly when
/// the check word is zero.
pub open spec fn jumpi_case(pre: VM, post: VM, r: Result<(), VMError>) -> bool {
    if pre.stack_pointer < 2 {
        r == Result::<(), VMError>::Err(VMError::StackUnderflow) && post == pre
    } else {
        &&& r is Ok
        &&& frame_stack_op(pre, post)
        &&& regs_same(pre, post)
        &&& post.stack_pointer == pre.stack_pointer - 2
        &&& post.pc == (if pre.registers@[pre.stack_pointer - 2].as_nat() == 0 {
            clamp_dest(pre, pre.registers@[pre.stack_pointer - 1].as_nat())
        } else {
            pre.pc + 1
        })
    }
}

impl VM {
    /// Dispatches ISZERO or NOT: replaces the top word by the result.
    fn step_unary(&mut self, op: Opcode) -> (r: Result<(), VMError>)
        requires
            old(self).wf(),
            old(self).pc < old(self).code@.len(),
            op == Opcode::IsZero || op == Opcode::Not,
        ensures
            final(self).wf(),
            unary_case(*old(self), *final(self), r, op),
    {
        if self.stack_pointer < 1 {
            return Err(VMError::StackUnderflow);
        }
        let t = self.registers[self.stack_pointer - 1];
        let v = match op {
            Opcode::IsZero => bool_word(t.is_zero()),
            _ => t.bit_not(),
        };
        self.registers.set(self.stack_pointer - 1, v);
        self.advance_pc();
        Ok(())
    }

    /// STOP: halts by forcing the counter to the end of the code.
    fn step_stop(&mut self) -> (r: Result<(), VMError>)
        requires
            old(self).wf(),
        ensures
            final(self).wf(),
            stop_case(*old(self), *final(self), r),
    {
        self.pc = self.code.len();
        Ok(())
    }

    /// JUMPDEST: a jump target marker; only advances.
    fn step_jumpdest(&mut self) -> (r: Result<(), VMError>)
        requires
            old(self).wf(),
            old(self).pc < old(self).code@.len(),
        ensures
            final(self).wf(),
            jumpdest_case(*old(self), *final(self), r),
    {
        self.advance_pc();
        Ok(())
    }

    /// POP: drops the top of stack.
    fn step_pop(&mut self) -> (r: Result<(), VMError>)
        requires
            old(self).wf(),
            old(self).pc < old(self).code@.len(),
        ensures
            final(self).wf(),
            pop_case(*old(self), *final(self), r),
    {
        if self.stack_pointer < 1 {
            return Err(VMError::StackUnderflow);
        }
        self.stack_pointer = self.stack_pointer - 1;
        self.advance_pc();
        Ok(())
    }

    /// PUSH: pushes the word spelled by the next `n` code bytes.
    fn step_push(&mut self, n: u8) -> (r: Result<(), VMError>)
        requires
            old(self).wf(),
            old(self).pc < old(self).code@.len(),
            1 <= n <= 32,
        ensures
            final(self).wf(),
            push_case(*old(self), *final(self), r, n as nat),
    {
        if self.stack_pointer >= 1024 {
            return Err(VMError::StackOverflow);
        }
        let count = n as usize;
        let mut bs: Vec<u8> = Vec::new();
        let mut j: usize = 0;
        while j < count
            invariant
                j <= count,
                count <= 32,
                old(self).pc < old(self).code@.len(),
                self == old(self),
                bs@.len() == j,
                forall|t: int|
                    0 <= t < j ==> bs@[t] == crate::memory::spec_byte_at(
                        self.code@,
                        old(self).pc + 1 + t,
                    ),
            decreases count - j,
        {
            if j + 1 < self.code.len() - self.pc {
                bs.push(self.code[self.pc + 1 + j]);
            } else {
                bs.push(0u8);
            }
            j += 1;
        }
        proof {
            assert(bs@ =~= spec_read_bytes(self.code@, self.pc + 1, n as nat));
        }
        let w = Word::from_bytes_be(&bs);
        self.registers.set(self.stack_pointer, w);
        self.stack_pointer = self.stack_pointer + 1;
        let limit = self.code.len();
        if count < limit - self.pc {
            self.pc = self.pc + 1 + count;
        } else {
            self.pc = limit;
        }
        Ok(())
    }

    /// DUP: pushes a copy of the word `n` positions below the free
    /// slot.
    fn step_dup(&mut self, n: u8) -> (r: Result<(), VMError>)
        requires
            old(self).wf(),
            old(self).pc < old(self).code@.len(),
            1 <= n <= 16,
        ensures
            final(self).wf(),
            dup_case(*old(self), *final(self), r, n as nat),
    {
        if self.stack_pointer < n as usize {
            return Err(VMError::StackUnderflow);
        }
        if self.stack_pointer >= 1024 {
            return Err(VMError::StackOverflow);
        }
        let v = self.registers[self.stack_pointer - n as usize];
        self.registers.set(self.stack_pointer, v);
        self.stack_pointer = self.stack_pointer + 1;
        self.advance_pc();
        Ok(())
    }

    /// SWAP: exchanges the top word with the one `n` positions below.
    fn step_swap(&mut self, n: u8) -> (r: Result<(), VMError>)
        requires
            old(self).wf(),
            old(self).pc < old(self).code@.len(),
            1 <= n <= 16,
        ensures
            final(self).wf(),
            swap_case(*old(self), *final(self), r, n as nat),
    {
        if self.stack_pointer < n as usize + 1 {
            return Err(VMError::StackUnderflow);
        }
        let a = self.stack_pointer - 1;
        let b = self.stack_pointer - 1 - n as usize;
        let va = self.registers[a];
        let vb = self.registers[b];
        self.registers.set(a, vb);
        self.registers.set(b, va);
        self.advance_pc();
        Ok(())
    }

    /// PC: pushes the offset of this instruction.
    fn step_pc(&mut self) -> (r: Result<(), VMError>)
        requires
            old(self).wf(),
            old(self).pc < old(self).code@.len(),
        ensures
            final(self).wf(),
            push_value_case(*old(self), *final(self), r, old(self).pc as nat),
    {
        if self.stack_pointer >= 1024 {
            return Err(VMError::StackOverflow);
        }
        let w = Word::from_u64(self.pc as u64);
        self.registers.set(self.stack_pointer, w);
        self.stack_pointer = self.stack_pointer + 1;
        self.advance_pc();
        Ok(())
    }

    /// CODESIZE: pushes the length of the code buffer.
    fn step_codesize(&mut self) -> (r: Result<(), VMError>)
        requires
            old(self).wf(),
            old(self).pc < old(self).code@.len(),
        ensures
            final(self).wf(),
            push_value_case(*old(self), *final(self), r, old(self).code@.len()),
    {
        if self.stack_pointer >= 1024 {
            return Err(VMError::StackOverflow);
        }
        let w = Word::from_u64(self.code.len() as u64);
        self.registers.set(self.stack_pointer, w);
        self.stack_pointer = self.stack_pointer + 1;
        self.advance_pc();
        Ok(())
    }

    /// ADDRESS: pushes the engine's own address, or only advances when
    /// none is attached.
    fn step_address(&mut self) -> (r: Result<(), VMError>)
        requires
            old(self).wf(),
            old(self).pc < old(self).code@.len(),
        ensures
            final(self).wf(),
            address_case(*old(self), *final(self), r),
    {
        let w = match &self.address {
            Some(a) => a.to_word(),
            None => {
                self.advance_pc();
                return Ok(());
            },
        };
        if self.stack_pointer >= 1024 {
            return Err(VMError::StackOverflow);
        }
        self.registers.set(self.stack_pointer, w);
        self.stack_pointer = self.stack_pointer + 1;
        self.advance_pc();
        Ok(())
    }

    /// GAS: pushes the placeholder gas total, the wrapping sum of the
    /// per-account gas table.
    fn step_gas(&mut self) -> (r: Result<(), VMError>)
        requires
            old(self).wf(),
            old(self).pc < old(self).code@.len(),
        ensures
            final(self).wf(),
            push_value_case(
                *old(self),
                *final(self),
                r,
                spec_gas_sum(old(self).account_gas.entries@),
            ),
    {
        if self.stack_pointer >= 1024 {
            return Err(VMError::StackOverflow);
        }
        let ghost entries = self.account_gas.entries@;
        let mut acc = Word::zero();
        let mut i: usize = 0;
        let n = self.account_gas.entry_count();
        proof {
            lemma_gas_sum_bound(entries);
            crate::word::lemma_word_below_modulus(acc);
            assert(entries.skip(0) =~= entries);
            vstd::arithmetic::div_mod::lemma_small_mod(spec_gas_sum(entries), crate::word::word_modulus());
        }
        while i < n
            invariant
                i <= n,
                n == entries.len(),
                self == old(self),
                self.wf(),
                old(self).pc < old(self).code@.len(),
                self.stack_pointer < 1024,
                self.account_gas.entries@ == entries,
                spec_add(acc.as_nat(), spec_gas_sum(entries.skip(i as int))) == spec_gas_sum(
                    entries,
                ),
            decreases n - i,
        {
            let key = self.account_gas.entries[i].0;
            let v = self.account_gas.entries[i].1;
            let mut later = false;
            let mut j: usize = i + 1;
            while j < n
                invariant
                    i < n,
                    i + 1 <= j <= n,
                    n == entries.len(),
                    self.account_gas.entries@ == entries,
                    key == entries[i as int].0,
                    later ==> has_addr(entries.skip(i + 1 as int), key),
                    !later ==> forall|t: int|
                        i + 1 <= t < j ==> (#[trigger] entries[t]).0 != key,
                decreases n - j,
            {
                if self.account_gas.entries[j].0 == key {
                    proof {
                        assert(entries.skip(i + 1 as int)[j - (i + 1)] == entries[j as int]);
                        assert(has_addr(entries.skip(i + 1 as int), key));
                    }
                    later = true;
                }
                j += 1;
            }
            proof {
                assert(entries.skip(i as int)[0] == entries[i as int]);
                assert(entries.skip(i as int).skip(1) =~= entries.skip(i + 1 as int));
                if !later {
                    assert forall|t: int|
                        0 <= t < entries.skip(i + 1 as int).len() implies (#[trigger] entries.skip(
                        i + 1 as int,
                    )[t]).0 != key by {
                        assert(entries.skip(i + 1 as int)[t] == entries[i + 1 + t]);
                    }
                    assert(!has_addr(entries.skip(i + 1 as int), key));
                }
            }
            if later {
            } else {
                proof {
                    crate::word::lemma_spec_add_assoc(
                        acc.as_nat(),
                        v.as_nat(),
                        spec_gas_sum(entries.skip(i + 1 as int)),
                    );
                }
                acc = word_add(&acc, &v);
            }
            i += 1;
        }
        proof {
            assert(entries.skip(n as int) =~= Seq::<(Address, Word)>::empty());
            crate::word::lemma_word_below_modulus(acc);
            vstd::arithmetic::div_mod::lemma_small_mod(acc.as_nat(), crate::word::word_modulus());
        }
        self.registers.set(self.stack_pointer, acc);
        self.stack_pointer = self.stack_pointer + 1;
        self.advance_pc();
        Ok(())
    }

    /// JUMP: redirects the counter to the popped destination.
    fn step_jump(&mut self) -> (r: Result<(), VMError>)
        requires
            old(self).wf(),
            old(self).pc < old(self).code@.len(),
        ensures
            final(self).wf(),
            jump_case(*old(self), *final(self), r),
    {
        if self.stack_pointer < 1 {
            return Err(VMError::StackUnderflow);
        }
        let dest = self.registers[self.stack_pointer - 1];
        self.stack_pointer = self.stack_pointer - 1;
        self.pc = self.clamp_to_code(&dest);
        Ok(())
    }

    /// JUMPI: redirects the counter to the popped destination exactly
    /// when the popped check word is zero.
    fn step_jumpi(&mut self) -> (r: Result<(), VMError>)
        requires
            old(self).wf(),
            old(self).pc < old(self).code@.len(),
        ensures
            final(self).wf(),
            jumpi_case(*old(self), *final(self), r),
    {
        if self.stack_pointer < 2 {
            return Err(VMError::StackUnderflow);
        }
        let dest = self.registers[self.stack_pointer - 1];
        let check = self.registers[self.stack_pointer - 2];
        self.stack_pointer = self.stack_pointer - 2;
        if check.is_zero() {
            self.pc = self.clamp_to_code(&dest);
        } else {
            self.advance_pc();
        }
        Ok(())
    }

    /// Moves the counter past the instruction just executed.
    fn advance_pc(&mut self)
        requires
            old(self).wf(),
            old(self).pc < old(self).code@.len(),
        ensures
            final(self).pc == old(self).pc + 1,
            (*final(self) == VM { pc: final(self).pc, ..*old(self) }),
    {
        let limit = self.code.len();
        self.pc = self.pc + 1;
    }

    /// The destination a word names, clamped into the code buffer.
    fn clamp_to_code(&self, dest: &Word) -> (r: usize)
        ensures
            r == clamp_dest(*self, dest.as_nat()),
    {
        let limit = self.code.len();
        match dest.to_u64() {
            Some(x) => {
                if x <= limit as u64 {
                    x as usize
                } else {
                    limit
                }
            },
            None => limit,
        }
    }
}

/// Everything but the registers, the stack pointer, the counter and
/// the memory is unchanged.
pub open spec fn frame_memory_op(pre: VM, post: VM) -> bool {
    &&& post.code == pre.code
    &&& post.storage == pre.storage
    &&& post.logs == pre.logs
    &&& same_maps(pre, post)
    &&& same_context(pre, post)
}

/// Everything but the registers, the stack pointer, the counter and
/// the storage is unchanged.
pub open spec fn frame_storage_op(pre: VM, post: VM) -> bool {
    &&& post.code == pre.code
    &&& post.memory == pre.memory
    &&& post.logs == pre.logs
    &&& same_maps(pre, post)
    &&& same_context(pre, post)
}

/// The name of the digest tiny_keccak computes: a function of the
/// input bytes alone.
pub uninterp spec fn sha3_of(data: Seq<u8>) -> Seq<u8>;

/// Relies on tiny_keccak's `Sha3::v256`: the 32-byte SHA3-256 digest
/// of the input, a function of the input bytes alone.
#[verifier::external_body]
fn sha3_256(data: &Vec<u8>) -> (r: Vec<u8>)
    ensures
        r@ == sha3_of(data@),
        r@.len() == 32,
{
    let mut h = tiny_keccak::Sha3::v256();
    h.update(data.as_slice());
    let mut out = [0u8; 32];
    h.finalize(&mut out);
    out.to_vec()
}

/// A byte string with its leading zero bytes dropped.
pub open spec fn spec_skip_zeros(s: Seq<u8>) -> Seq<u8>
    decreases s.len(),
{
    if s.len() == 0 || s[0] != 0 {
        s
    } else {
        spec_skip_zeros(s.subrange(1, s.len() as int))
    }
}

/// The canonical RLP spelling of a word value: its minimal big-endian
/// bytes, bare when they are a single byte below 0x80, else behind a
/// one-byte length prefix; the zero word has no bytes and is spelled
/// as the bare empty-string prefix 0x80.
pub open spec fn spec_rlp_word(v: nat) -> Seq<u8> {
    let m = spec_skip_zeros(spec_bytes_of(v));
    if m.len() == 1 && m[0] < 0x80 {
        m
    } else {
        seq![(0x80 + m.len()) as u8].add(m)
    }
}

/// Relies on `rlp::encode` through the `Encodable` impl that
/// `ethereum_types::U256` carries: it strips the value's leading zero
/// bytes and emits them bare when they are one byte below 0x80, else
/// behind the 0x80-plus-length prefix.
#[verifier::external_body]
fn rlp_encode_word(w: &Word) -> (r: Vec<u8>)
    ensures
        r@ == spec_rlp_word(w.as_nat()),
{
    let x = ethereum_types::U256([w.l0, w.l1, w.l2, w.l3]);
    rlp::encode(&x).to_vec()
}

/// The value a word names as a host offset, when it fits under `cap`.
fn word_to_offset(w: &Word, cap: usize) -> (r: Option<usize>)
    ensures
        r is Some <==> w.as_nat() <= cap,
        r matches Some(x) ==> x == w.as_nat(),
{
    match w.to_u64() {
        Some(x) => {
            if x <= cap as u64 {
                Some(x as usize)
            } else {
                None
            }
        },
        None => None,
    }
}

/// MLOAD pops an offset and pushes the word read there, growing the
/// memory over the range read.
pub open spec fn mload_case(pre: VM, post: VM, r: Result<(), VMError>) -> bool {
    let t = pre.registers@[pre.stack_pointer - 1];
    if pre.stack_pointer < 1 {
        r == Result::<(), VMError>::Err(VMError::StackUnderflow) && post == pre
    } else if pre.memory is None {
        r == Result::<(), VMError>::Err(VMError::MemoryError) && post == pre
    } else if t.as_nat() + 32 > usize::MAX {
        r == Result::<(), VMError>::Err(VMError::MemoryError) && post == pre
    } else {
        &&& r is Ok
        &&& frame_memory_op(pre, post)
        &&& post.stack_pointer == pre.stack_pointer
        &&& regs_update1(pre, post, pre.stack_pointer - 1)
        &&& post.registers@[pre.stack_pointer - 1].as_nat() == nat_of_bytes_be(
            spec_read_bytes(pre.memory->0@, t.as_nat() as int, 32),
        )
        &&& (post.memory matches Some(m) && m@ == spec_grow(
            pre.memory->0@,
            t.as_nat() + 32 as int,
        ))
        &&& post.pc == pre.pc + 1
    }
}

/// MSTORE pops an offset and a value and writes the value's 32 bytes
/// at the offset.
pub open spec fn mstore_case(pre: VM, post: VM, r: Result<(), VMError>) -> bool {
    let t = pre.registers@[pre.stack_pointer - 1];
    let s = pre.registers@[pre.stack_pointer - 2];
    if pre.stack_pointer < 2 {
        r == Result::<(), VMError>::Err(VMError::StackUnderflow) && post == pre
    } else if pre.memory is None {
        r == Result::<(), VMError>::Err(VMError::MemoryError) && post == pre
    } else if t.as_nat() + 32 > usize::MAX {
        r == Result::<(), VMError>::Err(VMError::MemoryError) && post == pre
    } else {
        &&& r is Ok
        &&& frame_memory_op(pre, post)
        &&& regs_same(pre, post)
        &&& post.stack_pointer == pre.stack_pointer - 2
        &&& (post.memory matches Some(m) && m@ == spec_write_bytes(
            pre.memory->0@,
            t.as_nat() as int,
            spec_bytes_of(s.as_nat()),
        ))
        &&& post.pc == pre.pc + 1
    }
}

/// MSTORE8 pops an offset and a value and writes the value's low byte.
pub open spec fn mstore8_case(pre: VM, post: VM, r: Result<(), VMError>) -> bool {
    let t = pre.registers@[pre.stack_pointer - 1];
    let s = pre.registers@[pre.stack_pointer - 2];
    if pre.stack_pointer < 2 {
        r == Result::<(), VMError>::Err(VMError::StackUnderflow) && post == pre
    } else if pre.memory is None {
        r == Result::<(), VMError>::Err(VMError::MemoryError) && post == pre
    } else if t.as_nat() + 1 > usize::MAX {
        r == Result::<(), VMError>::Err(VMError::MemoryError) && post == pre
    } else {
        &&& r is Ok
        &&& frame_memory_op(pre, post)
        &&& regs_same(pre, post)
        &&& post.stack_pointer == pre.stack_pointer - 2
        &&& (post.memory matches Some(m) && m@ == spec_write_bytes(
            pre.memory->0@,
            t.as_nat() as int,
            seq![(s.as_nat() % 256) as u8],
        ))
        &&& post.pc == pre.pc + 1
    }
}

/// MSIZE pushes the memory's current extent.
pub open spec fn msize_case(pre: VM, post: VM, r: Result<(), VMError>) -> bool {
    if pre.memory is None {
        r == Result::<(), VMError>::Err(VMError::MemoryError) && post == pre
    } else {
        push_value_case(pre, post, r, pre.memory->0@.len())
    }
}

/// SHA3 pops an offset and a length and pushes the digest of that
/// memory range, zero-filled past the extent; the memory is not grown.
pub open spec fn sha3_case(pre: VM, post: VM, r: Result<(), VMError>) -> bool {
    let t = pre.registers@[pre.stack_pointer - 1];
    let s = pre.registers@[pre.stack_pointer - 2];
    if pre.stack_pointer < 2 {
        r == Result::<(), VMError>::Err(VMError::StackUnderflow) && post == pre
    } else if pre.memory is None {
        r == Result::<(), VMError>::Err(VMError::MemoryError) && post == pre
    } else if t.as_nat() + s.as_nat() > usize::MAX {
        r == Result::<(), VMError>::Err(VMError::MemoryError) && post == pre
    } else {
        &&& r is Ok
        &&& frame_memory_op(pre, post)
        &&& post.memory == pre.memory
        &&& post.stack_pointer == pre.stack_pointer - 1
        &&& regs_update1(pre, post, pre.stack_pointer - 2)
        &&& post.registers@[pre.stack_pointer - 2].as_nat() == nat_of_bytes_be(
            sha3_of(spec_read_bytes(pre.memory->0@, t.as_nat() as int, s.as_nat())),
        )
        &&& post.pc == pre.pc + 1
    }
}

/// SLOAD pops a key and pushes the stored value, or the zero word for
/// a slot never written.
pub open spec fn sload_case(pre: VM, post: VM, r: Result<(), VMError>) -> bool {
    let t = pre.registers@[pre.stack_pointer - 1];
    if pre.stack_pointer < 1 {
        r == Result::<(), VMError>::Err(VMError::StackUnderflow) && post == pre
    } else if pre.storage is None {
        r == Result::<(), VMError>::Err(VMError::MemoryError) && post == pre
    } else {
        &&& r is Ok
        &&& frame_storage_op(pre, post)
        &&& post.storage == pre.storage
        &&& post.stack_pointer == pre.stack_pointer
        &&& regs_update1(pre, post, pre.stack_pointer - 1)
        &&& post.registers@[pre.stack_pointer - 1].as_nat() == pre.storage->0.spec_read(t)
        &&& post.pc == pre.pc + 1
    }
}

/// SSTORE pops a key and a value and commits the value to the slot;
/// a slot already committed rejects the write with `AlreadyCommitted`,
/// preserved end-to-end in the error.
pub open spec fn sstore_case(pre: VM, post: VM, r: Result<(), VMError>) -> bool {
    let t = pre.registers@[pre.stack_pointer - 1];
    let s = pre.registers@[pre.stack_pointer - 2];
    if pre.stack_pointer < 2 {
        r == Result::<(), VMError>::Err(VMError::StackUnderflow) && post == pre
    } else if pre.storage is None {
        r == Result::<(), VMError>::Err(VMError::MemoryError) && post == pre
    } else if pre.storage->0.spec_committed(t) {
        r == Result::<(), VMError>::Err(
            VMError::StorageFailure(StorageError::AlreadyCommitted),
        ) && post == pre
    } else {
        &&& r is Ok
        &&& frame_storage_op(pre, post)
        &&& regs_same(pre, post)
        &&& post.stack_pointer == pre.stack_pointer - 2
        &&& (post.storage matches Some(st) && st.entries@ == pre.storage->0.entries@.push((t, s))
            && st.address == pre.storage->0.address)
        &&& post.pc == pre.pc + 1
    }
}

impl VM {
    /// MLOAD: pops an offset, pushes the word read from memory there.
    fn step_mload(&mut self) -> (r: Result<(), VMError>)
        requires
            old(self).wf(),
            old(self).pc < old(self).code@.len(),
        ensures
            final(self).wf(),
            mload_case(*old(self), *final(self), r),
    {
        if self.stack_pointer < 1 {
            return Err(VMError::StackUnderflow);
        }
        if self.memory.is_none() {
            return Err(VMError::MemoryError);
        }
        let t = self.registers[self.stack_pointer - 1];
        let off = match word_to_offset(&t, usize::MAX - 32) {
            Some(o) => o,
            None => {
                return Err(VMError::MemoryError);
            },
        };
        let w = match &mut self.memory {
            Some(m) => m.read(off),
            None => {
                proof {
                    assert(false);
                }
                Word::zero()
            },
        };
        self.registers.set(self.stack_pointer - 1, w);
        self.advance_pc();
        Ok(())
    }

    /// MSTORE: pops an offset and a value, writes the value's 32 bytes.
    fn step_mstore(&mut self) -> (r: Result<(), VMError>)
        requires
            old(self).wf(),
            old(self).pc < old(self).code@.len(),
        ensures
            final(self).wf(),
            mstore_case(*old(self), *final(self), r),
    {
        if self.stack_pointer < 2 {
            return Err(VMError::StackUnderflow);
        }
        if self.memory.is_none() {
            return Err(VMError::MemoryError);
        }
        let t = self.registers[self.stack_pointer - 1];
        let s = self.registers[self.stack_pointer - 2];
        let off = match word_to_offset(&t, usize::MAX - 32) {
            Some(o) => o,
            None => {
                return Err(VMError::MemoryError);
            },
        };
        match &mut self.memory {
            Some(m) => m.write(off, &s),
            None => {
                proof {
                    assert(false);
                }
            },
        }
        self.stack_pointer = self.stack_pointer - 2;
        self.advance_pc();
        Ok(())
    }

    /// MSTORE8: pops an offset and a value, writes the value's low
    /// byte.
    fn step_mstore8(&mut self) -> (r: Result<(), VMError>)
        requires
            old(self).wf(),
            old(self).pc < old(self).code@.len(),
        ensures
            final(self).wf(),
            mstore8_case(*old(self), *final(self), r),
    {
        if self.stack_pointer < 2 {
            return Err(VMError::StackUnderflow);
        }
        if self.memory.is_none() {
            return Err(VMError::MemoryError);
        }
        let t = self.registers[self.stack_pointer - 1];
        let s = self.registers[self.stack_pointer - 2];
        let off = match word_to_offset(&t, usize::MAX - 1) {
            Some(o) => o,
            None => {
                return Err(VMError::MemoryError);
            },
        };
        let b = crate::word::low_byte(&s);
        match &mut self.memory {
            Some(m) => m.write_byte(off, b),
            None => {
                proof {
                    assert(false);
                }
            },
        }
        self.stack_pointer = self.stack_pointer - 2;
        self.advance_pc();
        Ok(())
    }

    /// MSIZE: pushes the memory's current extent in bytes.
    fn step_msize(&mut self) -> (r: Result<(), VMError>)
        requires
            old(self).wf(),
            old(self).pc < old(self).code@.len(),
        ensures
            final(self).wf(),
            msize_case(*old(self), *final(self), r),
    {
        let sz = match &self.memory {
            Some(m) => m.size(),
            None => {
                return Err(VMError::MemoryError);
            },
        };
        if self.stack_pointer >= 1024 {
            return Err(VMError::StackOverflow);
        }
        self.registers.set(self.stack_pointer, Word::from_u64(sz as u64));
        self.stack_pointer = self.stack_pointer + 1;
        self.advance_pc();
        Ok(())
    }

    /// SHA3: pops an offset and a length, hashes that memory range and
    /// pushes the digest word.
    fn step_sha3(&mut self) -> (r: Result<(), VMError>)
        requires
            old(self).wf(),
            old(self).pc < old(self).code@.len(),
        ensures
            final(self).wf(),
            sha3_case(*old(self), *final(self), r),
    {
        if self.stack_pointer < 2 {
            return Err(VMError::StackUnderflow);
        }
        if self.memory.is_none() {
            return Err(VMError::MemoryError);
        }
        let t = self.registers[self.stack_pointer - 1];
        let s = self.registers[self.stack_pointer - 2];
        let off = match word_to_offset(&t, usize::MAX) {
            Some(o) => o,
            None => {
                return Err(VMError::MemoryError);
            },
        };
        let len = match word_to_offset(&s, usize::MAX) {
            Some(l) => l,
            None => {
                return Err(VMError::MemoryError);
            },
        };
        if off > usize::MAX - len {
            return Err(VMError::MemoryError);
        }
        let data = match &self.memory {
            Some(m) => m.read_slice(off, len),
            None => {
                proof {
                    assert(false);
                }
                Vec::new()
            },
        };
        let digest = sha3_256(&data);
        let w = Word::from_bytes_be(&digest);
        self.registers.set(self.stack_pointer - 2, w);
        self.stack_pointer = self.stack_pointer - 1;
        self.advance_pc();
        Ok(())
    }

    /// SLOAD: pops a key and pushes the value stored under it.
    fn step_sload(&mut self) -> (r: Result<(), VMError>)
        requires
            old(self).wf(),
            old(self).pc < old(self).code@.len(),
        ensures
            final(self).wf(),
            sload_case(*old(self), *final(self), r),
    {
        if self.stack_pointer < 1 {
            return Err(VMError::StackUnderflow);
        }
        let t = self.registers[self.stack_pointer - 1];
        let w = match &self.storage {
            Some(st) => {
                match st.read(&t) {
                    Ok(v) => v,
                    Err(_) => {
                        proof {
                            assert(false);
                        }
                        Word::zero()
                    },
                }
            },
            None => {
                return Err(VMError::MemoryError);
            },
        };
        self.registers.set(self.stack_pointer - 1, w);
        self.advance_pc();
        Ok(())
    }

    /// SSTORE: pops a key and a value and commits the value, surfacing
    /// the storage taxonomy on failure.
    fn step_sstore(&mut self) -> (r: Result<(), VMError>)
        requires
            old(self).wf(),
            old(self).pc < old(self).code@.len(),
        ensures
            final(self).wf(),
            sstore_case(*old(self), *final(self), r),
    {
        if self.stack_pointer < 2 {
            return Err(VMError::StackUnderflow);
        }
        if self.storage.is_none() {
            return Err(VMError::MemoryError);
        }
        let t = self.registers[self.stack_pointer - 1];
        let s = self.registers[self.stack_pointer - 2];
        match &mut self.storage {
            Some(st) => {
                match st.write(&t, &s) {
                    Ok(()) => {},
                    Err(e) => {
                        return Err(VMError::StorageFailure(e));
                    },
                }
            },
            None => {
                proof {
                    assert(false);
                }
            },
        }
        self.stack_pointer = self.stack_pointer - 2;
        self.advance_pc();
        Ok(())
    }
}

/// ADDMOD and MULMOD pop a modulus, then two operands pushed earlier,
/// and push the wrapped sum or product reduced by the modulus (zero
/// for a zero modulus).
pub open spec fn modarith_case(pre: VM, post: VM, r: Result<(), VMError>, op: Opcode) -> bool {
    let t = pre.registers@[pre.stack_pointer - 1];
    let s = pre.registers@[pre.stack_pointer - 2];
    let u = pre.registers@[pre.stack_pointer - 3];
    if pre.stack_pointer < 3 {
        r == Result::<(), VMError>::Err(VMError::StackUnderflow) && post == pre
    } else {
        &&& r is Ok
        &&& frame_stack_op(pre, post)
        &&& post.stack_pointer == pre.stack_pointer - 2
        &&& regs_update1(pre, post, pre.stack_pointer - 3)
        &&& post.registers@[pre.stack_pointer - 3].as_nat() == (if op == Opcode::AddMod {
            spec_rem(spec_add(u.as_nat(), s.as_nat()), t.as_nat())
        } else {
            spec_rem(spec_mul(u.as_nat(), s.as_nat()), t.as_nat())
        })
        &&& post.pc == pre.pc + 1
    }
}

/// LOG pops an offset and a length, consumes `n` topic words, and
/// appends one immutable record of the emitting address, the memory
/// range as payload, and the topics in pop order.
pub open spec fn log_case(pre: VM, post: VM, r: Result<(), VMError>, n: nat) -> bool {
    let t = pre.registers@[pre.stack_pointer - 1];
    let s = pre.registers@[pre.stack_pointer - 2];
    if pre.stack_pointer < 2 + n {
        r == Result::<(), VMError>::Err(VMError::StackUnderflow) && post == pre
    } else if pre.memory is None {
        r == Result::<(), VMError>::Err(VMError::MemoryError) && post == pre
    } else if pre.address is None {
        r == Result::<(), VMError>::Err(VMError::MemoryError) && post == pre
    } else if t.as_nat() + s.as_nat() > usize::MAX {
        r == Result::<(), VMError>::Err(VMError::MemoryError) && post == pre
    } else {
        &&& r is Ok
        &&& post.code == pre.code
        &&& post.memory == pre.memory
        &&& post.storage == pre.storage
        &&& same_maps(pre, post)
        &&& same_context(pre, post)
        &&& regs_same(pre, post)
        &&& post.stack_pointer == pre.stack_pointer - 2 - n
        &&& post.logs@.len() == pre.logs@.len() + 1
        &&& (forall|i: int| 0 <= i < pre.logs@.len() ==> post.logs@[i] == pre.logs@[i])
        &&& post.logs@.last().address == pre.address->0
        &&& post.logs@.last().data@ == spec_read_bytes(pre.memory->0@, t.as_nat() as int, s.as_nat())
        &&& post.logs@.last().topics@.len() == n
        &&& (forall|k: int|
            0 <= k < n ==> post.logs@.last().topics@[k] == pre.registers@[pre.stack_pointer - 3
                - k])
        &&& post.logs@.last().wf()
        &&& post.pc == pre.pc + 1
    }
}

/// The first copied byte of a CODECOPY: the code offset clamped into
/// the code.
pub open spec fn copy_start(pre: VM, s: nat) -> nat {
    if s <= pre.code@.len() {
        s
    } else {
        pre.code@.len()
    }
}

/// How many bytes a CODECOPY copies: the requested size clamped to the
/// bytes the code still has past the start.
pub open spec fn copy_count(pre: VM, s: nat, u: nat) -> nat {
    if u <= pre.code@.len() - copy_start(pre, s) {
        u
    } else {
        (pre.code@.len() - copy_start(pre, s)) as nat
    }
}

/// The storage entries a complete CODECOPY appends: for each copied
/// byte, the slot at the storage offset plus the byte's index receives
/// the byte's value.
pub open spec fn codecopy_appends(pre: VM, post: VM, t: Word, s: nat, j: int) -> bool {
    let start = copy_start(pre, s);
    &&& post.storage->0.entries@.len() == pre.storage->0.entries@.len() + j
    &&& (forall|i: int|
        0 <= i < pre.storage->0.entries@.len() ==> post.storage->0.entries@[i]
            == pre.storage->0.entries@[i])
    &&& (forall|k: int|
        0 <= k < j ==> #[trigger] post.storage->0.entries@[pre.storage->0.entries@.len() + k]
            == (spec_word_of(spec_add(t.as_nat(), k as nat)), spec_word_of(
            pre.code@[start + k] as nat,
        )))
}

/// A stopped CODECOPY has appended exactly the writes before the
/// first slot that was already committed, and stopped on that slot.
pub open spec fn codecopy_partial(pre: VM, post: VM, t: Word, s: nat, count: nat) -> bool {
    exists|j: int|
        0 <= j && j < count && #[trigger] codecopy_appends(pre, post, t, s, j)
            && pre.storage->0.spec_committed(spec_word_of(spec_add(t.as_nat(), j as nat)))
}

/// CODECOPY pops a storage offset, a code offset and a size, and
/// persists the addressed code bytes into consecutive storage slots.
/// A slot already committed stops the copy, leaving the slots already
/// written committed: no rollback.
pub open spec fn codecopy_case(pre: VM, post: VM, r: Result<(), VMError>) -> bool {
    let t = pre.registers@[pre.stack_pointer - 1];
    let s = pre.registers@[pre.stack_pointer - 2];
    let u = pre.registers@[pre.stack_pointer - 3];
    if pre.stack_pointer < 3 {
        r == Result::<(), VMError>::Err(VMError::StackUnderflow) && post == pre
    } else if pre.storage is None {
        r == Result::<(), VMError>::Err(VMError::MemoryError) && post == pre
    } else {
        let count = copy_count(pre, s.as_nat(), u.as_nat());
        &&& post.code == pre.code
        &&& post.memory == pre.memory
        &&& post.logs == pre.logs
        &&& same_maps(pre, post)
        &&& same_context(pre, post)
        &&& regs_same(pre, post)
        &&& post.stack_pointer == pre.stack_pointer - 3
        &&& (post.storage matches Some(st) && st.address == pre.storage->0.address)
        &&& (match r {
            Ok(()) => (forall|k: int|
                0 <= k < count ==> !(#[trigger] pre.storage->0.spec_committed(
                    spec_word_of(spec_add(t.as_nat(), k as nat)),
                ))) && codecopy_appends(pre, post, t, s.as_nat(), count as int) && post.pc
                == pre.pc + 1,
            Err(e) => e == VMError::StorageFailure(StorageError::AlreadyCommitted) && post.pc
                == pre.pc && codecopy_partial(pre, post, t, s.as_nat(), count),
        })
    }
}

/// The name of a word's RLP spelling gives CREATE's derived identifier:
/// the first twenty bytes, zero-filled where the spelling is shorter.
pub open spec fn spec_create_id(seed: nat) -> Address {
    let bs = spec_rlp_word(seed);
    let padded = Seq::new(
        20,
        |i: int|
            if i < bs.len() {
                bs[i]
            } else {
                0u8
            },
    );
    Address {
        hi: nat_of_bytes_be(padded.subrange(0, 8)) as u64,
        mid: nat_of_bytes_be(padded.subrange(8, 16)) as u64,
        lo: nat_of_bytes_be(padded.subrange(16, 20)) as u32,
    }
}

/// The code blob CREATE reads from storage: one byte per slot, the low
/// byte of each value in the range starting at `start`.
pub open spec fn create_blob(pre: VM, start: nat, count: nat) -> Seq<u8> {
    Seq::new(
        count,
        |k: int| (pre.storage->0.spec_read(spec_word_of(spec_add(start, k as nat))) % 256) as u8,
    )
}

/// CREATE pops an identifier seed and two storage bounds, derives a
/// fresh 20-byte identifier from the seed's canonical serialization,
/// reads the initialization code from the storage range, and registers
/// exactly one new account with that code blob.
pub open spec fn create_case(pre: VM, post: VM, r: Result<(), VMError>) -> bool {
    let t = pre.registers@[pre.stack_pointer - 1];
    let s = pre.registers@[pre.stack_pointer - 2];
    let u = pre.registers@[pre.stack_pointer - 3];
    if pre.stack_pointer < 3 {
        r == Result::<(), VMError>::Err(VMError::StackUnderflow) && post == pre
    } else if pre.storage is None {
        r == Result::<(), VMError>::Err(VMError::MemoryError) && post == pre
    } else if u.as_nat() > usize::MAX {
        r == Result::<(), VMError>::Err(VMError::MemoryError) && post == pre
    } else {
        let id = spec_create_id(t.as_nat());
        &&& r is Ok
        &&& post.code == pre.code
        &&& post.memory == pre.memory
        &&& post.storage == pre.storage
        &&& post.logs == pre.logs
        &&& same_context(pre, post)
        &&& regs_same(pre, post)
        &&& post.stack_pointer == pre.stack_pointer - 3
        &&& post.accounts@ == pre.accounts@.insert(id, AccountRecord { id, version: 0 })
        &&& post.account_code@.dom() == pre.account_code@.dom().insert(id)
        &&& post.account_code@[id]@ == create_blob(pre, s.as_nat(), u.as_nat())
        &&& (forall|a: Address|
            a != id && pre.account_code@.contains_key(a) ==> #[trigger] post.account_code@[a]
                == pre.account_code@[a])
        &&& post.account_gas == pre.account_gas
        &&& post.pc == pre.pc + 1
    }
}

/// RETURN pops an offset and a size, pushes the word spelled by that
/// memory range (at most 32 bytes) as the designated return value, and
/// halts.
pub open spec fn return_case(pre: VM, post: VM, r: Result<(), VMError>) -> bool {
    let t = pre.registers@[pre.stack_pointer - 1];
    let s = pre.registers@[pre.stack_pointer - 2];
    if pre.stack_pointer < 2 {
        r == Result::<(), VMError>::Err(VMError::StackUnderflow) && post == pre
    } else if pre.memory is None {
        r == Result::<(), VMError>::Err(VMError::MemoryError) && post == pre
    } else if s.as_nat() > 32 || t.as_nat() + s.as_nat() > usize::MAX {
        r == Result::<(), VMError>::Err(VMError::MemoryError) && post == pre
    } else {
        &&& r is Ok
        &&& frame_memory_op(pre, post)
        &&& post.memory == pre.memory
        &&& post.stack_pointer == pre.stack_pointer - 1
        &&& regs_update1(pre, post, pre.stack_pointer - 2)
        &&& post.registers@[pre.stack_pointer - 2].as_nat() == nat_of_bytes_be(
            spec_read_bytes(pre.memory->0@, t.as_nat() as int, s.as_nat()),
        )
        &&& post.pc == pre.code@.len()
    }
}

/// SUICIDE removes the current sender's account and code entries and
/// halts.
pub open spec fn suicide_case(pre: VM, post: VM, r: Result<(), VMError>) -> bool {
    match pre.current_sender {
        None => r == Result::<(), VMError>::Err(VMError::MemoryError) && post == pre,
        Some(from) => {
            &&& r is Ok
            &&& post.code == pre.code
            &&& post.memory == pre.memory
            &&& post.storage == pre.storage
            &&& post.logs == pre.logs
            &&& same_context(pre, post)
            &&& regs_same(pre, post)
            &&& post.stack_pointer == pre.stack_pointer
            &&& post.accounts@ == pre.accounts@.remove(from)
            &&& post.account_code@ == pre.account_code@.remove(from)
            &&& post.account_gas == pre.account_gas
            &&& post.pc == pre.code@.len()
        },
    }
}

/// A CALL-family step: the callee's address is derived from the popped
/// seed's canonical serialization, its code is swapped in and run to
/// completion on the same shared stack, memory, storage and account
/// tables — so the callee's mutations persist for the caller — and the
/// caller's code and counter are restored. This relation enumerates
/// the guard errors and pins what survives any callee; the full
/// nested-run witness stands beside it in `call_post`, ensured by the
/// dispatching functions whenever the guards pass.
pub open spec fn call_case(pre: VM, post: VM, r: Result<(), VMError>, depth: u64) -> bool {
    let t = pre.registers@[pre.stack_pointer - 1];
    if depth >= MAX_CALL_DEPTH {
        r == Result::<(), VMError>::Err(VMError::CallDepthExceeded) && post == pre
    } else if pre.stack_pointer < 5 {
        r == Result::<(), VMError>::Err(VMError::StackUnderflow) && post == pre
    } else if !pre.account_code@.contains_key(spec_create_id(t.as_nat())) {
        r == Result::<(), VMError>::Err(VMError::MemoryError) && post == pre
    } else if pre.memory is None {
        r == Result::<(), VMError>::Err(VMError::MemoryError) && post == pre
    } else {
        &&& post.code == pre.code
        &&& post.address == pre.address
        &&& post.current_transaction == pre.current_transaction
        &&& (post.memory is Some)
        &&& (pre.storage is Some ==> post.storage is Some && post.storage->0.address
            == pre.storage->0.address)
        &&& logs_extended(pre, post)
        &&& (r is Ok ==> post.pc == pre.pc + 1)
        &&& (r is Err ==> post.pc == pre.pc)
    }
}

/// CALLCODE rebinds the current sender to the transaction's declared
/// recipient before the nested run.
pub open spec fn callcode_case(pre: VM, post: VM, r: Result<(), VMError>, depth: u64) -> bool {
    match pre.current_transaction {
        None => r == Result::<(), VMError>::Err(VMError::MemoryError) && post == pre,
        Some(tx) => match tx.to {
            None => r == Result::<(), VMError>::Err(VMError::MemoryError) && post == pre,
            Some(to) => call_case((VM { current_sender: Some(to), ..pre }), post, r, depth),
        },
    }
}

/// The full per-opcode transition relation of one dispatched
/// instruction.
pub open spec fn instruction_case(
    pre: VM,
    post: VM,
    op: Opcode,
    r: Result<(), VMError>,
    depth: u64,
) -> bool {
    match op {
        Opcode::Stop => stop_case(pre, post, r),
        Opcode::Add | Opcode::Mul | Opcode::Sub | Opcode::Div | Opcode::SDiv | Opcode::Mod
            | Opcode::SMod | Opcode::Exp | Opcode::SignExtend | Opcode::Lt | Opcode::Gt
            | Opcode::SLt | Opcode::SGt | Opcode::Equal | Opcode::And | Opcode::Or | Opcode::Xor
            | Opcode::Byte => binary_case(pre, post, r, op),
        Opcode::AddMod | Opcode::MulMod => modarith_case(pre, post, r, op),
        Opcode::IsZero | Opcode::Not => unary_case(pre, post, r, op),
        Opcode::Sha3 => sha3_case(pre, post, r),
        Opcode::Address => address_case(pre, post, r),
        Opcode::CodeSize => push_value_case(pre, post, r, pre.code@.len()),
        Opcode::CodeCopy => codecopy_case(pre, post, r),
        Opcode::Pop => pop_case(pre, post, r),
        Opcode::MLoad => mload_case(pre, post, r),
        Opcode::MStore => mstore_case(pre, post, r),
        Opcode::MStore8 => mstore8_case(pre, post, r),
        Opcode::MSize => msize_case(pre, post, r),
        Opcode::SLoad => sload_case(pre, post, r),
        Opcode::SStore => sstore_case(pre, post, r),
        Opcode::Jump => jump_case(pre, post, r),
        Opcode::JumpI => jumpi_case(pre, post, r),
        Opcode::Pc => push_value_case(pre, post, r, pre.pc as nat),
        Opcode::Gas => push_value_case(pre, post, r, spec_gas_sum(pre.account_gas.entries@)),
        Opcode::JumpDest => jumpdest_case(pre, post, r),
        Opcode::Push(n) => push_case(pre, post, r, n as nat),
        Opcode::Dup(n) => dup_case(pre, post, r, n as nat),
        Opcode::Swap(n) => swap_case(pre, post, r, n as nat),
        Opcode::Log(n) => log_case(pre, post, r, n as nat),
        Opcode::Create => create_case(pre, post, r),
        Opcode::Call => call_case(pre, post, r, depth),
        Opcode::CallCode => callcode_case(pre, post, r, depth),
        Opcode::DelegateCall => call_case(pre, post, r, depth),
        Opcode::Return => return_case(pre, post, r),
        Opcode::Invalid => r == Result::<(), VMError>::Err(VMError::InvalidInstruction) && post
            == pre,
        Opcode::Suicide => suicide_case(pre, post, r),
    }
}

/// The transition of one fetch-and-dispatch step at a call depth: a
/// byte outside the opcode table fails with `UnknownOpcodeError` and
/// changes nothing; a byte inside it steps per the instruction's
/// transition relation.
pub open spec fn step_at(pre: VM, post: VM, r: Result<(), VMError>, depth: u64) -> bool {
    match spec_decode(pre.code@[pre.pc as int]) {
        None => r == Result::<(), VMError>::Err(VMError::UnknownOpcodeError) && post == pre,
        Some(op) => instruction_case(pre, post, op, r, depth),
    }
}

/// One fetch-and-dispatch step of a top-level run.
pub open spec fn step_case(pre: VM, post: VM, r: Result<(), VMError>) -> bool {
    step_at(pre, post, r, 0)
}

/// How a run ends, from its last intermediate state: `Ok` exactly by
/// the counter standing at the end of the code; `BudgetExhausted` when
/// no budget is left before a halt; otherwise the first failing
/// dispatch step's error, unmodified, with that step's state and
/// nothing executed after it.
pub open spec fn run_ends(
    last: VM,
    post: VM,
    r: Result<(), VMError>,
    depth: u64,
    left: nat,
) -> bool {
    if last.pc >= last.code@.len() {
        r is Ok && post == last
    } else if left == 0 {
        r == Result::<(), VMError>::Err(VMError::BudgetExhausted) && post == last
    } else {
        r is Err && step_at(last, post, r, depth)
    }
}

/// A complete run of the dispatch loop under an instruction budget,
/// witnessed by its trace: `tr` lists the states the run passes
/// through, each consecutive pair one successful fetch-and-dispatch
/// step, and the run ends from the last of them with result `r` and
/// final state `post`.
pub open spec fn is_run(
    tr: Seq<VM>,
    post: VM,
    r: Result<(), VMError>,
    depth: u64,
    budget: nat,
) -> bool {
    &&& tr.len() >= 1
    &&& tr.len() - 1 <= budget
    &&& (forall|i: int|
        0 <= i < tr.len() - 1 ==> (#[trigger] tr[i]).pc < tr[i].code@.len() && step_at(
            tr[i],
            tr[i + 1],
            Result::<(), VMError>::Ok(()),
            depth,
        ))
    &&& run_ends(tr.last(), post, r, depth, (budget - (tr.len() - 1)) as nat)
}

impl VM {
    /// ADDMOD or MULMOD: pops the modulus and two operands, pushes the
    /// wrapped sum or product reduced by the modulus. The reduction is
    /// recomputed and compared as a safety net: an unexpected result
    /// would be normalized to zero rather than pushed wrong.
    fn step_modarith(&mut self, op: Opcode) -> (r: Result<(), VMError>)
        requires
            old(self).wf(),
            old(self).pc < old(self).code@.len(),
            op == Opcode::AddMod || op == Opcode::MulMod,
        ensures
            final(self).wf(),
            modarith_case(*old(self), *final(self), r, op),
    {
        if self.stack_pointer < 3 {
            return Err(VMError::StackUnderflow);
        }
        let t = self.registers[self.stack_pointer - 1];
        let s = self.registers[self.stack_pointer - 2];
        let u = self.registers[self.stack_pointer - 3];
        let combined = match op {
            Opcode::AddMod => word_add(&u, &s),
            _ => word_mul(&u, &s),
        };
        let reduced = word_rem(&combined, &t);
        let expected = word_rem(&combined, &t);
        proof {
            crate::word::lemma_word_of_roundtrip(reduced);
            crate::word::lemma_word_of_roundtrip(expected);
        }
        let out = if reduced == expected {
            reduced
        } else {
            Word::zero()
        };
        self.registers.set(self.stack_pointer - 3, out);
        self.stack_pointer = self.stack_pointer - 2;
        self.advance_pc();
        Ok(())
    }

    /// LOG: pops an offset and a length, consumes the topic words, and
    /// appends one record.
    fn step_log(&mut self, n: u8) -> (r: Result<(), VMError>)
        requires
            old(self).wf(),
            old(self).pc < old(self).code@.len(),
            n <= 4,
        ensures
            final(self).wf(),
            log_case(*old(self), *final(self), r, n as nat),
    {
        let n_us = n as usize;
        if self.stack_pointer < 2 + n_us {
            return Err(VMError::StackUnderflow);
        }
        if self.memory.is_none() {
            return Err(VMError::MemoryError);
        }
        let addr = match &self.address {
            Some(a) => *a,
            None => {
                return Err(VMError::MemoryError);
            },
        };
        let t = self.registers[self.stack_pointer - 1];
        let s = self.registers[self.stack_pointer - 2];
        let off = match word_to_offset(&t, usize::MAX) {
            Some(o) => o,
            None => {
                return Err(VMError::MemoryError);
            },
        };
        let len = match word_to_offset(&s, usize::MAX) {
            Some(l) => l,
            None => {
                return Err(VMError::MemoryError);
            },
        };
        if off > usize::MAX - len {
            return Err(VMError::MemoryError);
        }
        let data = match &self.memory {
            Some(m) => m.read_slice(off, len),
            None => {
                proof {
                    assert(false);
                }
                Vec::new()
            },
        };
        let mut topics: Vec<Word> = Vec::new();
        let mut k: usize = 0;
        while k < n_us
            invariant
                k <= n_us,
                n_us <= 4,
                self == old(self),
                self.stack_pointer >= 2 + n_us,
                self.wf(),
                topics@.len() == k,
                forall|j: int|
                    0 <= j < k ==> topics@[j] == self.registers@[self.stack_pointer - 3 - j],
            decreases n_us - k,
        {
            topics.push(self.registers[self.stack_pointer - 3 - k]);
            k += 1;
        }
        self.logs.push(Log { address: addr, data, topics });
        self.stack_pointer = self.stack_pointer - 2 - n_us;
        self.advance_pc();
        Ok(())
    }

    /// CODECOPY: pops a storage offset, a code offset and a size, and
    /// commits the addressed code bytes to consecutive storage slots.
    #[verifier::rlimit(60)]
    #[verifier::spinoff_prover]
    fn step_codecopy(&mut self) -> (r: Result<(), VMError>)
        requires
            old(self).wf(),
            old(self).pc < old(self).code@.len(),
        ensures
            final(self).wf(),
            codecopy_case(*old(self), *final(self), r),
    {
        if self.stack_pointer < 3 {
            return Err(VMError::StackUnderflow);
        }
        if self.storage.is_none() {
            return Err(VMError::MemoryError);
        }
        let t = self.registers[self.stack_pointer - 1];
        let s = self.registers[self.stack_pointer - 2];
        let u = self.registers[self.stack_pointer - 3];
        let code_len = self.code.len();
        let start = match word_to_offset(&s, code_len) {
            Some(o) => o,
            None => code_len,
        };
        let count = match word_to_offset(&u, code_len - start) {
            Some(c) => c,
            None => code_len - start,
        };
        self.stack_pointer = self.stack_pointer - 3;
        let mut i: usize = 0;
        while i < count
            invariant
                i <= count,
                self.wf(),
                old(self).wf(),
                old(self).storage is Some,
                self.code == old(self).code,
                self.memory == old(self).memory,
                self.logs == old(self).logs,
                same_maps(*old(self), *self),
                same_context(*old(self), *self),
                regs_same(*old(self), *self),
                self.stack_pointer == old(self).stack_pointer - 3,
                self.pc == old(self).pc,
                t == old(self).registers@[old(self).stack_pointer - 1],
                s == old(self).registers@[old(self).stack_pointer - 2],
                u == old(self).registers@[old(self).stack_pointer - 3],
                start == copy_start(*old(self), s.as_nat()),
                count == copy_count(*old(self), s.as_nat(), u.as_nat()),
                start + count <= old(self).code@.len(),
                (self.storage matches Some(st) && st.address == old(self).storage->0.address),
                codecopy_appends(*old(self), *self, t, s.as_nat(), i as int),
                forall|k: int|
                    0 <= k < i ==> !(#[trigger] old(self).storage->0.spec_committed(
                        spec_word_of(spec_add(t.as_nat(), k as nat)),
                    )),
                forall|k: int|
                    i <= k < count ==> ((#[trigger] self.storage->0.spec_committed(
                        spec_word_of(spec_add(t.as_nat(), k as nat)),
                    )) <==> old(self).storage->0.spec_committed(
                        spec_word_of(spec_add(t.as_nat(), k as nat)),
                    )),
            decreases count - i,
        {
            let code_len = self.code.len();
            proof {
                assert(start + i < code_len);
            }
            let key = word_add(&t, &Word::from_u64(i as u64));
            let value = Word::from_u64(self.code[start + i] as u64);
            proof {
                crate::word::lemma_word_of_roundtrip(key);
                crate::word::lemma_word_of_roundtrip(value);
            }
            let hit_committed = match &self.storage {
                Some(st) => !st.require_uncommitted(&key),
                None => {
                    proof {
                        assert(false);
                    }
                    false
                },
            };
            if hit_committed {
                proof {
                    let pre = *old(self);
                    let ts = pre.registers@[pre.stack_pointer - 1];
                    let ss = pre.registers@[pre.stack_pointer - 2];
                    let us = pre.registers@[pre.stack_pointer - 3];
                    assert(ts == t && ss == s && us == u);
                    assert(pre.storage->0.spec_committed(
                        spec_word_of(spec_add(t.as_nat(), i as nat)),
                    ));
                    assert(codecopy_partial(
                        pre,
                        *self,
                        ts,
                        ss.as_nat(),
                        copy_count(pre, ss.as_nat(), us.as_nat()),
                    )) by {
                        assert(codecopy_appends(*old(self), *self, t, s.as_nat(), i as int));
                    }
                }
                return Err(VMError::StorageFailure(StorageError::AlreadyCommitted));
            }
            let ghost entries_before = self.storage->0.entries@;
            match &mut self.storage {
                Some(st) => {
                    match st.write(&key, &value) {
                        Ok(()) => {},
                        Err(_) => {
                            proof {
                                assert(false);
                            }
                        },
                    }
                },
                None => {
                    proof {
                        assert(false);
                    }
                },
            }
            proof {
                assert(self.storage->0.entries@ == entries_before.push((key, value)));
                assert forall|k: int|
                    i + 1 <= k < count implies ((#[trigger] self.storage->0.spec_committed(
                        spec_word_of(spec_add(t.as_nat(), k as nat)),
                    )) <==> old(self).storage->0.spec_committed(
                        spec_word_of(spec_add(t.as_nat(), k as nat)),
                    )) by {
                    crate::word::lemma_add_offset_distinct(t.as_nat(), i as nat, k as nat);
                    crate::word::lemma_word_of_value(spec_add(t.as_nat(), i as nat));
                    crate::word::lemma_word_of_value(spec_add(t.as_nat(), k as nat));
                    let kw = spec_word_of(spec_add(t.as_nat(), k as nat));
                    assert(kw != key);
                    assert(self.storage->0.entries@.drop_last() =~= entries_before);
                    assert(self.storage->0.entries@.last() == (key, value));
                }
            }
            i += 1;
        }
        self.advance_pc();
        Ok(())
    }

    /// The 20-byte identifier derived from a word's canonical RLP
    /// serialization: its first twenty bytes, zero-filled if shorter.
    fn derive_id(seed: &Word) -> (r: Address)
        ensures
            r == spec_create_id(seed.as_nat()),
    {
        let bs = rlp_encode_word(seed);
        let mut padded: Vec<u8> = Vec::new();
        let mut i: usize = 0;
        while i < 20
            invariant
                i <= 20,
                bs@ == spec_rlp_word(seed.as_nat()),
                padded@.len() == i,
                forall|j: int|
                    0 <= j < i ==> padded@[j] == (if j < bs@.len() {
                        bs@[j]
                    } else {
                        0u8
                    }),
            decreases 20 - i,
        {
            if i < bs.len() {
                padded.push(bs[i]);
            } else {
                padded.push(0u8);
            }
            i += 1;
        }
        let r = Address::from_bytes(&padded);
        proof {
            let want = Seq::new(
                20,
                |j: int|
                    if j < spec_rlp_word(seed.as_nat()).len() {
                        spec_rlp_word(seed.as_nat())[j]
                    } else {
                        0u8
                    },
            );
            assert(padded@ =~= want);
            crate::word::lemma_nat_of_bytes_bound(want.subrange(0, 8));
            crate::word::lemma_nat_of_bytes_bound(want.subrange(8, 16));
            crate::word::lemma_nat_of_bytes_bound(want.subrange(16, 20));
            crate::word::lemma_pow_byte_values();
        }
        r
    }

    /// CREATE: pops an identifier seed and two storage bounds, derives
    /// the new identifier, reads the initialization code from the
    /// storage range, and registers exactly one new account.
    fn step_create(&mut self) -> (r: Result<(), VMError>)
        requires
            old(self).wf(),
            old(self).pc < old(self).code@.len(),
        ensures
            final(self).wf(),
            create_case(*old(self), *final(self), r),
    {
        if self.stack_pointer < 3 {
            return Err(VMError::StackUnderflow);
        }
        if self.storage.is_none() {
            return Err(VMError::MemoryError);
        }
        let t = self.registers[self.stack_pointer - 1];
        let s = self.registers[self.stack_pointer - 2];
        let u = self.registers[self.stack_pointer - 3];
        let count = match word_to_offset(&u, usize::MAX) {
            Some(c) => c,
            None => {
                return Err(VMError::MemoryError);
            },
        };
        let mut blob: Vec<u8> = Vec::new();
        let mut k: usize = 0;
        while k < count
            invariant
                k <= count,
                self == old(self),
                self.wf(),
                self.storage is Some,
                count == u.as_nat(),
                blob@.len() == k,
                forall|j: int|
                    0 <= j < k ==> blob@[j] == (self.storage->0.spec_read(
                        spec_word_of(spec_add(s.as_nat(), j as nat)),
                    ) % 256) as u8,
            decreases count - k,
        {
            let key = word_add(&s, &Word::from_u64(k as u64));
            proof {
                crate::word::lemma_word_of_roundtrip(key);
            }
            let value = match &self.storage {
                Some(st) => {
                    match st.read(&key) {
                        Ok(v) => v,
                        Err(_) => {
                            proof {
                                assert(false);
                            }
                            Word::zero()
                        },
                    }
                },
                None => {
                    proof {
                        assert(false);
                    }
                    Word::zero()
                },
            };
            blob.push(crate::word::low_byte(&value));
            k += 1;
        }
        proof {
            assert(blob@ =~= create_blob(*old(self), s.as_nat(), u.as_nat()));
        }
        let id = Self::derive_id(&t);
        self.accounts.insert(id, AccountRecord { id, version: 0 });
        self.account_code.insert(id, blob);
        self.stack_pointer = self.stack_pointer - 3;
        self.advance_pc();
        proof {
            assert(self.account_code@.dom() =~= old(self).account_code@.dom().insert(id));
        }
        Ok(())
    }

    /// RETURN: pops an offset and a size, pushes the memory range read
    /// there as the return value, and halts.
    fn step_return(&mut self) -> (r: Result<(), VMError>)
        requires
            old(self).wf(),
            old(self).pc < old(self).code@.len(),
        ensures
            final(self).wf(),
            return_case(*old(self), *final(self), r),
    {
        if self.stack_pointer < 2 {
            return Err(VMError::StackUnderflow);
        }
        if self.memory.is_none() {
            return Err(VMError::MemoryError);
        }
        let t = self.registers[self.stack_pointer - 1];
        let s = self.registers[self.stack_pointer - 2];
        let len = match word_to_offset(&s, 32) {
            Some(l) => l,
            None => {
                return Err(VMError::MemoryError);
            },
        };
        let off = match word_to_offset(&t, usize::MAX - len) {
            Some(o) => o,
            None => {
                return Err(VMError::MemoryError);
            },
        };
        let data = match &self.memory {
            Some(m) => m.read_slice(off, len),
            None => {
                proof {
                    assert(false);
                }
                Vec::new()
            },
        };
        let w = Word::from_bytes_be(&data);
        self.registers.set(self.stack_pointer - 2, w);
        self.stack_pointer = self.stack_pointer - 1;
        self.pc = self.code.len();
        Ok(())
    }

    /// SUICIDE: removes the current sender's account and code and
    /// halts.
    fn step_suicide(&mut self) -> (r: Result<(), VMError>)
        requires
            old(self).wf(),
        ensures
            final(self).wf(),
            suicide_case(*old(self), *final(self), r),
    {
        let from = match &self.current_sender {
            Some(a) => *a,
            None => {
                return Err(VMError::MemoryError);
            },
        };
        self.account_code.remove(&from);
        self.accounts.remove(&from);
        self.pc = self.code.len();
        Ok(())
    }

    /// A CALL-family step: derive the callee, swap its code in, run it
    /// to completion on the shared state, restore the caller's code and
    /// counter, and push the word read from the callee's output range.
    fn execute_call(&mut self, depth: u64) -> (r: Result<(), VMError>)
        requires
            old(self).wf(),
            old(self).pc < old(self).code@.len(),
            depth <= MAX_CALL_DEPTH,
        ensures
            final(self).wf(),
            call_case(*old(self), *final(self), r, depth),
            call_guards_ok(*old(self), depth) ==> call_post(*old(self), *final(self), r, depth),
            logs_extended(*old(self), *final(self)),
            final(self).code == old(self).code,
            old(self).memory is Some ==> final(self).memory is Some,
            final(self).address == old(self).address,
            final(self).current_transaction == old(self).current_transaction,
            old(self).storage is Some ==> final(self).storage is Some
                && final(self).storage->0.address == old(self).storage->0.address,
        decreases MAX_CALL_DEPTH - depth, 0int,
    {
        if depth >= MAX_CALL_DEPTH {
            return Err(VMError::CallDepthExceeded);
        }
        if self.stack_pointer < 5 {
            return Err(VMError::StackUnderflow);
        }
        let to_seed = self.registers[self.stack_pointer - 1];
        let in_size = self.registers[self.stack_pointer - 3];
        let out_off = self.registers[self.stack_pointer - 4];
        let id = Self::derive_id(&to_seed);
        let callee = match self.account_code.find(&id) {
            Some(i) => clone_bytes(&self.account_code.entries[i].1),
            None => {
                return Err(VMError::MemoryError);
            },
        };
        if self.memory.is_none() {
            return Err(VMError::MemoryError);
        }
        let ghost cv = callee;
        self.stack_pointer = self.stack_pointer - 5;
        let mut swapped = callee;
        core::mem::swap(&mut self.code, &mut swapped);
        let old_pc = self.pc;
        self.pc = 0;
        proof {
            assert(*self == (VM {
                code: cv,
                pc: 0,
                stack_pointer: (old(self).stack_pointer - 5) as usize,
                ..*old(self)
            }));
        }
        let (res, nested_trace) = self.execute_seq(depth + 1, u64::MAX);
        let ghost after_run = *self;
        core::mem::swap(&mut self.code, &mut swapped);
        self.pc = old_pc;
        proof {
            assert(*self == (VM { code: old(self).code, pc: old(self).pc, ..after_run }));
        }
        match res {
            Ok(()) => {},
            Err(e) => {
                proof {
                    assert(call_witnesses(
                        *old(self),
                        *self,
                        Err(e),
                        depth,
                        cv,
                        nested_trace@,
                        after_run,
                        res,
                    ));
                }
                return Err(e);
            },
        }
        let len = match word_to_offset(&in_size, 32) {
            Some(l) => l,
            None => {
                proof {
                    assert(call_witnesses(
                        *old(self),
                        *self,
                        Err(VMError::MemoryError),
                        depth,
                        cv,
                        nested_trace@,
                        after_run,
                        res,
                    ));
                }
                return Err(VMError::MemoryError);
            },
        };
        let off = match word_to_offset(&out_off, usize::MAX - 32) {
            Some(o) => o,
            None => {
                proof {
                    assert(call_witnesses(
                        *old(self),
                        *self,
                        Err(VMError::MemoryError),
                        depth,
                        cv,
                        nested_trace@,
                        after_run,
                        res,
                    ));
                }
                return Err(VMError::MemoryError);
            },
        };
        let data = match &self.memory {
            Some(m) => m.read_slice(off, len),
            None => {
                proof {
                    assert(false);
                }
                Vec::new()
            },
        };
        let w = Word::from_bytes_be(&data);
        if self.stack_pointer >= 1024 {
            proof {
                assert(call_witnesses(
                    *old(self),
                    *self,
                    Err(VMError::StackOverflow),
                    depth,
                    cv,
                    nested_trace@,
                    after_run,
                    res,
                ));
            }
            return Err(VMError::StackOverflow);
        }
        self.registers.set(self.stack_pointer, w);
        self.stack_pointer = self.stack_pointer + 1;
        self.advance_pc();
        proof {
            assert(call_witnesses(
                *old(self),
                *self,
                Ok(()),
                depth,
                cv,
                nested_trace@,
                after_run,
                res,
            ));
        }
        Ok(())
    }

    /// Dispatches one decoded instruction.
    fn execute_one_instruction(&mut self, opcode: Opcode, depth: u64) -> (r: Result<(), VMError>)
        requires
            old(self).wf(),
            old(self).pc < old(self).code@.len(),
            crate::opcode::opcode_wf(opcode),
            depth <= MAX_CALL_DEPTH,
        ensures
            final(self).wf(),
            instruction_case(*old(self), *final(self), opcode, r, depth),
            (opcode == Opcode::Call || opcode == Opcode::DelegateCall) && call_guards_ok(
                *old(self),
                depth,
            ) ==> call_post(*old(self), *final(self), r, depth),
            opcode == Opcode::CallCode && (old(self).current_transaction matches Some(tx)
                && tx.to matches Some(to) && call_guards_ok(
                (VM { current_sender: Some(to), ..*old(self) }),
                depth,
            )) ==> call_post(
                (VM {
                    current_sender: Some(old(self).current_transaction->0.to->0),
                    ..*old(self)
                }),
                *final(self),
                r,
                depth,
            ),
            logs_extended(*old(self), *final(self)),
            final(self).code == old(self).code,
            old(self).memory is Some ==> final(self).memory is Some,
            final(self).address == old(self).address,
            final(self).current_transaction == old(self).current_transaction,
            old(self).storage is Some ==> final(self).storage is Some
                && final(self).storage->0.address == old(self).storage->0.address,
        decreases MAX_CALL_DEPTH - depth, 1int,
    {
        match opcode {
            Opcode::Stop => self.step_stop(),
            Opcode::Add | Opcode::Mul | Opcode::Sub | Opcode::Div | Opcode::SDiv | Opcode::Mod
                | Opcode::SMod | Opcode::Exp | Opcode::SignExtend | Opcode::Lt | Opcode::Gt
                | Opcode::SLt | Opcode::SGt | Opcode::Equal | Opcode::And | Opcode::Or
                | Opcode::Xor | Opcode::Byte => self.step_binary(opcode),
            Opcode::AddMod | Opcode::MulMod => self.step_modarith(opcode),
            Opcode::IsZero | Opcode::Not => self.step_unary(opcode),
            Opcode::Sha3 => self.step_sha3(),
            Opcode::Address => self.step_address(),
            Opcode::CodeSize => self.step_codesize(),
            Opcode::CodeCopy => self.step_codecopy(),
            Opcode::Pop => self.step_pop(),
            Opcode::MLoad => self.step_mload(),
            Opcode::MStore => self.step_mstore(),
            Opcode::MStore8 => self.step_mstore8(),
            Opcode::MSize => self.step_msize(),
            Opcode::SLoad => self.step_sload(),
            Opcode::SStore => self.step_sstore(),
            Opcode::Jump => self.step_jump(),
            Opcode::JumpI => self.step_jumpi(),
            Opcode::Pc => self.step_pc(),
            Opcode::Gas => self.step_gas(),
            Opcode::JumpDest => self.step_jumpdest(),
            Opcode::Push(n) => self.step_push(n),
            Opcode::Dup(n) => self.step_dup(n),
            Opcode::Swap(n) => self.step_swap(n),
            Opcode::Log(n) => self.step_log(n),
            Opcode::Create => self.step_create(),
            Opcode::Call => self.execute_call(depth),
            Opcode::CallCode => {
                let to = match &self.current_transaction {
                    Some(tx) => {
                        match &tx.to {
                            Some(to) => *to,
                            None => {
                                return Err(VMError::MemoryError);
                            },
                        }
                    },
                    None => {
                        return Err(VMError::MemoryError);
                    },
                };
                self.current_sender = Some(to);
                self.execute_call(depth)
            },
            Opcode::DelegateCall => self.execute_call(depth),
            Opcode::Return => self.step_return(),
            Opcode::Invalid => Err(VMError::InvalidInstruction),
            Opcode::Suicide => self.step_suicide(),
        }
    }

    /// The dispatch loop at one call depth: fetch, decode, execute,
    /// until the counter leaves the code, an error stops the run, or
    /// the instruction budget runs out. Beside the result it hands back
    /// the trace of the run it took, as a ghost witness.
    #[verifier::rlimit(60)]
    #[verifier::spinoff_prover]
    fn execute_seq(&mut self, depth: u64, budget: u64) -> (res: (
        Result<(), VMError>,
        Ghost<Seq<VM>>,
    ))
        requires
            old(self).wf(),
            depth <= MAX_CALL_DEPTH,
        ensures
            final(self).wf(),
            is_run(res.1@, *final(self), res.0, depth, budget as nat),
            res.1@.len() >= 1 && res.1@[0] == *old(self),
            logs_extended(*old(self), *final(self)),
            res.0 is Ok ==> final(self).pc == final(self).code@.len(),
            old(self).pc >= old(self).code@.len() ==> res.0 is Ok && *final(self) == *old(self),
            final(self).code == old(self).code,
            old(self).memory is Some ==> final(self).memory is Some,
            final(self).address == old(self).address,
            final(self).current_transaction == old(self).current_transaction,
            old(self).storage is Some ==> final(self).storage is Some
                && final(self).storage->0.address == old(self).storage->0.address,
        decreases MAX_CALL_DEPTH - depth, 2int,
    {
        let ghost mut trace: Seq<VM> = seq![*old(self)];
        let mut remaining = budget;
        while self.pc < self.code.len()
            invariant
                self.wf(),
                depth <= MAX_CALL_DEPTH,
                remaining <= budget,
                trace.len() == 1 + budget - remaining,
                trace[0] == *old(self),
                trace.last() == *self,
                forall|i: int|
                    0 <= i < trace.len() - 1 ==> (#[trigger] trace[i]).pc
                        < trace[i].code@.len() && step_at(
                        trace[i],
                        trace[i + 1],
                        Result::<(), VMError>::Ok(()),
                        depth,
                    ),
                old(self).pc >= old(self).code@.len() ==> *self == *old(self),
                logs_extended(*old(self), *self),
                self.code == old(self).code,
                old(self).memory is Some ==> self.memory is Some,
                old(self).storage is Some ==> self.storage is Some && self.storage->0.address
                    == old(self).storage->0.address,
                self.address == old(self).address,
                self.current_transaction == old(self).current_transaction,
            decreases remaining,
        {
            if remaining == 0 {
                return (Err(VMError::BudgetExhausted), Ghost(trace));
            }
            let ghost pre_step = *self;
            let op = match Opcode::decode(self.code[self.pc]) {
                Some(op) => op,
                None => {
                    proof {
                        assert(step_at(
                            pre_step,
                            pre_step,
                            Result::<(), VMError>::Err(VMError::UnknownOpcodeError),
                            depth,
                        ));
                    }
                    return (Err(VMError::UnknownOpcodeError), Ghost(trace));
                },
            };
            match self.execute_one_instruction(op, depth) {
                Ok(()) => {},
                Err(e) => {
                    proof {
                        assert(spec_decode(pre_step.code@[pre_step.pc as int]) == Some(op));
                        assert(instruction_case(
                            pre_step,
                            *self,
                            op,
                            Result::<(), VMError>::Err(e),
                            depth,
                        ));
                        assert(step_at(pre_step, *self, Result::<(), VMError>::Err(e), depth));
                    }
                    return (Err(e), Ghost(trace));
                },
            }
            proof {
                assert(spec_decode(pre_step.code@[pre_step.pc as int]) == Some(op));
                assert(instruction_case(
                    pre_step,
                    *self,
                    op,
                    Result::<(), VMError>::Ok(()),
                    depth,
                ));
                assert(step_at(pre_step, *self, Result::<(), VMError>::Ok(()), depth));
                trace = trace.push(*self);
            }
            remaining = remaining - 1;
        }
        (Ok(()), Ghost(trace))
    }

    /// Runs the dispatch loop to completion, stopping at the first
    /// error and returning it unmodified: some step trace from the
    /// starting state carries the run to the final state and result.
    pub fn execute(&mut self) -> (r: Result<(), VMError>)
        requires
            old(self).wf(),
        ensures
            final(self).wf(),
            (exists|tr: Seq<VM>|
                tr.len() >= 1 && tr[0] == *old(self) && #[trigger] is_run(
                    tr,
                    *final(self),
                    r,
                    0,
                    u64::MAX as nat,
                )),
            logs_extended(*old(self), *final(self)),
            r is Ok ==> final(self).pc == final(self).code@.len(),
            old(self).pc >= old(self).code@.len() ==> r is Ok && *final(self) == *old(self),
            final(self).code == old(self).code,
            old(self).memory is Some ==> final(self).memory is Some,
            final(self).address == old(self).address,
            final(self).current_transaction == old(self).current_transaction,
            old(self).storage is Some ==> final(self).storage is Some
                && final(self).storage->0.address == old(self).storage->0.address,
    {
        let (r, tr) = self.execute_seq(0, u64::MAX);
        proof {
            assert(is_run(tr@, *self, r, 0, u64::MAX as nat));
        }
        r
    }

    /// Runs the dispatch loop under an explicit instruction budget;
    /// exceeding it aborts the run with `BudgetExhausted`.
    pub fn execute_with_budget(&mut self, budget: u64) -> (r: Result<(), VMError>)
        requires
            old(self).wf(),
        ensures
            final(self).wf(),
            (exists|tr: Seq<VM>|
                tr.len() >= 1 && tr[0] == *old(self) && #[trigger] is_run(
                    tr,
                    *final(self),
                    r,
                    0,
                    budget as nat,
                )),
            logs_extended(*old(self), *final(self)),
            r is Ok ==> final(self).pc == final(self).code@.len(),
            final(self).code == old(self).code,
            old(self).memory is Some ==> final(self).memory is Some,
    {
        let (r, tr) = self.execute_seq(0, budget);
        proof {
            assert(is_run(tr@, *self, r, 0, budget as nat));
        }
        r
    }

    /// Fetches, decodes and executes exactly one instruction: a byte
    /// outside the opcode table fails with `UnknownOpcodeError` and
    /// changes nothing; any other byte steps by the instruction's
    /// transition relation.
    pub fn execute_one(&mut self) -> (r: Result<(), VMError>)
        requires
            old(self).wf(),
            old(self).pc < old(self).code@.len(),
        ensures
            final(self).wf(),
            step_case(*old(self), *final(self), r),
            (spec_decode(old(self).code@[old(self).pc as int]) == Some(Opcode::Call)
                || spec_decode(old(self).code@[old(self).pc as int]) == Some(
                Opcode::DelegateCall,
            )) && call_guards_ok(*old(self), 0) ==> call_post(*old(self), *final(self), r, 0),
            spec_decode(old(self).code@[old(self).pc as int]) == Some(Opcode::CallCode) && (old(
                self,
            ).current_transaction matches Some(tx) && tx.to matches Some(to) && call_guards_ok(
                (VM { current_sender: Some(to), ..*old(self) }),
                0,
            )) ==> call_post(
                (VM {
                    current_sender: Some(old(self).current_transaction->0.to->0),
                    ..*old(self)
                }),
                *final(self),
                r,
                0,
            ),
            logs_extended(*old(self), *final(self)),
    {
        let op = match Opcode::decode(self.code[self.pc]) {
            Some(op) => op,
            None => {
                return Err(VMError::UnknownOpcodeError);
            },
        };
        self.execute_one_instruction(op, 0)
    }

    /// Executes one already-decoded instruction at the top call depth.
    pub fn execute_instruction(&mut self, instruction: Opcode) -> (r: Result<(), VMError>)
        requires
            old(self).wf(),
            old(self).pc < old(self).code@.len(),
            crate::opcode::opcode_wf(instruction),
        ensures
            final(self).wf(),
            instruction_case(*old(self), *final(self), instruction, r, 0),
    {
        self.execute_one_instruction(instruction, 0)
    }
}

/// The guard checks of a CALL-family step all pass: the depth is below
/// the limit, five operands stand on the stack, the callee identifier
/// derived from the top of stack has registered code, and memory is
/// attached.
pub open spec fn call_guards_ok(pre: VM, depth: u64) -> bool {
    &&& depth < MAX_CALL_DEPTH
    &&& pre.stack_pointer >= 5
    &&& pre.account_code@.contains_key(
        spec_create_id(pre.registers@[pre.stack_pointer - 1].as_nat()),
    )
    &&& pre.memory is Some
}

/// After a nested run: with the caller's code and counter restored
/// over whatever state the callee left, the output length must fit one
/// word and the output offset the address range, and the word spelled
/// by the callee's output memory range — its writes visible — is
/// pushed onto the shared stack, the counter advancing past the call.
pub open spec fn call_output(
    restored: VM,
    post: VM,
    r: Result<(), VMError>,
    out_off: Word,
    in_size: Word,
) -> bool {
    if in_size.as_nat() > 32 {
        r == Result::<(), VMError>::Err(VMError::MemoryError) && post == restored
    } else if out_off.as_nat() > usize::MAX - 32 {
        r == Result::<(), VMError>::Err(VMError::MemoryError) && post == restored
    } else if restored.memory is None {
        r == Result::<(), VMError>::Err(VMError::MemoryError) && post == restored
    } else if restored.stack_pointer >= 1024 {
        r == Result::<(), VMError>::Err(VMError::StackOverflow) && post == restored
    } else {
        &&& r is Ok
        &&& frame_stack_op(restored, post)
        &&& post.stack_pointer == restored.stack_pointer + 1
        &&& regs_update1(restored, post, restored.stack_pointer as int)
        &&& post.registers@[restored.stack_pointer as int].as_nat() == nat_of_bytes_be(
            spec_read_bytes(restored.memory->0@, out_off.as_nat() as int, in_size.as_nat()),
        )
        &&& post.pc == restored.pc + 1
    }
}

/// The named witnesses of one CALL-family step past its guards: `cv` a
/// buffer holding the callee's registered code, `tr` the trace of the
/// nested run over the shared state with the five operands popped and
/// `cv` swapped in at counter zero, `after` the state that run left and
/// `rr` its result. A callee failure becomes the call's failure,
/// unmodified, around the restored code and counter — so the callee's
/// mutations of accounts, code, storage, memory and logs persist for
/// the caller either way; a completed callee hands over to the output
/// copy.
pub open spec fn call_witnesses(
    pre: VM,
    post: VM,
    r: Result<(), VMError>,
    depth: u64,
    cv: Vec<u8>,
    tr: Seq<VM>,
    after: VM,
    rr: Result<(), VMError>,
) -> bool {
    &&& cv@ == pre.account_code@[spec_create_id(
        pre.registers@[pre.stack_pointer - 1].as_nat(),
    )]@
    &&& tr.len() >= 1
    &&& tr[0] == (VM {
        code: cv,
        pc: 0,
        stack_pointer: (pre.stack_pointer - 5) as usize,
        ..pre
    })
    &&& is_run(tr, after, rr, (depth + 1) as u64, u64::MAX as nat)
    &&& (match rr {
        Result::Ok(()) => call_output(
            (VM { code: pre.code, pc: pre.pc, ..after }),
            post,
            r,
            pre.registers@[pre.stack_pointer - 4],
            pre.registers@[pre.stack_pointer - 3],
        ),
        Result::Err(e) => r == Result::<(), VMError>::Err(e) && post == (VM {
            code: pre.code,
            pc: pre.pc,
            ..after
        }),
    })
}

/// A CALL-family step whose guards passed: some callee-code buffer,
/// nested trace, end state and nested result witness the run.
pub open spec fn call_post(pre: VM, post: VM, r: Result<(), VMError>, depth: u64) -> bool {
    exists|cv: Vec<u8>, tr: Seq<VM>, after: VM, rr: Result<(), VMError>|
        #[trigger] call_witnesses(pre, post, r, depth, cv, tr, after, rr)
}

/// A failed run stopped at its first failing fetch-and-dispatch step:
/// unless the budget ran out, the error is that step's own, unmodified,
/// and the final state is exactly what that step left — no later
/// instruction ran, nothing was retried, and nothing was rolled back.
pub proof fn lemma_run_stops_at_first_error(
    tr: Seq<VM>,
    post: VM,
    e: VMError,
    depth: u64,
    budget: nat,
)
    requires
        is_run(tr, post, Result::<(), VMError>::Err(e), depth, budget),
    ensures
        tr.last().pc < tr.last().code@.len(),
        e == VMError::BudgetExhausted && post == tr.last() || step_at(
            tr.last(),
            post,
            Result::<(), VMError>::Err(e),
            depth,
        ),
{
}

/// A completed run halted: its final state's counter stands at the end
/// of its code, and every step before it was a successful dispatch.
pub proof fn lemma_run_ok_halts(tr: Seq<VM>, post: VM, depth: u64, budget: nat)
    requires
        is_run(tr, post, Result::<(), VMError>::Ok(()), depth, budget),
    ensures
        post == tr.last(),
        post.pc >= post.code@.len(),
{
}

/// A PUSH followed immediately by a POP leaves the stack pointer and
/// the whole operand stack exactly as they were, for any operand count
/// the PUSH family admits.
pub proof fn lemma_push_then_pop(pre: VM, mid: VM, post: VM, n: nat)
    requires
        pre.wf(),
        push_case(pre, mid, Result::<(), VMError>::Ok(()), n),
        pop_case(mid, post, Result::<(), VMError>::Ok(())),
    ensures
        post.stack_pointer == pre.stack_pointer,
        post.stack() == pre.stack(),
        frame_stack_op(pre, post),
{
    assert(post.stack() =~= pre.stack());
}

/// DUP1 duplicates the top of stack exactly: a stack holding `v` on
/// top becomes the same stack with `v` pushed once more.
pub proof fn lemma_dup_duplicates_top(pre: VM, post: VM)
    requires
        pre.wf(),
        pre.stack_pointer >= 1,
        dup_case(pre, post, Result::<(), VMError>::Ok(()), 1),
    ensures
        post.stack() == pre.stack().push(pre.stack().last()),
{
    assert(post.stack() =~= pre.stack().push(pre.stack().last()));
}

/// SWAP1 exchanges the two topmost words: a stack ending in `a, b`
/// (with `b` on top) ends in `b, a`.
pub proof fn lemma_swap_exchanges_top(pre: VM, post: VM)
    requires
        pre.wf(),
        pre.stack_pointer >= 2,
        swap_case(pre, post, Result::<(), VMError>::Ok(()), 1),
    ensures
        post.stack() == pre.stack().update(pre.stack().len() - 1, pre.stack()[pre.stack().len()
            - 2]).update(pre.stack().len() - 2, pre.stack().last()),
{
    assert(post.stack() =~= pre.stack().update(pre.stack().len() - 1, pre.stack()[pre.stack().len()
        - 2]).update(pre.stack().len() - 2, pre.stack().last()));
}

/// A LOG step with two topic words appends exactly one record whose
/// topic list has length two and whose payload equals the referenced
/// memory slice, zero-filled past the extent.
pub proof fn lemma_log_two_topics(pre: VM, post: VM)
    requires
        log_case(pre, post, Result::<(), VMError>::Ok(()), 2),
        pre.stack_pointer >= 4,
        pre.memory is Some,
        pre.address is Some,
        pre.registers@[pre.stack_pointer - 1].as_nat() + pre.registers@[pre.stack_pointer
            - 2].as_nat() <= usize::MAX,
    ensures
        post.logs@.len() == pre.logs@.len() + 1,
        forall|i: int| 0 <= i < pre.logs@.len() ==> post.logs@[i] == pre.logs@[i],
        post.logs@.last().topics@.len() == 2,
        post.logs@.last().topics@[0] == pre.registers@[pre.stack_pointer - 3],
        post.logs@.last().topics@[1] == pre.registers@[pre.stack_pointer - 4],
        post.logs@.last().data@ == spec_read_bytes(
            pre.memory->0@,
            pre.registers@[pre.stack_pointer - 1].as_nat() as int,
            pre.registers@[pre.stack_pointer - 2].as_nat(),
        ),
        post.logs@.last().address == pre.address->0,
        post.stack_pointer == pre.stack_pointer - 4,
{
}

/// A SUB step inverts an ADD with the same second operand: when the
/// top of stack spells the wrapped sum of `a` and `b` and the word
/// below it is `b`, the step leaves exactly `a` — also across the
/// 2^256 boundary.
pub proof fn lemma_sub_step_inverts_add(pre: VM, post: VM, a: Word, b: Word)
    requires
        binary_case(pre, post, Result::<(), VMError>::Ok(()), Opcode::Sub),
        pre.stack_pointer >= 2,
        pre.registers@[pre.stack_pointer - 1].as_nat() == spec_add(a.as_nat(), b.as_nat()),
        pre.registers@[pre.stack_pointer - 2] == b,
    ensures
        post.registers@[pre.stack_pointer - 2].as_nat() == a.as_nat(),
        post.stack_pointer == pre.stack_pointer - 1,
{
    crate::word::lemma_add_sub_cancel(a, b);
}

/// An SLOAD step on a slot never committed pushes the zero word in
/// place of the popped key.
pub proof fn lemma_sload_step_fresh_reads_zero(pre: VM, post: VM)
    requires
        sload_case(pre, post, Result::<(), VMError>::Ok(())),
        pre.stack_pointer >= 1,
        pre.storage is Some,
        !pre.storage->0.spec_committed(pre.registers@[pre.stack_pointer - 1]),
    ensures
        post.registers@[pre.stack_pointer - 1].as_nat() == 0,
{
}

/// An SSTORE step that commits, followed by an SLOAD step of the same
/// key over the storage it left, reads back exactly the committed
/// value: the round trip of the commit protocol at the instruction
/// level.
pub proof fn lemma_sstore_then_sload_step(pre: VM, mid: VM, pre2: VM, post: VM)
    requires
        sstore_case(pre, mid, Result::<(), VMError>::Ok(())),
        pre.stack_pointer >= 2,
        pre.storage is Some,
        !pre.storage->0.spec_committed(pre.registers@[pre.stack_pointer - 1]),
        sload_case(pre2, post, Result::<(), VMError>::Ok(())),
        pre2.stack_pointer >= 1,
        pre2.storage == mid.storage,
        pre2.registers@[pre2.stack_pointer - 1] == pre.registers@[pre.stack_pointer - 1],
    ensures
        post.registers@[pre2.stack_pointer - 1].as_nat() == pre.registers@[pre.stack_pointer
            - 2].as_nat(),
{
    crate::storage::lemma_storage_round_trip(
        pre.storage->0,
        mid.storage->0,
        pre.registers@[pre.stack_pointer - 1],
        pre.registers@[pre.stack_pointer - 2],
    );
}

/// A completed CREATE registers exactly one new account, under the
/// identifier derived from the seed's canonical serialization, and
/// associates a code blob equal to the bytes read from the given
/// storage range; every other account and blob is untouched.
pub proof fn lemma_create_registers_one_account(pre: VM, post: VM)
    requires
        create_case(pre, post, Result::<(), VMError>::Ok(())),
        pre.stack_pointer >= 3,
        pre.storage is Some,
        pre.registers@[pre.stack_pointer - 3].as_nat() <= usize::MAX,
    ensures
        post.accounts@ == pre.accounts@.insert(
            spec_create_id(pre.registers@[pre.stack_pointer - 1].as_nat()),
            AccountRecord { id: spec_create_id(pre.registers@[pre.stack_pointer - 1].as_nat()), version: 0 },
        ),
        post.account_code@[spec_create_id(pre.registers@[pre.stack_pointer - 1].as_nat())]@
            == create_blob(
            pre,
            pre.registers@[pre.stack_pointer - 2].as_nat(),
            pre.registers@[pre.stack_pointer - 3].as_nat(),
        ),
        post.accounts@.dom() == pre.accounts@.dom().insert(
            spec_create_id(pre.registers@[pre.stack_pointer - 1].as_nat()),
        ),
{
    assert(post.accounts@.dom() =~= pre.accounts@.dom().insert(
        spec_create_id(pre.registers@[pre.stack_pointer - 1].as_nat()),
    ));
}

/// A byte outside the opcode table makes the fetch-and-dispatch step
/// fail with `UnknownOpcodeError` and leaves the engine untouched: no
/// byte aborts the machine.
pub proof fn lemma_unknown_byte_reports(pre: VM, post: VM, r: Result<(), VMError>)
    requires
        spec_decode(pre.code@[pre.pc as int]) is None,
        step_case(pre, post, r),
    ensures
        r == Result::<(), VMError>::Err(VMError::UnknownOpcodeError),
        post == pre,
{
}

/// The INVALID opcode halts the step with `InvalidInstruction` and
/// leaves every prior state mutation intact: the engine state is
/// exactly what it was before the instruction, with no rollback of
/// anything done earlier in the run.
pub proof fn lemma_invalid_instruction_halts(pre: VM, post: VM, r: Result<(), VMError>)
    requires
        spec_decode(pre.code@[pre.pc as int]) == Some(Opcode::Invalid),
        step_case(pre, post, r),
    ensures
        r == Result::<(), VMError>::Err(VMError::InvalidInstruction),
        post == pre,
{
}

/// The words comparisons push: one for true, zero for false.
fn bool_word(b: bool) -> (r: Word)
    ensures
        r.as_nat() == (if b {
            1nat
        } else {
            0nat
        }),
{
    if b {
        Word::one()
    } else {
        Word::zero()
    }
}

} // verus!
