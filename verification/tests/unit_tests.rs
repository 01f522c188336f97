use fvm::account::Account;
use fvm::address::Address;
use fvm::memory::SimpleMemory;
use fvm::opcode::Opcode;
use fvm::transaction::EthashConfiguration;
use fvm::word::Word;

fn w(x: u64) -> Word {
    Word::from_u64(x)
}

#[test]
fn word_byte_round_trip() {
    let x = Word { l0: 0x0123_4567_89ab_cdef, l1: 0xfe, l2: 0, l3: 0x8000_0000_0000_0000 };
    let bytes = x.to_bytes_be();
    assert_eq!(bytes.len(), 32);
    assert_eq!(bytes[0], 0x80);
    assert_eq!(bytes[31], 0xef);
    assert_eq!(Word::from_bytes_be(&bytes), x);
}

#[test]
fn word_from_short_bytes_is_right_aligned() {
    let bytes = vec![0x01, 0x02];
    assert_eq!(Word::from_bytes_be(&bytes), w(0x0102));
    let empty: Vec<u8> = Vec::new();
    assert_eq!(Word::from_bytes_be(&empty), w(0));
}

#[test]
fn word_comparisons() {
    let small = w(5);
    let big = Word { l0: 0, l1: 0, l2: 0, l3: 1 };
    assert!(small.lt(&big));
    assert!(!big.lt(&small));
    let minus_one = Word { l0: u64::MAX, l1: u64::MAX, l2: u64::MAX, l3: u64::MAX };
    assert!(minus_one.slt(&small));
    assert!(!small.slt(&minus_one));
    assert!(small.to_u64() == Some(5));
    assert!(big.to_u64().is_none());
    assert!(w(0).is_zero());
    assert!(!w(1).is_zero());
}

#[test]
fn memory_reads_back_what_was_written() {
    let mut mem = SimpleMemory::new();
    assert_eq!(mem.size(), 0);
    mem.write(3, &w(0xdead_beef));
    assert_eq!(mem.size(), 35);
    assert_eq!(mem.read(3), w(0xdead_beef));
    // Reading grows the buffer over the range read.
    assert_eq!(mem.size(), 35);
    assert_eq!(mem.read(100), w(0));
    assert_eq!(mem.size(), 132);
    mem.write_byte(0, 0x7b);
    assert_eq!(mem.read_slice(0, 2), vec![0x7b, 0]);
    // A slice past the extent is zero-filled.
    assert_eq!(mem.read_slice(130, 4), vec![0, 0, 0, 0]);
}

#[test]
fn opcode_table_families() {
    assert_eq!(Opcode::decode(0x00), Some(Opcode::Stop));
    assert_eq!(Opcode::decode(0x60), Some(Opcode::Push(1)));
    assert_eq!(Opcode::decode(0x7f), Some(Opcode::Push(32)));
    assert_eq!(Opcode::decode(0x80), Some(Opcode::Dup(1)));
    assert_eq!(Opcode::decode(0x8f), Some(Opcode::Dup(16)));
    assert_eq!(Opcode::decode(0x90), Some(Opcode::Swap(1)));
    assert_eq!(Opcode::decode(0xa0), Some(Opcode::Log(0)));
    assert_eq!(Opcode::decode(0xa4), Some(Opcode::Log(4)));
    assert_eq!(Opcode::decode(0xa5), None);
    assert_eq!(Opcode::decode(0x0c), None);
    assert_eq!(Opcode::decode(0xfe), Some(Opcode::Invalid));
    assert_eq!(Opcode::decode(0xff), Some(Opcode::Suicide));
}

#[test]
fn address_packs_big_endian_bytes() {
    let mut bytes = vec![0u8; 20];
    bytes[0] = 0xaa;
    bytes[7] = 0x01;
    bytes[8] = 0xbb;
    bytes[19] = 0x02;
    let addr = Address::from_bytes(&bytes);
    assert_eq!(addr.hi, 0xaa00_0000_0000_0001);
    assert_eq!(addr.mid, 0xbb00_0000_0000_0000);
    assert_eq!(addr.lo, 0x0000_0002);
    let word = addr.to_word();
    let spelled = word.to_bytes_be();
    assert_eq!(&spelled[12..], &bytes[..]);
}

#[test]
fn account_builder_keeps_the_last_forty_characters() {
    let address = "0x43ab0113f2d9099ea8ab5d2932a62e4920dc2f2b".to_string();
    let account = Account::new("one".to_string(), address, 3);
    assert_eq!(account.address, "43ab0113f2d9099ea8ab5d2932a62e4920dc2f2b");
    assert_eq!(account.id, "one");
    assert_eq!(account.version, 3);
    assert!(account.crypto.cipher.is_none());
    assert!(account.crypto.mac.is_none());
    assert!(account.crypto.cipherparams.is_empty());
}

#[test]
fn account_builder_fills_the_crypto_envelope() {
    let address = "0000000000000000000000000000000000000000".to_string();
    let account = Account::new("two".to_string(), address, 3)
        .with_cipher("aes-128-ctr".to_string())
        .with_ciphertext("deadbeef".to_string())
        .with_cipher_params("0123".to_string())
        .with_kdf("pbkdf2".to_string())
        .with_mac("feedface".to_string())
        .with_pdkdf2_params(32, "salt".to_string(), "hmac-sha256".to_string(), 262144);
    assert_eq!(account.crypto.cipher.as_deref(), Some("aes-128-ctr"));
    assert_eq!(account.crypto.ciphertext.as_deref(), Some("deadbeef"));
    assert_eq!(account.crypto.cipherparams.len(), 1);
    assert_eq!(account.crypto.cipherparams[0].0, "iv");
    assert_eq!(account.crypto.cipherparams[0].1, "0123");
    assert_eq!(account.crypto.kdf.as_deref(), Some("pbkdf2"));
    assert_eq!(account.crypto.mac.as_deref(), Some("feedface"));
    assert_eq!(account.crypto.kdfparams.dklen, Some(32));
    assert_eq!(account.crypto.kdfparams.salt.as_deref(), Some("salt"));
    assert_eq!(account.crypto.kdfparams.prf.as_deref(), Some("hmac-sha256"));
    assert_eq!(account.crypto.kdfparams.c, Some(262144));
    assert_eq!(account.crypto.kdfparams.n, None);
}

#[test]
fn ethash_configuration_is_a_unit() {
    let cfg = EthashConfiguration::new();
    assert_eq!(cfg, EthashConfiguration);
}

#[test]
fn default_engine_has_memory_and_no_code() {
    let vm = <fvm::vm::VM as Default>::default();
    assert_eq!(vm.registers.len(), 1024);
    assert_eq!(vm.stack_pointer, 0);
    assert!(vm.memory.is_some());
    assert!(vm.storage.is_none());
    assert!(vm.code.is_empty());
}
