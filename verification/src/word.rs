//! The 256-bit machine word: the interpreter's native value type.
//!
//! A word is held as four 64-bit limbs, least significant first, so
//! that its mathematical value is a plain linear combination that the
//! verifier can reason about directly. All arithmetic wraps modulo
//! 2^256; the multi-precision routines themselves are delegated to the
//! `ethereum_types` crate behind trusted wrappers whose contracts state
//! the exact value of every result.

use vstd::prelude::*;

verus! {

/// 2^64.
pub open spec fn pow_limb_1() -> nat {
    0x1_0000_0000_0000_0000nat
}

/// 2^128.
pub open spec fn pow_limb_2() -> nat {
    0x1_0000_0000_0000_0000_0000_0000_0000_0000nat
}

/// 2^192.
pub open spec fn pow_limb_3() -> nat {
    0x1_0000_0000_0000_0000_0000_0000_0000_0000_0000_0000_0000_0000nat
}

/// 2^256: the modulus of all word arithmetic.
pub open spec fn word_modulus() -> nat {
    0x1_0000_0000_0000_0000_0000_0000_0000_0000_0000_0000_0000_0000_0000_0000_0000_0000nat
}

/// 2^255: the boundary between the non-negative and the negative range
/// of the two's-complement reading of a word.
pub open spec fn word_half_modulus() -> nat {
    0x8000_0000_0000_0000_0000_0000_0000_0000_0000_0000_0000_0000_0000_0000_0000_0000nat
}

/// 256^k.
pub open spec fn pow_byte(k: nat) -> nat
    decreases k,
{
    if k == 0 {
        1
    } else {
        256 * pow_byte((k - 1) as nat)
    }
}

/// The unsigned integer denoted by a big-endian byte string.
pub open spec fn nat_of_bytes_be(s: Seq<u8>) -> nat
    decreases s.len(),
{
    if s.len() == 0 {
        0
    } else {
        (nat_of_bytes_be(s.drop_last()) * 256 + s.last()) as nat
    }
}

/// A 256-bit unsigned integer, also readable as a 256-bit
/// two's-complement signed integer by the `S`-prefixed opcodes.
/// `l0` holds the least significant 64 bits, `l3` the most significant.
#[derive(Clone, Copy, Debug, PartialEq, Eq, Structural)]
pub struct Word {
    pub l0: u64,
    pub l1: u64,
    pub l2: u64,
    pub l3: u64,
}

impl Word {
    /// The unsigned value of the word.
    pub open spec fn as_nat(self) -> nat {
        (self.l0 + self.l1 * pow_limb_1() + self.l2 * pow_limb_2() + self.l3 * pow_limb_3()) as nat
    }

    /// The two's-complement reading of the word.
    pub open spec fn as_signed(self) -> int {
        if self.as_nat() >= word_half_modulus() {
            self.as_nat() - word_modulus()
        } else {
            self.as_nat() as int
        }
    }

    pub fn zero() -> (r: Word)
        ensures
            r.as_nat() == 0,
    {
        Word { l0: 0, l1: 0, l2: 0, l3: 0 }
    }

    pub fn one() -> (r: Word)
        ensures
            r.as_nat() == 1,
    {
        Word { l0: 1, l1: 0, l2: 0, l3: 0 }
    }

    pub fn from_u64(x: u64) -> (r: Word)
        ensures
            r.as_nat() == x,
    {
        Word { l0: x, l1: 0, l2: 0, l3: 0 }
    }

    pub fn is_zero(&self) -> (r: bool)
        ensures
            r <==> self.as_nat() == 0,
    {
        self.l0 == 0 && self.l1 == 0 && self.l2 == 0 && self.l3 == 0
    }

    /// The low 64 bits of the word, when the word fits in them.
    pub fn to_u64(&self) -> (r: Option<u64>)
        ensures
            r is Some <==> self.as_nat() < pow_limb_1(),
            r is Some ==> r->0 == self.as_nat(),
    {
        if self.l1 == 0 && self.l2 == 0 && self.l3 == 0 {
            Some(self.l0)
        } else {
            None
        }
    }

    /// Unsigned comparison, by limbs from the most significant down.
    pub fn lt(&self, other: &Word) -> (r: bool)
        ensures
            r <==> self.as_nat() < other.as_nat(),
    {
        if self.l3 != other.l3 {
            self.l3 < other.l3
        } else if self.l2 != other.l2 {
            self.l2 < other.l2
        } else if self.l1 != other.l1 {
            self.l1 < other.l1
        } else {
            self.l0 < other.l0
        }
    }

    /// Signed comparison under the two's-complement reading.
    pub fn slt(&self, other: &Word) -> (r: bool)
        ensures
            r <==> self.as_signed() < other.as_signed(),
    {
        let self_neg = self.l3 >= 0x8000_0000_0000_0000;
        let other_neg = other.l3 >= 0x8000_0000_0000_0000;
        proof {
            lemma_top_limb_sign(*self);
            lemma_top_limb_sign(*other);
        }
        if self_neg != other_neg {
            self_neg
        } else {
            self.lt(other)
        }
    }
}

/// Wrapping addition modulo 2^256.
pub open spec fn spec_add(a: nat, b: nat) -> nat {
    (a + b) % word_modulus()
}

/// Wrapping subtraction modulo 2^256.
pub open spec fn spec_sub(a: nat, b: nat) -> nat {
    ((a - b) % (word_modulus() as int)) as nat
}

/// Wrapping multiplication modulo 2^256.
pub open spec fn spec_mul(a: nat, b: nat) -> nat {
    (a * b) % word_modulus()
}

/// Truncating division; division by zero yields the zero word.
pub open spec fn spec_div(a: nat, b: nat) -> nat {
    if b == 0 {
        0
    } else {
        a / b
    }
}

/// Remainder; a zero modulus yields the zero word.
pub open spec fn spec_rem(a: nat, b: nat) -> nat {
    if b == 0 {
        0
    } else {
        a % b
    }
}

/// The two's-complement reading of an unsigned word value.
pub open spec fn signed_of(v: nat) -> int {
    if v >= word_half_modulus() {
        v - word_modulus()
    } else {
        v as int
    }
}

/// The unsigned word value denoting a signed quantity, modulo 2^256.
pub open spec fn wrap_int(i: int) -> nat {
    (i % (word_modulus() as int)) as nat
}

pub open spec fn abs_int(i: int) -> nat {
    if i < 0 {
        (-i) as nat
    } else {
        i as nat
    }
}

/// Signed division truncating toward zero, operands and result read as
/// two's-complement; a zero divisor yields the zero word.
pub open spec fn spec_sdiv(a: nat, b: nat) -> nat {
    if signed_of(b) == 0 {
        0
    } else {
        let q = abs_int(signed_of(a)) / abs_int(signed_of(b));
        if (signed_of(a) < 0) == (signed_of(b) < 0) {
            wrap_int(q as int)
        } else {
            wrap_int(-(q as int))
        }
    }
}

/// Signed remainder whose sign follows the dividend; a zero divisor
/// yields the zero word.
pub open spec fn spec_smod(a: nat, b: nat) -> nat {
    if signed_of(b) == 0 {
        0
    } else {
        let m = abs_int(signed_of(a)) % abs_int(signed_of(b));
        if signed_of(a) < 0 {
            wrap_int(-(m as int))
        } else {
            m
        }
    }
}

/// Relies on `ethereum_types::U256::overflowing_add`: 256-bit addition
/// that wraps, discarding the carry.
#[verifier::external_body]
pub(crate) fn word_add(a: &Word, b: &Word) -> (r: Word)
    ensures
        r.as_nat() == spec_add(a.as_nat(), b.as_nat()),
{
    let x = ethereum_types::U256([a.l0, a.l1, a.l2, a.l3]);
    let y = ethereum_types::U256([b.l0, b.l1, b.l2, b.l3]);
    let z = x.overflowing_add(y).0;
    Word { l0: z.0[0], l1: z.0[1], l2: z.0[2], l3: z.0[3] }
}

/// Relies on `ethereum_types::U256::overflowing_sub`: 256-bit
/// subtraction that wraps below zero.
#[verifier::external_body]
pub(crate) fn word_sub(a: &Word, b: &Word) -> (r: Word)
    ensures
        r.as_nat() == spec_sub(a.as_nat(), b.as_nat()),
{
    let x = ethereum_types::U256([a.l0, a.l1, a.l2, a.l3]);
    let y = ethereum_types::U256([b.l0, b.l1, b.l2, b.l3]);
    let z = x.overflowing_sub(y).0;
    Word { l0: z.0[0], l1: z.0[1], l2: z.0[2], l3: z.0[3] }
}

/// Relies on `ethereum_types::U256::overflowing_mul`: 256-bit
/// multiplication that keeps the low 256 bits of the product.
#[verifier::external_body]
pub(crate) fn word_mul(a: &Word, b: &Word) -> (r: Word)
    ensures
        r.as_nat() == spec_mul(a.as_nat(), b.as_nat()),
{
    let x = ethereum_types::U256([a.l0, a.l1, a.l2, a.l3]);
    let y = ethereum_types::U256([b.l0, b.l1, b.l2, b.l3]);
    let z = x.overflowing_mul(y).0;
    Word { l0: z.0[0], l1: z.0[1], l2: z.0[2], l3: z.0[3] }
}

/// Relies on `ethereum_types::U256::div_mod`: truncating 256-bit
/// division by a nonzero divisor (it panics on zero, which the
/// precondition rules out).
#[verifier::external_body]
fn word_div_nonzero(a: &Word, b: &Word) -> (r: Word)
    requires
        b.as_nat() != 0,
    ensures
        r.as_nat() == a.as_nat() / b.as_nat(),
{
    let x = ethereum_types::U256([a.l0, a.l1, a.l2, a.l3]);
    let y = ethereum_types::U256([b.l0, b.l1, b.l2, b.l3]);
    let z = x.div_mod(y).0;
    Word { l0: z.0[0], l1: z.0[1], l2: z.0[2], l3: z.0[3] }
}

/// Relies on `ethereum_types::U256::div_mod`: remainder of 256-bit
/// division by a nonzero divisor (it panics on zero, which the
/// precondition rules out).
#[verifier::external_body]
fn word_rem_nonzero(a: &Word, b: &Word) -> (r: Word)
    requires
        b.as_nat() != 0,
    ensures
        r.as_nat() == a.as_nat() % b.as_nat(),
{
    let x = ethereum_types::U256([a.l0, a.l1, a.l2, a.l3]);
    let y = ethereum_types::U256([b.l0, b.l1, b.l2, b.l3]);
    let z = x.div_mod(y).1;
    Word { l0: z.0[0], l1: z.0[1], l2: z.0[2], l3: z.0[3] }
}

/// Truncating division with the zero-divisor convention.
pub fn word_div(a: &Word, b: &Word) -> (r: Word)
    ensures
        r.as_nat() == spec_div(a.as_nat(), b.as_nat()),
{
    if b.is_zero() {
        Word::zero()
    } else {
        word_div_nonzero(a, b)
    }
}

/// Remainder with the zero-modulus convention.
pub fn word_rem(a: &Word, b: &Word) -> (r: Word)
    ensures
        r.as_nat() == spec_rem(a.as_nat(), b.as_nat()),
{
    if b.is_zero() {
        Word::zero()
    } else {
        word_rem_nonzero(a, b)
    }
}

/// Two's-complement negation: the word denoting `-a` modulo 2^256.
pub fn word_neg(a: &Word) -> (r: Word)
    ensures
        r.as_nat() == wrap_int(-(a.as_nat() as int)),
{
    let z = Word::zero();
    word_sub(&z, a)
}

impl Word {
    /// Whether the two's-complement reading of the word is negative.
    pub fn is_negative(&self) -> (r: bool)
        ensures
            r <==> self.as_signed() < 0,
    {
        proof {
            lemma_top_limb_sign(*self);
        }
        self.l3 >= 0x8000_0000_0000_0000
    }

    /// The magnitude of the two's-complement reading of the word.
    pub fn magnitude(&self) -> (r: Word)
        ensures
            r.as_nat() == abs_int(self.as_signed()),
    {
        if self.is_negative() {
            let r = word_neg(self);
            proof {
                lemma_word_below_modulus(*self);
            }
            r
        } else {
            *self
        }
    }
}

/// Signed division truncating toward zero, built from unsigned division
/// on magnitudes.
pub fn word_sdiv(a: &Word, b: &Word) -> (r: Word)
    ensures
        r.as_nat() == spec_sdiv(a.as_nat(), b.as_nat()),
{
    proof {
        lemma_word_below_modulus(*a);
        lemma_word_below_modulus(*b);
    }
    if b.is_zero() {
        return Word::zero();
    }
    let a_neg = a.is_negative();
    let b_neg = b.is_negative();
    let ma = a.magnitude();
    let mb = b.magnitude();
    let q = word_div_nonzero(&ma, &mb);
    if a_neg != b_neg {
        word_neg(&q)
    } else {
        proof {
            lemma_small_mod(q.as_nat(), word_modulus());
        }
        q
    }
}

/// Signed remainder whose sign follows the dividend, built from the
/// unsigned remainder on magnitudes.
pub fn word_smod(a: &Word, b: &Word) -> (r: Word)
    ensures
        r.as_nat() == spec_smod(a.as_nat(), b.as_nat()),
{
    proof {
        lemma_word_below_modulus(*a);
        lemma_word_below_modulus(*b);
    }
    if b.is_zero() {
        return Word::zero();
    }
    let a_neg = a.is_negative();
    let ma = a.magnitude();
    let mb = b.magnitude();
    let m = word_rem_nonzero(&ma, &mb);
    if a_neg {
        word_neg(&m)
    } else {
        proof {
            lemma_small_mod(m.as_nat(), word_modulus());
        }
        m
    }
}

/// A value already below the modulus is its own remainder.
proof fn lemma_small_mod(v: nat, m: nat)
    requires
        v < m,
    ensures
        v % m == v,
{
    vstd::arithmetic::div_mod::lemma_small_mod(v, m);
}

/// A word is in the negative two's-complement range exactly when the
/// top bit of its most significant limb is set.
proof fn lemma_top_limb_sign(w: Word)
    ensures
        w.as_nat() >= word_half_modulus() <==> w.l3 >= 0x8000_0000_0000_0000,
        w.as_nat() < word_modulus(),
{
}

/// Every word value lies below the modulus.
pub proof fn lemma_word_below_modulus(w: Word)
    ensures
        w.as_nat() < word_modulus(),
{
}

/// The big-endian byte at index `j` of the 32-byte spelling of `v`.
pub open spec fn byte_of(v: nat, j: int) -> u8 {
    ((v / pow_byte((31 - j) as nat)) % 256) as u8
}

/// The 32-byte big-endian spelling of a word value.
pub open spec fn spec_bytes_of(v: nat) -> Seq<u8> {
    Seq::new(32, |j: int| byte_of(v, j))
}

pub proof fn lemma_pow_byte_pos(k: nat)
    ensures
        pow_byte(k) >= 1,
    decreases k,
{
    if k > 0 {
        lemma_pow_byte_pos((k - 1) as nat);
    }
}

pub proof fn lemma_pow_byte_mono(a: nat, b: nat)
    requires
        a <= b,
    ensures
        pow_byte(a) <= pow_byte(b),
    decreases b,
{
    if a < b {
        lemma_pow_byte_mono(a, (b - 1) as nat);
        lemma_pow_byte_pos((b - 1) as nat);
    }
}

pub proof fn lemma_pow_byte_adds(a: nat, b: nat)
    ensures
        pow_byte(a + b) == pow_byte(a) * pow_byte(b),
    decreases a,
{
    if a == 0 {
        lemma_pow_byte_pos(b);
    } else {
        lemma_pow_byte_adds((a - 1) as nat, b);
        assert((a - 1) + b == (a + b) - 1);
        assert(256 * (pow_byte((a - 1) as nat) * pow_byte(b)) == (256 * pow_byte(
            (a - 1) as nat,
        )) * pow_byte(b)) by {
            vstd::arithmetic::mul::lemma_mul_is_associative(
                256,
                pow_byte((a - 1) as nat) as int,
                pow_byte(b) as int,
            );
        }
    }
}

/// The concrete powers the word layer turns on.
pub proof fn lemma_pow_byte_values()
    ensures
        pow_byte(4) == 0x1_0000_0000nat,
        pow_byte(8) == pow_limb_1(),
        pow_byte(31) == 0x100_0000_0000_0000_0000_0000_0000_0000_0000_0000_0000_0000_0000_0000_0000_0000nat,
        pow_byte(32) == word_modulus(),
{
    assert(pow_byte(1) == 256) by {
        reveal_with_fuel(pow_byte, 2);
    }
    lemma_pow_byte_adds(1, 1);
    assert(pow_byte(2) == 0x1_0000nat);
    lemma_pow_byte_adds(2, 2);
    assert(pow_byte(4) == 0x1_0000_0000nat);
    lemma_pow_byte_adds(4, 4);
    assert(pow_byte(8) == 0x1_0000_0000_0000_0000nat);
    lemma_pow_byte_adds(8, 8);
    assert(pow_byte(16) == 0x1_0000_0000_0000_0000_0000_0000_0000_0000nat);
    lemma_pow_byte_adds(16, 16);
    assert(pow_byte(32) == word_modulus());
    lemma_pow_byte_adds(16, 8);
    assert(pow_byte(24) == 0x1_0000_0000_0000_0000_0000_0000_0000_0000_0000_0000_0000_0000nat);
    lemma_pow_byte_adds(24, 4);
    assert(pow_byte(28)
        == 0x1_0000_0000_0000_0000_0000_0000_0000_0000_0000_0000_0000_0000_0000_0000nat);
    lemma_pow_byte_adds(28, 2);
    assert(pow_byte(30)
        == 0x1_0000_0000_0000_0000_0000_0000_0000_0000_0000_0000_0000_0000_0000_0000_0000nat);
    lemma_pow_byte_adds(30, 1);
}

/// A byte string of length `k` denotes a value below 256^k.
pub proof fn lemma_nat_of_bytes_bound(s: Seq<u8>)
    ensures
        nat_of_bytes_be(s) < pow_byte(s.len()),
    decreases s.len(),
{
    if s.len() > 0 {
        lemma_nat_of_bytes_bound(s.drop_last());
    }
}

/// The value of the `n`-byte big-endian window of `v` is `v` reduced
/// modulo 256^n.
proof fn lemma_nat_of_byte_window(v: nat, n: nat)
    ensures
        nat_of_bytes_be(
            Seq::new(n, |j: int| ((v / pow_byte((n - 1 - j) as nat)) % 256) as u8),
        ) == v % pow_byte(n),
    decreases n,
{
    let s = Seq::new(n, |j: int| ((v / pow_byte((n - 1 - j) as nat)) % 256) as u8);
    vstd::arithmetic::div_mod::lemma_fundamental_div_mod_converse(v as int, 1, v as int, 0);
    if n == 0 {
        assert(s.len() == 0);
    } else {
        let v2 = v / 256;
        let m = (n - 1) as nat;
        lemma_nat_of_byte_window(v2, m);
        let s2 = Seq::new(m, |j: int| ((v2 / pow_byte((m - 1 - j) as nat)) % 256) as u8);
        assert forall|j: int| 0 <= j < m implies s.drop_last()[j] == s2[j] by {
            lemma_pow_byte_pos((m - 1 - j) as nat);
            vstd::arithmetic::div_mod::lemma_div_denominator(
                v as int,
                256,
                pow_byte((m - 1 - j) as nat) as int,
            );
            assert(pow_byte((n - 1 - j) as nat) == 256 * pow_byte((m - 1 - j) as nat));
        }
        assert(s.drop_last() =~= s2);
        assert(s.last() == (v % 256) as u8);
        lemma_pow_byte_pos(m);
        vstd::arithmetic::div_mod::lemma_mod_breakdown(v as int, 256, pow_byte(m) as int);
        assert(pow_byte(n) == 256 * pow_byte(m));
    }
}

/// Reading back the 32-byte spelling of a word value gives the value.
pub proof fn lemma_nat_of_spec_bytes(v: nat)
    requires
        v < word_modulus(),
    ensures
        nat_of_bytes_be(spec_bytes_of(v)) == v,
{
    lemma_nat_of_byte_window(v, 32);
    let s = Seq::new(32, |j: int| ((v / pow_byte((32 - 1 - j) as nat)) % 256) as u8);
    assert(spec_bytes_of(v) =~= s);
    lemma_pow_byte_values();
    lemma_small_mod(v, word_modulus());
}

/// The word whose value is `v`, spelled in four limbs.
pub open spec fn spec_word_of(v: nat) -> Word {
    Word {
        l0: (v % pow_limb_1()) as u64,
        l1: ((v / pow_limb_1()) % pow_limb_1()) as u64,
        l2: ((v / pow_limb_2()) % pow_limb_1()) as u64,
        l3: ((v / pow_limb_3()) % pow_limb_1()) as u64,
    }
}

/// Limb spellings are canonical: a word is the spelling of its value.
pub proof fn lemma_word_of_roundtrip(w: Word)
    ensures
        spec_word_of(w.as_nat()) == w,
{
    let v = w.as_nat() as int;
    let p1 = pow_limb_1() as int;
    let p2 = pow_limb_2() as int;
    let p3 = pow_limb_3() as int;
    vstd::arithmetic::div_mod::lemma_fundamental_div_mod_converse(
        v,
        p1,
        w.l1 + w.l2 * p1 + w.l3 * p2,
        w.l0 as int,
    );
    vstd::arithmetic::div_mod::lemma_fundamental_div_mod_converse(
        v,
        p2,
        w.l2 + w.l3 * p1,
        w.l0 + w.l1 * p1,
    );
    vstd::arithmetic::div_mod::lemma_fundamental_div_mod_converse(
        v,
        p3,
        w.l3 as int,
        w.l0 + w.l1 * p1 + w.l2 * p2,
    );
    vstd::arithmetic::div_mod::lemma_fundamental_div_mod_converse(
        w.l1 + w.l2 * p1 + w.l3 * p2,
        p1,
        w.l2 + w.l3 * p1,
        w.l1 as int,
    );
    vstd::arithmetic::div_mod::lemma_fundamental_div_mod_converse(
        w.l2 + w.l3 * p1,
        p1,
        w.l3 as int,
        w.l2 as int,
    );
    vstd::arithmetic::div_mod::lemma_small_mod(w.l3 as nat, pow_limb_1());
}

/// The spelling of a value below the modulus denotes the value.
pub proof fn lemma_word_of_value(v: nat)
    requires
        v < word_modulus(),
    ensures
        spec_word_of(v).as_nat() == v,
{
    let p1 = pow_limb_1() as int;
    let p2 = pow_limb_2() as int;
    let p3 = pow_limb_3() as int;
    let vi = v as int;
    assert(p1 * p1 == p2);
    assert(p2 * p1 == p3);
    vstd::arithmetic::div_mod::lemma_fundamental_div_mod(vi, p1);
    vstd::arithmetic::div_mod::lemma_fundamental_div_mod(vi / p1, p1);
    vstd::arithmetic::div_mod::lemma_fundamental_div_mod(vi / p2, p1);
    vstd::arithmetic::div_mod::lemma_fundamental_div_mod(vi, p3);
    vstd::arithmetic::div_mod::lemma_div_denominator(vi, p1, p1);
    vstd::arithmetic::div_mod::lemma_div_denominator(vi, p2, p1);
    assert(vi / p3 < p1);
    vstd::arithmetic::div_mod::lemma_small_mod((vi / p3) as nat, pow_limb_1());
}

/// Wrapping addition is associative.
pub proof fn lemma_spec_add_assoc(a: nat, b: nat, c: nat)
    ensures
        spec_add(spec_add(a, b), c) == spec_add(a, spec_add(b, c)),
{
    let m = word_modulus() as int;
    vstd::arithmetic::div_mod::lemma_fundamental_div_mod((a + b) as int, m);
    let q1 = ((a + b) as int) / m;
    assert((spec_add(a, b) + c) as int == m * (-q1) + (a + b + c)) by {
        vstd::arithmetic::mul::lemma_mul_is_distributive_sub(m, 0, q1);
    }
    vstd::arithmetic::div_mod::lemma_mod_multiples_vanish(-q1, (a + b + c) as int, m);
    vstd::arithmetic::div_mod::lemma_fundamental_div_mod((b + c) as int, m);
    let q2 = ((b + c) as int) / m;
    assert((a + spec_add(b, c)) as int == m * (-q2) + (a + b + c)) by {
        vstd::arithmetic::mul::lemma_mul_is_distributive_sub(m, 0, q2);
    }
    vstd::arithmetic::div_mod::lemma_mod_multiples_vanish(-q2, (a + b + c) as int, m);
}

/// Distinct offsets below the modulus make distinct wrapped sums from
/// any base.
pub proof fn lemma_add_offset_distinct(a: nat, k1: nat, k2: nat)
    requires
        k1 < word_modulus(),
        k2 < word_modulus(),
        k1 != k2,
    ensures
        spec_add(a, k1) != spec_add(a, k2),
{
    let m = word_modulus() as int;
    vstd::arithmetic::div_mod::lemma_fundamental_div_mod((a + k1) as int, m);
    vstd::arithmetic::div_mod::lemma_fundamental_div_mod((a + k2) as int, m);
}

/// The low byte of a word, arithmetically.
pub(crate) fn low_byte(w: &Word) -> (r: u8)
    ensures
        r == w.as_nat() % 256,
{
    proof {
        vstd::arithmetic::div_mod::lemma_fundamental_div_mod(w.l0 as int, 256);
        let q = w.l0 as int / 256 + w.l1 * 0x0100_0000_0000_0000 + w.l2
            * 0x0100_0000_0000_0000_0000_0000_0000_0000 + w.l3
            * 0x0100_0000_0000_0000_0000_0000_0000_0000_0000_0000_0000_0000;
        vstd::arithmetic::div_mod::lemma_fundamental_div_mod_converse(
            w.as_nat() as int,
            256,
            q,
            w.l0 as int % 256,
        );
    }
    (w.l0 % 256) as u8
}

/// The word shifted right by one byte: its value divided by 256.
fn shr_byte(w: &Word) -> (r: Word)
    ensures
        r.as_nat() == w.as_nat() / 256,
{
    proof {
        vstd::arithmetic::div_mod::lemma_fundamental_div_mod(w.l0 as int, 256);
        vstd::arithmetic::div_mod::lemma_fundamental_div_mod(w.l1 as int, 256);
        vstd::arithmetic::div_mod::lemma_fundamental_div_mod(w.l2 as int, 256);
        vstd::arithmetic::div_mod::lemma_fundamental_div_mod(w.l3 as int, 256);
    }
    let r = Word {
        l0: w.l0 / 256 + (w.l1 % 256) * 0x0100_0000_0000_0000,
        l1: w.l1 / 256 + (w.l2 % 256) * 0x0100_0000_0000_0000,
        l2: w.l2 / 256 + (w.l3 % 256) * 0x0100_0000_0000_0000,
        l3: w.l3 / 256,
    };
    proof {
        vstd::arithmetic::div_mod::lemma_fundamental_div_mod_converse(
            w.as_nat() as int,
            256,
            r.as_nat() as int,
            w.l0 as int % 256,
        );
    }
    r
}

/// The word shifted left by one byte with a new low byte appended:
/// its value times 256 plus the byte.
fn shl_byte_add(w: &Word, b: u8) -> (r: Word)
    requires
        w.as_nat() < pow_byte(31),
    ensures
        r.as_nat() == w.as_nat() * 256 + b,
{
    proof {
        lemma_pow_byte_values();
        vstd::arithmetic::div_mod::lemma_fundamental_div_mod(
            w.l0 as int,
            0x0100_0000_0000_0000,
        );
        vstd::arithmetic::div_mod::lemma_fundamental_div_mod(
            w.l1 as int,
            0x0100_0000_0000_0000,
        );
        vstd::arithmetic::div_mod::lemma_fundamental_div_mod(
            w.l2 as int,
            0x0100_0000_0000_0000,
        );
    }
    Word {
        l0: (w.l0 % 0x0100_0000_0000_0000) * 256 + (b as u64),
        l1: (w.l1 % 0x0100_0000_0000_0000) * 256 + w.l0 / 0x0100_0000_0000_0000,
        l2: (w.l2 % 0x0100_0000_0000_0000) * 256 + w.l1 / 0x0100_0000_0000_0000,
        l3: w.l3 * 256 + w.l2 / 0x0100_0000_0000_0000,
    }
}

impl Word {
    /// The 32-byte big-endian spelling of the word.
    pub fn to_bytes_be(&self) -> (r: Vec<u8>)
        ensures
            r@ == spec_bytes_of(self.as_nat()),
            r@.len() == 32,
            nat_of_bytes_be(r@) == self.as_nat(),
    {
        let ghost v = self.as_nat();
        let mut out: Vec<u8> = Vec::new();
        let mut k: usize = 0;
        while k < 32
            invariant
                k <= 32,
                out@.len() == k,
                forall|t: int| 0 <= t < k ==> out@[t] == 0u8,
            decreases 32 - k,
        {
            out.push(0u8);
            k += 1;
        }
        let mut cur = *self;
        let mut j: usize = 0;
        proof {
            vstd::arithmetic::div_mod::lemma_fundamental_div_mod_converse(
                v as int,
                1,
                v as int,
                0,
            );
        }
        while j < 32
            invariant
                j <= 32,
                out@.len() == 32,
                cur.as_nat() == v / pow_byte(j as nat),
                forall|t: int| 32 - j <= t < 32 ==> out@[t] == byte_of(v, t),
            decreases 32 - j,
        {
            let b = low_byte(&cur);
            out.set(31 - j, b);
            proof {
                assert(byte_of(v, 31 - j as int) == ((v / pow_byte(j as nat)) % 256) as u8);
                lemma_pow_byte_pos(j as nat);
                vstd::arithmetic::div_mod::lemma_div_denominator(
                    v as int,
                    pow_byte(j as nat) as int,
                    256,
                );
                assert(pow_byte((j + 1) as nat) == 256 * pow_byte(j as nat));
            }
            cur = shr_byte(&cur);
            j += 1;
        }
        proof {
            assert(out@ =~= spec_bytes_of(v));
            lemma_nat_of_spec_bytes(v);
        }
        out
    }

    /// The word denoted by up to 32 big-endian bytes.
    pub fn from_bytes_be(bytes: &Vec<u8>) -> (r: Word)
        requires
            bytes@.len() <= 32,
        ensures
            r.as_nat() == nat_of_bytes_be(bytes@),
    {
        let n = bytes.len();
        let mut cur = Word::zero();
        let mut i: usize = 0;
        while i < n
            invariant
                i <= n,
                n == bytes@.len(),
                n <= 32,
                cur.as_nat() == nat_of_bytes_be(bytes@.take(i as int)),
            decreases n - i,
        {
            proof {
                lemma_nat_of_bytes_bound(bytes@.take(i as int));
                lemma_pow_byte_mono(i as nat, 31);
            }
            cur = shl_byte_add(&cur, bytes[i]);
            proof {
                assert(bytes@.take(i + 1 as int).drop_last() =~= bytes@.take(i as int));
                assert(bytes@.take(i + 1 as int).last() == bytes@[i as int]);
            }
            i += 1;
        }
        proof {
            assert(bytes@.take(n as int) =~= bytes@);
        }
        cur
    }

    /// Limb-wise bitwise conjunction.
    pub open spec fn spec_and(a: Word, b: Word) -> Word {
        Word { l0: a.l0 & b.l0, l1: a.l1 & b.l1, l2: a.l2 & b.l2, l3: a.l3 & b.l3 }
    }

    /// Limb-wise bitwise disjunction.
    pub open spec fn spec_or(a: Word, b: Word) -> Word {
        Word { l0: a.l0 | b.l0, l1: a.l1 | b.l1, l2: a.l2 | b.l2, l3: a.l3 | b.l3 }
    }

    /// Limb-wise bitwise exclusive disjunction.
    pub open spec fn spec_xor(a: Word, b: Word) -> Word {
        Word { l0: a.l0 ^ b.l0, l1: a.l1 ^ b.l1, l2: a.l2 ^ b.l2, l3: a.l3 ^ b.l3 }
    }

    /// Limb-wise bitwise complement.
    pub open spec fn spec_not(a: Word) -> Word {
        Word { l0: !a.l0, l1: !a.l1, l2: !a.l2, l3: !a.l3 }
    }

    pub fn bit_and(&self, other: &Word) -> (r: Word)
        ensures
            r == Self::spec_and(*self, *other),
    {
        Word {
            l0: self.l0 & other.l0,
            l1: self.l1 & other.l1,
            l2: self.l2 & other.l2,
            l3: self.l3 & other.l3,
        }
    }

    pub fn bit_or(&self, other: &Word) -> (r: Word)
        ensures
            r == Self::spec_or(*self, *other),
    {
        Word {
            l0: self.l0 | other.l0,
            l1: self.l1 | other.l1,
            l2: self.l2 | other.l2,
            l3: self.l3 | other.l3,
        }
    }

    pub fn bit_xor(&self, other: &Word) -> (r: Word)
        ensures
            r == Self::spec_xor(*self, *other),
    {
        Word {
            l0: self.l0 ^ other.l0,
            l1: self.l1 ^ other.l1,
            l2: self.l2 ^ other.l2,
            l3: self.l3 ^ other.l3,
        }
    }

    pub fn bit_not(&self) -> (r: Word)
        ensures
            r == Self::spec_not(*self),
    {
        Word { l0: !self.l0, l1: !self.l1, l2: !self.l2, l3: !self.l3 }
    }
}

/// One byte of a word, indexed from the most significant end; indices
/// past 31 yield zero.
pub open spec fn spec_byte_op(v: nat, i: nat) -> nat {
    if i >= 32 {
        0
    } else {
        byte_of(v, i as int) as nat
    }
}

/// Extracts byte `i` (high-order first) of `x`.
pub fn word_byte_op(i: &Word, x: &Word) -> (r: Word)
    ensures
        r.as_nat() == spec_byte_op(x.as_nat(), i.as_nat()),
{
    match i.to_u64() {
        Some(k) if k < 32 => {
            let bytes = x.to_bytes_be();
            Word::from_u64(bytes[k as usize] as u64)
        },
        _ => Word::zero(),
    }
}

/// The value whose low `k + 1` bytes are those of `v` and whose upper
/// bytes all repeat the top bit of byte `k` from the low end.
pub open spec fn spec_sign_extend(v: nat, k: nat) -> nat
    recommends
        k < 32,
{
    let cut = 31 - k as int;
    let fill: u8 = if byte_of(v, cut) >= 0x80 {
        0xffu8
    } else {
        0u8
    };
    nat_of_bytes_be(
        Seq::new(
            32,
            |j: int|
                if j < cut {
                    fill
                } else {
                    byte_of(v, j)
                },
        ),
    )
}

/// Sign-extends `x` from the byte boundary `k` counted from the least
/// significant byte.
pub fn word_sign_extend(x: &Word, k: u64) -> (r: Word)
    requires
        k < 32,
    ensures
        r.as_nat() == spec_sign_extend(x.as_nat(), k as nat),
{
    let ghost v = x.as_nat();
    let mut bytes = x.to_bytes_be();
    let cut: usize = 31 - (k as usize);
    let fill: u8 = if bytes[cut] >= 0x80 {
        0xff
    } else {
        0
    };
    let mut j: usize = 0;
    while j < cut
        invariant
            j <= cut,
            cut < 32,
            bytes@.len() == 32,
            fill == (if byte_of(v, cut as int) >= 0x80 {
                0xffu8
            } else {
                0u8
            }),
            forall|t: int| 0 <= t < j ==> bytes@[t] == fill,
            forall|t: int| j <= t < 32 ==> bytes@[t] == byte_of(v, t),
        decreases cut - j,
    {
        bytes.set(j, fill);
        j += 1;
    }
    let r = Word::from_bytes_be(&bytes);
    proof {
        let cut_i = 31 - k as int;
        assert(bytes@ =~= Seq::new(
            32,
            |j: int|
                if j < cut_i {
                    (if byte_of(v, cut_i) >= 0x80 {
                        0xffu8
                    } else {
                        0u8
                    })
                } else {
                    byte_of(v, j)
                },
        ));
    }
    r
}

/// Adding a word and then subtracting the same word returns the first
/// operand: wraparound addition and subtraction cancel exactly, also at
/// the 2^256 boundary.
pub proof fn lemma_add_sub_cancel(a: Word, b: Word)
    ensures
        spec_sub(spec_add(a.as_nat(), b.as_nat()), b.as_nat()) == a.as_nat(),
{
    let av = a.as_nat() as int;
    let bv = b.as_nat() as int;
    let m = word_modulus() as int;
    vstd::arithmetic::div_mod::lemma_fundamental_div_mod(av + bv, m);
    let q = (av + bv) / m;
    assert(spec_add(a.as_nat(), b.as_nat()) == av + bv - m * q);
    assert((av + bv - m * q - bv) == m * (-q) + av) by {
        vstd::arithmetic::mul::lemma_mul_is_distributive_sub(m, 0, q);
    }
    vstd::arithmetic::div_mod::lemma_mod_multiples_vanish(-q, av, m);
    lemma_small_mod(a.as_nat(), word_modulus());
}

} // verus!
