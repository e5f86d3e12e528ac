//! 256-bit unsigned integers: block hashes read as numbers, targets and
//! accumulated proof of work.

use vstd::prelude::*;
use vstd::arithmetic::div_mod::{lemma_div_plus_one, lemma_small_mod};
use vstd::arithmetic::power2::{lemma2_to64, lemma_pow2_adds, lemma_pow2_pos, pow2};
use crate::hash::zero_bytes;

verus! {

/// The number that a byte string holds, least significant byte first.
pub open spec fn le_value(bytes: Seq<u8>) -> nat
    decreases bytes.len(),
{
    if bytes.len() == 0 {
        0
    } else {
        bytes[0] as nat + 256 * le_value(bytes.skip(1))
    }
}

/// `2^256`, one more than the largest value of a `U256`.
pub open spec fn modulus() -> nat {
    pow2(256)
}

/// A string of `n` bytes holds a number under `2^(8n)`.
pub proof fn lemma_le_value_bound(bytes: Seq<u8>)
    ensures
        le_value(bytes) < pow2(8 * bytes.len()),
    decreases bytes.len(),
{
    lemma2_to64();
    if bytes.len() > 0 {
        let rest = bytes.skip(1);
        lemma_le_value_bound(rest);
        lemma_pow2_adds(8, 8 * rest.len());
        assert(bytes[0] as nat + 256 * le_value(rest) < 256 * pow2(8 * rest.len())) by (nonlinear_arith)
            requires
                bytes[0] < 256,
                le_value(rest) < pow2(8 * rest.len()),
        ;
    }
}

/// A string of zero bytes holds zero.
pub proof fn lemma_le_value_zero(n: nat)
    ensures
        le_value(zero_bytes(n)) == 0,
    decreases n,
{
    if n > 0 {
        assert(zero_bytes(n).skip(1) == zero_bytes((n - 1) as nat));
        lemma_le_value_zero((n - 1) as nat);
    }
}

/// Replacing byte `i` changes the number by the difference of the two bytes,
/// `8i` bits up.
pub proof fn lemma_le_value_update(bytes: Seq<u8>, i: int, byte: u8)
    requires
        0 <= i < bytes.len(),
    ensures
        le_value(bytes.update(i, byte)) + bytes[i] * pow2((8 * i) as nat) == le_value(bytes) + byte
            * pow2((8 * i) as nat),
    decreases i,
{
    lemma2_to64();
    let updated = bytes.update(i, byte);
    if i == 0 {
        assert(updated.skip(1) == bytes.skip(1));
        assert(bytes[0] * 1 == bytes[0] as int && byte * 1 == byte as int) by (nonlinear_arith);
    } else {
        let rest = bytes.skip(1);
        assert(updated.skip(1) == rest.update(i - 1, byte));
        lemma_le_value_update(rest, i - 1, byte);
        lemma_pow2_adds(8, (8 * (i - 1)) as nat);
        let p = pow2((8 * (i - 1)) as nat);
        assert(pow2((8 * i) as nat) == 256 * p);
        assert(256 * (le_value(rest.update(i - 1, byte)) + rest[i - 1] * p) == 256 * le_value(
            rest.update(i - 1, byte),
        ) + bytes[i] * (256 * p)) by (nonlinear_arith)
            requires
                rest[i - 1] == bytes[i],
        ;
        assert(256 * (le_value(rest) + byte * p) == 256 * le_value(rest) + byte * (256 * p))
            by (nonlinear_arith);
    }
}

/// Calls `crypto_bigint::U256::wrapping_add` on the numbers that the two
/// byte strings hold (little-endian): their sum modulo `2^256`.
#[verifier::external_body]
fn bigint_wrapping_add(a: &[u8; 32], b: &[u8; 32]) -> (sum: [u8; 32])
    ensures
        le_value(sum@) == (le_value(a@) + le_value(b@)) % modulus(),
{
    let x = crypto_bigint::U256::from_le_slice(a);
    let y = crypto_bigint::U256::from_le_slice(b);
    crypto_bigint::Encoding::to_le_bytes(&x.wrapping_add(&y))
}

/// Calls `crypto_bigint::U256::wrapping_div`: the quotient, rounded down, of
/// the numbers that the two byte strings hold. The divisor is not zero.
#[verifier::external_body]
fn bigint_wrapping_div(a: &[u8; 32], b: &[u8; 32]) -> (quotient: [u8; 32])
    requires
        le_value(b@) > 0,
    ensures
        le_value(quotient@) == le_value(a@) / le_value(b@),
{
    let x = crypto_bigint::U256::from_le_slice(a);
    let y = crypto_bigint::U256::from_le_slice(b);
    crypto_bigint::Encoding::to_le_bytes(&x.wrapping_div(&y))
}

/// Calls `crypto_bigint::U256::not`, which flips every bit: the result holds
/// `2^256 - 1` less the number given.
#[verifier::external_body]
fn bigint_not(a: &[u8; 32]) -> (flipped: [u8; 32])
    ensures
        le_value(flipped@) == modulus() - 1 - le_value(a@),
{
    crypto_bigint::Encoding::to_le_bytes(&crypto_bigint::U256::from_le_slice(a).not())
}

/// Compares the numbers that the two byte strings hold with the `>` of
/// `crypto_bigint::U256`.
#[verifier::external_body]
fn bigint_greater(a: &[u8; 32], b: &[u8; 32]) -> (greater: bool)
    ensures
        greater == (le_value(a@) > le_value(b@)),
{
    crypto_bigint::U256::from_le_slice(a) > crypto_bigint::U256::from_le_slice(b)
}

/// An unsigned integer under `2^256`, kept as 32 bytes, least significant
/// first. Its view is the number.
#[derive(Clone, Copy, Debug)]
pub struct U256 {
    pub le_bytes: [u8; 32],
}

impl View for U256 {
    type V = nat;

    open spec fn view(&self) -> nat {
        le_value(self.le_bytes@)
    }
}

impl U256 {
    /// Every value is under `2^256`.
    pub proof fn lemma_bounded(&self)
        ensures
            self@ < modulus(),
    {
        lemma_le_value_bound(self.le_bytes@);
    }

    /// Zero.
    pub fn zero() -> (x: U256)
        ensures
            x@ == 0,
    {
        let le_bytes = [0u8; 32];
        proof {
            assert(le_bytes@ =~= zero_bytes(32));
            lemma_le_value_zero(32);
        }
        U256 { le_bytes }
    }

    /// The number that 32 bytes hold, least significant first.
    pub fn from_le_bytes(le_bytes: [u8; 32]) -> (x: U256)
        ensures
            x@ == le_value(le_bytes@),
            x.le_bytes == le_bytes,
    {
        U256 { le_bytes }
    }

    /// The 32 bytes of the number, least significant first.
    pub fn to_le_bytes(&self) -> (le_bytes: [u8; 32])
        ensures
            le_value(le_bytes@) == self@,
            le_bytes == self.le_bytes,
    {
        self.le_bytes
    }

    /// Widens a 64-bit number.
    pub fn from_u64(value: u64) -> (x: U256)
        ensures
            x@ == value,
    {
        let mut le_bytes = [0u8; 32];
        proof {
            assert(le_bytes@ =~= zero_bytes(32));
            lemma_le_value_zero(32);
            lemma2_to64();
        }
        let mut rest: u64 = value;
        let mut i: usize = 0;
        assert(rest * pow2(0) == rest) by (nonlinear_arith)
            requires
                pow2(0) == 1,
        ;
        while i < 8
            invariant
                i <= 8,
                forall|j: int| i <= j < 32 ==> le_bytes@[j] == 0,
                le_value(le_bytes@) + rest * pow2((8 * i) as nat) == value,
            decreases 8 - i,
        {
            let byte = (rest % 256) as u8;
            proof {
                lemma2_to64();
                lemma_le_value_update(le_bytes@, i as int, byte);
                lemma_pow2_adds(8, (8 * i) as nat);
                assert(pow2((8 * (i + 1)) as nat) == 256 * pow2((8 * i) as nat));
                let p = pow2((8 * i) as nat);
                assert(rest * p == byte * p + (rest / 256) * (256 * p)) by (nonlinear_arith)
                    requires
                        rest == byte + 256 * (rest / 256),
                ;
                assert(0 * p == 0) by (nonlinear_arith);
            }
            le_bytes[i] = byte;
            rest = rest / 256;
            i = i + 1;
        }
        proof {
            assert(rest == 0) by {
                lemma_pow2_pos(64);
                assert(rest * pow2(64) <= value) by (nonlinear_arith)
                    requires
                        le_value(le_bytes@) + rest * pow2(64) == value,
                ;
                assert(rest == 0) by (nonlinear_arith)
                    requires
                        rest * pow2(64) <= value,
                        value < 0x1_0000_0000_0000_0000,
                        pow2(64) == 0x1_0000_0000_0000_0000,
                        rest >= 0,
                ;
            }
            assert(0 * pow2(64) == 0) by (nonlinear_arith);
        }
        U256 { le_bytes }
    }

    /// Whether the number is zero.
    pub fn is_zero(&self) -> (zero: bool)
        ensures
            zero == (self@ == 0),
    {
        let zero = U256::zero();
        !bigint_greater(&self.le_bytes, &zero.le_bytes)
    }

    /// The sum modulo `2^256`.
    pub fn wrapping_add(&self, rhs: &U256) -> (sum: U256)
        ensures
            sum@ == (self@ + rhs@) % modulus(),
    {
        U256 { le_bytes: bigint_wrapping_add(&self.le_bytes, &rhs.le_bytes) }
    }

    /// Whether this number is the greater one.
    pub fn gt(&self, rhs: &U256) -> (greater: bool)
        ensures
            greater == (self@ > rhs@),
    {
        bigint_greater(&self.le_bytes, &rhs.le_bytes)
    }

    /// `2^256` divided by the number plus one, rounded down, modulo `2^256`:
    /// the work that a block under the target `self` stands for. Only for
    /// the target zero does the quotient not fit, and wraps to zero.
    pub fn work_for_target(&self) -> (work: U256)
        ensures
            work@ == (modulus() / (self@ + 1)) % modulus(),
    {
        let one = U256::from_u64(1);
        let successor = self.wrapping_add(&one);
        proof {
            self.lemma_bounded();
            lemma_pow2_pos(256);
        }
        if successor.is_zero() {
            proof {
                let m = modulus() as int;
                if self@ + 1 < m {
                    lemma_small_mod((self@ + 1) as nat, modulus());
                }
                assert(self@ + 1 == m);
                vstd::arithmetic::div_mod::lemma_div_by_self(m);
                assert(1 < m) by {
                    lemma2_to64();
                    vstd::arithmetic::power2::lemma_pow2_strictly_increases(1, 256);
                }
                lemma_small_mod(1, modulus());
            }
            return one;
        }
        proof {
            let m = modulus() as int;
            if self@ + 1 == m {
                vstd::arithmetic::div_mod::lemma_mod_self_0(m);
            }
            lemma_small_mod((self@ + 1) as nat, modulus());
            assert(successor@ == self@ + 1);
        }
        let flipped = U256 { le_bytes: bigint_not(&self.le_bytes) };
        let quotient = U256 { le_bytes: bigint_wrapping_div(&flipped.le_bytes, &successor.le_bytes) };
        proof {
            lemma_div_plus_one(flipped@ as int, successor@ as int);
            assert(successor@ + flipped@ == modulus());
        }
        quotient.wrapping_add(&one)
    }
}

} // verus!
