//! The bridge prover: a verifier that walks a stream of block headers and
//! withdrawal proofs, accumulates proof of work, and decides between the
//! operator's chain and a verifier's challenge.

use vstd::prelude::*;
use vstd::arithmetic::div_mod::lemma_small_mod;
use vstd::arithmetic::power2::{lemma2_to64, lemma_pow2_adds, lemma_pow2_pos, pow2};
use crate::config::{BRIDGE_AMOUNT_SATS, DEPTH, DUST_VALUE, MAX_BLOCK_HANDLE_OPS};
use crate::env::{
    consumes, Environment, i32_from_le, i32_le_bytes, u32_from_le, u32_le_bytes, write_i32_le,
    write_u32_le,
};
use crate::errors::BridgeError;
use crate::hash::{
    append_bytes, bytes32_eq, bytes_eq, double_hash_pair, double_sha256, double_sha256_spec,
    hash_32, hash_pair, sha256, sha256_hash, zero_bytes,
};
use crate::merkle::{IncrementalMerkleTree, merkle_root, path_root};
use crate::script_builder::{inscription_script, ScriptBuilder};
use crate::taproot::{
    INTERNAL_KEY, p2tr_script, p2tr_script_pubkey, taproot_output_key, TaprootSpendInfo,
};
use crate::transaction::{
    OutPoint, OutPointView, Transaction, TransactionView, txid_of, TxIn, TxInView, TxOut,
    TxOutView,
};
use crate::uint256::{
    le_value, lemma_le_value_bound, lemma_le_value_update, lemma_le_value_zero, modulus, U256,
};

verus! {

/// The size byte of a compact target: the number of bytes of the target.
pub open spec fn compact_exponent(bits: u32) -> nat {
    (bits / 0x100_0000) as nat
}

/// The 23 low bits of a compact target: its leading digits.
pub open spec fn compact_mantissa(bits: u32) -> nat {
    (bits % 0x80_0000) as nat
}

/// Whether the sign bit of a compact target is set.
pub open spec fn compact_negative(bits: u32) -> bool {
    (bits / 0x80_0000) % 2 == 1
}

/// The target that a compact form stands for, as Bitcoin expands it: the
/// mantissa shifted to where the size byte puts it.
pub open spec fn compact_target(bits: u32) -> nat {
    if compact_exponent(bits) <= 3 {
        compact_mantissa(bits) / pow2((8 * (3 - compact_exponent(bits))) as nat)
    } else {
        compact_mantissa(bits) * pow2((8 * (compact_exponent(bits) - 3)) as nat)
    }
}

/// Whether a compact target is acceptable: positive, not negative, and
/// under `2^256`.
pub open spec fn target_valid(bits: u32) -> bool {
    !compact_negative(bits) && 0 < compact_target(bits) < modulus()
}

/// Whether a block hash, read as a little-endian number, meets the target
/// of its header.
pub open spec fn header_valid(bits: u32, hash: Seq<u8>) -> bool {
    target_valid(bits) && le_value(hash) <= compact_target(bits)
}

/// The work that a block with the given compact target stands for:
/// `2^256 / (target + 1)`.
pub open spec fn block_work(bits: u32) -> nat {
    modulus() / (compact_target(bits) + 1)
}

proof fn lemma_pow2_byte_shift(k: nat)
    ensures
        pow2(8 * (k + 1)) == 256 * pow2(8 * k),
        pow2(8 * k) > 0,
{
    lemma2_to64();
    lemma_pow2_adds(8, 8 * k);
    lemma_pow2_pos(8 * k);
}

/// Expands a compact target. `None` if the target is negative, zero, or
/// does not fit in 256 bits.
#[verifier::rlimit(60)]
pub fn decode_compact_target(bits: u32) -> (r: Option<U256>)
    ensures
        target_valid(bits) <==> r is Some,
        r matches Some(target) ==> target@ == compact_target(bits),
{
    let exponent: u32 = bits / 0x100_0000;
    let mantissa: u32 = bits % 0x80_0000;
    let negative: bool = (bits / 0x80_0000) % 2 == 1;
    proof {
        lemma2_to64();
    }
    let word: u32 = if exponent == 0 {
        mantissa / 0x100_0000
    } else if exponent == 1 {
        mantissa / 0x1_0000
    } else if exponent == 2 {
        mantissa / 0x100
    } else {
        mantissa
    };
    let shift: usize = if exponent <= 3 {
        0
    } else {
        (exponent - 3) as usize
    };
    let ghost scale = pow2((8 * shift) as nat);
    proof {
        lemma_pow2_pos((8 * shift) as nat);
        assert(compact_target(bits) == word * scale) by {
            assert(compact_exponent(bits) == exponent);
            assert(compact_mantissa(bits) == mantissa);
            if exponent <= 3 {
                assert(scale == 1);
                assert(word * scale == word) by (nonlinear_arith)
                    requires
                        scale == 1,
                ;
                if exponent == 0 {
                    assert(pow2((8 * (3 - 0)) as nat) == 0x100_0000);
                } else if exponent == 1 {
                    assert(pow2((8 * (3 - 1)) as nat) == 0x1_0000);
                } else if exponent == 2 {
                    assert(pow2((8 * (3 - 2)) as nat) == 0x100);
                } else {
                    assert(pow2((8 * (3 - 3)) as nat) == 1);
                }
            }
        }
        assert(word == 0 ==> word * scale == 0) by (nonlinear_arith);
        assert(word > 0 ==> word * scale > 0) by (nonlinear_arith)
            requires
                scale > 0,
        ;
    }
    if negative || word == 0 {
        return None;
    }
    let b0: u8 = (word % 256) as u8;
    let b1: u8 = ((word / 0x100) % 256) as u8;
    let b2: u8 = (word / 0x1_0000) as u8;
    let fits = shift <= 29 || (shift == 30 && b2 == 0) || (shift == 31 && b1 == 0 && b2 == 0);
    if !fits {
        proof {
            lemma_pow2_adds(8, 248);
            lemma_pow2_adds(16, 240);
            if shift >= 32 {
                if shift > 32 {
                    vstd::arithmetic::power2::lemma_pow2_strictly_increases(256, (8 * shift) as nat);
                }
                assert(word * scale >= modulus()) by (nonlinear_arith)
                    requires
                        word >= 1,
                        scale >= modulus(),
                ;
            } else if shift == 31 {
                assert(word * scale >= modulus()) by (nonlinear_arith)
                    requires
                        word >= 256,
                        256 * scale == modulus(),
                ;
            } else {
                assert(word * scale >= modulus()) by (nonlinear_arith)
                    requires
                        word >= 0x1_0000,
                        0x1_0000 * scale == modulus(),
                ;
            }
        }
        return None;
    }
    let mut le_bytes = [0u8; 32];
    proof {
        assert(le_bytes@ =~= zero_bytes(32));
        lemma_le_value_zero(32);
        lemma_le_value_update(le_bytes@, shift as int, b0);
        assert(0 * scale == 0) by (nonlinear_arith);
    }
    le_bytes[shift] = b0;
    assert(le_value(le_bytes@) == b0 * scale);
    if shift + 1 < 32 {
        proof {
            lemma_le_value_update(le_bytes@, shift + 1, b1);
            lemma_pow2_byte_shift(shift as nat);
            assert(0 * pow2((8 * (shift + 1)) as nat) == 0) by (nonlinear_arith);
        }
        le_bytes[shift + 1] = b1;
    }
    assert(le_value(le_bytes@) == b0 * scale + b1 * (256 * scale)) by {
        lemma_pow2_byte_shift(shift as nat);
        assert(0 * (256 * scale) == 0) by (nonlinear_arith);
    }
    if shift + 2 < 32 {
        proof {
            lemma_le_value_update(le_bytes@, shift + 2, b2);
            lemma_pow2_byte_shift(shift as nat);
            lemma_pow2_byte_shift((shift + 1) as nat);
            assert(0 * pow2((8 * (shift + 2)) as nat) == 0) by (nonlinear_arith);
        }
        le_bytes[shift + 2] = b2;
    }
    proof {
        lemma_pow2_byte_shift(shift as nat);
        lemma_pow2_byte_shift((shift + 1) as nat);
        assert(le_value(le_bytes@) == b0 * scale + b1 * (256 * scale) + b2 * (0x1_0000 * scale)) by {
            assert(0 * (0x1_0000 * scale) == 0) by (nonlinear_arith);
        }
        assert(b0 * scale + b1 * (256 * scale) + b2 * (0x1_0000 * scale) == word * scale)
            by (nonlinear_arith)
            requires
                word == b0 + 256 * b1 + 0x1_0000 * b2,
        ;
        lemma_le_value_bound(le_bytes@);
    }
    Some(U256::from_le_bytes(le_bytes))
}

/// Checks a block hash against the target of its header and adds the
/// block's work to the running total, modulo `2^256`. A header whose target
/// is not acceptable, or whose hash lies above it, is a consensus error.
pub fn validate_threshold_and_add_work(bits: u32, block_hash: &[u8; 32], total_work: &U256) -> (r:
    Result<U256, BridgeError>)
    ensures
        header_valid(bits, block_hash@) <==> r is Ok,
        r matches Ok(work) ==> work@ == (total_work@ + block_work(bits)) % modulus(),
        r matches Err(e) ==> e == BridgeError::ConsensusError,
{
    match decode_compact_target(bits) {
        None => Err(BridgeError::ConsensusError),
        Some(target) => {
            let hash = U256::from_le_bytes(*block_hash);
            if hash.gt(&target) {
                return Err(BridgeError::ConsensusError);
            }
            let work = target.work_for_target();
            proof {
                let m = modulus() as int;
                let d = (target@ + 1) as int;
                vstd::arithmetic::div_mod::lemma_div_is_strictly_smaller(m, d);
                lemma_small_mod((m / d) as nat, modulus());
            }
            Ok(total_work.wrapping_add(&work))
        },
    }
}

/// The 80 bytes of a block header as Bitcoin serialises it.
pub open spec fn header_bytes(
    version: i32,
    prev_block_hash: Seq<u8>,
    merkle_root: Seq<u8>,
    time: u32,
    bits: u32,
    nonce: u32,
) -> Seq<u8> {
    i32_le_bytes(version) + prev_block_hash + merkle_root + u32_le_bytes(time) + u32_le_bytes(bits)
        + u32_le_bytes(nonce)
}

/// The hash of a block: the double SHA-256 of its header.
pub open spec fn header_hash(
    version: i32,
    prev_block_hash: Seq<u8>,
    merkle_root: Seq<u8>,
    time: u32,
    bits: u32,
    nonce: u32,
) -> Seq<u8> {
    double_sha256_spec(header_bytes(version, prev_block_hash, merkle_root, time, bits, nonce))
}

/// The hash of the block with the given header fields.
pub fn calculate_block_hash(
    version: i32,
    prev_block_hash: &[u8; 32],
    merkle_root: &[u8; 32],
    time: u32,
    bits: u32,
    nonce: u32,
) -> (hash: [u8; 32])
    ensures
        hash@ == header_hash(version, prev_block_hash@, merkle_root@, time, bits, nonce),
{
    let mut buf: Vec<u8> = Vec::new();
    write_i32_le(&mut buf, version);
    append_bytes(&mut buf, prev_block_hash.as_slice());
    append_bytes(&mut buf, merkle_root.as_slice());
    write_u32_le(&mut buf, time);
    write_u32_le(&mut buf, bits);
    write_u32_le(&mut buf, nonce);
    assert(buf@ =~= header_bytes(version, prev_block_hash@, merkle_root@, time, bits, nonce));
    double_sha256(buf.as_slice())
}

/// The unsigned integer at an offset of the stream.
pub open spec fn stream_u32(s: Seq<u8>, at: int) -> u32 {
    u32_from_le(s.subrange(at, at + 4))
}

/// The signed integer at an offset of the stream.
pub open spec fn stream_i32(s: Seq<u8>, at: int) -> i32 {
    i32_from_le(s.subrange(at, at + 4))
}

/// The 32-byte value at an offset of the stream.
pub open spec fn stream_bytes32(s: Seq<u8>, at: int) -> Seq<u8> {
    s.subrange(at, at + 32)
}

/// Reads an unsigned integer, or reports the end of the input.
pub fn next_u32<E: Environment>(env: &mut E) -> (r: Result<u32, BridgeError>)
    ensures
        consumes(old(env).unread(), final(env).unread(), 4, r is Ok),
        r matches Ok(x) ==> x == stream_u32(old(env).unread(), 0),
        r matches Err(e) ==> e == BridgeError::UnexpectedEndOfInput,
{
    match env.read_u32() {
        Some(x) => Ok(x),
        None => Err(BridgeError::UnexpectedEndOfInput),
    }
}

/// Reads a signed integer, or reports the end of the input.
pub fn next_i32<E: Environment>(env: &mut E) -> (r: Result<i32, BridgeError>)
    ensures
        consumes(old(env).unread(), final(env).unread(), 4, r is Ok),
        r matches Ok(x) ==> x == stream_i32(old(env).unread(), 0),
        r matches Err(e) ==> e == BridgeError::UnexpectedEndOfInput,
{
    match env.read_i32() {
        Some(x) => Ok(x),
        None => Err(BridgeError::UnexpectedEndOfInput),
    }
}

/// Reads a 32-byte value, or reports the end of the input.
pub fn next_32bytes<E: Environment>(env: &mut E) -> (r: Result<[u8; 32], BridgeError>)
    ensures
        consumes(old(env).unread(), final(env).unread(), 32, r is Ok),
        r matches Ok(bytes) ==> bytes@ == stream_bytes32(old(env).unread(), 0),
        r matches Err(e) ==> e == BridgeError::UnexpectedEndOfInput,
{
    match env.read_32bytes() {
        Some(bytes) => Ok(bytes),
        None => Err(BridgeError::UnexpectedEndOfInput),
    }
}

/// The length of a header in the stream: version, one hash, time, bits and
/// nonce. In a run of headers the hash is the Merkle root, and the chain
/// gives the hash of the previous block; behind a transaction's path it is
/// the hash of the previous block, and the path gives the Merkle root.
pub const HEADER_RECORD_LEN: usize = 48;

/// The fields of a header as they stand in the stream. The record carries
/// one of the header's two hashes; the other is known where the record is
/// read.
pub struct HeaderRecord {
    pub version: i32,
    pub hash: [u8; 32],
    pub time: u32,
    pub bits: u32,
    pub nonce: u32,
}

impl HeaderRecord {
    /// Whether the record is the one at the front of the stream.
    pub open spec fn at_front_of(&self, s: Seq<u8>) -> bool {
        &&& self.version == stream_i32(s, 0)
        &&& self.hash@ == stream_bytes32(s, 4)
        &&& self.time == stream_u32(s, 36)
        &&& self.bits == stream_u32(s, 40)
        &&& self.nonce == stream_u32(s, 44)
    }
}

/// The hash of the block whose header record stands at the front of the
/// stream and whose predecessor has the hash `prev`.
pub open spec fn record_hash(s: Seq<u8>, prev: Seq<u8>) -> Seq<u8> {
    header_hash(
        stream_i32(s, 0),
        prev,
        stream_bytes32(s, 4),
        stream_u32(s, 36),
        stream_u32(s, 40),
        stream_u32(s, 44),
    )
}

/// Reads one header record.
pub fn read_header_record<E: Environment>(env: &mut E) -> (r: Result<HeaderRecord, BridgeError>)
    ensures
        old(env).unread().len() >= HEADER_RECORD_LEN <==> r is Ok,
        r matches Ok(record) ==> {
            &&& record.at_front_of(old(env).unread())
            &&& final(env).unread() == old(env).unread().skip(HEADER_RECORD_LEN as int)
        },
        r matches Err(e) ==> e == BridgeError::UnexpectedEndOfInput,
{
    let ghost s = env.unread();
    let version = next_i32(env)?;
    let merkle_root = next_32bytes(env)?;
    let time = next_u32(env)?;
    let bits = next_u32(env)?;
    let nonce = next_u32(env)?;
    proof {
        assert(s.skip(4).subrange(0, 32) =~= s.subrange(4, 36));
        assert(s.skip(4).skip(32) =~= s.skip(36));
        assert(s.skip(36).subrange(0, 4) =~= s.subrange(36, 40));
        assert(s.skip(36).skip(4) =~= s.skip(40));
        assert(s.skip(40).subrange(0, 4) =~= s.subrange(40, 44));
        assert(s.skip(40).skip(4) =~= s.skip(44));
        assert(s.skip(44).subrange(0, 4) =~= s.subrange(44, 48));
        assert(s.skip(44).skip(4) =~= s.skip(48));
    }
    Ok(HeaderRecord { version, hash: merkle_root, time, bits, nonce })
}

/// One header record at the front of the stream, on top of the block with
/// the hash `prev`: the hash of the new block and the running work with the
/// block's work added, provided that the hash meets the record's target.
#[verifier::opaque]
pub open spec fn header_step(s: Seq<u8>, prev: Seq<u8>, work: nat) -> Result<
    (Seq<u8>, nat),
    BridgeError,
> {
    if s.len() < HEADER_RECORD_LEN {
        Err(BridgeError::UnexpectedEndOfInput)
    } else if !header_valid(stream_u32(s, 40), record_hash(s, prev)) {
        Err(BridgeError::ConsensusError)
    } else {
        Ok((record_hash(s, prev), (work + block_work(stream_u32(s, 40))) % modulus()))
    }
}

/// Reads one header record on top of the block with the hash `prev`,
/// checks the new block's hash against its target and adds its work.
pub fn read_header_on_top<E: Environment>(env: &mut E, prev: &[u8; 32], total_work: &U256) -> (r:
    Result<([u8; 32], U256), BridgeError>)
    ensures
        match header_step(old(env).unread(), prev@, total_work@) {
            Ok((hash, work)) => r matches Ok((returned_hash, returned_work)) && returned_hash@
                == hash && returned_work@ == work && final(env).unread() == old(env).unread().skip(
                HEADER_RECORD_LEN as int,
            ),
            Err(e) => r matches Err(returned_error) && returned_error == e,
        },
{
    reveal(header_step);
    let ghost s = env.unread();
    let record = match read_header_record(env) {
        Ok(record) => record,
        Err(e) => {
            return Err(e);
        },
    };
    let hash = calculate_block_hash(
        record.version,
        prev,
        &record.hash,
        record.time,
        record.bits,
        record.nonce,
    );
    assert(hash@ == record_hash(s, prev@));
    match validate_threshold_and_add_work(record.bits, &hash, total_work) {
        Ok(work) => Ok((hash, work)),
        Err(e) => Err(e),
    }
}

/// What a run of headers leaves behind.
pub struct HeaderChain {
    /// The work of the headers, summed modulo `2^256`.
    pub total_work: nat,
    /// The hash of the block that stood `MAX_BLOCK_HANDLE_OPS` headers
    /// before the end, or zeros if the run was shorter.
    pub lc_block_hash: Seq<u8>,
    /// The hash of the last block.
    pub tip: Seq<u8>,
    /// The leaves of the block-hash accumulator.
    pub leaves: Seq<Seq<u8>>,
    /// The stream behind the headers.
    pub rest: Seq<u8>,
}

/// Walks the `left` header records that are left. Before each one the hash of the previous
/// block is added to the accumulator; the record is hashed on top of it,
/// the hash must meet the record's target, and the record's work is added.
pub open spec fn headers_from(
    s: Seq<u8>,
    left: nat,
    prev: Seq<u8>,
    work: nat,
    lc_block_hash: Seq<u8>,
    leaves: Seq<Seq<u8>>,
    depth: nat,
) -> Result<HeaderChain, BridgeError>
    decreases left,
{
    if left == 0 {
        Ok(HeaderChain { total_work: work, lc_block_hash, tip: prev, leaves, rest: s })
    } else if leaves.len() >= pow2(depth) {
        Err(BridgeError::TreeFull)
    } else {
        match header_step(s, prev, work) {
            Err(e) => Err(e),
            Ok((hash, work_with_block)) => headers_from(
                s.skip(HEADER_RECORD_LEN as int),
                (left - 1) as nat,
                hash,
                work_with_block,
                if left == MAX_BLOCK_HANDLE_OPS {
                    prev
                } else {
                    lc_block_hash
                },
                leaves.push(prev),
                depth,
            ),
        }
    }
}

/// A period's headers: a count, then that many header records, chained
/// from `start`.
pub open spec fn read_blocks_spec(s: Seq<u8>, start: Seq<u8>, leaves: Seq<Seq<u8>>, depth: nat) -> Result<
    HeaderChain,
    BridgeError,
> {
    if s.len() < 4 {
        Err(BridgeError::UnexpectedEndOfInput)
    } else {
        headers_from(s.skip(4), stream_u32(s, 0) as nat, start, 0, zero_bytes(32), leaves, depth)
    }
}

/// Whether what was returned, and what became of the accumulator and the
/// stream, is what the headers ask for.
pub open spec fn header_chain_returned(
    expected: Result<HeaderChain, BridgeError>,
    returned: Result<(U256, [u8; 32], [u8; 32]), BridgeError>,
    leaves: Seq<Seq<u8>>,
    rest: Seq<u8>,
) -> bool {
    match expected {
        Ok(chain) => {
            &&& returned matches Ok((work, lc_block_hash, tip))
            &&& work@ == chain.total_work
            &&& lc_block_hash@ == chain.lc_block_hash
            &&& tip@ == chain.tip
            &&& leaves == chain.leaves
            &&& rest == chain.rest
        },
        Err(e) => returned matches Err(returned_error) && returned_error == e,
    }
}

/// Reads a period's headers, adding the hash of each block's predecessor to
/// the accumulator. Returns the work of the headers, the hash of the block
/// `MAX_BLOCK_HANDLE_OPS` headers before the end, and the hash of the last
/// block.
pub fn read_blocks_and_add_to_merkle_tree<E: Environment>(
    env: &mut E,
    start_prev_block_hash: [u8; 32],
    imt: &mut IncrementalMerkleTree,
) -> (r: Result<(U256, [u8; 32], [u8; 32]), BridgeError>)
    requires
        old(imt).wf(),
    ensures
        final(imt).wf(),
        final(imt).spec_depth() == old(imt).spec_depth(),
        header_chain_returned(
            read_blocks_spec(
                old(env).unread(),
                start_prev_block_hash@,
                old(imt)@,
                old(imt).spec_depth(),
            ),
            r,
            final(imt)@,
            final(env).unread(),
        ),
{
    let ghost depth = imt.spec_depth();
    let ghost goal = read_blocks_spec(env.unread(), start_prev_block_hash@, imt@, depth);
    let n = match next_u32(env) {
        Ok(n) => n,
        Err(e) => {
            return Err(e);
        },
    };
    let mut total_work = U256::zero();
    let mut prev: [u8; 32] = start_prev_block_hash;
    let mut lc_block_hash: [u8; 32] = [0u8; 32];
    assert(lc_block_hash@ =~= zero_bytes(32));
    let mut i: u32 = 0;
    while i < n
        invariant
            i <= n,
            imt.wf(),
            imt.spec_depth() == depth,
            depth == old(imt).spec_depth(),
            goal == read_blocks_spec(
                old(env).unread(),
                start_prev_block_hash@,
                old(imt)@,
                old(imt).spec_depth(),
            ),
            headers_from(
                env.unread(),
                (n - i) as nat,
                prev@,
                total_work@,
                lc_block_hash@,
                imt@,
                depth,
            ) == goal,
        decreases n - i,
    {
        match imt.add(prev) {
            Ok(()) => {},
            Err(e) => {
                return Err(e);
            },
        }
        let (hash, work) = match read_header_on_top(env, &prev, &total_work) {
            Ok(step) => step,
            Err(e) => {
                return Err(e);
            },
        };
        if n - i == MAX_BLOCK_HANDLE_OPS {
            lc_block_hash = prev;
        }
        total_work = work;
        prev = hash;
        i = i + 1;
    }
    Ok((total_work, lc_block_hash, prev))
}

/// Walks the `left` header records that are left for their work alone:
/// each record is hashed on top of the block before it, its hash must meet
/// its own target, and its work is added.
pub open spec fn work_from(s: Seq<u8>, left: nat, prev: Seq<u8>, work: nat) -> Result<
    (nat, Seq<u8>),
    BridgeError,
>
    decreases left,
{
    if left == 0 {
        Ok((work, s))
    } else {
        match header_step(s, prev, work) {
            Err(e) => Err(e),
            Ok((hash, work_with_block)) => work_from(
                s.skip(HEADER_RECORD_LEN as int),
                (left - 1) as nat,
                hash,
                work_with_block,
            ),
        }
    }
}

/// The headers that bury a period's tip: a count, then that many header
/// records. The result is their work and the stream behind them.
pub open spec fn read_work_spec(s: Seq<u8>, start: Seq<u8>) -> Result<(nat, Seq<u8>), BridgeError> {
    if s.len() < 4 {
        Err(BridgeError::UnexpectedEndOfInput)
    } else {
        work_from(s.skip(4), stream_u32(s, 0) as nat, start, 0)
    }
}

/// The work of the first `count` header records of the stream, summed.
pub open spec fn records_work(s: Seq<u8>, count: nat) -> nat
    decreases count,
{
    if count == 0 {
        0
    } else {
        block_work(stream_u32(s, 40)) + records_work(
            s.skip(HEADER_RECORD_LEN as int),
            (count - 1) as nat,
        )
    }
}

/// Whether the first `count` header records of the stream are there in
/// full and chain on the block with the hash `prev`, each with a hash of
/// its own that meets its own target.
pub open spec fn records_chain(s: Seq<u8>, count: nat, prev: Seq<u8>) -> bool
    decreases count,
{
    count == 0 || (s.len() >= HEADER_RECORD_LEN && header_valid(
        stream_u32(s, 40),
        record_hash(s, prev),
    ) && records_chain(s.skip(HEADER_RECORD_LEN as int), (count - 1) as nat, record_hash(s, prev)))
}

/// The work of a chain of headers: where each header's own hash meets its
/// own target, the work of the headers is owed, summed modulo `2^256`, and
/// the stream is left behind the last of them.
pub proof fn lemma_work_of_a_chain(s: Seq<u8>, count: nat, prev: Seq<u8>, work: nat)
    requires
        records_chain(s, count, prev),
        work < modulus(),
    ensures
        s.len() >= HEADER_RECORD_LEN * count,
        work_from(s, count, prev, work) == Ok::<(nat, Seq<u8>), BridgeError>(
            ((work + records_work(s, count)) % modulus(), s.skip(HEADER_RECORD_LEN * count)),
        ),
    decreases count,
{
    let m = modulus();
    lemma_pow2_pos(256);
    if count == 0 {
        lemma_small_mod(work, m);
        assert(s.skip(0) =~= s);
    } else {
        let own = block_work(stream_u32(s, 40));
        let rest = s.skip(HEADER_RECORD_LEN as int);
        let left = (count - 1) as nat;
        let hash = record_hash(s, prev);
        let with_block = (work + own) % m;
        let further = records_work(rest, left);
        assert(header_step(s, prev, work) == Ok::<(Seq<u8>, nat), BridgeError>((hash, with_block)))
            by {
            reveal(header_step);
        }
        vstd::arithmetic::div_mod::lemma_mod_bound((work + own) as int, m as int);
        lemma_work_of_a_chain(rest, left, hash, with_block);
        assert(HEADER_RECORD_LEN * count == HEADER_RECORD_LEN * left + HEADER_RECORD_LEN);
        assert(rest.skip(HEADER_RECORD_LEN * left) =~= s.skip(HEADER_RECORD_LEN * count));
        lemma_small_mod(with_block, m);
        vstd::arithmetic::div_mod::lemma_add_mod_noop(
            (work + own) as int,
            further as int,
            m as int,
        );
        vstd::arithmetic::div_mod::lemma_add_mod_noop(with_block as int, further as int, m as int);
        assert((with_block + further) % m == (work + own + further) % m);
        assert(records_work(s, count) == own + further);
    }
}

/// The work that buries a tip: where the stream holds a count and that
/// many headers chained on `start`, each with a hash of its own that meets
/// its own target, the sum of the headers' work modulo `2^256` is owed.
pub proof fn lemma_work_is_owed_for_a_chain(s: Seq<u8>, start: Seq<u8>)
    requires
        s.len() >= 4,
        records_chain(s.skip(4), stream_u32(s, 0) as nat, start),
    ensures
        read_work_spec(s, start) == Ok::<(nat, Seq<u8>), BridgeError>(
            (
                records_work(s.skip(4), stream_u32(s, 0) as nat) % modulus(),
                s.skip(4).skip(HEADER_RECORD_LEN * stream_u32(s, 0)),
            ),
        ),
{
    lemma_pow2_pos(256);
    lemma_work_of_a_chain(s.skip(4), stream_u32(s, 0) as nat, start, 0);
}

/// Reads the headers on top of a period's tip and returns their work, summed
/// modulo `2^256`: each header is hashed on top of the block before it, and
/// its own hash must meet its own target.
pub fn read_blocks_and_calculate_work<E: Environment>(
    env: &mut E,
    start_prev_block_hash: [u8; 32],
) -> (r: Result<U256, BridgeError>)
    ensures
        match read_work_spec(old(env).unread(), start_prev_block_hash@) {
            Ok((work, rest)) => r matches Ok(total) && total@ == work && final(env).unread() == rest,
            Err(e) => r matches Err(returned_error) && returned_error == e,
        },
{
    let ghost goal = read_work_spec(env.unread(), start_prev_block_hash@);
    let k = match next_u32(env) {
        Ok(k) => k,
        Err(e) => {
            return Err(e);
        },
    };
    let mut total_work = U256::zero();
    let mut prev: [u8; 32] = start_prev_block_hash;
    let mut i: u32 = 0;
    while i < k
        invariant
            i <= k,
            goal == read_work_spec(old(env).unread(), start_prev_block_hash@),
            work_from(env.unread(), (k - i) as nat, prev@, total_work@) == goal,
        decreases k - i,
    {
        let (hash, work) = match read_header_on_top(env, &prev, &total_work) {
            Ok(step) => step,
            Err(e) => {
                return Err(e);
            },
        };
        total_work = work;
        prev = hash;
        i = i + 1;
    }
    Ok(total_work)
}

/// The siblings of an inclusion path of the given depth, as they stand in
/// the stream: 32 bytes each, from the leaf's level up.
pub open spec fn path_siblings(s: Seq<u8>, depth: nat) -> Seq<Seq<u8>> {
    Seq::new(depth, |level: int| s.subrange(32 * level, 32 * level + 32))
}

/// An inclusion path in the stream: the leaf's index, unless the caller
/// gives it, then one sibling per level. The result is the root that the
/// path leads to from `leaf`, and the stream behind the path.
pub open spec fn read_merkle_tree_proof_spec(
    s: Seq<u8>,
    leaf: Seq<u8>,
    index: Option<u32>,
    depth: nat,
) -> Result<(Seq<u8>, Seq<u8>), BridgeError> {
    let index_len: int = if index is Some {
        0
    } else {
        4
    };
    if s.len() < index_len + 32 * depth {
        Err(BridgeError::UnexpectedEndOfInput)
    } else {
        let leaf_index = match index {
            Some(given) => given,
            None => stream_u32(s, 0),
        };
        let path = s.skip(index_len);
        Ok(
            (
                path_root(leaf, leaf_index as nat, path_siblings(path, depth)),
                path.skip((32 * depth) as int),
            ),
        )
    }
}

/// Reads an inclusion path of depth `D` for `leaf` and returns the root it
/// leads to. The leaf's index is read first where `index` is `None`.
pub fn read_merkle_tree_proof<E: Environment, const D: usize>(
    env: &mut E,
    leaf: [u8; 32],
    index: Option<u32>,
) -> (r: Result<[u8; 32], BridgeError>)
    ensures
        match read_merkle_tree_proof_spec(old(env).unread(), leaf@, index, D as nat) {
            Ok((root, rest)) => r matches Ok(returned) && returned@ == root && final(env).unread()
                == rest,
            Err(e) => r matches Err(returned_error) && returned_error == e,
        },
{
    let ghost s = env.unread();
    let leaf_index = match index {
        Some(given) => given,
        None => match next_u32(env) {
            Ok(read) => read,
            Err(e) => {
                return Err(e);
            },
        },
    };
    let ghost path = env.unread();
    let ghost siblings = path_siblings(path, D as nat);
    let ghost index_len: int = if index is Some {
        0
    } else {
        4
    };
    assert(s.skip(0) == s);
    let mut current: [u8; 32] = leaf;
    let mut current_index: u32 = leaf_index;
    let mut i: usize = 0;
    assert(siblings.skip(0) == siblings);
    assert(path.skip(0) == path);
    while i < D
        invariant
            i <= D,
            siblings == path_siblings(path, D as nat),
            s == old(env).unread(),
            s.len() >= index_len,
            path == s.skip(index_len),
            index_len == (if index is Some {
                0int
            } else {
                4int
            }),
            index matches Some(given) ==> leaf_index == given,
            index is None ==> leaf_index == stream_u32(s, 0),
            path.len() >= 32 * i,
            env.unread() == path.skip(32 * i),
            path_root(current@, current_index as nat, siblings.skip(i as int)) == path_root(
                leaf@,
                leaf_index as nat,
                siblings,
            ),
        decreases D - i,
    {
        let sibling = match next_32bytes(env) {
            Ok(sibling) => sibling,
            Err(e) => {
                return Err(e);
            },
        };
        proof {
            let rest = siblings.skip(i as int);
            assert(path.skip(32 * i).subrange(0, 32) =~= path.subrange(32 * i, 32 * i + 32));
            assert(rest[0] == sibling@);
            assert(rest.skip(1) == siblings.skip(i + 1));
            assert(path.skip(32 * i).skip(32) =~= path.skip(32 * (i + 1)));
        }
        if current_index % 2 == 0 {
            current = hash_pair(&current, &sibling);
        } else {
            current = hash_pair(&sibling, &current);
        }
        current_index = current_index / 2;
        i = i + 1;
    }
    Ok(current)
}

/// The unsigned 64-bit integer at an offset of the stream.
pub open spec fn stream_u64(s: Seq<u8>, at: int) -> u64 {
    (stream_u32(s, at) + 0x1_0000_0000 * stream_u32(s, at + 4)) as u64
}

/// The length of an input in the stream: the id and output number of what
/// it spends, and its sequence number.
pub const INPUT_RECORD_LEN: usize = 40;

/// The length of an output in the stream: its value and the output key of
/// the taproot address it pays.
pub const OUTPUT_RECORD_LEN: usize = 40;

/// The length of what stands before a transaction's inputs in the stream:
/// version, number of inputs, number of outputs and lock time.
pub const TX_HEADING_LEN: usize = 16;

/// The input whose record stands at an offset of the stream. Its script is
/// empty, as every input of a taproot spend is.
pub open spec fn stream_input(s: Seq<u8>, at: int) -> TxInView {
    TxInView {
        previous_output: OutPointView { txid: stream_bytes32(s, at), vout: stream_u32(s, at + 32) },
        script_sig: Seq::empty(),
        sequence: stream_u32(s, at + 36),
        witness: Seq::empty(),
    }
}

/// The output whose record stands at an offset of the stream: a payment
/// to a taproot address.
pub open spec fn stream_output(s: Seq<u8>, at: int) -> TxOutView {
    TxOutView { value: stream_u64(s, at), script_pubkey: p2tr_script(stream_bytes32(s, at + 8)) }
}

/// The number of inputs of the transaction at the front of the stream.
pub open spec fn stream_tx_inputs(s: Seq<u8>) -> nat {
    stream_u32(s, 4) as nat
}

/// The number of outputs of the transaction at the front of the stream.
pub open spec fn stream_tx_outputs(s: Seq<u8>) -> nat {
    stream_u32(s, 8) as nat
}

/// The length of the transaction at the front of the stream.
pub open spec fn stream_tx_len(s: Seq<u8>) -> nat {
    TX_HEADING_LEN as nat + INPUT_RECORD_LEN as nat * stream_tx_inputs(s) + OUTPUT_RECORD_LEN as nat
        * stream_tx_outputs(s)
}

/// The transaction at the front of the stream.
pub open spec fn stream_tx(s: Seq<u8>) -> TransactionView {
    TransactionView {
        version: stream_i32(s, 0),
        lock_time: stream_u32(s, 12),
        input: Seq::new(stream_tx_inputs(s), |i: int| stream_input(s, 16 + 40 * i)),
        output: Seq::new(
            stream_tx_outputs(s),
            |j: int| stream_output(s, 16 + 40 * stream_tx_inputs(s) + 40 * j),
        ),
    }
}

/// Whether the transaction spends the outpoint, if one is asked for.
pub open spec fn spends(tx: TransactionView, required: Option<(Seq<u8>, u32)>) -> bool {
    required matches Some((txid, vout)) ==> exists|i: int|
        0 <= i < tx.input.len() && (#[trigger] tx.input[i]).previous_output == (OutPointView {
            txid,
            vout,
        })
}

/// Whether the transaction pays the value to the taproot output key, if a
/// payment is asked for.
pub open spec fn pays(tx: TransactionView, required: Option<(u64, Seq<u8>)>) -> bool {
    required matches Some((value, output_key)) ==> exists|j: int|
        0 <= j < tx.output.len() && #[trigger] tx.output[j] == (TxOutView {
            value,
            script_pubkey: p2tr_script(output_key),
        })
}

/// A transaction in the stream: its id and the stream behind it, provided
/// that it spends and pays what is asked for.
pub open spec fn read_tx_spec(
    s: Seq<u8>,
    require_input: Option<(Seq<u8>, u32)>,
    require_output: Option<(u64, Seq<u8>)>,
) -> Result<(Seq<u8>, Seq<u8>), BridgeError> {
    if s.len() < TX_HEADING_LEN || s.len() < stream_tx_len(s) {
        Err(BridgeError::UnexpectedEndOfInput)
    } else if !(spends(stream_tx(s), require_input) && pays(stream_tx(s), require_output)) {
        Err(BridgeError::ConsensusError)
    } else {
        Ok((txid_of(stream_tx(s)), s.skip(stream_tx_len(s) as int)))
    }
}

/// The required outpoint as plain values.
pub open spec fn required_input_view(required: Option<([u8; 32], u32)>) -> Option<(Seq<u8>, u32)> {
    match required {
        Some((txid, vout)) => Some((txid@, vout)),
        None => None,
    }
}

/// The required payment as plain values.
pub open spec fn required_output_view(required: Option<(u64, [u8; 32])>) -> Option<(u64, Seq<u8>)> {
    match required {
        Some((value, output_key)) => Some((value, output_key@)),
        None => None,
    }
}

/// Reads the inputs of a transaction whose heading has been read.
fn read_tx_inputs<E: Environment>(env: &mut E, count: u32, Ghost(s): Ghost<Seq<u8>>) -> (r: Result<
    Vec<TxIn>,
    BridgeError,
>)
    requires
        s.len() >= 16,
        old(env).unread() == s.skip(16),
        count == stream_tx_inputs(s),
    ensures
        s.len() >= 16 + 40 * count <==> r is Ok,
        r matches Ok(inputs) ==> inputs.deep_view() == stream_tx(s).input && final(env).unread()
            == s.skip(16 + 40 * count),
        r matches Err(e) ==> e == BridgeError::UnexpectedEndOfInput,
{
    let mut inputs: Vec<TxIn> = Vec::new();
    let mut i: u32 = 0;
    while i < count
        invariant
            i <= count,
            s.len() >= 16 + 40 * i,
            env.unread() == s.skip(16 + 40 * i),
            inputs@.len() == i,
            forall|k: int| 0 <= k < i ==> (#[trigger] inputs@[k]).deep_view() == stream_input(
                s,
                16 + 40 * k,
            ),
        decreases count - i,
    {
        let ghost at = 16 + 40 * i;
        let txid = match next_32bytes(env) {
            Ok(txid) => txid,
            Err(e) => {
                return Err(e);
            },
        };
        let vout = match next_u32(env) {
            Ok(vout) => vout,
            Err(e) => {
                return Err(e);
            },
        };
        let sequence = match next_u32(env) {
            Ok(sequence) => sequence,
            Err(e) => {
                return Err(e);
            },
        };
        proof {
            assert(s.skip(at).subrange(0, 32) =~= s.subrange(at, at + 32));
            assert(s.skip(at).skip(32) =~= s.skip(at + 32));
            assert(s.skip(at + 32).subrange(0, 4) =~= s.subrange(at + 32, at + 36));
            assert(s.skip(at + 32).skip(4) =~= s.skip(at + 36));
            assert(s.skip(at + 36).subrange(0, 4) =~= s.subrange(at + 36, at + 40));
            assert(s.skip(at + 36).skip(4) =~= s.skip(at + 40));
        }
        let input = TxIn {
            previous_output: OutPoint { txid, vout },
            script_sig: Vec::new(),
            sequence,
            witness: Vec::new(),
        };
        assert(input.deep_view() =~= stream_input(s, at)) by {
            assert(input.witness.deep_view() =~= Seq::<Seq<u8>>::empty());
            assert(input.script_sig@ =~= Seq::<u8>::empty());
        }
        inputs.push(input);
        i = i + 1;
    }
    assert(inputs.deep_view() =~= stream_tx(s).input);
    Ok(inputs)
}

/// Reads the outputs of a transaction whose inputs have been read.
fn read_tx_outputs<E: Environment>(
    env: &mut E,
    count: u32,
    Ghost(s): Ghost<Seq<u8>>,
    Ghost(start): Ghost<int>,
) -> (r: Result<Vec<TxOut>, BridgeError>)
    requires
        start == 16 + 40 * stream_tx_inputs(s),
        s.len() >= start,
        old(env).unread() == s.skip(start),
        count == stream_tx_outputs(s),
    ensures
        s.len() >= start + 40 * count <==> r is Ok,
        r matches Ok(outputs) ==> outputs.deep_view() == stream_tx(s).output && final(env).unread()
            == s.skip(start + 40 * count),
        r matches Err(e) ==> e == BridgeError::UnexpectedEndOfInput,
{
    let mut outputs: Vec<TxOut> = Vec::new();
    let mut j: u32 = 0;
    while j < count
        invariant
            j <= count,
            s.len() >= start + 40 * j,
            start >= 16,
            env.unread() == s.skip(start + 40 * j),
            outputs@.len() == j,
            forall|k: int| 0 <= k < j ==> (#[trigger] outputs@[k]).deep_view() == stream_output(
                s,
                start + 40 * k,
            ),
        decreases count - j,
    {
        let ghost at = start + 40 * j;
        let low = match next_u32(env) {
            Ok(low) => low,
            Err(e) => {
                return Err(e);
            },
        };
        let high = match next_u32(env) {
            Ok(high) => high,
            Err(e) => {
                return Err(e);
            },
        };
        let output_key = match next_32bytes(env) {
            Ok(output_key) => output_key,
            Err(e) => {
                return Err(e);
            },
        };
        proof {
            assert(s.skip(at).subrange(0, 4) =~= s.subrange(at, at + 4));
            assert(s.skip(at).skip(4) =~= s.skip(at + 4));
            assert(s.skip(at + 4).subrange(0, 4) =~= s.subrange(at + 4, at + 8));
            assert(s.skip(at + 4).skip(4) =~= s.skip(at + 8));
            assert(s.skip(at + 8).subrange(0, 32) =~= s.subrange(at + 8, at + 40));
            assert(s.skip(at + 8).skip(32) =~= s.skip(at + 40));
        }
        let value: u64 = low as u64 + 0x1_0000_0000 * (high as u64);
        let output = TxOut { value, script_pubkey: p2tr_script_pubkey(&output_key) };
        assert(output.deep_view() == stream_output(s, at));
        outputs.push(output);
        j = j + 1;
    }
    assert(outputs.deep_view() =~= stream_tx(s).output);
    Ok(outputs)
}

/// Whether a transaction spends the outpoint.
fn spends_outpoint(tx: &Transaction, txid: &[u8; 32], vout: u32) -> (found: bool)
    ensures
        found == spends(tx.deep_view(), Some((txid@, vout))),
{
    let ghost inputs = tx.deep_view().input;
    let mut i: usize = 0;
    while i < tx.input.len()
        invariant
            i <= tx.input@.len(),
            inputs == tx.input.deep_view(),
            forall|k: int|
                0 <= k < i ==> (#[trigger] inputs[k]).previous_output != (OutPointView {
                    txid: txid@,
                    vout,
                }),
        decreases tx.input@.len() - i,
    {
        let spent = &tx.input[i].previous_output;
        if spent.vout == vout && bytes32_eq(&spent.txid, txid) {
            assert(tx.deep_view().input[i as int].previous_output == (OutPointView {
                txid: txid@,
                vout,
            }));
            return true;
        }
        i = i + 1;
    }
    false
}

/// Whether a transaction pays the value to the taproot output key.
fn pays_output(tx: &Transaction, value: u64, output_key: &[u8; 32]) -> (found: bool)
    ensures
        found == pays(tx.deep_view(), Some((value, output_key@))),
{
    let ghost outputs = tx.deep_view().output;
    let wanted = p2tr_script_pubkey(output_key);
    let mut j: usize = 0;
    while j < tx.output.len()
        invariant
            j <= tx.output@.len(),
            outputs == tx.output.deep_view(),
            wanted@ == p2tr_script(output_key@),
            forall|k: int|
                0 <= k < j ==> #[trigger] outputs[k] != (TxOutView {
                    value,
                    script_pubkey: p2tr_script(output_key@),
                }),
        decreases tx.output@.len() - j,
    {
        let output = &tx.output[j];
        if output.value == value && bytes_eq(output.script_pubkey.as_slice(), wanted.as_slice()) {
            assert(tx.deep_view().output[j as int] == (TxOutView {
                value,
                script_pubkey: p2tr_script(output_key@),
            }));
            return true;
        }
        j = j + 1;
    }
    false
}

/// Reads a transaction and returns its id. The transaction stands in the
/// stream as its version, the numbers of its inputs and outputs and its lock
/// time, then one record per input and one per output. It is refused with a
/// consensus error unless it spends `require_input` and pays
/// `require_output`, where they are given.
#[verifier::rlimit(50)]
pub fn read_tx_and_calculate_txid<E: Environment>(
    env: &mut E,
    require_input: Option<([u8; 32], u32)>,
    require_output: Option<(u64, [u8; 32])>,
) -> (r: Result<[u8; 32], BridgeError>)
    ensures
        match read_tx_spec(
            old(env).unread(),
            required_input_view(require_input),
            required_output_view(require_output),
        ) {
            Ok((txid, rest)) => r matches Ok(returned) && returned@ == txid && final(env).unread()
                == rest,
            Err(e) => r matches Err(returned_error) && returned_error == e,
        },
{
    let ghost s = env.unread();
    let version = match next_i32(env) {
        Ok(version) => version,
        Err(e) => {
            return Err(e);
        },
    };
    let input_count = match next_u32(env) {
        Ok(count) => count,
        Err(e) => {
            return Err(e);
        },
    };
    let output_count = match next_u32(env) {
        Ok(count) => count,
        Err(e) => {
            return Err(e);
        },
    };
    let lock_time = match next_u32(env) {
        Ok(lock_time) => lock_time,
        Err(e) => {
            return Err(e);
        },
    };
    proof {
        assert(s.skip(4).subrange(0, 4) =~= s.subrange(4, 8));
        assert(s.skip(4).skip(4) =~= s.skip(8));
        assert(s.skip(8).subrange(0, 4) =~= s.subrange(8, 12));
        assert(s.skip(8).skip(4) =~= s.skip(12));
        assert(s.skip(12).subrange(0, 4) =~= s.subrange(12, 16));
        assert(s.skip(12).skip(4) =~= s.skip(16));
    }
    let input = match read_tx_inputs(env, input_count, Ghost(s)) {
        Ok(input) => input,
        Err(e) => {
            return Err(e);
        },
    };
    let output = match read_tx_outputs(env, output_count, Ghost(s), Ghost(16 + 40 * input_count)) {
        Ok(output) => output,
        Err(e) => {
            return Err(e);
        },
    };
    let tx = Transaction { version, lock_time, input, output };
    assert(tx.deep_view() == stream_tx(s));
    let input_found = match require_input {
        Some((txid, vout)) => spends_outpoint(&tx, &txid, vout),
        None => true,
    };
    let output_found = match require_output {
        Some((value, output_key)) => pays_output(&tx, value, &output_key),
        None => true,
    };
    if !(input_found && output_found) {
        return Err(BridgeError::ConsensusError);
    }
    Ok(tx.txid())
}

/// The root reached from `node` in a block's transaction tree, whose inner
/// nodes are double SHA-256 hashes of their children.
pub open spec fn bitcoin_path_root(node: Seq<u8>, index: nat, siblings: Seq<Seq<u8>>) -> Seq<u8>
    decreases siblings.len(),
{
    if siblings.len() == 0 {
        node
    } else {
        let parent = if index % 2 == 0 {
            double_sha256_spec(node + siblings[0])
        } else {
            double_sha256_spec(siblings[0] + node)
        };
        bitcoin_path_root(parent, index / 2, siblings.skip(1))
    }
}

/// The number of levels of the transaction path at the front of the stream.
pub open spec fn stream_path_levels(s: Seq<u8>) -> nat {
    stream_u32(s, 4) as nat
}

/// The length of a transaction path with its block header in the stream:
/// index, number of levels, one sibling per level, then the header's
/// version, previous block hash, time, bits and nonce.
pub open spec fn stream_path_len(s: Seq<u8>) -> nat {
    8 + 32 * stream_path_levels(s) + HEADER_RECORD_LEN as nat
}

/// A transaction's path to its block: the hash of the block whose header
/// commits to the root that the path leads to from `txid`, and the stream
/// behind the path.
pub open spec fn bitcoin_merkle_path_spec(s: Seq<u8>, txid: Seq<u8>) -> Result<
    (Seq<u8>, Seq<u8>),
    BridgeError,
> {
    if s.len() < 8 || s.len() < stream_path_len(s) {
        Err(BridgeError::UnexpectedEndOfInput)
    } else {
        let levels = stream_path_levels(s);
        let root = bitcoin_path_root(
            txid,
            stream_u32(s, 0) as nat,
            path_siblings(s.skip(8), levels),
        );
        let header = s.skip((8 + 32 * levels) as int);
        Ok(
            (
                header_hash(
                    stream_i32(header, 0),
                    stream_bytes32(header, 4),
                    root,
                    stream_u32(header, 36),
                    stream_u32(header, 40),
                    stream_u32(header, 44),
                ),
                s.skip(stream_path_len(s) as int),
            ),
        )
    }
}

/// Reads the siblings of a transaction's path and returns the root that
/// they lead to from `txid`.
fn read_bitcoin_path_root<E: Environment>(env: &mut E, txid: [u8; 32], index: u32, levels: u32) -> (r:
    Result<[u8; 32], BridgeError>)
    ensures
        old(env).unread().len() >= 32 * levels <==> r is Ok,
        r matches Ok(root) ==> root@ == bitcoin_path_root(
            txid@,
            index as nat,
            path_siblings(old(env).unread(), levels as nat),
        ) && final(env).unread() == old(env).unread().skip(32 * levels),
        r matches Err(e) ==> e == BridgeError::UnexpectedEndOfInput,
{
    let ghost path = env.unread();
    let ghost siblings = path_siblings(path, levels as nat);
    let mut current: [u8; 32] = txid;
    let mut current_index: u32 = index;
    let mut i: u32 = 0;
    assert(siblings.skip(0) == siblings);
    assert(path.skip(0) == path);
    while i < levels
        invariant
            i <= levels,
            path == old(env).unread(),
            siblings == path_siblings(path, levels as nat),
            path.len() >= 32 * i,
            env.unread() == path.skip(32 * i),
            bitcoin_path_root(current@, current_index as nat, siblings.skip(i as int))
                == bitcoin_path_root(txid@, index as nat, siblings),
        decreases levels - i,
    {
        let sibling = match next_32bytes(env) {
            Ok(sibling) => sibling,
            Err(e) => {
                return Err(e);
            },
        };
        proof {
            let rest = siblings.skip(i as int);
            assert(path.skip(32 * i).subrange(0, 32) =~= path.subrange(32 * i, 32 * i + 32));
            assert(rest[0] == sibling@);
            assert(rest.skip(1) == siblings.skip(i + 1));
            assert(path.skip(32 * i).skip(32) =~= path.skip(32 * (i + 1)));
        }
        if current_index % 2 == 0 {
            current = double_hash_pair(&current, &sibling);
        } else {
            current = double_hash_pair(&sibling, &current);
        }
        current_index = current_index / 2;
        i = i + 1;
    }
    Ok(current)
}

/// Reads a transaction's path to its block and the block's header, and
/// returns the hash of the block. The header's Merkle root is not read: it
/// is the root that the path leads to.
#[verifier::rlimit(50)]
pub fn read_and_verify_bitcoin_merkle_path<E: Environment>(env: &mut E, txid: [u8; 32]) -> (r: Result<
    [u8; 32],
    BridgeError,
>)
    ensures
        match bitcoin_merkle_path_spec(old(env).unread(), txid@) {
            Ok((block_hash, rest)) => {
                &&& r matches Ok(returned)
                &&& returned@ == block_hash
                &&& final(env).unread() == rest
            },
            Err(e) => r matches Err(returned_error) && returned_error == e,
        },
{
    let ghost s = env.unread();
    let index = match next_u32(env) {
        Ok(index) => index,
        Err(e) => {
            return Err(e);
        },
    };
    let levels = match next_u32(env) {
        Ok(levels) => levels,
        Err(e) => {
            return Err(e);
        },
    };
    proof {
        assert(s.skip(4).subrange(0, 4) =~= s.subrange(4, 8));
        assert(s.skip(4).skip(4) =~= s.skip(8));
    }
    let root = match read_bitcoin_path_root(env, txid, index, levels) {
        Ok(root) => root,
        Err(e) => {
            return Err(e);
        },
    };
    let ghost header = s.skip(8 + 32 * levels);
    assert(s.skip(8).skip(32 * levels) =~= header);
    let record = match read_header_record(env) {
        Ok(record) => record,
        Err(e) => {
            return Err(e);
        },
    };
    assert(header.skip(48) =~= s.skip(stream_path_len(s) as int));
    Ok(
        calculate_block_hash(
            record.version,
            &record.hash,
            &root,
            record.time,
            record.bits,
            record.nonce,
        ),
    )
}

/// A withdrawal proof in the stream: the taproot output key that was paid,
/// the paying transaction, its path to a block, and that block's path into
/// the block-hash accumulator with the root `block_mt_root`. The result is
/// the withdrawal accumulator's leaves with the output key added, and the
/// stream behind the proof.
pub open spec fn read_withdrawal_proof_spec(
    s: Seq<u8>,
    block_mt_root: Seq<u8>,
    leaves: Seq<Seq<u8>>,
    depth: nat,
) -> Result<(Seq<Seq<u8>>, Seq<u8>), BridgeError> {
    if s.len() < 32 {
        Err(BridgeError::UnexpectedEndOfInput)
    } else {
        let output_key = s.take(32);
        match read_tx_spec(
            s.skip(32),
            None,
            Some((BRIDGE_AMOUNT_SATS, output_key)),
        ) {
            Err(e) => Err(e),
            Ok((txid, after_tx)) => match bitcoin_merkle_path_spec(after_tx, txid) {
                Err(e) => Err(e),
                Ok((block_hash, after_path)) => match read_merkle_tree_proof_spec(
                    after_path,
                    block_hash,
                    None,
                    DEPTH as nat,
                ) {
                    Err(e) => Err(e),
                    Ok((root, rest)) => if root != block_mt_root {
                        Err(BridgeError::ConsensusError)
                    } else if leaves.len() >= pow2(depth) {
                        Err(BridgeError::TreeFull)
                    } else {
                        Ok((leaves.push(output_key), rest))
                    },
                },
            },
        }
    }
}

/// Reads a withdrawal proof and adds the output key that was paid to the
/// withdrawal accumulator. The payment must be of the bridge amount, in a
/// transaction of a block whose hash lies in the block-hash accumulator with
/// the root `block_mt_root`.
#[verifier::rlimit(50)]
pub fn read_withdrawal_proof<E: Environment>(
    env: &mut E,
    block_mt_root: [u8; 32],
    imt: &mut IncrementalMerkleTree,
) -> (r: Result<(), BridgeError>)
    requires
        old(imt).wf(),
    ensures
        final(imt).wf(),
        final(imt).spec_depth() == old(imt).spec_depth(),
        match read_withdrawal_proof_spec(
            old(env).unread(),
            block_mt_root@,
            old(imt)@,
            old(imt).spec_depth(),
        ) {
            Ok((leaves, rest)) => r is Ok && final(imt)@ == leaves && final(env).unread() == rest,
            Err(e) => r matches Err(returned_error) && returned_error == e && final(imt)@ == old(imt)@,
        },
{
    let output_address = match next_32bytes(env) {
        Ok(output_address) => output_address,
        Err(e) => {
            return Err(e);
        },
    };
    let txid = match read_tx_and_calculate_txid(
        env,
        None,
        Some((BRIDGE_AMOUNT_SATS, output_address)),
    ) {
        Ok(txid) => txid,
        Err(e) => {
            return Err(e);
        },
    };
    let block_hash = match read_and_verify_bitcoin_merkle_path(env, txid) {
        Ok(block_hash) => block_hash,
        Err(e) => {
            return Err(e);
        },
    };
    let root = match read_merkle_tree_proof::<E, DEPTH>(env, block_hash, None) {
        Ok(root) => root,
        Err(e) => {
            return Err(e);
        },
    };
    if !bytes32_eq(&root, &block_mt_root) {
        return Err(BridgeError::ConsensusError);
    }
    imt.add(output_address)
}

/// The length of a light-client proof in the stream: the hash of the block
/// that the light client holds canonical, then the root of the withdrawals
/// that it has seen.
pub const LC_PROOF_LEN: usize = 64;

/// Whether the light-client proof at the front of the stream attests the
/// pair: it is there in full, and it holds this block hash and this
/// withdrawal root. A proof that is cut short attests nothing.
pub open spec fn attests(s: Seq<u8>, lc_blockhash: Seq<u8>, withdrawal_mt_root: Seq<u8>) -> bool {
    &&& s.len() >= LC_PROOF_LEN
    &&& stream_bytes32(s, 0) == lc_blockhash
    &&& stream_bytes32(s, 32) == withdrawal_mt_root
}

/// Reads the light-client proof and holds it against the block hash that
/// the prover took from its headers and the root of the withdrawals that it
/// has verified. Fails with `ConsensusError` exactly where the proof does
/// not attest this pair; where it does, the reader stands behind the proof.
pub fn read_and_verify_lc_proof<E: Environment>(
    env: &mut E,
    lc_blockhash: [u8; 32],
    withdrawal_mt_root: [u8; 32],
) -> (r: Result<(), BridgeError>)
    ensures
        r is Ok <==> attests(old(env).unread(), lc_blockhash@, withdrawal_mt_root@),
        r is Ok ==> final(env).unread() == old(env).unread().skip(LC_PROOF_LEN as int),
        r matches Err(e) ==> e == BridgeError::ConsensusError,
{
    let ghost s = env.unread();
    let attested_hash = match next_32bytes(env) {
        Ok(hash) => hash,
        Err(_) => {
            return Err(BridgeError::ConsensusError);
        },
    };
    let attested_root = match next_32bytes(env) {
        Ok(root) => root,
        Err(_) => {
            return Err(BridgeError::ConsensusError);
        },
    };
    proof {
        assert(stream_bytes32(s.skip(32), 0) =~= stream_bytes32(s, 32));
        assert(s.skip(32).skip(32) =~= s.skip(64));
    }
    if !bytes32_eq(&attested_hash, &lc_blockhash) || !bytes32_eq(
        &attested_root,
        &withdrawal_mt_root,
    ) {
        return Err(BridgeError::ConsensusError);
    }
    Ok(())
}

/// A verifier's challenge in the stream: the work it claims, as 32 bytes
/// least significant first, the hash of the last block it holds final, and
/// that block's height.
pub open spec fn read_challenge_spec(s: Seq<u8>) -> Result<(nat, Seq<u8>, u32, Seq<u8>), BridgeError> {
    if s.len() < 68 {
        Err(BridgeError::UnexpectedEndOfInput)
    } else {
        Ok((le_value(stream_bytes32(s, 0)), stream_bytes32(s, 32), stream_u32(s, 64), s.skip(68)))
    }
}

/// Reads a verifier's challenge: its claimed work, the hash of the last
/// block it holds final, and that block's height.
pub fn read_and_verify_verifiers_challenge_proof<E: Environment>(env: &mut E) -> (r: Result<
    (U256, [u8; 32], u32),
    BridgeError,
>)
    ensures
        match read_challenge_spec(old(env).unread()) {
            Ok((work, block_hash, height, rest)) => r matches Ok(
                (returned_work, returned_hash, returned_height),
            ) && returned_work@ == work && returned_hash@ == block_hash && returned_height
                == height && final(env).unread() == rest,
            Err(e) => r matches Err(returned_error) && returned_error == e,
        },
{
    let ghost s = env.unread();
    let work = match next_32bytes(env) {
        Ok(work) => work,
        Err(e) => {
            return Err(e);
        },
    };
    let block_hash = match next_32bytes(env) {
        Ok(block_hash) => block_hash,
        Err(e) => {
            return Err(e);
        },
    };
    let height = match next_u32(env) {
        Ok(height) => height,
        Err(e) => {
            return Err(e);
        },
    };
    proof {
        assert(s.skip(32).subrange(0, 32) =~= s.subrange(32, 64));
        assert(s.skip(32).skip(32) =~= s.skip(64));
        assert(s.skip(64).subrange(0, 4) =~= s.subrange(64, 68));
        assert(s.skip(64).skip(4) =~= s.skip(68));
    }
    Ok((U256::from_le_bytes(work), block_hash, height))
}

/// The prover wins a challenge when its chain holds more work than the
/// verifier claims and ends in another block than the verifier's last final
/// one.
pub open spec fn prover_wins_spec(
    total_work: nat,
    verifiers_work: nat,
    current_tip: Seq<u8>,
    verifiers_last_finalized: Seq<u8>,
) -> bool {
    total_work > verifiers_work && current_tip != verifiers_last_finalized
}

/// Whether the prover wins against a verifier's challenge.
pub fn prover_wins(
    total_work: &U256,
    verifiers_work: &U256,
    current_tip: &[u8; 32],
    verifiers_last_finalized: &[u8; 32],
) -> (wins: bool)
    ensures
        wins == prover_wins_spec(
            total_work@,
            verifiers_work@,
            current_tip@,
            verifiers_last_finalized@,
        ),
{
    total_work.gt(verifiers_work) && !bytes32_eq(current_tip, verifiers_last_finalized)
}

/// The SHA-256 hashes of the preimages, one after the other.
pub open spec fn preimage_hashes(preimages: Seq<Seq<u8>>) -> Seq<u8>
    decreases preimages.len(),
{
    if preimages.len() == 0 {
        Seq::empty()
    } else {
        preimage_hashes(preimages.drop_last()) + sha256(preimages.last())
    }
}

/// The number of preimages at the front of the stream.
pub open spec fn stream_preimage_count(s: Seq<u8>) -> nat {
    stream_u32(s, 0) as nat
}

/// The preimages at the front of the stream, behind their number.
pub open spec fn stream_preimages(s: Seq<u8>) -> Seq<Seq<u8>> {
    Seq::new(stream_preimage_count(s), |i: int| s.subrange(4 + 32 * i, 4 + 32 * i + 32))
}

/// The revealed preimages in the stream: their number, then the preimages.
/// The result is the output key of the taproot address that commits to
/// their inscription under the operator's key, the claim-tree leaf that
/// their hashes make, and the stream behind them.
pub open spec fn read_preimages_spec(s: Seq<u8>, operator_pk: Seq<u8>) -> Result<
    (Seq<u8>, Seq<u8>, Seq<u8>),
    BridgeError,
> {
    if s.len() < 4 || s.len() < 4 + 32 * stream_preimage_count(s) {
        Err(BridgeError::UnexpectedEndOfInput)
    } else {
        match taproot_output_key(
            INTERNAL_KEY@,
            seq![inscription_script(operator_pk, stream_preimages(s))],
        ) {
            None => Err(BridgeError::ScriptBuildError),
            Some(output_key) => Ok(
                (
                    output_key,
                    sha256(preimage_hashes(stream_preimages(s))),
                    s.skip((4 + 32 * stream_preimage_count(s)) as int),
                ),
            ),
        }
    }
}

/// Reads the preimages that the operator revealed and returns the output
/// key of the taproot address that commits to their inscription, and the
/// claim-tree leaf that their hashes make.
#[verifier::rlimit(50)]
pub fn read_preimages_and_calculate_commit_taproot<E: Environment>(
    env: &mut E,
    operator_pk: &[u8; 32],
) -> (r: Result<([u8; 32], [u8; 32]), BridgeError>)
    ensures
        match read_preimages_spec(old(env).unread(), operator_pk@) {
            Ok((output_key, leaf, rest)) => r matches Ok((returned_key, returned_leaf))
                && returned_key@ == output_key && returned_leaf@ == leaf && final(env).unread()
                == rest,
            Err(e) => r matches Err(returned_error) && returned_error == e,
        },
{
    let ghost s = env.unread();
    let count = match next_u32(env) {
        Ok(count) => count,
        Err(e) => {
            return Err(e);
        },
    };
    let ghost all = stream_preimages(s);
    let mut preimages: Vec<[u8; 32]> = Vec::new();
    let mut hashes: Vec<u8> = Vec::new();
    let mut i: u32 = 0;
    assert(all.take(0) == Seq::<Seq<u8>>::empty());
    while i < count
        invariant
            i <= count,
            s == old(env).unread(),
            count == stream_preimage_count(s),
            all == stream_preimages(s),
            s.len() >= 4 + 32 * i,
            env.unread() == s.skip(4 + 32 * i),
            preimages.deep_view() == all.take(i as int),
            hashes@ == preimage_hashes(all.take(i as int)),
        decreases count - i,
    {
        let preimage = match next_32bytes(env) {
            Ok(preimage) => preimage,
            Err(e) => {
                return Err(e);
            },
        };
        let hash = hash_32(&preimage);
        proof {
            let at = 4 + 32 * i;
            assert(s.skip(at).subrange(0, 32) =~= s.subrange(at, at + 32));
            assert(s.skip(at).skip(32) =~= s.skip(at + 32));
            let front = all.take(i + 1);
            assert(front.drop_last() == all.take(i as int));
            assert(front.last() == preimage@);
        }
        preimages.push(preimage);
        append_bytes(&mut hashes, hash.as_slice());
        i = i + 1;
        assert(preimages.deep_view() =~~= all.take(i as int));
    }
    assert(all.take(i as int) == all);
    let script = ScriptBuilder::create_inscription_script_32_bytes(operator_pk, &preimages);
    let mut scripts: Vec<Vec<u8>> = Vec::new();
    scripts.push(script);
    assert(scripts.deep_view() =~~= seq![inscription_script(operator_pk@, all)]);
    match TaprootSpendInfo::new(INTERNAL_KEY, scripts) {
        Ok(info) => Ok((info.output_key, sha256_hash(hashes.as_slice()))),
        Err(e) => Err(e),
    }
}

/// What the prover is made with: the hash of the block before the first
/// period, the claim-tree root of each period, and the operator's key.
pub struct ProverParameters {
    pub start_blockhash: [u8; 32],
    pub periods_claim_mt_roots: Vec<[u8; 32]>,
    pub operator_pk: [u8; 32],
}

/// What the prover carries from period to period.
pub struct ProverState {
    /// The leaves of the block-hash accumulator.
    pub block_hashes: Seq<Seq<u8>>,
    /// The leaves of the withdrawal accumulator.
    pub withdrawals: Seq<Seq<u8>>,
    /// The work of all headers so far, modulo `2^256`.
    pub total_work: nat,
    /// The hash of the last block.
    pub tip: Seq<u8>,
}

/// Walks the `left` withdrawal proofs that are left against the block-hash
/// root.
pub open spec fn withdrawals_from(
    s: Seq<u8>,
    left: nat,
    block_mt_root: Seq<u8>,
    leaves: Seq<Seq<u8>>,
) -> Result<(Seq<Seq<u8>>, Seq<u8>), BridgeError>
    decreases left,
{
    if left == 0 {
        Ok((leaves, s))
    } else {
        match read_withdrawal_proof_spec(s, block_mt_root, leaves, DEPTH as nat) {
            Err(e) => Err(e),
            Ok((with_leaf, rest)) => withdrawals_from(
                rest,
                (left - 1) as nat,
                block_mt_root,
                with_leaf,
            ),
        }
    }
}

/// What is checked before the challenge at the end of a period that the
/// operator closes: the light-client proof, which must attest the block
/// hash taken from the period's headers and the root of the withdrawals;
/// the revealed preimages, the transaction that commits to their
/// inscription and the one that reveals it, that transaction's path into
/// the block-hash accumulator, the path of the claim-tree leaf - at the
/// index that the number of withdrawals gives - to the period's claim root,
/// and the headers that bury the tip. The result gives the work with the
/// burying headers added, and the stream behind them, where the challenge
/// stands.
#[verifier::opaque]
pub open spec fn closing_checks_spec(
    s: Seq<u8>,
    claim_root: Seq<u8>,
    operator_pk: Seq<u8>,
    lc_block_hash: Seq<u8>,
    state: ProverState,
) -> Result<(nat, Seq<u8>), BridgeError> {
    if !attests(s, lc_block_hash, merkle_root(DEPTH as nat, state.withdrawals)) {
        Err(BridgeError::ConsensusError)
    } else {
        let behind = s.skip(LC_PROOF_LEN as int);
        match read_preimages_spec(behind, operator_pk) {
            Err(e) => Err(e),
            Ok((commit_key, claim_leaf, s1)) => match read_tx_spec(
                s1,
                None,
                Some((DUST_VALUE, commit_key)),
            ) {
                Err(e) => Err(e),
                Ok((commit_txid, s2)) => match read_tx_spec(s2, Some((commit_txid, 0u32)), None) {
                    Err(e) => Err(e),
                    Ok((reveal_txid, s3)) => match bitcoin_merkle_path_spec(s3, reveal_txid) {
                        Err(e) => Err(e),
                        Ok((block_hash, s4)) => match read_merkle_tree_proof_spec(
                            s4,
                            block_hash,
                            None,
                            DEPTH as nat,
                        ) {
                            Err(e) => Err(e),
                            Ok((root, s5)) => if root != merkle_root(DEPTH as nat, state.block_hashes) {
                                Err(BridgeError::ConsensusError)
                            } else if state.withdrawals.len() > u32::MAX {
                                Err(BridgeError::TreeIndexOutOfRange)
                            } else {
                                match read_merkle_tree_proof_spec(
                                    s5,
                                    claim_leaf,
                                    Some(state.withdrawals.len() as u32),
                                    DEPTH as nat,
                                ) {
                                    Err(e) => Err(e),
                                    Ok((reached, s6)) => if reached != claim_root {
                                        Err(BridgeError::ConsensusError)
                                    } else {
                                        match read_work_spec(s6, state.tip) {
                                            Err(e) => Err(e),
                                            Ok((buried, s7)) => Ok(
                                                ((state.total_work + buried) % modulus(), s7),
                                            ),
                                        }
                                    },
                                }
                            },
                        },
                    },
                },
            }
        }
    }
}

/// The end of a period that the operator closes: the checks of
/// `closing_checks_spec`, then the verifier's challenge. The prover wins
/// where its work, with the burying headers, is more than the verifier
/// claims and the tip of the period's headers is another block than the
/// verifier's last final one. The result says whether the prover wins, and
/// gives the work with the burying headers added and the stream behind.
#[verifier::opaque]
pub open spec fn finish_spec(
    s: Seq<u8>,
    claim_root: Seq<u8>,
    operator_pk: Seq<u8>,
    lc_block_hash: Seq<u8>,
    state: ProverState,
) -> Result<(bool, nat, Seq<u8>), BridgeError> {
    match closing_checks_spec(s, claim_root, operator_pk, lc_block_hash, state) {
        Err(e) => Err(e),
        Ok((work, at_challenge)) => match read_challenge_spec(at_challenge) {
            Err(e) => Err(e),
            Ok((claimed, final_hash, height, rest)) => Ok(
                (prover_wins_spec(work, claimed, state.tip, final_hash), work, rest),
            ),
        },
    }
}

/// One period: its headers, the number of its withdrawal proofs and the
/// proofs, and a word that says, if it is 1, that the operator closes the
/// period. The result says whether the prover has won, and gives the state
/// for the next period and the stream behind this one.
#[verifier::opaque]
pub open spec fn period_spec(
    s: Seq<u8>,
    claim_root: Seq<u8>,
    operator_pk: Seq<u8>,
    state: ProverState,
) -> Result<(bool, ProverState, Seq<u8>), BridgeError> {
    match read_blocks_spec(s, state.tip, state.block_hashes, DEPTH as nat) {
        Err(e) => Err(e),
        Ok(chain) => if chain.rest.len() < 4 {
            Err(BridgeError::UnexpectedEndOfInput)
        } else {
            match withdrawals_from(
                chain.rest.skip(4),
                stream_u32(chain.rest, 0) as nat,
                merkle_root(DEPTH as nat, chain.leaves),
                state.withdrawals,
            ) {
                Err(e) => Err(e),
                Ok((withdrawals, s2)) => {
                    let with_period = ProverState {
                        block_hashes: chain.leaves,
                        withdrawals,
                        total_work: (state.total_work + chain.total_work) % modulus(),
                        tip: chain.tip,
                    };
                    if s2.len() < 4 {
                        Err(BridgeError::UnexpectedEndOfInput)
                    } else if stream_u32(s2, 0) != 1 {
                        Ok((false, with_period, s2.skip(4)))
                    } else {
                        match finish_spec(
                            s2.skip(4),
                            claim_root,
                            operator_pk,
                            chain.lc_block_hash,
                            with_period,
                        ) {
                            Err(e) => Err(e),
                            Ok((wins, work, rest)) => Ok(
                                (
                                    wins,
                                    ProverState {
                                        block_hashes: with_period.block_hashes,
                                        withdrawals: with_period.withdrawals,
                                        total_work: work,
                                        tip: with_period.tip,
                                    },
                                    rest,
                                ),
                            ),
                        }
                    }
                },
            }
        },
    }
}

/// The periods from number `round` on. The prover wins as soon as a period
/// ends in its favour, and nothing is read behind that period; it has not
/// won if no period does, and then nothing is read behind the last one. The
/// result says whether the prover has won, and gives the stream that is
/// left unread.
pub open spec fn periods_from(
    s: Seq<u8>,
    claim_roots: Seq<Seq<u8>>,
    round: nat,
    operator_pk: Seq<u8>,
    state: ProverState,
) -> Result<(bool, Seq<u8>), BridgeError>
    decreases claim_roots.len() - round,
{
    if round >= claim_roots.len() {
        Ok((false, s))
    } else {
        match period_spec(s, claim_roots[round as int], operator_pk, state) {
            Err(e) => Err(e),
            Ok((wins, next, rest)) => if wins {
                Ok((true, rest))
            } else {
                periods_from(rest, claim_roots, round + 1, operator_pk, next)
            },
        }
    }
}

/// The whole proof: every period, from empty accumulators and no work, on
/// top of the start block. The result says whether the prover has won, and
/// gives the stream that is left unread.
pub open spec fn bridge_proof_spec(
    s: Seq<u8>,
    start_blockhash: Seq<u8>,
    claim_roots: Seq<Seq<u8>>,
    operator_pk: Seq<u8>,
) -> Result<(bool, Seq<u8>), BridgeError> {
    periods_from(
        s,
        claim_roots,
        0,
        operator_pk,
        ProverState {
            block_hashes: Seq::empty(),
            withdrawals: Seq::empty(),
            total_work: 0,
            tip: start_blockhash,
        },
    )
}

/// The decision at the end of a period that the operator closes: where the
/// checks pass and the challenge is read, the prover wins exactly where its
/// work, with the burying headers, is more than the verifier claims and the
/// tip of the period's headers is not the verifier's last final block. With
/// the verifier's block for its tip the prover does not win, whatever the
/// work.
pub proof fn lemma_prover_wins_with_more_work_on_another_block(
    s: Seq<u8>,
    claim_root: Seq<u8>,
    operator_pk: Seq<u8>,
    lc_block_hash: Seq<u8>,
    state: ProverState,
)
    ensures
        match closing_checks_spec(s, claim_root, operator_pk, lc_block_hash, state) {
            Ok((work, at_challenge)) => match read_challenge_spec(at_challenge) {
                Ok((claimed, final_hash, height, rest)) => finish_spec(
                    s,
                    claim_root,
                    operator_pk,
                    lc_block_hash,
                    state,
                ) == Ok::<(bool, nat, Seq<u8>), BridgeError>(
                    (work > claimed && state.tip != final_hash, work, rest),
                ),
                Err(e) => finish_spec(s, claim_root, operator_pk, lc_block_hash, state) == Err::<
                    (bool, nat, Seq<u8>),
                    BridgeError,
                >(e),
            },
            Err(e) => finish_spec(s, claim_root, operator_pk, lc_block_hash, state) == Err::<
                (bool, nat, Seq<u8>),
                BridgeError,
            >(e),
        },
{
    reveal(finish_spec);
}

/// A period hands on the tip and the accumulator of its own headers: the
/// headers that bury the tip at the end of a closed period add work only.
pub proof fn lemma_period_hands_on_the_tip_of_its_headers(
    s: Seq<u8>,
    claim_root: Seq<u8>,
    operator_pk: Seq<u8>,
    state: ProverState,
)
    ensures
        period_spec(s, claim_root, operator_pk, state) matches Ok((wins, next, rest))
            ==> read_blocks_spec(s, state.tip, state.block_hashes, DEPTH as nat) matches Ok(chain)
            && next.tip == chain.tip && next.block_hashes == chain.leaves,
{
    reveal(period_spec);
}

/// The proof ends with the period that the prover wins, and nothing behind
/// that period is read; after a period that it does not win, the next thing
/// read is the next period, which stands on the tip that the period handed
/// on.
pub proof fn lemma_proof_goes_on_unless_won(
    s: Seq<u8>,
    claim_roots: Seq<Seq<u8>>,
    round: nat,
    operator_pk: Seq<u8>,
    state: ProverState,
)
    requires
        round < claim_roots.len(),
    ensures
        match period_spec(s, claim_roots[round as int], operator_pk, state) {
            Ok((wins, next, rest)) => periods_from(s, claim_roots, round, operator_pk, state) == if wins {
                Ok::<(bool, Seq<u8>), BridgeError>((true, rest))
            } else {
                periods_from(rest, claim_roots, round + 1, operator_pk, next)
            },
            Err(e) => periods_from(s, claim_roots, round, operator_pk, state) == Err::<
                (bool, Seq<u8>),
                BridgeError,
            >(e),
        },
{
}

/// A period that the operator does not close ends right behind the word
/// that says so: no light-client proof, preimage, path, burying header or
/// challenge is read, the prover has not won, and the work is that of the
/// period's headers added to what was there.
pub proof fn lemma_open_period_ends_behind_its_word(
    s: Seq<u8>,
    claim_root: Seq<u8>,
    operator_pk: Seq<u8>,
    state: ProverState,
)
    ensures
        match read_blocks_spec(s, state.tip, state.block_hashes, DEPTH as nat) {
            Ok(chain) => chain.rest.len() >= 4 ==> match withdrawals_from(
                chain.rest.skip(4),
                stream_u32(chain.rest, 0) as nat,
                merkle_root(DEPTH as nat, chain.leaves),
                state.withdrawals,
            ) {
                Ok((withdrawals, at_word)) => at_word.len() >= 4 && stream_u32(at_word, 0) != 1
                    ==> period_spec(s, claim_root, operator_pk, state) == Ok::<
                    (bool, ProverState, Seq<u8>),
                    BridgeError,
                >(
                    (
                        false,
                        ProverState {
                            block_hashes: chain.leaves,
                            withdrawals,
                            total_work: (state.total_work + chain.total_work) % modulus(),
                            tip: chain.tip,
                        },
                        at_word.skip(4),
                    ),
                ),
                Err(_) => true,
            },
            Err(_) => true,
        },
{
    reveal(period_spec);
}

/// Reads `count` withdrawal proofs.
fn read_withdrawals<E: Environment>(
    env: &mut E,
    count: u32,
    block_mt_root: [u8; 32],
    withdrawal_mt: &mut IncrementalMerkleTree,
) -> (r: Result<(), BridgeError>)
    requires
        old(withdrawal_mt).wf(),
        old(withdrawal_mt).spec_depth() == DEPTH,
    ensures
        final(withdrawal_mt).wf(),
        final(withdrawal_mt).spec_depth() == DEPTH,
        match withdrawals_from(
            old(env).unread(),
            count as nat,
            block_mt_root@,
            old(withdrawal_mt)@,
        ) {
            Ok((leaves, rest)) => r is Ok && final(withdrawal_mt)@ == leaves && final(env).unread()
                == rest,
            Err(e) => r matches Err(returned_error) && returned_error == e,
        },
{
    let ghost goal = withdrawals_from(env.unread(), count as nat, block_mt_root@, withdrawal_mt@);
    let mut i: u32 = 0;
    while i < count
        invariant
            i <= count,
            withdrawal_mt.wf(),
            withdrawal_mt.spec_depth() == DEPTH,
            goal == withdrawals_from(
                old(env).unread(),
                count as nat,
                block_mt_root@,
                old(withdrawal_mt)@,
            ),
            withdrawals_from(env.unread(), (count - i) as nat, block_mt_root@, withdrawal_mt@)
                == goal,
        decreases count - i,
    {
        match read_withdrawal_proof(env, block_mt_root, withdrawal_mt) {
            Ok(()) => {},
            Err(e) => {
                return Err(e);
            },
        }
        i = i + 1;
    }
    Ok(())
}

/// Reads the end of a period that the operator closes. Returns whether the
/// prover wins, and the work with the burying headers added.
#[verifier::rlimit(50)]
fn finish_period<E: Environment>(
    env: &mut E,
    claim_root: &[u8; 32],
    operator_pk: &[u8; 32],
    lc_blockhash: [u8; 32],
    blockhashes_mt: &IncrementalMerkleTree,
    withdrawal_mt: &IncrementalMerkleTree,
    total_work: &U256,
    tip: &[u8; 32],
) -> (r: Result<(bool, U256), BridgeError>)
    requires
        blockhashes_mt.wf(),
        blockhashes_mt.spec_depth() == DEPTH,
        withdrawal_mt.wf(),
        withdrawal_mt.spec_depth() == DEPTH,
    ensures
        match finish_spec(
            old(env).unread(),
            claim_root@,
            operator_pk@,
            lc_blockhash@,
            ProverState {
                block_hashes: blockhashes_mt@,
                withdrawals: withdrawal_mt@,
                total_work: total_work@,
                tip: tip@,
            },
        ) {
            Ok((wins, work, rest)) => r matches Ok((returned_wins, returned_work)) && returned_wins
                == wins && returned_work@ == work && final(env).unread() == rest,
            Err(e) => r matches Err(returned_error) && returned_error == e,
        },
{
    reveal(finish_spec);
    reveal(closing_checks_spec);
    match read_and_verify_lc_proof(env, lc_blockhash, withdrawal_mt.root()) {
        Ok(()) => {},
        Err(e) => {
            return Err(e);
        },
    }
    let (commit_key, claim_leaf) = match read_preimages_and_calculate_commit_taproot(
        env,
        operator_pk,
    ) {
        Ok(pair) => pair,
        Err(e) => {
            return Err(e);
        },
    };
    let commit_txid = match read_tx_and_calculate_txid(env, None, Some((DUST_VALUE, commit_key))) {
        Ok(txid) => txid,
        Err(e) => {
            return Err(e);
        },
    };
    let reveal_txid = match read_tx_and_calculate_txid(env, Some((commit_txid, 0)), None) {
        Ok(txid) => txid,
        Err(e) => {
            return Err(e);
        },
    };
    let block_hash = match read_and_verify_bitcoin_merkle_path(env, reveal_txid) {
        Ok(block_hash) => block_hash,
        Err(e) => {
            return Err(e);
        },
    };
    let root = match read_merkle_tree_proof::<E, DEPTH>(env, block_hash, None) {
        Ok(root) => root,
        Err(e) => {
            return Err(e);
        },
    };
    if !bytes32_eq(&root, &blockhashes_mt.root()) {
        return Err(BridgeError::ConsensusError);
    }
    let withdrawals = withdrawal_mt.index();
    if withdrawals > 0xffff_ffff {
        return Err(BridgeError::TreeIndexOutOfRange);
    }
    let reached = match read_merkle_tree_proof::<E, DEPTH>(
        env,
        claim_leaf,
        Some(withdrawals as u32),
    ) {
        Ok(reached) => reached,
        Err(e) => {
            return Err(e);
        },
    };
    if !bytes32_eq(&reached, claim_root) {
        return Err(BridgeError::ConsensusError);
    }
    let buried = match read_blocks_and_calculate_work(env, *tip) {
        Ok(buried) => buried,
        Err(e) => {
            return Err(e);
        },
    };
    let work = total_work.wrapping_add(&buried);
    let (claimed, final_hash, _height) = match read_and_verify_verifiers_challenge_proof(env) {
        Ok(challenge) => challenge,
        Err(e) => {
            return Err(e);
        },
    };
    Ok((prover_wins(&work, &claimed, tip, &final_hash), work))
}

/// Reads one period. Returns whether the prover has won, the work so far
/// and the hash of the period's last block.
#[verifier::rlimit(50)]
fn prove_period<E: Environment>(
    env: &mut E,
    claim_root: &[u8; 32],
    operator_pk: &[u8; 32],
    blockhashes_mt: &mut IncrementalMerkleTree,
    withdrawal_mt: &mut IncrementalMerkleTree,
    total_work: &U256,
    tip: &[u8; 32],
) -> (r: Result<(bool, U256, [u8; 32]), BridgeError>)
    requires
        old(blockhashes_mt).wf(),
        old(blockhashes_mt).spec_depth() == DEPTH,
        old(withdrawal_mt).wf(),
        old(withdrawal_mt).spec_depth() == DEPTH,
    ensures
        final(blockhashes_mt).wf(),
        final(blockhashes_mt).spec_depth() == DEPTH,
        final(withdrawal_mt).wf(),
        final(withdrawal_mt).spec_depth() == DEPTH,
        match period_spec(
            old(env).unread(),
            claim_root@,
            operator_pk@,
            ProverState {
                block_hashes: old(blockhashes_mt)@,
                withdrawals: old(withdrawal_mt)@,
                total_work: total_work@,
                tip: tip@,
            },
        ) {
            Ok((wins, next, rest)) => {
                &&& r matches Ok((returned_wins, work, new_tip))
                &&& returned_wins == wins
                &&& work@ == next.total_work
                &&& new_tip@ == next.tip
                &&& final(blockhashes_mt)@ == next.block_hashes
                &&& final(withdrawal_mt)@ == next.withdrawals
                &&& final(env).unread() == rest
            },
            Err(e) => r matches Err(returned_error) && returned_error == e,
        },
{
    reveal(period_spec);
    let (period_work, lc_blockhash, new_tip) = match read_blocks_and_add_to_merkle_tree(
        env,
        *tip,
        blockhashes_mt,
    ) {
        Ok(chain) => chain,
        Err(e) => {
            return Err(e);
        },
    };
    let work = total_work.wrapping_add(&period_work);
    let ghost after_headers = env.unread();
    let num_withdrawals = match next_u32(env) {
        Ok(count) => count,
        Err(e) => {
            return Err(e);
        },
    };
    match read_withdrawals(env, num_withdrawals, blockhashes_mt.root(), withdrawal_mt) {
        Ok(()) => {},
        Err(e) => {
            return Err(e);
        },
    }
    let finish_proof = match next_u32(env) {
        Ok(word) => word,
        Err(e) => {
            return Err(e);
        },
    };
    if finish_proof != 1 {
        return Ok((false, work, new_tip));
    }
    match finish_period(
        env,
        claim_root,
        operator_pk,
        lc_blockhash,
        blockhashes_mt,
        withdrawal_mt,
        &work,
        &new_tip,
    ) {
        Ok((wins, with_buried)) => Ok((wins, with_buried, new_tip)),
        Err(e) => Err(e),
    }
}

/// Walks the whole proof: for each period its headers, its withdrawal
/// proofs and, where the operator closes the period, the light-client
/// proof, the reveal of the connector preimages, the work that buries the
/// tip and a verifier's challenge. Returns `true` as soon as the prover wins
/// a challenge, having read nothing behind it, and `false` if the periods
/// end without that, having read nothing behind the last period; any flaw
/// in the input is an error.
#[verifier::rlimit(50)]
pub fn bridge_proof<E: Environment>(env: &mut E, params: &ProverParameters) -> (r: Result<
    bool,
    BridgeError,
>)
    ensures
        match bridge_proof_spec(
            old(env).unread(),
            params.start_blockhash@,
            params.periods_claim_mt_roots.deep_view(),
            params.operator_pk@,
        ) {
            Ok((wins, rest)) => r == Ok::<bool, BridgeError>(wins) && final(env).unread() == rest,
            Err(e) => r == Err::<bool, BridgeError>(e),
        },
{
    let ghost roots = params.periods_claim_mt_roots.deep_view();
    let ghost goal = bridge_proof_spec(
        env.unread(),
        params.start_blockhash@,
        roots,
        params.operator_pk@,
    );
    let mut blockhashes_mt = match IncrementalMerkleTree::new(DEPTH) {
        Ok(tree) => tree,
        Err(e) => {
            return Err(e);
        },
    };
    let mut withdrawal_mt = match IncrementalMerkleTree::new(DEPTH) {
        Ok(tree) => tree,
        Err(e) => {
            return Err(e);
        },
    };
    let mut total_work = U256::zero();
    let mut last_block_hash: [u8; 32] = params.start_blockhash;
    let mut round: usize = 0;
    while round < params.periods_claim_mt_roots.len()
        invariant
            round <= params.periods_claim_mt_roots@.len(),
            roots == params.periods_claim_mt_roots.deep_view(),
            roots.len() == params.periods_claim_mt_roots@.len(),
            blockhashes_mt.wf(),
            blockhashes_mt.spec_depth() == DEPTH,
            withdrawal_mt.wf(),
            withdrawal_mt.spec_depth() == DEPTH,
            goal == bridge_proof_spec(
                old(env).unread(),
                params.start_blockhash@,
                params.periods_claim_mt_roots.deep_view(),
                params.operator_pk@,
            ),
            periods_from(
                env.unread(),
                roots,
                round as nat,
                params.operator_pk@,
                ProverState {
                    block_hashes: blockhashes_mt@,
                    withdrawals: withdrawal_mt@,
                    total_work: total_work@,
                    tip: last_block_hash@,
                },
            ) == goal,
        decreases params.periods_claim_mt_roots@.len() - round,
    {
        let claim_root: [u8; 32] = params.periods_claim_mt_roots[round];
        assert(claim_root@ == roots[round as int]);
        let (wins, work, tip) = match prove_period(
            env,
            &claim_root,
            &params.operator_pk,
            &mut blockhashes_mt,
            &mut withdrawal_mt,
            &total_work,
            &last_block_hash,
        ) {
            Ok(period) => period,
            Err(e) => {
                return Err(e);
            },
        };
        if wins {
            return Ok(true);
        }
        total_work = work;
        last_block_hash = tip;
        round = round + 1;
    }
    Ok(false)
}

} // verus!
