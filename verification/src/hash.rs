//! SHA-256 as used throughout the bridge, and the byte-level helpers built on it.

use vstd::prelude::*;

verus! {

/// The SHA-256 digest of a byte string.
pub uninterp spec fn sha256(data: Seq<u8>) -> Seq<u8>;

/// SHA-256 of the concatenation of two strings: the hash of an inner node of
/// the bridge's Merkle trees.
pub open spec fn hash_pair_spec(left: Seq<u8>, right: Seq<u8>) -> Seq<u8> {
    sha256(left + right)
}

/// SHA-256 applied twice, Bitcoin's block and transaction hash.
pub open spec fn double_sha256_spec(data: Seq<u8>) -> Seq<u8> {
    sha256(sha256(data))
}

/// The string of `n` zero bytes.
pub open spec fn zero_bytes(n: nat) -> Seq<u8> {
    Seq::new(n, |i: int| 0u8)
}

/// Calls `sha2::Sha256::digest` (one-shot hashing through the `Digest` trait).
/// The contract only gives the digest its name: the result is the SHA-256 of
/// the input bytes.
#[verifier::external_body]
pub(crate) fn sha256_digest(data: &[u8]) -> (digest: [u8; 32])
    ensures
        digest@ == sha256(data@),
{
    <sha2::Sha256 as sha2::Digest>::digest(data).into()
}

/// Appends `data` to `buf`.
pub fn append_bytes(buf: &mut Vec<u8>, data: &[u8])
    ensures
        final(buf)@ == old(buf)@ + data@,
{
    let ghost before = buf@;
    let mut i: usize = 0;
    while i < data.len()
        invariant
            i <= data@.len(),
            buf@ == before + data@.take(i as int),
        decreases data@.len() - i,
    {
        buf.push(data[i]);
        i = i + 1;
        assert(data@.take(i as int) == data@.take(i - 1).push(data@[i - 1]));
    }
    assert(data@.take(i as int) == data@);
}

/// SHA-256 of a byte string.
pub fn sha256_hash(data: &[u8]) -> (digest: [u8; 32])
    ensures
        digest@ == sha256(data@),
{
    sha256_digest(data)
}

/// SHA-256 of a 32-byte value: the commitment to a preimage.
pub fn hash_32(preimage: &[u8; 32]) -> (digest: [u8; 32])
    ensures
        digest@ == sha256(preimage@),
{
    sha256_digest(preimage.as_slice())
}

/// SHA-256 of two 32-byte values, one after the other.
pub fn hash_pair(left: &[u8; 32], right: &[u8; 32]) -> (digest: [u8; 32])
    ensures
        digest@ == hash_pair_spec(left@, right@),
{
    let mut buf: Vec<u8> = Vec::new();
    append_bytes(&mut buf, left.as_slice());
    append_bytes(&mut buf, right.as_slice());
    assert(buf@ == left@ + right@);
    sha256_digest(buf.as_slice())
}

/// Double SHA-256 of a byte string.
pub fn double_sha256(data: &[u8]) -> (digest: [u8; 32])
    ensures
        digest@ == double_sha256_spec(data@),
{
    let first = sha256_digest(data);
    sha256_digest(first.as_slice())
}

/// Double SHA-256 of two 32-byte values, one after the other: the hash of an
/// inner node of a block's transaction tree.
pub fn double_hash_pair(left: &[u8; 32], right: &[u8; 32]) -> (digest: [u8; 32])
    ensures
        digest@ == double_sha256_spec(left@ + right@),
{
    let mut buf: Vec<u8> = Vec::new();
    append_bytes(&mut buf, left.as_slice());
    append_bytes(&mut buf, right.as_slice());
    assert(buf@ == left@ + right@);
    double_sha256(buf.as_slice())
}

/// Whether two 32-byte values are the same.
pub fn bytes32_eq(a: &[u8; 32], b: &[u8; 32]) -> (same: bool)
    ensures
        same == (a@ == b@),
{
    let mut i: usize = 0;
    while i < 32
        invariant
            i <= 32,
            forall|j: int| 0 <= j < i ==> a@[j] == b@[j],
        decreases 32 - i,
    {
        if a[i] != b[i] {
            return false;
        }
        i = i + 1;
    }
    assert(a@ =~= b@);
    true
}

/// Whether two byte strings are the same.
pub fn bytes_eq(a: &[u8], b: &[u8]) -> (same: bool)
    ensures
        same == (a@ == b@),
{
    if a.len() != b.len() {
        return false;
    }
    let mut i: usize = 0;
    while i < a.len()
        invariant
            i <= a@.len(),
            a@.len() == b@.len(),
            forall|k: int| 0 <= k < i ==> a@[k] == b@[k],
        decreases a@.len() - i,
    {
        if a[i] != b[i] {
            return false;
        }
        i = i + 1;
    }
    assert(a@ =~= b@);
    true
}

/// The part of a byte string from `from` up to `to`.
pub fn slice_of(bytes: &[u8], from: usize, to: usize) -> (part: &[u8])
    requires
        from <= to <= bytes@.len(),
    ensures
        part@ == bytes@.subrange(from as int, to as int),
{
    vstd::slice::slice_subrange(bytes, from, to)
}

} // verus!
