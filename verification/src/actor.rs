//! A party of the bridge: its key, and the signatures it gives.

use vstd::prelude::*;
use crate::errors::BridgeError;
use crate::hash::append_bytes;
use crate::taproot::{is_xonly_public_key, key_path_output_key, taproot_key_spend_output_key};
use crate::transaction::{
    compact_size, outputs_bytes, Transaction, TxOut, wire_bytes, write_compact_size, write_outputs,
};

verus! {

/// `secp256k1::rand::rngs::OsRng`, the random number generator of the
/// operating system. Nothing is known of what it yields.
#[verifier::external_type_specification]
#[verifier::external_body]
pub struct ExOsRng(secp256k1::rand::rngs::OsRng);

/// The Keccak-256 digest of a byte string.
pub uninterp spec fn keccak256(data: Seq<u8>) -> Seq<u8>;

/// The x-only public key of a secret key. `None` where the 32 bytes are no
/// secret key.
pub uninterp spec fn xonly_public_key_of(secret_key: Seq<u8>) -> Option<Seq<u8>>;

/// The public key of a secret key in its uncompressed form of 65 bytes.
/// `None` where the 32 bytes are no secret key.
pub uninterp spec fn uncompressed_public_key_of(secret_key: Seq<u8>) -> Option<Seq<u8>>;

/// The hash that a taproot script-path signature signs: that of input
/// `input_index` of the serialised transaction, which spends the serialised
/// outputs by the tapscript leaf `script`, with the default sighash type.
/// `None` where the bytes hold no transaction and no outputs, or the outputs
/// are not one for each input. The hash commits to `input_index` as a
/// number, whether or not the transaction has such an input.
pub uninterp spec fn taproot_script_spend_sighash(
    tx: Seq<u8>,
    prevouts: Seq<u8>,
    script: Seq<u8>,
    input_index: nat,
) -> Option<Seq<u8>>;

/// The hash that a taproot key-path signature signs, with the default
/// sighash type; `None` on the same inputs.
pub uninterp spec fn taproot_key_spend_sighash(tx: Seq<u8>, prevouts: Seq<u8>, input_index: nat) -> Option<
    Seq<u8>,
>;

/// Whether the Schnorr signature is valid for the 32-byte message under the
/// x-only public key.
pub uninterp spec fn schnorr_verifies(signature: Seq<u8>, message: Seq<u8>, public_key: Seq<u8>) -> bool;

/// Whether there is a hash to sign and the signature is valid for it under
/// the key.
pub open spec fn signs(signature: Seq<u8>, sighash: Option<Seq<u8>>, public_key: Seq<u8>) -> bool {
    sighash matches Some(message) && schnorr_verifies(signature, message, public_key)
}

/// The recoverable ECDSA signature of a digest under a secret key: the
/// recovery id and the 64 bytes of `r` and `s`.
pub uninterp spec fn ecdsa_recoverable_signature(secret_key: Seq<u8>, digest: Seq<u8>) -> Option<
    (u8, Seq<u8>),
>;

/// Calls `sha3::Keccak256::digest`. The contract only names the digest.
#[verifier::external_body]
fn keccak256_digest(data: &[u8]) -> (digest: [u8; 32])
    ensures
        digest@ == keccak256(data@),
{
    <sha3::Keccak256 as sha3::Digest>::digest(data).into()
}

/// Calls `secp256k1::Keypair::new` with the operating system's random
/// number generator. Nothing is known of the key but that the public key
/// returned is that of the secret key returned. The call aborts where the
/// operating system gives no randomness.
#[verifier::external_body]
fn generate_keypair(rng: &mut secp256k1::rand::rngs::OsRng) -> (pair: ([u8; 32], [u8; 32]))
    ensures
        xonly_public_key_of(pair.0@) == Some(pair.1@),
{
    let keypair = secp256k1::Keypair::new(&secp256k1::Secp256k1::new(), rng);
    (keypair.secret_bytes(), keypair.x_only_public_key().0.serialize())
}

/// Calls `secp256k1::rand::Rng::gen` for 32 random bytes. Nothing is known
/// of them. The call aborts where the operating system gives no
/// randomness.
#[verifier::external_body]
pub(crate) fn random_bytes32(rng: &mut secp256k1::rand::rngs::OsRng) -> (bytes: [u8; 32]) {
    secp256k1::rand::Rng::gen(rng)
}

/// Calls `secp256k1::Keypair::x_only_public_key` on the key pair of the
/// secret key, and `secp256k1::XOnlyPublicKey::serialize`. The contract
/// names the result, and says that it is an x-only public key: the key is
/// serialised as the x coordinate of its point.
#[verifier::external_body]
fn secret_to_xonly(secret_key: &[u8; 32]) -> (r: Option<[u8; 32]>)
    ensures
        match r {
            Some(key) => xonly_public_key_of(secret_key@) == Some(key@) && is_xonly_public_key(
                key@,
            ),
            None => xonly_public_key_of(secret_key@) is None,
        },
{
    let secp = secp256k1::Secp256k1::new();
    let keypair = secp256k1::Keypair::from_seckey_slice(&secp, secret_key).ok()?;
    Some(keypair.x_only_public_key().0.serialize())
}

/// Calls `secp256k1::PublicKey::serialize_uncompressed` on the public key
/// of the secret key. The contract names the result, and says that there is
/// one exactly where the 32 bytes are a secret key: where they have an
/// x-only public key too.
#[verifier::external_body]
fn secret_to_uncompressed(secret_key: &[u8; 32]) -> (r: Option<[u8; 65]>)
    ensures
        match r {
            Some(key) => uncompressed_public_key_of(secret_key@) == Some(key@),
            None => uncompressed_public_key_of(secret_key@) is None,
        },
        r is Some <==> xonly_public_key_of(secret_key@) is Some,
{
    let secp = secp256k1::Secp256k1::new();
    let secret = secp256k1::SecretKey::from_slice(secret_key).ok()?;
    Some(secp256k1::PublicKey::from_secret_key(&secp, &secret).serialize_uncompressed())
}

/// Calls `secp256k1::Secp256k1::sign_schnorr`, which draws fresh randomness
/// for every signature: all that is known of the signature is that it is
/// valid for the message under the public key of the secret key. `None`
/// exactly where the 32 bytes are no secret key. The call aborts where the
/// operating system gives no randomness.
#[verifier::external_body]
fn schnorr_sign(secret_key: &[u8; 32], message: &[u8; 32]) -> (r: Option<[u8; 64]>)
    ensures
        r is Some <==> xonly_public_key_of(secret_key@) is Some,
        r matches Some(signature) ==> schnorr_verifies(
            signature@,
            message@,
            xonly_public_key_of(secret_key@)->0,
        ),
{
    let secp = secp256k1::Secp256k1::new();
    let keypair = secp256k1::Keypair::from_seckey_slice(&secp, secret_key).ok()?;
    let signature = secp.sign_schnorr(&secp256k1::Message::from_digest(*message), &keypair);
    Some(signature.serialize())
}

/// Calls `bitcoin::key::TapTweak::tap_tweak` without a Merkle root on the
/// key pair of the secret key, and `secp256k1::Secp256k1::sign_schnorr` with
/// the tweaked key pair. It draws fresh randomness: all that is known of the
/// signature is that it is valid for the message under the output key of the
/// key-path address of the secret key's public key. `None` exactly where the
/// 32 bytes are no secret key. The tweak aborts for a key whose tweaked
/// point is the point at infinity; no such key is known.
#[verifier::external_body]
fn schnorr_sign_key_path(secret_key: &[u8; 32], message: &[u8; 32]) -> (r: Option<[u8; 64]>)
    ensures
        r is Some <==> xonly_public_key_of(secret_key@) is Some,
        r matches Some(signature) ==> (taproot_key_spend_output_key(
            xonly_public_key_of(secret_key@)->0,
        ) matches Some(output_key) ==> schnorr_verifies(signature@, message@, output_key)),
{
    let secp = secp256k1::Secp256k1::new();
    let keypair = secp256k1::Keypair::from_seckey_slice(&secp, secret_key).ok()?;
    let tweaked = bitcoin::key::TapTweak::tap_tweak(keypair, &secp, None).to_inner();
    let signature = secp.sign_schnorr(&secp256k1::Message::from_digest(*message), &tweaked);
    Some(signature.serialize())
}

/// Calls `secp256k1::Secp256k1::verify_schnorr`. The contract names the
/// result; under a key that is no point of the curve nothing is valid.
#[verifier::external_body]
fn schnorr_verify(signature: &[u8; 64], message: &[u8; 32], public_key: &[u8; 32]) -> (valid: bool)
    ensures
        valid == schnorr_verifies(signature@, message@, public_key@),
{
    let secp = secp256k1::Secp256k1::verification_only();
    let signature = secp256k1::schnorr::Signature::from_slice(signature);
    let key = secp256k1::XOnlyPublicKey::from_slice(public_key);
    let message = secp256k1::Message::from_digest(*message);
    match (signature, key) {
        (Ok(signature), Ok(key)) => secp.verify_schnorr(&signature, &message, &key).is_ok(),
        _ => false,
    }
}

/// Calls `secp256k1::Secp256k1::sign_ecdsa_recoverable` and takes the
/// signature apart with `serialize_compact`. The recovery id is at most 3,
/// and there is a signature exactly where the 32 bytes are a secret key.
#[verifier::external_body]
fn ecdsa_sign_recoverable(secret_key: &[u8; 32], digest: &[u8; 32]) -> (r: Option<(u8, [u8; 64])>)
    ensures
        match r {
            Some((id, signature)) => id <= 3 && ecdsa_recoverable_signature(secret_key@, digest@)
                == Some((id, signature@)),
            None => ecdsa_recoverable_signature(secret_key@, digest@) is None,
        },
        r is Some <==> xonly_public_key_of(secret_key@) is Some,
{
    let secp = secp256k1::Secp256k1::new();
    let secret = secp256k1::SecretKey::from_slice(secret_key).ok()?;
    let message = secp256k1::Message::from_digest(*digest);
    let (id, signature) = secp.sign_ecdsa_recoverable(&message, &secret).serialize_compact();
    Some((u8::try_from(id.to_i32()).ok()?, signature))
}

/// Calls `bitcoin::sighash::SighashCache::taproot_script_spend_signature_hash`
/// on the transaction and the spent outputs, both decoded from their
/// serialisation, for the tapscript leaf `script` and the default sighash
/// type. The contract only names the result.
#[verifier::external_body]
fn script_spend_sighash(tx: &[u8], prevouts: &[u8], script: &[u8], input_index: usize) -> (r: Option<
    [u8; 32],
>)
    ensures
        match r {
            Some(hash) => taproot_script_spend_sighash(tx@, prevouts@, script@, input_index as nat)
                == Some(hash@),
            None => taproot_script_spend_sighash(tx@, prevouts@, script@, input_index as nat)
                is None,
        },
{
    let tx: bitcoin::Transaction = bitcoin::consensus::deserialize(tx).ok()?;
    let spent: Vec<bitcoin::TxOut> = bitcoin::consensus::deserialize(prevouts).ok()?;
    let leaf = bitcoin::taproot::TapLeafHash::from_script(
        bitcoin::Script::from_bytes(script),
        bitcoin::taproot::LeafVersion::TapScript,
    );
    let hash = bitcoin::sighash::SighashCache::new(&tx).taproot_script_spend_signature_hash(
        input_index,
        &bitcoin::sighash::Prevouts::All(&spent),
        leaf,
        bitcoin::sighash::TapSighashType::Default,
    ).ok()?;
    Some(bitcoin::hashes::Hash::to_byte_array(hash))
}

/// Calls `bitcoin::sighash::SighashCache::taproot_key_spend_signature_hash`
/// on the transaction and the spent outputs, both decoded from their
/// serialisation, for the default sighash type. The contract only names the
/// result.
#[verifier::external_body]
fn key_spend_sighash(tx: &[u8], prevouts: &[u8], input_index: usize) -> (r: Option<[u8; 32]>)
    ensures
        match r {
            Some(hash) => taproot_key_spend_sighash(tx@, prevouts@, input_index as nat) == Some(
                hash@,
            ),
            None => taproot_key_spend_sighash(tx@, prevouts@, input_index as nat) is None,
        },
{
    let tx: bitcoin::Transaction = bitcoin::consensus::deserialize(tx).ok()?;
    let spent: Vec<bitcoin::TxOut> = bitcoin::consensus::deserialize(prevouts).ok()?;
    let hash = bitcoin::sighash::SighashCache::new(&tx).taproot_key_spend_signature_hash(
        input_index,
        &bitcoin::sighash::Prevouts::All(&spent),
        bitcoin::sighash::TapSighashType::Default,
    ).ok()?;
    Some(bitcoin::hashes::Hash::to_byte_array(hash))
}

/// The outputs that a transaction spends as they are handed to the
/// signature hash: their number, then the outputs.
pub open spec fn prevouts_bytes(prevouts: Seq<crate::transaction::TxOutView>) -> Seq<u8> {
    compact_size(prevouts.len()) + outputs_bytes(prevouts)
}

/// Serialises the outputs that a transaction spends.
pub fn serialize_prevouts(prevouts: &Vec<TxOut>) -> (bytes: Vec<u8>)
    ensures
        bytes@ == prevouts_bytes(prevouts.deep_view()),
{
    let mut buf: Vec<u8> = Vec::new();
    write_compact_size(&mut buf, prevouts.len() as u64);
    write_outputs(&mut buf, prevouts);
    assert(buf@ =~= prevouts_bytes(prevouts.deep_view()));
    buf
}

/// The hash that a taproot script-path signature of input `input_index`
/// signs, where there is one.
pub fn script_spend_signature_hash(
    tx: &Transaction,
    prevouts: &Vec<TxOut>,
    spend_script: &[u8],
    input_index: usize,
) -> (r: Option<[u8; 32]>)
    ensures
        match r {
            Some(hash) => taproot_script_spend_sighash(
                wire_bytes(tx.deep_view()),
                prevouts_bytes(prevouts.deep_view()),
                spend_script@,
                input_index as nat,
            ) == Some(hash@),
            None => taproot_script_spend_sighash(
                wire_bytes(tx.deep_view()),
                prevouts_bytes(prevouts.deep_view()),
                spend_script@,
                input_index as nat,
            ) is None,
        },
{
    let tx_bytes = tx.serialize();
    let spent = serialize_prevouts(prevouts);
    script_spend_sighash(tx_bytes.as_slice(), spent.as_slice(), spend_script, input_index)
}

/// Whether the signature is valid under the key for the hash that a taproot
/// script-path spend signs: `false` too where there is no such hash.
pub fn signs_script_spend(
    signature: &[u8; 64],
    public_key: &[u8; 32],
    tx: &Transaction,
    prevouts: &Vec<TxOut>,
    spend_script: &[u8],
    input_index: usize,
) -> (valid: bool)
    ensures
        valid == signs(
            signature@,
            taproot_script_spend_sighash(
                wire_bytes(tx.deep_view()),
                prevouts_bytes(prevouts.deep_view()),
                spend_script@,
                input_index as nat,
            ),
            public_key@,
        ),
{
    match script_spend_signature_hash(tx, prevouts, spend_script, input_index) {
        Some(hash) => schnorr_verify(signature, &hash, public_key),
        None => false,
    }
}

/// The address of the rollup that belongs to a public key: the last 20
/// bytes of the Keccak-256 of the key's two coordinates.
pub open spec fn evm_address_of(uncompressed_public_key: Seq<u8>) -> Seq<u8> {
    keccak256(uncompressed_public_key.skip(1)).skip(12)
}

/// What a party signs to credit a deposit on the rollup: the Keccak-256 of
/// the deposit's transaction id, the address to credit and the hash that
/// guards the deposit.
pub open spec fn deposit_digest(deposit_txid: Seq<u8>, evm_address: Seq<u8>, hash: Seq<u8>) -> Seq<u8> {
    keccak256(deposit_txid + evm_address + hash)
}

/// A signature for the rollup: `r` and `s`, then `v`, which is 27 or 28:
/// 27 more than the parity that the recovery id gives. The rollup takes no
/// other `v`.
pub open spec fn evm_signature(recovery_id: u8, compact: Seq<u8>) -> Seq<u8> {
    compact.push((27 + recovery_id % 2) as u8)
}

/// A party of the bridge, with the key it signs with.
#[derive(Debug, Clone)]
pub struct Actor {
    secret_key: [u8; 32],
    xonly_public_key: [u8; 32],
    address: Vec<u8>,
    evm_address: [u8; 20],
}

impl Actor {
    /// The party's secret key.
    pub closed spec fn spec_secret_key(&self) -> Seq<u8> {
        self.secret_key@
    }

    /// The party's x-only public key.
    pub closed spec fn spec_xonly_public_key(&self) -> Seq<u8> {
        self.xonly_public_key@
    }

    /// The script of the party's taproot address.
    pub closed spec fn spec_address(&self) -> Seq<u8> {
        self.address@
    }

    /// The party's address on the rollup.
    pub closed spec fn spec_evm_address(&self) -> Seq<u8> {
        self.evm_address@
    }

    /// Whether the public key, the taproot address and the rollup address
    /// are those of the secret key.
    pub open spec fn wf(&self) -> bool {
        &&& xonly_public_key_of(self.spec_secret_key()) == Some(self.spec_xonly_public_key())
        &&& taproot_key_spend_output_key(self.spec_xonly_public_key()) matches Some(output_key)
        &&& self.spec_address() == crate::taproot::p2tr_script(output_key)
        &&& uncompressed_public_key_of(self.spec_secret_key()) matches Some(public_key)
        &&& self.spec_evm_address() == evm_address_of(public_key)
    }

    /// The party's x-only public key.
    pub fn xonly_public_key(&self) -> (key: [u8; 32])
        ensures
            key@ == self.spec_xonly_public_key(),
    {
        self.xonly_public_key
    }

    /// The script that pays to the party's taproot address.
    pub fn address(&self) -> (script_pubkey: Vec<u8>)
        ensures
            script_pubkey@ == self.spec_address(),
    {
        crate::transaction::copy_bytes(self.address.as_slice())
    }

    /// The party's address on the rollup.
    pub fn evm_address(&self) -> (address: [u8; 20])
        ensures
            address@ == self.spec_evm_address(),
    {
        self.evm_address
    }

    /// The party with the given secret key, or `None` exactly where the 32
    /// bytes are no secret key.
    pub fn from_secret_key(secret_key: [u8; 32]) -> (r: Option<Actor>)
        ensures
            r is Some <==> xonly_public_key_of(secret_key@) is Some,
            r matches Some(actor) ==> actor.wf() && actor.spec_secret_key() == secret_key@,
    {
        let xonly_public_key = match secret_to_xonly(&secret_key) {
            Some(key) => key,
            None => {
                return None;
            },
        };
        let output_key = match key_path_output_key(&xonly_public_key) {
            Ok(key) => key,
            Err(_) => {
                return None;
            },
        };
        let public_key = match secret_to_uncompressed(&secret_key) {
            Some(key) => key,
            None => {
                return None;
            },
        };
        let mut coordinates: Vec<u8> = Vec::new();
        let mut i: usize = 1;
        while i < 65
            invariant
                1 <= i <= 65,
                coordinates@ == public_key@.subrange(1, i as int),
            decreases 65 - i,
        {
            coordinates.push(public_key[i]);
            i = i + 1;
            assert(coordinates@ =~= public_key@.subrange(1, i as int));
        }
        assert(coordinates@ =~= public_key@.skip(1));
        let digest = keccak256_digest(coordinates.as_slice());
        let mut evm_address = [0u8; 20];
        let mut j: usize = 0;
        while j < 20
            invariant
                j <= 20,
                forall|k: int| 0 <= k < j ==> evm_address@[k] == digest@[12 + k],
            decreases 20 - j,
        {
            evm_address[j] = digest[12 + j];
            j = j + 1;
        }
        assert(evm_address@ =~= digest@.skip(12));
        let address = crate::taproot::p2tr_script_pubkey(&output_key);
        Some(Actor { secret_key, xonly_public_key, address, evm_address })
    }

    /// A party with a fresh random key: the key that is drawn is a secret
    /// key, so there always is a party. Nothing is known of the key but
    /// that the party's public key and addresses are its own.
    pub fn new(rng: &mut secp256k1::rand::rngs::OsRng) -> (r: Option<Actor>)
        ensures
            r matches Some(actor) && actor.wf(),
    {
        let (secret_key, _) = generate_keypair(rng);
        Actor::from_secret_key(secret_key)
    }

    /// Signs input `input_index` of `tx`, which spends `prevouts`, for the
    /// script path through `spend_script`: the signature is valid under the
    /// party's key for the hash that such a spend signs. Fails with
    /// `WitnessAssemblyError` exactly where there is no such hash, as where
    /// the spent outputs are not one for each input.
    pub fn sign_taproot_script_spend_tx(
        &self,
        tx: &Transaction,
        prevouts: &Vec<TxOut>,
        spend_script: &[u8],
        input_index: usize,
    ) -> (r: Result<[u8; 64], BridgeError>)
        requires
            self.wf(),
        ensures
            taproot_script_spend_sighash(
                wire_bytes(tx.deep_view()),
                prevouts_bytes(prevouts.deep_view()),
                spend_script@,
                input_index as nat,
            ) is Some <==> r is Ok,
            r matches Err(e) ==> e == BridgeError::WitnessAssemblyError,
            r matches Ok(signature) ==> schnorr_verifies(
                signature@,
                taproot_script_spend_sighash(
                    wire_bytes(tx.deep_view()),
                    prevouts_bytes(prevouts.deep_view()),
                    spend_script@,
                    input_index as nat,
                )->0,
                self.spec_xonly_public_key(),
            ),
    {
        let sighash = match script_spend_signature_hash(tx, prevouts, spend_script, input_index) {
            Some(sighash) => sighash,
            None => {
                return Err(BridgeError::WitnessAssemblyError);
            },
        };
        match schnorr_sign(&self.secret_key, &sighash) {
            Some(signature) => Ok(signature),
            None => Err(BridgeError::WitnessAssemblyError),
        }
    }

    /// Signs input `input_index` of `tx`, which spends `prevouts`, for the
    /// key path, with the key tweaked as the party's address asks. Fails with
    /// `WitnessAssemblyError` exactly where there is nothing to sign.
    pub fn sign_taproot_pubkey_spend_tx(
        &self,
        tx: &Transaction,
        prevouts: &Vec<TxOut>,
        input_index: usize,
    ) -> (r: Result<[u8; 64], BridgeError>)
        requires
            self.wf(),
        ensures
            taproot_key_spend_sighash(
                wire_bytes(tx.deep_view()),
                prevouts_bytes(prevouts.deep_view()),
                input_index as nat,
            ) is Some <==> r is Ok,
            r matches Err(e) ==> e == BridgeError::WitnessAssemblyError,
            r matches Ok(signature) ==> schnorr_verifies(
                signature@,
                taproot_key_spend_sighash(
                    wire_bytes(tx.deep_view()),
                    prevouts_bytes(prevouts.deep_view()),
                    input_index as nat,
                )->0,
                taproot_key_spend_output_key(self.spec_xonly_public_key())->0,
            ),
    {
        let tx_bytes = tx.serialize();
        let spent = serialize_prevouts(prevouts);
        let sighash = match key_spend_sighash(tx_bytes.as_slice(), spent.as_slice(), input_index) {
            Some(sighash) => sighash,
            None => {
                return Err(BridgeError::WitnessAssemblyError);
            },
        };
        match schnorr_sign_key_path(&self.secret_key, &sighash) {
            Some(signature) => Ok(signature),
            None => Err(BridgeError::WitnessAssemblyError),
        }
    }

    /// The party's signature that credits `evm_address` on the rollup for
    /// the deposit `deposit_txid` guarded by `hash`: the recoverable
    /// signature of the deposit's digest, with `v` of 27 or 28.
    pub fn sign_deposit(&self, deposit_txid: &[u8; 32], evm_address: &[u8; 20], hash: &[u8; 32]) -> (signature:
        [u8; 65])
        requires
            self.wf(),
        ensures
            ecdsa_recoverable_signature(
                self.spec_secret_key(),
                deposit_digest(deposit_txid@, evm_address@, hash@),
            ) matches Some((id, compact)) && signature@ == evm_signature(id, compact),
            signature@[64] == 27 || signature@[64] == 28,
    {
        let mut message: Vec<u8> = Vec::new();
        append_bytes(&mut message, deposit_txid.as_slice());
        append_bytes(&mut message, evm_address.as_slice());
        append_bytes(&mut message, hash.as_slice());
        assert(message@ =~= deposit_txid@ + evm_address@ + hash@);
        let digest = keccak256_digest(message.as_slice());
        let mut signature = [0u8; 65];
        match ecdsa_sign_recoverable(&self.secret_key, &digest) {
            Some((id, compact)) => {
                let mut i: usize = 0;
                while i < 64
                    invariant
                        i <= 64,
                        forall|k: int| 0 <= k < i ==> signature@[k] == compact@[k],
                    decreases 64 - i,
                {
                    signature[i] = compact[i];
                    i = i + 1;
                }
                signature[64] = 27 + id % 2;
                assert(signature@ =~= evm_signature(id, compact@));
            },
            None => {},
        }
        signature
    }
}

} // verus!
