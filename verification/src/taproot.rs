//! Taproot outputs: the output key that commits to a set of leaf scripts, and
//! the control blocks that open one of them.

use vstd::prelude::*;
use crate::errors::BridgeError;
use crate::hash::append_bytes;
use crate::transaction::copy_bytes;
use crate::views::lemma_bytes_deep_view;

verus! {

/// The script of a pay-to-taproot output for the given output key.
pub open spec fn p2tr_script(output_key: Seq<u8>) -> Seq<u8> {
    seq![0x51u8, 0x20u8] + output_key
}

/// The script of a pay-to-taproot output for the given output key.
pub fn p2tr_script_pubkey(output_key: &[u8; 32]) -> (script: Vec<u8>)
    ensures
        script@ == p2tr_script(output_key@),
{
    let mut script: Vec<u8> = Vec::new();
    script.push(0x51);
    script.push(0x20);
    append_bytes(&mut script, output_key.as_slice());
    assert(script@ =~= p2tr_script(output_key@));
    script
}

/// The x-only key with no known secret that stands as the internal key of
/// every script-path output of the bridge.
pub const INTERNAL_KEY: [u8; 32] = [
    0x93, 0xc7, 0x37, 0x8d, 0x96, 0x51, 0x8a, 0x75, 0x44, 0x88, 0x21, 0xc4, 0xf7, 0xc8, 0xf4, 0xba,
    0xe7, 0xce, 0x60, 0xf8, 0x04, 0xd0, 0x3d, 0x1f, 0x06, 0x28, 0xdd, 0x5d, 0xd0, 0xf5, 0xde, 0x51,
];

/// The output key of the taproot output with the given internal key whose
/// script tree is the Huffman tree of the given leaf scripts with their
/// weights. `None` where the internal key is no point of the curve or no
/// tree can be built of the leaves, as where there is none.
pub uninterp spec fn huffman_output_key(internal_key: Seq<u8>, leaves: Seq<(u32, Seq<u8>)>) -> Option<
    Seq<u8>,
>;

/// The control block that opens `script` in the taproot output with the
/// given internal key and weighted leaf scripts. `None` where there is no
/// such output or `script` is none of its leaves.
pub uninterp spec fn huffman_control_block(
    internal_key: Seq<u8>,
    leaves: Seq<(u32, Seq<u8>)>,
    script: Seq<u8>,
) -> Option<Seq<u8>>;

/// The output key of the taproot output with the given internal key and no
/// script tree. `None` where the internal key is no point of the curve.
pub uninterp spec fn taproot_key_spend_output_key(internal_key: Seq<u8>) -> Option<Seq<u8>>;

/// Whether the 32 bytes are an x-only public key, the x coordinate of a
/// point of the curve: whether `secp256k1::XOnlyPublicKey::from_slice`
/// accepts them.
pub uninterp spec fn is_xonly_public_key(bytes: Seq<u8>) -> bool;

/// The scripts as leaves that all weigh the same.
pub open spec fn equal_weights(scripts: Seq<Seq<u8>>) -> Seq<(u32, Seq<u8>)> {
    Seq::new(scripts.len(), |i: int| (1u32, scripts[i]))
}

/// The output key of the taproot output with the given internal key whose
/// script tree holds the given leaf scripts, all of the same weight.
pub open spec fn taproot_output_key(internal_key: Seq<u8>, scripts: Seq<Seq<u8>>) -> Option<
    Seq<u8>,
> {
    huffman_output_key(internal_key, equal_weights(scripts))
}

/// The control block that opens `script` in the taproot output with the
/// given internal key and leaf scripts of the same weight.
pub open spec fn taproot_control_block(
    internal_key: Seq<u8>,
    scripts: Seq<Seq<u8>>,
    script: Seq<u8>,
) -> Option<Seq<u8>> {
    huffman_control_block(internal_key, equal_weights(scripts), script)
}

/// Calls `bitcoin::taproot::TaprootSpendInfo::with_huffman_tree` with the
/// weighted scripts as leaves, and serialises the output key of the
/// result. The contract only names the result. The call tweaks the internal
/// key and aborts where the tweaked point is the point at infinity; no key
/// and scripts are known for which it is.
#[verifier::external_body]
fn huffman_tree_output_key(internal_key: &[u8; 32], leaves: &Vec<(u32, Vec<u8>)>) -> (r: Option<
    [u8; 32],
>)
    ensures
        match r {
            Some(key) => huffman_output_key(internal_key@, leaves.deep_view()) == Some(key@),
            None => huffman_output_key(internal_key@, leaves.deep_view()) is None,
        },
{
    let secp = bitcoin::secp256k1::Secp256k1::verification_only();
    let key = bitcoin::secp256k1::XOnlyPublicKey::from_slice(internal_key).ok()?;
    let leaves = leaves.iter().map(|l| (l.0, bitcoin::ScriptBuf::from_bytes(l.1.clone())));
    let info = bitcoin::taproot::TaprootSpendInfo::with_huffman_tree(&secp, key, leaves).ok()?;
    Some(info.output_key().serialize())
}

/// Calls `secp256k1::XOnlyPublicKey::from_slice` on the internal key, then
/// `bitcoin::taproot::TaprootSpendInfo::new_key_spend` without a Merkle
/// root, and serialises the output key of the result. The contract names
/// the result, and says that there is one exactly where the 32 bytes are an
/// x-only public key, which is where `from_slice` accepts them. The call
/// aborts where the tweaked point is the point at infinity; no key is known
/// for which it is.
#[verifier::external_body]
fn key_spend_output_key(internal_key: &[u8; 32]) -> (r: Option<[u8; 32]>)
    ensures
        match r {
            Some(key) => taproot_key_spend_output_key(internal_key@) == Some(key@),
            None => taproot_key_spend_output_key(internal_key@) is None,
        },
        r is Some <==> is_xonly_public_key(internal_key@),
{
    let secp = bitcoin::secp256k1::Secp256k1::verification_only();
    let key = bitcoin::secp256k1::XOnlyPublicKey::from_slice(internal_key).ok()?;
    let info = bitcoin::taproot::TaprootSpendInfo::new_key_spend(&secp, key, None);
    Some(info.output_key().serialize())
}

/// Calls `bitcoin::taproot::TaprootSpendInfo::control_block` on the spend
/// info that `with_huffman_tree` makes of the weighted scripts, for `script`
/// as a tapscript leaf, and serialises the result. The contract only names
/// it. As the output key's, the call aborts where the tweaked point is the
/// point at infinity.
#[verifier::external_body]
fn huffman_tree_control_block(
    internal_key: &[u8; 32],
    leaves: &Vec<(u32, Vec<u8>)>,
    script: &[u8],
) -> (r: Option<Vec<u8>>)
    ensures
        match r {
            Some(block) => huffman_control_block(internal_key@, leaves.deep_view(), script@)
                == Some(block@),
            None => huffman_control_block(internal_key@, leaves.deep_view(), script@) is None,
        },
{
    let secp = bitcoin::secp256k1::Secp256k1::verification_only();
    let key = bitcoin::secp256k1::XOnlyPublicKey::from_slice(internal_key).ok()?;
    let leaves = leaves.iter().map(|l| (l.0, bitcoin::ScriptBuf::from_bytes(l.1.clone())));
    let info = bitcoin::taproot::TaprootSpendInfo::with_huffman_tree(&secp, key, leaves).ok()?;
    let leaf = (bitcoin::ScriptBuf::from(script.to_vec()), bitcoin::taproot::LeafVersion::TapScript);
    Some(info.control_block(&leaf)?.serialize())
}

/// The scripts as leaves that all weigh the same.
fn weigh_equally(scripts: &Vec<Vec<u8>>) -> (leaves: Vec<(u32, Vec<u8>)>)
    ensures
        leaves.deep_view() == equal_weights(scripts.deep_view()),
{
    let mut leaves: Vec<(u32, Vec<u8>)> = Vec::new();
    let mut i: usize = 0;
    while i < scripts.len()
        invariant
            i <= scripts@.len(),
            leaves@.len() == i,
            forall|k: int| 0 <= k < i ==> (#[trigger] leaves@[k]).0 == 1 && leaves@[k].1@ == scripts@[k]@,
        decreases scripts@.len() - i,
    {
        leaves.push((1u32, copy_bytes(scripts[i].as_slice())));
        i = i + 1;
    }
    proof {
        let weighted = equal_weights(scripts.deep_view());
        assert forall|k: int| 0 <= k < leaves@.len() implies #[trigger] leaves.deep_view()[k]
            == weighted[k] by {
            lemma_bytes_deep_view(leaves@[k].1);
            lemma_bytes_deep_view(scripts@[k]);
        }
        assert(leaves.deep_view() =~= weighted);
    }
    leaves
}

/// What is needed to spend a taproot output by one of its scripts: the
/// internal key, the leaf scripts, and the output key they commit to.
#[derive(Debug, Clone)]
pub struct TaprootSpendInfo {
    pub internal_key: [u8; 32],
    pub scripts: Vec<Vec<u8>>,
    pub output_key: [u8; 32],
}

impl TaprootSpendInfo {
    /// Whether the output key is the one that the internal key and the
    /// scripts commit to.
    pub open spec fn wf(&self) -> bool {
        taproot_output_key(self.internal_key@, self.scripts.deep_view()) == Some(self.output_key@)
    }

    /// The spend info of the output with the given internal key and leaf
    /// scripts, or `ScriptBuildError` where there is no such output.
    pub fn new(internal_key: [u8; 32], scripts: Vec<Vec<u8>>) -> (r: Result<
        TaprootSpendInfo,
        BridgeError,
    >)
        ensures
            taproot_output_key(internal_key@, scripts.deep_view()) is Some <==> r is Ok,
            r matches Ok(info) ==> info.wf() && info.internal_key == internal_key && info.scripts
                == scripts,
            r matches Err(e) ==> e == BridgeError::ScriptBuildError,
    {
        let leaves = weigh_equally(&scripts);
        match huffman_tree_output_key(&internal_key, &leaves) {
            Some(output_key) => Ok(TaprootSpendInfo { internal_key, scripts, output_key }),
            None => Err(BridgeError::ScriptBuildError),
        }
    }

    /// The control block that opens `script`, if it is one of the leaves.
    pub fn control_block(&self, script: &[u8]) -> (r: Option<Vec<u8>>)
        ensures
            match r {
                Some(block) => taproot_control_block(
                    self.internal_key@,
                    self.scripts.deep_view(),
                    script@,
                ) == Some(block@),
                None => taproot_control_block(self.internal_key@, self.scripts.deep_view(), script@)
                    is None,
            },
    {
        let leaves = weigh_equally(&self.scripts);
        huffman_tree_control_block(&self.internal_key, &leaves, script)
    }
}

/// The output key of the key-path output of `internal_key`, or
/// `ScriptBuildError` where the key is no point of the curve.
pub fn key_path_output_key(internal_key: &[u8; 32]) -> (r: Result<[u8; 32], BridgeError>)
    ensures
        match r {
            Ok(key) => taproot_key_spend_output_key(internal_key@) == Some(key@),
            Err(e) => e == BridgeError::ScriptBuildError && taproot_key_spend_output_key(
                internal_key@,
            ) is None,
        },
        r is Ok <==> is_xonly_public_key(internal_key@),
{
    match key_spend_output_key(internal_key) {
        Some(key) => Ok(key),
        None => Err(BridgeError::ScriptBuildError),
    }
}

} // verus!
