use bitcoin::opcodes::all::{
    OP_CHECKSIG, OP_CHECKSIGVERIFY, OP_CLTV, OP_CSV, OP_DROP, OP_ENDIF, OP_EQUAL, OP_EQUALVERIFY,
    OP_IF, OP_RETURN, OP_SHA256,
};
use bitcoin::opcodes::{OP_FALSE, OP_TRUE};
use bitcoin::script::Builder;
use bitvm_bridge::script_builder::ScriptBuilder;

fn key(n: u8) -> [u8; 32] {
    let mut k = [n; 32];
    k[0] = 0x50 + n;
    k
}

#[test]
fn n_of_n_checks_every_key_in_order() {
    let builder = ScriptBuilder::new(vec![key(1), key(2), key(3)]);
    let expected = Builder::new()
        .push_slice(key(1))
        .push_opcode(OP_CHECKSIGVERIFY)
        .push_slice(key(2))
        .push_opcode(OP_CHECKSIGVERIFY)
        .push_slice(key(3))
        .push_opcode(OP_CHECKSIGVERIFY)
        .push_opcode(OP_TRUE)
        .into_bytes();
    assert_eq!(builder.generate_script_n_of_n(), expected);
    assert_eq!(expected.len(), 3 * 34 + 1);
    assert_eq!(expected[0], 0x20);
    assert_eq!(&expected[1..33], &key(1));
    assert_eq!(expected[33], 0xad);
    assert_eq!(ScriptBuilder::new(Vec::new()).generate_script_n_of_n(), vec![0x51]);
}

#[test]
fn n_of_n_with_user_appends_the_user() {
    let builder = ScriptBuilder::new(vec![key(1), key(2)]);
    let expected = Builder::new()
        .push_slice(key(1))
        .push_opcode(OP_CHECKSIGVERIFY)
        .push_slice(key(2))
        .push_opcode(OP_CHECKSIGVERIFY)
        .push_slice(key(9))
        .push_opcode(OP_CHECKSIGVERIFY)
        .push_opcode(OP_TRUE)
        .into_bytes();
    assert_eq!(builder.generate_script_n_of_n_with_user_pk(&key(9)), expected);
}

#[test]
fn n_of_n_with_hash_asks_for_the_preimage_first() {
    let builder = ScriptBuilder::new(vec![key(1), key(2)]);
    let hash = [0xabu8; 32];
    let expected = Builder::new()
        .push_opcode(OP_SHA256)
        .push_slice(hash)
        .push_opcode(OP_EQUALVERIFY)
        .push_slice(key(1))
        .push_opcode(OP_CHECKSIGVERIFY)
        .push_slice(key(2))
        .push_opcode(OP_CHECKSIGVERIFY)
        .push_opcode(OP_TRUE)
        .into_bytes();
    assert_eq!(builder.generate_script_n_of_n_with_hash(&hash), expected);
}

#[test]
fn timelock_scripts() {
    for blocks in [0u32, 1, 16, 17, 127, 128, 200, 255, 256, 32767, 32768, 65535, 65536, 8388607, 8388608, u32::MAX] {
        let relative = Builder::new()
            .push_int(blocks as i64)
            .push_opcode(OP_CSV)
            .push_opcode(OP_DROP)
            .push_slice(key(4))
            .push_opcode(OP_CHECKSIG)
            .into_bytes();
        assert_eq!(ScriptBuilder::generate_timelock_script(&key(4), blocks), relative, "{}", blocks);
        let absolute = Builder::new()
            .push_int(blocks as i64)
            .push_opcode(OP_CLTV)
            .push_opcode(OP_DROP)
            .push_slice(key(4))
            .push_opcode(OP_CHECKSIG)
            .into_bytes();
        assert_eq!(ScriptBuilder::generate_absolute_timelock_script(&key(4), blocks), absolute, "{}", blocks);
    }
    let script = ScriptBuilder::generate_timelock_script(&key(4), 200);
    assert_eq!(&script[..5], &[0x02, 0xc8, 0x00, 0xb2, 0x75]);
    assert_eq!(script[5], 0x20);
    assert_eq!(script[38], 0xac);
    let one = ScriptBuilder::generate_timelock_script(&key(4), 1);
    assert_eq!(&one[..3], &[0x51, 0xb2, 0x75]);
}

#[test]
fn inscription_pushes_every_chunk() {
    let chunks = vec![[0x11u8; 32], [0x22u8; 32], [0x33u8; 32]];
    let expected = Builder::new()
        .push_slice(key(7))
        .push_opcode(OP_CHECKSIG)
        .push_opcode(OP_FALSE)
        .push_opcode(OP_IF)
        .push_slice(chunks[0])
        .push_slice(chunks[1])
        .push_slice(chunks[2])
        .push_opcode(OP_ENDIF)
        .into_bytes();
    let script = ScriptBuilder::create_inscription_script_32_bytes(&key(7), &chunks);
    assert_eq!(script, expected);
    assert_eq!(script.len(), 36 + 3 * 33 + 1);
    let inscribed = &script[36..script.len() - 1];
    for (i, chunk) in chunks.iter().enumerate() {
        assert_eq!(inscribed[i * 33], 0x20);
        assert_eq!(&inscribed[i * 33 + 1..(i + 1) * 33], chunk);
    }
    let empty = ScriptBuilder::create_inscription_script_32_bytes(&key(7), &Vec::new());
    assert_eq!(empty.len(), 37);
    assert_eq!(&empty[33..], &[0xac, 0x00, 0x63, 0x68]);
}

#[test]
fn hash_and_dust_scripts() {
    let hash = [0x5au8; 32];
    let expected = Builder::new()
        .push_opcode(OP_SHA256)
        .push_slice(hash)
        .push_opcode(OP_EQUAL)
        .into_bytes();
    assert_eq!(ScriptBuilder::generate_hash_script(hash), expected);
    let address = [0x77u8; 20];
    let dust = Builder::new().push_opcode(OP_RETURN).push_slice(address).into_bytes();
    assert_eq!(ScriptBuilder::generate_dust_script(&address), dust);
    assert_eq!(dust[0], 0x6a);
    assert_eq!(dust[1], 20);
}

#[test]
fn outputs_that_carry_no_funds() {
    let script = Builder::new().push_opcode(OP_TRUE).into_script();
    let anyone = ScriptBuilder::anyone_can_spend_txout();
    assert_eq!(anyone.script_pubkey, script.to_p2wsh().into_bytes());
    assert_eq!(anyone.value, script.to_p2wsh().dust_value().to_sat());
    assert_eq!(anyone.value, 330);
    assert_eq!(anyone.script_pubkey.len(), 34);
    assert_eq!(&anyone.script_pubkey[..2], &[0x00, 0x20]);
    let address = [0x42u8; 20];
    let marker = Builder::new().push_opcode(OP_RETURN).push_slice(address).into_script();
    let txout = ScriptBuilder::op_return_txout(&address);
    assert_eq!(txout.script_pubkey, marker.to_p2wsh().into_bytes());
    assert_eq!(txout.value, 330);
    assert_ne!(txout.script_pubkey, anyone.script_pubkey);
}
