//! What it means for a witness to satisfy one of the bridge's scripts, and
//! the proof that the witnesses the bridge assembles do.

use vstd::prelude::*;
use crate::hash::{bytes_eq, sha256, sha256_hash};
use crate::operator::{
    claim_witness_elements, DepositPresigns, is_signed_move_tx, move_signs, move_witness_elements,
};
use crate::script_builder::{
    n_of_n_checks, n_of_n_script, n_of_n_with_hash_script, OP_CHECKSIGVERIFY, OP_EQUALVERIFY,
    OP_SHA256, OP_TRUE, push_data,
};
use crate::transaction::{copy_bytes, OutPoint, TransactionView};
use crate::views::{lemma_bytes_deep_view, lemma_push_deep_view};

verus! {

/// The stack item that stands for true.
pub open spec fn true_item() -> Seq<u8> {
    seq![1u8]
}

/// Runs a script on a stack, the top of the stack last. The script may hold
/// direct pushes of up to 75 bytes, `OP_TRUE`, `OP_SHA256`, `OP_EQUALVERIFY`
/// and `OP_CHECKSIGVERIFY`; `signed(signature, key)` says which signatures
/// count as valid for which keys. The result is the stack that is left, or
/// `None` where the script fails or holds another opcode.
pub open spec fn run_script(
    script: Seq<u8>,
    stack: Seq<Seq<u8>>,
    signed: spec_fn(Seq<u8>, Seq<u8>) -> bool,
) -> Option<Seq<Seq<u8>>>
    decreases script.len(),
{
    if script.len() == 0 {
        Some(stack)
    } else {
        let opcode = script[0];
        let rest = script.skip(1);
        let size = stack.len() as int;
        if 1 <= opcode <= 75 {
            if script.len() < 1 + opcode {
                None
            } else {
                run_script(
                    script.skip(1 + opcode),
                    stack.push(script.subrange(1, 1 + opcode)),
                    signed,
                )
            }
        } else if opcode == OP_TRUE {
            run_script(rest, stack.push(true_item()), signed)
        } else if opcode == OP_SHA256 {
            if size < 1 {
                None
            } else {
                run_script(rest, stack.drop_last().push(sha256(stack.last())), signed)
            }
        } else if opcode == OP_EQUALVERIFY {
            if size < 2 || stack[size - 1] != stack[size - 2] {
                None
            } else {
                run_script(rest, stack.take(size - 2), signed)
            }
        } else if opcode == OP_CHECKSIGVERIFY {
            if size < 2 || !signed(stack[size - 2], stack[size - 1]) {
                None
            } else {
                run_script(rest, stack.take(size - 2), signed)
            }
        } else {
            None
        }
    }
}

/// Whether the script accepts the witness elements: run on them, it leaves
/// exactly one item, which is true.
pub open spec fn script_accepts(
    script: Seq<u8>,
    elements: Seq<Seq<u8>>,
    signed: spec_fn(Seq<u8>, Seq<u8>) -> bool,
) -> bool {
    run_script(script, elements, signed) == Some(seq![true_item()])
}

proof fn lemma_run_push(
    data: Seq<u8>,
    rest: Seq<u8>,
    stack: Seq<Seq<u8>>,
    signed: spec_fn(Seq<u8>, Seq<u8>) -> bool,
)
    requires
        1 <= data.len() <= 75,
    ensures
        run_script(push_data(data) + rest, stack, signed) == run_script(
            rest,
            stack.push(data),
            signed,
        ),
{
    let script = push_data(data) + rest;
    let n = data.len() as int;
    assert(script[0] == n as u8);
    assert(script.skip(1 + n) =~= rest);
    assert(script.subrange(1, 1 + n) =~= data);
}

proof fn lemma_run_opcode(
    opcode: u8,
    rest: Seq<u8>,
    stack: Seq<Seq<u8>>,
    signed: spec_fn(Seq<u8>, Seq<u8>) -> bool,
)
    ensures
        (seq![opcode] + rest)[0] == opcode,
        (seq![opcode] + rest).skip(1) == rest,
        (seq![opcode] + rest).len() > 0,
{
    assert((seq![opcode] + rest).skip(1) =~= rest);
}

/// The checks of a key list begin with the check of the first key.
proof fn lemma_checks_from_the_front(keys: Seq<Seq<u8>>)
    requires
        keys.len() > 0,
    ensures
        n_of_n_checks(keys) == push_data(keys[0]) + seq![OP_CHECKSIGVERIFY] + n_of_n_checks(
            keys.skip(1),
        ),
    decreases keys.len(),
{
    if keys.len() == 1 {
        assert(keys.drop_last() =~= Seq::<Seq<u8>>::empty());
        assert(keys.skip(1) =~= Seq::<Seq<u8>>::empty());
        assert(n_of_n_checks(keys) =~= push_data(keys[0]) + seq![OP_CHECKSIGVERIFY]
            + n_of_n_checks(keys.skip(1)));
    } else {
        let front = keys.drop_last();
        lemma_checks_from_the_front(front);
        assert(front.skip(1) =~= keys.skip(1).drop_last());
        assert(keys.skip(1).last() == keys.last());
        assert(n_of_n_checks(keys) =~= push_data(keys[0]) + seq![OP_CHECKSIGVERIFY]
            + n_of_n_checks(keys.skip(1)));
    }
}

/// The checks of the keys take the signatures off a stack that holds them
/// in the reverse of the order of the keys, and leave what was below them.
proof fn lemma_checks_consume_signatures(
    keys: Seq<Seq<u8>>,
    signatures: Seq<Seq<u8>>,
    tail: Seq<u8>,
    base: Seq<Seq<u8>>,
    signed: spec_fn(Seq<u8>, Seq<u8>) -> bool,
)
    requires
        signatures.len() == keys.len(),
        forall|i: int| 0 <= i < keys.len() ==> (#[trigger] keys[i]).len() == 32,
        forall|i: int| 0 <= i < keys.len() ==> signed(signatures[i], #[trigger] keys[i]),
    ensures
        run_script(n_of_n_checks(keys) + tail, base + signatures.reverse(), signed) == run_script(
            tail,
            base,
            signed,
        ),
    decreases keys.len(),
{
    if keys.len() == 0 {
        assert(n_of_n_checks(keys) + tail =~= tail);
        assert(base + signatures.reverse() =~= base);
    } else {
        let rest_keys = keys.skip(1);
        let rest_signatures = signatures.skip(1);
        let stack = base + signatures.reverse();
        let after = seq![OP_CHECKSIGVERIFY] + (n_of_n_checks(rest_keys) + tail);
        lemma_checks_from_the_front(keys);
        assert(n_of_n_checks(keys) + tail =~= push_data(keys[0]) + after);
        lemma_run_push(keys[0], after, stack, signed);
        let pushed = stack.push(keys[0]);
        lemma_run_opcode(OP_CHECKSIGVERIFY, n_of_n_checks(rest_keys) + tail, pushed, signed);
        let size = pushed.len() as int;
        assert(pushed[size - 1] == keys[0]);
        assert(pushed[size - 2] == signatures[0]);
        assert(signed(signatures[0], keys[0]));
        assert(pushed.take(size - 2) =~= base + rest_signatures.reverse());
        assert forall|i: int| 0 <= i < rest_keys.len() implies signed(
            rest_signatures[i],
            #[trigger] rest_keys[i],
        ) by {
            assert(rest_keys[i] == keys[i + 1]);
            assert(signed(signatures[i + 1], keys[i + 1]));
        }
        lemma_checks_consume_signatures(rest_keys, rest_signatures, tail, base, signed);
    }
}

/// The verifiers' script accepts the witness that the bridge assembles for
/// a claim: for every list of 32-byte keys and every list of signatures, one
/// per key and each valid for its key, the script that every key must sign
/// accepts the signatures in the reverse of the order of the keys.
pub proof fn lemma_claim_witness_satisfies_script(
    keys: Seq<Seq<u8>>,
    signatures: Seq<Seq<u8>>,
    signed: spec_fn(Seq<u8>, Seq<u8>) -> bool,
)
    requires
        signatures.len() == keys.len(),
        forall|i: int| 0 <= i < keys.len() ==> (#[trigger] keys[i]).len() == 32,
        forall|i: int| 0 <= i < keys.len() ==> signed(signatures[i], #[trigger] keys[i]),
    ensures
        script_accepts(n_of_n_script(keys), claim_witness_elements(signatures), signed),
{
    let empty = Seq::<Seq<u8>>::empty();
    let tail = seq![OP_TRUE];
    lemma_checks_consume_signatures(keys, signatures, tail, empty, signed);
    assert(empty + signatures.reverse() =~= signatures.reverse());
    assert(tail.skip(1) =~= Seq::<u8>::empty());
    assert(empty.push(true_item()) =~= seq![true_item()]);
    assert(run_script(tail, empty, signed) == run_script(
        tail.skip(1),
        empty.push(true_item()),
        signed,
    ));
}

/// The verifiers' script with a hash accepts the witness that the bridge
/// assembles for a move: for every list of 32-byte keys, every preimage
/// whose hash has 32 bytes and every list of signatures, one per key and
/// each valid for its key, the script that asks for the preimage of the hash
/// and for every key's signature accepts the preimage and the signatures,
/// pushed in that order and reversed.
pub proof fn lemma_move_witness_satisfies_script(
    keys: Seq<Seq<u8>>,
    preimage: Seq<u8>,
    signatures: Seq<Seq<u8>>,
    signed: spec_fn(Seq<u8>, Seq<u8>) -> bool,
)
    requires
        sha256(preimage).len() == 32,
        signatures.len() == keys.len(),
        forall|i: int| 0 <= i < keys.len() ==> (#[trigger] keys[i]).len() == 32,
        forall|i: int| 0 <= i < keys.len() ==> signed(signatures[i], #[trigger] keys[i]),
    ensures
        script_accepts(
            n_of_n_with_hash_script(keys, sha256(preimage)),
            move_witness_elements(preimage, signatures),
            signed,
        ),
{
    let hash = sha256(preimage);
    let script = n_of_n_with_hash_script(keys, hash);
    let elements = move_witness_elements(preimage, signatures);
    let reversed = signatures.reverse();
    assert(elements =~= reversed.push(preimage));
    let after_sha = push_data(hash) + (seq![OP_EQUALVERIFY] + n_of_n_script(keys));
    assert(script =~= seq![OP_SHA256] + after_sha);
    lemma_run_opcode(OP_SHA256, after_sha, elements, signed);
    let hashed = elements.drop_last().push(hash);
    assert(hashed =~= reversed.push(hash));
    assert(run_script(script, elements, signed) == run_script(after_sha, hashed, signed));
    let after_push = seq![OP_EQUALVERIFY] + n_of_n_script(keys);
    lemma_run_push(hash, after_push, hashed, signed);
    let pushed = hashed.push(hash);
    lemma_run_opcode(OP_EQUALVERIFY, n_of_n_script(keys), pushed, signed);
    let size = pushed.len() as int;
    assert(pushed[size - 1] == hash && pushed[size - 2] == hash);
    assert(pushed.take(size - 2) =~= reversed);
    assert(run_script(after_push, pushed, signed) == run_script(
        n_of_n_script(keys),
        reversed,
        signed,
    ));
    lemma_claim_witness_satisfies_script(keys, signatures, signed);
}

/// The stack that a script-path witness hands to its script: all of the
/// witness but the script and the control block at its end.
pub open spec fn witness_stack(witness: Seq<Seq<u8>>) -> Seq<Seq<u8>> {
    witness.take(witness.len() - 2)
}

/// The script of a script-path witness: its last item but one.
pub open spec fn witness_script(witness: Seq<Seq<u8>>) -> Seq<u8> {
    witness[witness.len() - 2]
}

/// Every move transaction that the operator assembles is accepted by the
/// script it spends by: where the verifiers have presigned, one each, and
/// their signatures and the operator's own are valid for their keys, the
/// script in the witness of the move transaction accepts the stack in that
/// witness.
pub proof fn lemma_move_tx_is_accepted(
    tx: TransactionView,
    verifiers: Seq<Seq<u8>>,
    deposit_utxo: OutPoint,
    bridge_script: Seq<u8>,
    preimage: Seq<u8>,
    presigns: Seq<DepositPresigns>,
    control_block: Seq<u8>,
    own_signature: Seq<u8>,
    signed: spec_fn(Seq<u8>, Seq<u8>) -> bool,
)
    requires
        is_signed_move_tx(
            tx,
            verifiers,
            deposit_utxo,
            bridge_script,
            preimage,
            presigns,
            control_block,
            own_signature,
        ),
        sha256(preimage).len() == 32,
        verifiers.len() == presigns.len() + 1,
        forall|i: int| 0 <= i < verifiers.len() ==> (#[trigger] verifiers[i]).len() == 32,
        forall|i: int|
            0 <= i < presigns.len() ==> signed(presigns[i].move_sign@, #[trigger] verifiers[i]),
        signed(own_signature, verifiers.last()),
    ensures
        tx.input.len() == 1,
        script_accepts(
            witness_script(tx.input[0].witness),
            witness_stack(tx.input[0].witness),
            signed,
        ),
{
    let signatures = move_signs(presigns).push(own_signature);
    let elements = move_witness_elements(preimage, signatures);
    let witness = tx.input[0].witness;
    assert(witness_stack(witness) =~= elements);
    lemma_move_witness_satisfies_script(verifiers, preimage, signatures, signed);
}

/// Whether the script accepts the witness elements if every signature
/// counts as valid.
#[verifier::rlimit(50)]
pub fn accepts_if_all_signatures_are_valid(script: &[u8], elements: &Vec<Vec<u8>>) -> (accepted:
    bool)
    ensures
        accepted == script_accepts(
            script@,
            elements.deep_view(),
            |signature: Seq<u8>, key: Seq<u8>| true,
        ),
{
    let ghost signed = |signature: Seq<u8>, key: Seq<u8>| true;
    let ghost goal = run_script(script@, elements.deep_view(), signed);
    let mut stack: Vec<Vec<u8>> = Vec::new();
    let mut i: usize = 0;
    while i < elements.len()
        invariant
            i <= elements@.len(),
            stack@.len() == i,
            forall|k: int| 0 <= k < i ==> (#[trigger] stack@[k])@ == elements@[k]@,
        decreases elements@.len() - i,
    {
        stack.push(copy_bytes(elements[i].as_slice()));
        i = i + 1;
    }
    proof {
        assert forall|k: int| 0 <= k < stack@.len() implies #[trigger] stack.deep_view()[k]
            == elements.deep_view()[k] by {
            lemma_bytes_deep_view(stack@[k]);
            lemma_bytes_deep_view(elements@[k]);
        }
        assert(stack.deep_view() =~= elements.deep_view());
        assert(script@.skip(0) =~= script@);
    }
    let mut pc: usize = 0;
    while pc < script.len()
        invariant
            pc <= script@.len(),
            signed == (|signature: Seq<u8>, key: Seq<u8>| true),
            run_script(script@.skip(pc as int), stack.deep_view(), signed) == goal,
            goal == run_script(script@, elements.deep_view(), signed),
        decreases script@.len() - pc,
    {
        let opcode = script[pc];
        let ghost rest = script@.skip(pc as int);
        let ghost before = stack;
        proof {
            assert(rest[0] == opcode);
            assert(rest.skip(1) =~= script@.skip(pc + 1));
        }
        if 1 <= opcode && opcode <= 75 {
            let size = opcode as usize;
            if script.len() - pc < 1 + size {
                return false;
            }
            let mut data: Vec<u8> = Vec::new();
            let mut k: usize = 0;
            let len = script.len();
            while k < size
                invariant
                    k <= size,
                    len == script@.len(),
                    pc + 1 + size <= len,
                    data@ == script@.subrange(pc + 1, pc + 1 + k),
                decreases size - k,
            {
                data.push(script[pc + 1 + k]);
                k = k + 1;
                assert(data@ =~= script@.subrange(pc + 1, pc + 1 + k));
            }
            stack.push(data);
            proof {
                lemma_push_deep_view(before, stack, data);
                lemma_bytes_deep_view(data);
                assert(rest.subrange(1, 1 + size) =~= data@);
                assert(rest.skip(1 + size) =~= script@.skip(pc + 1 + size));
            }
            pc = pc + 1 + size;
        } else if opcode == OP_TRUE {
            let mut item: Vec<u8> = Vec::new();
            item.push(1);
            stack.push(item);
            proof {
                lemma_push_deep_view(before, stack, item);
                lemma_bytes_deep_view(item);
                assert(item@ =~= true_item());
            }
            pc = pc + 1;
        } else if opcode == OP_SHA256 {
            match stack.pop() {
                None => {
                    return false;
                },
                Some(top) => {
                    let ghost popped = stack;
                    let digest = sha256_hash(top.as_slice());
                    let item = copy_bytes(digest.as_slice());
                    stack.push(item);
                    proof {
                        lemma_bytes_deep_view(top);
                        lemma_bytes_deep_view(item);
                        lemma_push_deep_view(popped, stack, item);
                        assert(popped.deep_view() =~= before.deep_view().drop_last());
                        assert(before.deep_view().last() == top@);
                    }
                    pc = pc + 1;
                },
            }
        } else if opcode == OP_EQUALVERIFY || opcode == OP_CHECKSIGVERIFY {
            let size = stack.len();
            if size < 2 {
                return false;
            }
            proof {
                lemma_bytes_deep_view(stack@[size - 1]);
                lemma_bytes_deep_view(stack@[size - 2]);
            }
            if opcode == OP_EQUALVERIFY && !bytes_eq(
                stack[size - 1].as_slice(),
                stack[size - 2].as_slice(),
            ) {
                return false;
            }
            stack.truncate(size - 2);
            proof {
                assert(stack.deep_view() =~= before.deep_view().take(size - 2));
            }
            pc = pc + 1;
        } else {
            return false;
        }
    }
    proof {
        assert(script@.skip(pc as int).len() == 0);
    }
    if stack.len() != 1 {
        proof {
            assert(stack.deep_view().len() != 1);
        }
        return false;
    }
    let only = &stack[0];
    proof {
        lemma_bytes_deep_view(stack@[0]);
        assert(stack.deep_view() =~= seq![stack@[0]@]);
        if stack@[0]@ =~= true_item() {
            assert(stack.deep_view() =~= seq![true_item()]);
        }
    }
    only.len() == 1 && only[0] == 1
}

} // verus!
