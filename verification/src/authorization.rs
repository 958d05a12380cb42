//! Transaction identity and authorization: the digest that a signature
//! commits to, the keys that must have signed, and the verdict on the
//! signature.

use vstd::prelude::*;
use crate::encoding::{lemma_encoding_injective, Decodable, Encodable};
use crate::funding::TransactionError;
use crate::hash::{sha256, sha256_digest, TransactionId};
use crate::keys::{PubKey, Sig};
use crate::transaction::{Input, InputModel, Output, OutputModel, Transaction};

verus! {

/// The spend keys of a sequence of coins, in order.
pub open spec fn coin_keys(coins: Seq<(Seq<u8>, Seq<u8>)>) -> Seq<Seq<u8>> {
    Seq::new(coins.len(), |i: int| coins[i].0)
}

/// The spend keys of all coins of a bundle, tier by tier.
pub open spec fn bundle_keys(tiers: Seq<(u64, Seq<(Seq<u8>, Seq<u8>)>)>) -> Seq<Seq<u8>>
    decreases tiers.len(),
{
    if tiers.len() == 0 {
        Seq::empty()
    } else {
        bundle_keys(tiers.drop_last()) + coin_keys(tiers.last().1)
    }
}

/// The keys that must sign for an input: the spend key of every coin of a
/// coins input, the tweaked contract key of a peg-in.
pub open spec fn input_keys(input: InputModel) -> Seq<Seq<u8>> {
    match input {
        InputModel::Coins(tiers) => bundle_keys(tiers),
        InputModel::PegIn(proof) => seq![proof.1],
    }
}

/// The keys that must sign for a transaction: those of its inputs, one
/// input after the other.
pub open spec fn authorization_key_set(inputs: Seq<InputModel>) -> Seq<Seq<u8>>
    decreases inputs.len(),
{
    if inputs.len() == 0 {
        Seq::empty()
    } else {
        authorization_key_set(inputs.drop_last()) + input_keys(inputs.last())
    }
}

/// The identity of a transaction with these inputs and outputs: the digest
/// of the encoded inputs followed by the encoded outputs.
pub open spec fn transaction_id(inputs: Seq<InputModel>, outputs: Seq<OutputModel>) -> Seq<u8> {
    sha256(signed_bytes(inputs, outputs))
}

/// The bytes that a signature commits to: the encoded inputs followed by the
/// encoded outputs.
pub open spec fn signed_bytes(inputs: Seq<InputModel>, outputs: Seq<OutputModel>) -> Seq<u8> {
    <[Input]>::encoding(inputs) + <[Output]>::encoding(outputs)
}

/// Tamper-sensitivity of the signed bytes: two canonical transactions whose
/// inputs or outputs differ anywhere commit to different bytes. (Whether a
/// signature over other bytes still verifies is the signature scheme's
/// matter, and that of the digest.)
pub proof fn lemma_signed_bytes_injective(
    inputs: Seq<InputModel>,
    outputs: Seq<OutputModel>,
    other_inputs: Seq<InputModel>,
    other_outputs: Seq<OutputModel>,
)
    requires
        <Vec<Input>>::canonical(inputs),
        <Vec<Output>>::canonical(outputs),
        <Vec<Input>>::canonical(other_inputs),
        <Vec<Output>>::canonical(other_outputs),
        signed_bytes(inputs, outputs) == signed_bytes(other_inputs, other_outputs),
    ensures
        inputs == other_inputs,
        outputs == other_outputs,
{
    lemma_encoding_injective::<(Vec<Input>, Vec<Output>)>(
        (inputs, outputs),
        (other_inputs, other_outputs),
    );
}


impl Input {
    /// The keys that need to sign the transaction for the input to be valid.
    pub fn authorization_keys(&self) -> (keys: Vec<PubKey>)
        ensures
            keys.deep_view() == input_keys(self.deep_view()),
    {
        let mut keys: Vec<PubKey> = Vec::new();
        match self {
            Input::Coins(coins) => {
                let tiers = coins.tiers();
                let ghost model = tiers.deep_view();
                let mut i: usize = 0;
                proof {
                    assert(model.take(0) =~= Seq::<(u64, Seq<(Seq<u8>, Seq<u8>)>)>::empty());
                    assert(keys.deep_view() =~= bundle_keys(model.take(0)));
                }
                while i < tiers.len()
                    invariant
                        i <= tiers@.len(),
                        model == tiers.deep_view(),
                        keys.deep_view() == bundle_keys(model.take(i as int)),
                    decreases tiers@.len() - i,
                {
                    let held = &tiers[i].1;
                    let ghost before = keys.deep_view();
                    let ghost tier = model[i as int].1;
                    let mut j: usize = 0;
                    proof {
                        assert(tier =~= held.deep_view());
                        assert(keys.deep_view() =~= before + coin_keys(tier.take(0)));
                    }
                    while j < held.len()
                        invariant
                            j <= held@.len(),
                            tier == held.deep_view(),
                            keys.deep_view() == before + coin_keys(tier.take(j as int)),
                        decreases held@.len() - j,
                    {
                        let ghost so_far = keys.deep_view();
                        keys.push(held[j].spend_key);
                        proof {
                            assert(tier[j as int].0 == held@[j as int].spend_key.deep_view());
                            assert(keys.deep_view() =~= so_far.push(tier[j as int].0));
                            assert(coin_keys(tier.take(j + 1)) =~= coin_keys(
                                tier.take(j as int),
                            ).push(tier[j as int].0));
                            assert(keys.deep_view() =~= before + coin_keys(tier.take(j + 1)));
                        }
                        j += 1;
                    }
                    proof {
                        assert(tier.take(j as int) =~= tier);
                        assert(model.take(i + 1).drop_last() =~= model.take(i as int));
                        assert(model.take(i + 1).last() == model[i as int]);
                    }
                    i += 1;
                }
                proof {
                    assert(model.take(i as int) =~= model);
                }
            },
            Input::PegIn(proof) => {
                keys.push(*proof.tweak_contract_key());
                assert(keys.deep_view() =~= seq![proof.deep_view().1]);
            },
        }
        keys
    }
}

impl Transaction {
    /// The identity of the transaction. The signature is no part of it.
    pub open spec fn id(&self) -> Seq<u8> {
        transaction_id(self.inputs.deep_view(), self.outputs.deep_view())
    }

    /// The keys that must have signed the transaction.
    pub open spec fn key_set(&self) -> Seq<Seq<u8>> {
        authorization_key_set(self.inputs.deep_view())
    }

    /// Hashes the transaction without its signature. This digest is what the
    /// signature commits to.
    pub fn tx_hash(&self) -> (id: TransactionId)
        ensures
            id.deep_view() == self.id(),
    {
        let inputs = self.inputs.as_slice();
        let outputs = self.outputs.as_slice();
        proof {
            assert(inputs.deep_view() =~= self.inputs.deep_view());
            assert(outputs.deep_view() =~= self.outputs.deep_view());
        }
        Self::tx_hash_from_parts(inputs, outputs)
    }

    /// The identity of the transaction with these inputs and outputs, for
    /// which no signature is needed yet.
    pub fn tx_hash_from_parts(inputs: &[Input], outputs: &[Output]) -> (id: TransactionId)
        ensures
            id.deep_view() == transaction_id(inputs.deep_view(), outputs.deep_view()),
    {
        let mut engine: Vec<u8> = Vec::new();
        inputs.consensus_encode(&mut engine);
        outputs.consensus_encode(&mut engine);
        assert(engine@ =~= <[Input]>::encoding(inputs.deep_view()) + <[Output]>::encoding(
            outputs.deep_view(),
        ));
        TransactionId(sha256_digest(engine.as_slice()))
    }

    /// The keys that must have signed the transaction: those of every input,
    /// in the order of the inputs.
    pub fn authorization_keys(&self) -> (keys: Vec<PubKey>)
        ensures
            keys.deep_view() == self.key_set(),
    {
        let ghost model = self.inputs.deep_view();
        let mut keys: Vec<PubKey> = Vec::new();
        let mut i: usize = 0;
        proof {
            assert(model.take(0) =~= Seq::<InputModel>::empty());
            assert(keys.deep_view() =~= authorization_key_set(model.take(0)));
        }
        while i < self.inputs.len()
            invariant
                i <= self.inputs@.len(),
                model == self.inputs.deep_view(),
                keys.deep_view() == authorization_key_set(model.take(i as int)),
            decreases self.inputs@.len() - i,
        {
            let ghost before = keys.deep_view();
            let mut more = self.inputs[i].authorization_keys();
            let ghost added = more.deep_view();
            keys.append(&mut more);
            proof {
                assert(keys.deep_view() =~= before + added);
                assert(model.take(i + 1).drop_last() =~= model.take(i as int));
                assert(model.take(i + 1).last() == model[i as int]);
            }
            i += 1;
        }
        proof {
            assert(model.take(i as int) =~= model);
        }
        keys
    }

    /// Decides whether the owners of all inputs authorized this transaction.
    ///
    /// `verify` is the aggregate signature scheme. It is asked once, for the
    /// transaction's identity, its signature and its authorization keys;
    /// the transaction is accepted if and only if it answers `true`. Every
    /// other answer gives the same error.
    pub fn validate_signature<F: Fn([u8; 32], Sig, Vec<PubKey>) -> bool>(&self, verify: F) -> (r:
        Result<(), TransactionError>)
        requires
            forall|message: [u8; 32], signature: Sig, keys: Vec<PubKey>|
                call_requires(verify, (message, signature, keys)),
        ensures
            r is Err ==> r == Err::<(), TransactionError>(TransactionError::InvalidSignature),
            exists|message: [u8; 32], keys: Vec<PubKey>|
                {
                    &&& message@ == self.id()
                    &&& keys.deep_view() == self.key_set()
                    &&& #[trigger] call_ensures(verify, (message, self.signature, keys), r is Ok)
                },
    {
        let keys = self.authorization_keys();
        let message = self.tx_hash().into_inner();
        let ghost handed = keys;
        let accepted = verify(message, self.signature, keys);
        let r = if accepted {
            Ok(())
        } else {
            Err(TransactionError::InvalidSignature)
        };
        proof {
            assert(r is Ok == accepted);
            assert(message@ == self.id());
            assert(handed.deep_view() == self.key_set());
            assert(call_ensures(verify, (message, self.signature, handed), r is Ok));
        }
        r
    }
}

/// Hash stability: the identity of a transaction is a function of its inputs
/// and outputs alone, so two transactions that differ only in their
/// signatures have the same identity.
pub proof fn lemma_id_ignores_signature(a: Transaction, b: Transaction)
    requires
        a.inputs.deep_view() == b.inputs.deep_view(),
        a.outputs.deep_view() == b.outputs.deep_view(),
    ensures
        a.id() == b.id(),
{
}

} // verus!
