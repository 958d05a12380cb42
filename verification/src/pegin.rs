//! Peg-in proofs: the claim that bitcoin was locked into the federation's
//! on-chain contract, with what is needed to check it.

use vstd::prelude::*;
use crate::amount::BitcoinAmount;
use crate::encoding::{Decodable, DecodeError, Encodable};
use crate::keys::PubKey;
use crate::ledger::{output_value, BitcoinTransaction, BlockHeader, PartialMerkleTree};

verus! {

/// The place of a transaction in a block: the block's header and the merkle
/// branch that leads to the transaction.
#[derive(Debug, PartialEq, Eq, Hash)]
pub struct TxOutProof {
    pub block_header: BlockHeader,
    pub merkle_proof: PartialMerkleTree,
}

/// The logical value of a peg-in proof: block header and merkle branch, the
/// transaction, the index of the output, and the tweaked contract key.
pub type PegInModel = ((((Seq<u8>, Seq<u8>), Seq<u8>), u32), Seq<u8>);

/// The locked value, in satoshi, that a peg-in proof refers to, if the
/// transaction has the output that the proof names.
pub open spec fn peg_in_value(v: PegInModel) -> Option<u64> {
    output_value(v.0.0.1, v.0.1)
}

/// A proof that an output of a Bitcoin transaction pays into the
/// federation's contract under a tweaked key.
#[derive(Debug, PartialEq, Eq, Hash)]
pub struct PegInProof {
    txout_proof: TxOutProof,
    transaction: BitcoinTransaction,
    output_idx: u32,
    tweak_contract_key: PubKey,
    value: BitcoinAmount,
}

impl DeepView for TxOutProof {
    type V = (Seq<u8>, Seq<u8>);

    open spec fn deep_view(&self) -> (Seq<u8>, Seq<u8>) {
        (self.block_header.deep_view(), self.merkle_proof.deep_view())
    }
}

impl Clone for TxOutProof {
    fn clone(&self) -> (copy: Self)
        ensures
            copy.deep_view() == self.deep_view(),
    {
        TxOutProof {
            block_header: self.block_header.clone(),
            merkle_proof: self.merkle_proof.clone(),
        }
    }
}

impl Encodable for TxOutProof {
    open spec fn encoding(v: (Seq<u8>, Seq<u8>)) -> Seq<u8> {
        <(BlockHeader, PartialMerkleTree)>::encoding(v)
    }

    open spec fn canonical(v: (Seq<u8>, Seq<u8>)) -> bool {
        <(BlockHeader, PartialMerkleTree)>::canonical(v)
    }

    fn consensus_encode(&self, writer: &mut Vec<u8>) -> (written: usize) {
        let before = writer.len();
        self.block_header.consensus_encode(writer);
        self.merkle_proof.consensus_encode(writer);
        assert(writer@ =~= old(writer)@ + Self::encoding(self.deep_view()));
        writer.len() - before
    }
}

impl Decodable for TxOutProof {
    proof fn lemma_unambiguous(a: (Seq<u8>, Seq<u8>), b: (Seq<u8>, Seq<u8>), s: Seq<u8>) {
        <(BlockHeader, PartialMerkleTree)>::lemma_unambiguous(a, b, s);
    }

    fn consensus_decode(bytes: &[u8], start: usize) -> (r: Result<(Self, usize), DecodeError>) {
        match <(BlockHeader, PartialMerkleTree)>::consensus_decode(bytes, start) {
            Ok(((block_header, merkle_proof), end)) => Ok(
                (TxOutProof { block_header, merkle_proof }, end),
            ),
            Err(e) => Err(e),
        }
    }
}

impl DeepView for PegInProof {
    type V = PegInModel;

    closed spec fn deep_view(&self) -> PegInModel {
        (
            (
                (self.txout_proof.deep_view(), self.transaction.deep_view()),
                self.output_idx,
            ),
            self.tweak_contract_key.deep_view(),
        )
    }
}

impl PegInProof {
    #[verifier::type_invariant]
    spec fn records_the_output(self) -> bool {
        peg_in_value(self.deep_view()) == Some(self.value.sat)
    }

    /// The locked value that the proof refers to, in satoshi.
    pub open spec fn locked_sat(&self) -> u64 {
        peg_in_value(self.deep_view()).unwrap()
    }

    /// The proof made of these parts, if the transaction has an output
    /// `output_idx`; `None` if it has none.
    pub fn new(
        txout_proof: TxOutProof,
        transaction: BitcoinTransaction,
        output_idx: u32,
        tweak_contract_key: PubKey,
    ) -> (proof: Option<Self>)
        ensures
            proof is Some <==> output_value(transaction.deep_view(), output_idx) is Some,
            proof matches Some(made) ==> made.deep_view() == (
                ((txout_proof.deep_view(), transaction.deep_view()), output_idx),
                tweak_contract_key.deep_view(),
            ),
    {
        match transaction.output_value(output_idx) {
            Some(value) => Some(
                PegInProof { txout_proof, transaction, output_idx, tweak_contract_key, value },
            ),
            None => None,
        }
    }

    /// The key that must sign to redeem the locked output.
    pub fn tweak_contract_key(&self) -> (key: &PubKey)
        ensures
            key.deep_view() == self.deep_view().1,
    {
        &self.tweak_contract_key
    }

    /// The value of the locked output.
    pub fn tx_output_value(&self) -> (value: BitcoinAmount)
        ensures
            peg_in_value(self.deep_view()) == Some(value.sat),
    {
        proof {
            use_type_invariant(self);
        }
        self.value
    }

    /// The index of the locked output in its transaction.
    pub fn output_idx(&self) -> (index: u32)
        ensures
            index == self.deep_view().0.1,
    {
        self.output_idx
    }

    /// The transaction that holds the locked output.
    pub fn transaction(&self) -> (transaction: &BitcoinTransaction)
        ensures
            transaction.deep_view() == self.deep_view().0.0.1,
    {
        &self.transaction
    }

    /// The place of the transaction in its block.
    pub fn txout_proof(&self) -> (proof: &TxOutProof)
        ensures
            proof.deep_view() == self.deep_view().0.0.0,
    {
        &self.txout_proof
    }
}

impl Clone for PegInProof {
    fn clone(&self) -> (copy: Self)
        ensures
            copy.deep_view() == self.deep_view(),
    {
        proof {
            use_type_invariant(self);
        }
        PegInProof {
            txout_proof: self.txout_proof.clone(),
            transaction: self.transaction.clone(),
            output_idx: self.output_idx,
            tweak_contract_key: self.tweak_contract_key,
            value: self.value,
        }
    }
}

impl Encodable for PegInProof {
    open spec fn encoding(v: PegInModel) -> Seq<u8> {
        <(((TxOutProof, BitcoinTransaction), u32), PubKey)>::encoding(v)
    }

    open spec fn canonical(v: PegInModel) -> bool {
        <(((TxOutProof, BitcoinTransaction), u32), PubKey)>::canonical(v) && peg_in_value(
            v,
        ) is Some
    }

    fn consensus_encode(&self, writer: &mut Vec<u8>) -> (written: usize) {
        proof {
            use_type_invariant(self);
        }
        let before = writer.len();
        self.txout_proof.consensus_encode(writer);
        self.transaction.consensus_encode(writer);
        self.output_idx.consensus_encode(writer);
        self.tweak_contract_key.consensus_encode(writer);
        assert(writer@ =~= old(writer)@ + Self::encoding(self.deep_view()));
        writer.len() - before
    }
}

impl Decodable for PegInProof {
    proof fn lemma_unambiguous(a: PegInModel, b: PegInModel, s: Seq<u8>) {
        <(((TxOutProof, BitcoinTransaction), u32), PubKey)>::lemma_unambiguous(a, b, s);
    }

    fn consensus_decode(bytes: &[u8], start: usize) -> (r: Result<(Self, usize), DecodeError>) {
        let ghost s = bytes@.skip(start as int);
        match <(((TxOutProof, BitcoinTransaction), u32), PubKey)>::consensus_decode(bytes, start) {
            Ok(((((txout_proof, transaction), output_idx), tweak_contract_key), end)) => {
                let ghost found = (
                    ((txout_proof.deep_view(), transaction.deep_view()), output_idx),
                    tweak_contract_key.deep_view(),
                );
                match PegInProof::new(txout_proof, transaction, output_idx, tweak_contract_key) {
                    Some(proof) => Ok((proof, end)),
                    None => {
                        proof {
                            let e = Self::encoding(found);
                            assert(e =~= s.subrange(0, e.len() as int));
                            assert forall|v: PegInModel|
                                !(Self::canonical(v) && #[trigger] Self::encoding(v).is_prefix_of(
                                    s,
                                )) by {
                                if Self::canonical(v) && Self::encoding(v).is_prefix_of(s) {
                                    <(((TxOutProof, BitcoinTransaction), u32), PubKey)>::lemma_unambiguous(
                                    v, found, s);
                                }
                            }
                        }
                        Err(DecodeError::from_str("a peg-in proof names an output that is not there"))
                    },
                }
            },
            Err(e) => Err(e),
        }
    }
}

} // verus!
