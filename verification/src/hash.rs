//! Transaction identifiers: SHA-256 digests, computed by `bitcoin_hashes`.

use vstd::prelude::*;
use crate::encoding::{Decodable, DecodeError, Encodable};

verus! {

/// The SHA-256 digest of `data`, as `bitcoin_hashes` computes it.
pub uninterp spec fn sha256(data: Seq<u8>) -> Seq<u8>;

/// Calls `bitcoin_hashes::sha256::Hash::hash` and unwraps the digest with
/// `into_inner`: the 32 bytes of the SHA-256 digest of `data`.
#[verifier::external_body]
pub(crate) fn sha256_digest(data: &[u8]) -> (digest: [u8; 32])
    ensures
        digest@ == sha256(data@),
{
    <bitcoin_hashes::sha256::Hash as bitcoin_hashes::Hash>::into_inner(
        <bitcoin_hashes::sha256::Hash as bitcoin_hashes::Hash>::hash(data),
    )
}

/// The identity of a transaction: the digest of its inputs and outputs.
#[derive(Clone, Copy, Debug, PartialEq, Eq, Hash)]
pub struct TransactionId(pub [u8; 32]);

impl TransactionId {
    /// The 32 bytes of the digest.
    pub fn into_inner(self) -> (bytes: [u8; 32])
        ensures
            bytes == self.0,
    {
        self.0
    }
}

impl DeepView for TransactionId {
    type V = Seq<u8>;

    open spec fn deep_view(&self) -> Seq<u8> {
        self.0@
    }
}

impl Encodable for TransactionId {
    open spec fn encoding(v: Seq<u8>) -> Seq<u8> {
        <[u8; 32]>::encoding(v)
    }

    open spec fn canonical(v: Seq<u8>) -> bool {
        <[u8; 32]>::canonical(v)
    }

    fn consensus_encode(&self, writer: &mut Vec<u8>) -> (written: usize) {
        assert(self.0.deep_view() =~= self.0@);
        self.0.consensus_encode(writer)
    }
}

impl Decodable for TransactionId {
    proof fn lemma_unambiguous(a: Seq<u8>, b: Seq<u8>, s: Seq<u8>) {
        <[u8; 32]>::lemma_unambiguous(a, b, s);
    }

    fn consensus_decode(bytes: &[u8], start: usize) -> (r: Result<(Self, usize), DecodeError>) {
        match <[u8; 32]>::consensus_decode(bytes, start) {
            Ok((held, end)) => {
                assert(held.deep_view() =~= held@);
                Ok((TransactionId(held), end))
            },
            Err(e) => Err(e),
        }
    }
}

} // verus!
