//! Fixed-size cryptographic values. The library does no cryptography on
//! them: it carries each by its canonical compressed bytes.

use vstd::prelude::*;
use crate::encoding::{Decodable, DecodeError, Encodable};

verus! {

/// A public key: the key that must co-sign to authorize a spend.
#[derive(Clone, Copy, Debug, PartialEq, Eq, Hash)]
pub struct PubKey(pub [u8; 32]);

impl DeepView for PubKey {
    type V = Seq<u8>;

    open spec fn deep_view(&self) -> Seq<u8> {
        self.0@
    }
}

impl Encodable for PubKey {
    open spec fn encoding(v: Seq<u8>) -> Seq<u8> {
        <[u8; 32]>::encoding(v)
    }

    open spec fn canonical(v: Seq<u8>) -> bool {
        <[u8; 32]>::canonical(v)
    }

    fn consensus_encode(&self, writer: &mut Vec<u8>) -> (written: usize) {
        assert(self.0.deep_view() =~= self.0@);
        self.0.consensus_encode(writer)
    }
}

impl Decodable for PubKey {
    proof fn lemma_unambiguous(a: Seq<u8>, b: Seq<u8>, s: Seq<u8>) {
        <[u8; 32]>::lemma_unambiguous(a, b, s);
    }

    fn consensus_decode(bytes: &[u8], start: usize) -> (r: Result<(Self, usize), DecodeError>) {
        match <[u8; 32]>::consensus_decode(bytes, start) {
            Ok((held, end)) => {
                assert(held.deep_view() =~= held@);
                Ok((PubKey(held), end))
            },
            Err(e) => Err(e),
        }
    }
}

/// An aggregate signature: one value that signs for a whole set of keys.
#[derive(Clone, Copy, Debug, PartialEq, Eq, Hash)]
pub struct Sig(pub [u8; 64]);

impl DeepView for Sig {
    type V = Seq<u8>;

    open spec fn deep_view(&self) -> Seq<u8> {
        self.0@
    }
}

impl Encodable for Sig {
    open spec fn encoding(v: Seq<u8>) -> Seq<u8> {
        <[u8; 64]>::encoding(v)
    }

    open spec fn canonical(v: Seq<u8>) -> bool {
        <[u8; 64]>::canonical(v)
    }

    fn consensus_encode(&self, writer: &mut Vec<u8>) -> (written: usize) {
        assert(self.0.deep_view() =~= self.0@);
        self.0.consensus_encode(writer)
    }
}

impl Decodable for Sig {
    proof fn lemma_unambiguous(a: Seq<u8>, b: Seq<u8>, s: Seq<u8>) {
        <[u8; 64]>::lemma_unambiguous(a, b, s);
    }

    fn consensus_decode(bytes: &[u8], start: usize) -> (r: Result<(Self, usize), DecodeError>) {
        match <[u8; 64]>::consensus_decode(bytes, start) {
            Ok((held, end)) => {
                assert(held.deep_view() =~= held@);
                Ok((Sig(held), end))
            },
            Err(e) => Err(e),
        }
    }
}

/// A blinded message: what the mint signs without learning the coin.
#[derive(Clone, Copy, Debug, PartialEq, Eq, Hash)]
pub struct BlindedMessage(pub [u8; 48]);

impl DeepView for BlindedMessage {
    type V = Seq<u8>;

    open spec fn deep_view(&self) -> Seq<u8> {
        self.0@
    }
}

impl Encodable for BlindedMessage {
    open spec fn encoding(v: Seq<u8>) -> Seq<u8> {
        <[u8; 48]>::encoding(v)
    }

    open spec fn canonical(v: Seq<u8>) -> bool {
        <[u8; 48]>::canonical(v)
    }

    fn consensus_encode(&self, writer: &mut Vec<u8>) -> (written: usize) {
        assert(self.0.deep_view() =~= self.0@);
        self.0.consensus_encode(writer)
    }
}

impl Decodable for BlindedMessage {
    proof fn lemma_unambiguous(a: Seq<u8>, b: Seq<u8>, s: Seq<u8>) {
        <[u8; 48]>::lemma_unambiguous(a, b, s);
    }

    fn consensus_decode(bytes: &[u8], start: usize) -> (r: Result<(Self, usize), DecodeError>) {
        match <[u8; 48]>::consensus_decode(bytes, start) {
            Ok((held, end)) => {
                assert(held.deep_view() =~= held@);
                Ok((BlindedMessage(held), end))
            },
            Err(e) => Err(e),
        }
    }
}

/// The mint's signature on a coin.
#[derive(Clone, Copy, Debug, PartialEq, Eq, Hash)]
pub struct BlindSignature(pub [u8; 48]);

impl DeepView for BlindSignature {
    type V = Seq<u8>;

    open spec fn deep_view(&self) -> Seq<u8> {
        self.0@
    }
}

impl Encodable for BlindSignature {
    open spec fn encoding(v: Seq<u8>) -> Seq<u8> {
        <[u8; 48]>::encoding(v)
    }

    open spec fn canonical(v: Seq<u8>) -> bool {
        <[u8; 48]>::canonical(v)
    }

    fn consensus_encode(&self, writer: &mut Vec<u8>) -> (written: usize) {
        assert(self.0.deep_view() =~= self.0@);
        self.0.consensus_encode(writer)
    }
}

impl Decodable for BlindSignature {
    proof fn lemma_unambiguous(a: Seq<u8>, b: Seq<u8>, s: Seq<u8>) {
        <[u8; 48]>::lemma_unambiguous(a, b, s);
    }

    fn consensus_decode(bytes: &[u8], start: usize) -> (r: Result<(Self, usize), DecodeError>) {
        match <[u8; 48]>::consensus_decode(bytes, start) {
            Ok((held, end)) => {
                assert(held.deep_view() =~= held@);
                Ok((BlindSignature(held), end))
            },
            Err(e) => Err(e),
        }
    }
}

} // verus!
