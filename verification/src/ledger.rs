//! Values of the Bitcoin ledger. Their byte format is Bitcoin's own: the
//! library holds each value by its consensus bytes, and asks the `bitcoin`
//! crate where such a value ends in a byte string.

use vstd::prelude::*;
use vstd::slice::*;
use crate::amount::BitcoinAmount;
use crate::encoding::{append_bytes, decode_exact, Decodable, DecodeError, Encodable};

verus! {

/// `bitcoin::consensus::encode::Error`, the error of `bitcoin`'s decoders.
/// The library only hands it on, as the text that it displays.
#[verifier::external_type_specification]
#[verifier::external_body]
pub struct ExConsensusError(bitcoin::consensus::encode::Error);

/// The number of bytes that `bitcoin` reads when it decodes a block header
/// from the start of `bytes`, or `None` where it reports an error.
pub uninterp spec fn block_header_span(bytes: Seq<u8>) -> Option<nat>;

/// `bytes` is exactly one block header: whatever follows it, `bitcoin`
/// decodes a header from these bytes and reads none of the others.
pub open spec fn is_block_header(bytes: Seq<u8>) -> bool {
    forall|s: Seq<u8>| bytes.is_prefix_of(s) ==> #[trigger] block_header_span(s) == Some(bytes.len())
}

/// Calls `bitcoin::consensus::encode::deserialize_partial` for a
/// `bitcoin::BlockHeader`. It reads `bytes` from the front; on success it
/// says how many bytes it read, and it would read the same from any byte
/// string that starts with those bytes.
#[verifier::external_body]
fn measure_block_header(bytes: &[u8]) -> (r: Result<usize, bitcoin::consensus::encode::Error>)
    ensures
        match r {
            Ok(n) => {
                &&& block_header_span(bytes@) == Some(n as nat)
                &&& n <= bytes@.len()
                &&& is_block_header(bytes@.take(n as int))
            },
            Err(_) => block_header_span(bytes@) is None,
        },
{
    bitcoin::consensus::encode::deserialize_partial::<bitcoin::BlockHeader>(bytes).map(|(_, n)| n)
}

/// A Bitcoin block header, held by its consensus bytes.
#[derive(Debug, PartialEq, Eq, Hash)]
pub struct BlockHeader {
    bytes: Vec<u8>,
}

impl DeepView for BlockHeader {
    type V = Seq<u8>;

    closed spec fn deep_view(&self) -> Seq<u8> {
        self.bytes@
    }
}

impl BlockHeader {
    #[verifier::type_invariant]
    spec fn holds_one_value(self) -> bool {
        is_block_header(self.bytes@)
    }

    /// The consensus bytes of the header.
    pub fn consensus_bytes(&self) -> (bytes: &Vec<u8>)
        ensures
            bytes@ == self.deep_view(),
    {
        &self.bytes
    }
}

impl Clone for BlockHeader {
    fn clone(&self) -> (copy: Self)
        ensures
            copy.deep_view() == self.deep_view(),
    {
        proof {
            use_type_invariant(self);
        }
        BlockHeader { bytes: slice_to_vec(self.bytes.as_slice()) }
    }
}

impl Encodable for BlockHeader {
    open spec fn encoding(v: Seq<u8>) -> Seq<u8> {
        v
    }

    open spec fn canonical(v: Seq<u8>) -> bool {
        is_block_header(v)
    }

    fn consensus_encode(&self, writer: &mut Vec<u8>) -> (written: usize) {
        proof {
            use_type_invariant(self);
        }
        append_bytes(writer, self.bytes.as_slice())
    }
}

impl Decodable for BlockHeader {
    proof fn lemma_unambiguous(a: Seq<u8>, b: Seq<u8>, s: Seq<u8>) {
        assert(block_header_span(s) == Some(a.len()));
        assert(block_header_span(s) == Some(b.len()));
        assert(a =~= s.subrange(0, a.len() as int));
        assert(b =~= s.subrange(0, b.len() as int));
    }

    fn consensus_decode(bytes: &[u8], start: usize) -> (r: Result<(Self, usize), DecodeError>) {
        let rest = slice_subrange(bytes, start, bytes.len());
        assert(rest@ =~= bytes@.skip(start as int));
        match measure_block_header(rest) {
            Ok(n) => {
                let held = slice_to_vec(slice_subrange(rest, 0, n));
                assert(held@ =~= rest@.take(n as int));
                assert(held@ =~= bytes@.subrange(start as int, start + n));
                Ok((BlockHeader { bytes: held }, start + n))
            },
            Err(e) => {
                assert forall|v: Seq<u8>|
                    !(Self::canonical(v) && #[trigger] Self::encoding(v).is_prefix_of(rest@)) by {
                    if Self::canonical(v) && v.is_prefix_of(rest@) {
                        assert(block_header_span(rest@) == Some(v.len()));
                    }
                }
                Err(DecodeError::from_err(e))
            },
        }
    }
}

/// The number of bytes that `bitcoin` reads when it decodes a script
/// from the start of `bytes`, or `None` where it reports an error.
pub uninterp spec fn script_span(bytes: Seq<u8>) -> Option<nat>;

/// `bytes` is exactly one script: whatever follows it, `bitcoin`
/// decodes a script from these bytes and reads none of the others.
pub open spec fn is_script(bytes: Seq<u8>) -> bool {
    forall|s: Seq<u8>| bytes.is_prefix_of(s) ==> #[trigger] script_span(s) == Some(bytes.len())
}

/// Calls `bitcoin::consensus::encode::deserialize_partial` for a
/// `bitcoin::Script`. It reads `bytes` from the front; on success it
/// says how many bytes it read, and it would read the same from any byte
/// string that starts with those bytes.
#[verifier::external_body]
fn measure_script(bytes: &[u8]) -> (r: Result<usize, bitcoin::consensus::encode::Error>)
    ensures
        match r {
            Ok(n) => {
                &&& script_span(bytes@) == Some(n as nat)
                &&& n <= bytes@.len()
                &&& is_script(bytes@.take(n as int))
            },
            Err(_) => script_span(bytes@) is None,
        },
{
    bitcoin::consensus::encode::deserialize_partial::<bitcoin::Script>(bytes).map(|(_, n)| n)
}

/// A Bitcoin script, held by its consensus bytes.
#[derive(Debug, PartialEq, Eq, Hash)]
pub struct Script {
    bytes: Vec<u8>,
}

impl DeepView for Script {
    type V = Seq<u8>;

    closed spec fn deep_view(&self) -> Seq<u8> {
        self.bytes@
    }
}

impl Script {
    #[verifier::type_invariant]
    spec fn holds_one_value(self) -> bool {
        is_script(self.bytes@)
    }

    /// The consensus bytes of the script.
    pub fn consensus_bytes(&self) -> (bytes: &Vec<u8>)
        ensures
            bytes@ == self.deep_view(),
    {
        &self.bytes
    }
}

impl Clone for Script {
    fn clone(&self) -> (copy: Self)
        ensures
            copy.deep_view() == self.deep_view(),
    {
        proof {
            use_type_invariant(self);
        }
        Script { bytes: slice_to_vec(self.bytes.as_slice()) }
    }
}

impl Encodable for Script {
    open spec fn encoding(v: Seq<u8>) -> Seq<u8> {
        v
    }

    open spec fn canonical(v: Seq<u8>) -> bool {
        is_script(v)
    }

    fn consensus_encode(&self, writer: &mut Vec<u8>) -> (written: usize) {
        proof {
            use_type_invariant(self);
        }
        append_bytes(writer, self.bytes.as_slice())
    }
}

impl Decodable for Script {
    proof fn lemma_unambiguous(a: Seq<u8>, b: Seq<u8>, s: Seq<u8>) {
        assert(script_span(s) == Some(a.len()));
        assert(script_span(s) == Some(b.len()));
        assert(a =~= s.subrange(0, a.len() as int));
        assert(b =~= s.subrange(0, b.len() as int));
    }

    fn consensus_decode(bytes: &[u8], start: usize) -> (r: Result<(Self, usize), DecodeError>) {
        let rest = slice_subrange(bytes, start, bytes.len());
        assert(rest@ =~= bytes@.skip(start as int));
        match measure_script(rest) {
            Ok(n) => {
                let held = slice_to_vec(slice_subrange(rest, 0, n));
                assert(held@ =~= rest@.take(n as int));
                assert(held@ =~= bytes@.subrange(start as int, start + n));
                Ok((Script { bytes: held }, start + n))
            },
            Err(e) => {
                assert forall|v: Seq<u8>|
                    !(Self::canonical(v) && #[trigger] Self::encoding(v).is_prefix_of(rest@)) by {
                    if Self::canonical(v) && v.is_prefix_of(rest@) {
                        assert(script_span(rest@) == Some(v.len()));
                    }
                }
                Err(DecodeError::from_err(e))
            },
        }
    }
}

/// The consensus bytes of the output script that pays the address written
/// as `text`, as `bitcoin` resolves it; `None` where `bitcoin` reads no
/// address from `text`.
pub uninterp spec fn address_script(text: Seq<char>) -> Option<Seq<u8>>;

/// Parses `text` with `bitcoin::Address::from_str`, resolves the address
/// with `bitcoin::Address::script_pubkey`, and hands out the script's bytes
/// from `bitcoin::consensus::encode::serialize`.
#[verifier::external_body]
fn resolve_address(text: &str) -> (r: Option<Vec<u8>>)
    ensures
        match r {
            Some(bytes) => address_script(text@) == Some(bytes@),
            None => address_script(text@) is None,
        },
{
    text.parse::<bitcoin::Address>().ok().map(
        |address| bitcoin::consensus::encode::serialize(&address.script_pubkey()),
    )
}

impl Script {
    /// The output script that pays the address written as `text`, whatever
    /// the notation of the address; `None` where `text` is no address.
    pub fn of_address(text: &str) -> (script: Option<Self>)
        ensures
            match script {
                Some(held) => address_script(text@) == Some(held.deep_view()),
                None => address_script(text@) matches Some(bytes) ==> !is_script(bytes),
            },
    {
        match resolve_address(text) {
            Some(bytes) => match decode_exact::<Script>(bytes.as_slice()) {
                Ok(held) => Some(held),
                Err(_) => {
                    assert(!is_script(bytes@)) by {
                        if is_script(bytes@) {
                            assert(Script::canonical(bytes@));
                            assert(bytes@ == Script::encoding(bytes@));
                        }
                    }
                    None
                },
            },
            None => None,
        }
    }
}


/// The number of bytes that `bitcoin` reads when it decodes a transaction
/// from the start of `bytes`, or `None` where it reports an error.
pub uninterp spec fn transaction_span(bytes: Seq<u8>) -> Option<nat>;

/// `bytes` is exactly one transaction: whatever follows it, `bitcoin`
/// decodes a transaction from these bytes and reads none of the others.
pub open spec fn is_transaction(bytes: Seq<u8>) -> bool {
    forall|s: Seq<u8>| bytes.is_prefix_of(s) ==> #[trigger] transaction_span(s) == Some(bytes.len())
}

/// Calls `bitcoin::consensus::encode::deserialize_partial` for a
/// `bitcoin::Transaction`. It reads `bytes` from the front; on success it
/// says how many bytes it read, and it would read the same from any byte
/// string that starts with those bytes.
#[verifier::external_body]
fn measure_transaction(bytes: &[u8]) -> (r: Result<usize, bitcoin::consensus::encode::Error>)
    ensures
        match r {
            Ok(n) => {
                &&& transaction_span(bytes@) == Some(n as nat)
                &&& n <= bytes@.len()
                &&& is_transaction(bytes@.take(n as int))
            },
            Err(_) => transaction_span(bytes@) is None,
        },
{
    bitcoin::consensus::encode::deserialize_partial::<bitcoin::Transaction>(bytes).map(|(_, n)| n)
}

/// A Bitcoin transaction, held by its consensus bytes.
#[derive(Debug, PartialEq, Eq, Hash)]
pub struct BitcoinTransaction {
    bytes: Vec<u8>,
}

impl DeepView for BitcoinTransaction {
    type V = Seq<u8>;

    closed spec fn deep_view(&self) -> Seq<u8> {
        self.bytes@
    }
}

impl BitcoinTransaction {
    #[verifier::type_invariant]
    spec fn holds_one_value(self) -> bool {
        is_transaction(self.bytes@)
    }

    /// The consensus bytes of the transaction.
    pub fn consensus_bytes(&self) -> (bytes: &Vec<u8>)
        ensures
            bytes@ == self.deep_view(),
    {
        &self.bytes
    }
}

impl Clone for BitcoinTransaction {
    fn clone(&self) -> (copy: Self)
        ensures
            copy.deep_view() == self.deep_view(),
    {
        proof {
            use_type_invariant(self);
        }
        BitcoinTransaction { bytes: slice_to_vec(self.bytes.as_slice()) }
    }
}

impl Encodable for BitcoinTransaction {
    open spec fn encoding(v: Seq<u8>) -> Seq<u8> {
        v
    }

    open spec fn canonical(v: Seq<u8>) -> bool {
        is_transaction(v)
    }

    fn consensus_encode(&self, writer: &mut Vec<u8>) -> (written: usize) {
        proof {
            use_type_invariant(self);
        }
        append_bytes(writer, self.bytes.as_slice())
    }
}

impl Decodable for BitcoinTransaction {
    proof fn lemma_unambiguous(a: Seq<u8>, b: Seq<u8>, s: Seq<u8>) {
        assert(transaction_span(s) == Some(a.len()));
        assert(transaction_span(s) == Some(b.len()));
        assert(a =~= s.subrange(0, a.len() as int));
        assert(b =~= s.subrange(0, b.len() as int));
    }

    fn consensus_decode(bytes: &[u8], start: usize) -> (r: Result<(Self, usize), DecodeError>) {
        let rest = slice_subrange(bytes, start, bytes.len());
        assert(rest@ =~= bytes@.skip(start as int));
        match measure_transaction(rest) {
            Ok(n) => {
                let held = slice_to_vec(slice_subrange(rest, 0, n));
                assert(held@ =~= rest@.take(n as int));
                assert(held@ =~= bytes@.subrange(start as int, start + n));
                Ok((BitcoinTransaction { bytes: held }, start + n))
            },
            Err(e) => {
                assert forall|v: Seq<u8>|
                    !(Self::canonical(v) && #[trigger] Self::encoding(v).is_prefix_of(rest@)) by {
                    if Self::canonical(v) && v.is_prefix_of(rest@) {
                        assert(transaction_span(rest@) == Some(v.len()));
                    }
                }
                Err(DecodeError::from_err(e))
            },
        }
    }
}

/// The number of bytes that `bitcoin` reads when it decodes a partial merkle tree
/// from the start of `bytes`, or `None` where it reports an error.
pub uninterp spec fn merkle_tree_span(bytes: Seq<u8>) -> Option<nat>;

/// `bytes` is exactly one partial merkle tree: whatever follows it, `bitcoin`
/// decodes a partial merkle tree from these bytes and reads none of the others.
pub open spec fn is_merkle_tree(bytes: Seq<u8>) -> bool {
    forall|s: Seq<u8>| bytes.is_prefix_of(s) ==> #[trigger] merkle_tree_span(s) == Some(bytes.len())
}

/// Calls `bitcoin::consensus::encode::deserialize_partial` for a
/// `bitcoin::util::merkleblock::PartialMerkleTree`. It reads `bytes` from the front; on success it
/// says how many bytes it read, and it would read the same from any byte
/// string that starts with those bytes.
#[verifier::external_body]
fn measure_merkle_tree(bytes: &[u8]) -> (r: Result<usize, bitcoin::consensus::encode::Error>)
    ensures
        match r {
            Ok(n) => {
                &&& merkle_tree_span(bytes@) == Some(n as nat)
                &&& n <= bytes@.len()
                &&& is_merkle_tree(bytes@.take(n as int))
            },
            Err(_) => merkle_tree_span(bytes@) is None,
        },
{
    bitcoin::consensus::encode::deserialize_partial::<bitcoin::util::merkleblock::PartialMerkleTree>(bytes).map(|(_, n)| n)
}

/// A Bitcoin partial merkle tree, held by its consensus bytes.
#[derive(Debug, PartialEq, Eq, Hash)]
pub struct PartialMerkleTree {
    bytes: Vec<u8>,
}

impl DeepView for PartialMerkleTree {
    type V = Seq<u8>;

    closed spec fn deep_view(&self) -> Seq<u8> {
        self.bytes@
    }
}

impl PartialMerkleTree {
    #[verifier::type_invariant]
    spec fn holds_one_value(self) -> bool {
        is_merkle_tree(self.bytes@)
    }

    /// The consensus bytes of the partial merkle tree.
    pub fn consensus_bytes(&self) -> (bytes: &Vec<u8>)
        ensures
            bytes@ == self.deep_view(),
    {
        &self.bytes
    }
}

impl Clone for PartialMerkleTree {
    fn clone(&self) -> (copy: Self)
        ensures
            copy.deep_view() == self.deep_view(),
    {
        proof {
            use_type_invariant(self);
        }
        PartialMerkleTree { bytes: slice_to_vec(self.bytes.as_slice()) }
    }
}

impl Encodable for PartialMerkleTree {
    open spec fn encoding(v: Seq<u8>) -> Seq<u8> {
        v
    }

    open spec fn canonical(v: Seq<u8>) -> bool {
        is_merkle_tree(v)
    }

    fn consensus_encode(&self, writer: &mut Vec<u8>) -> (written: usize) {
        proof {
            use_type_invariant(self);
        }
        append_bytes(writer, self.bytes.as_slice())
    }
}

impl Decodable for PartialMerkleTree {
    proof fn lemma_unambiguous(a: Seq<u8>, b: Seq<u8>, s: Seq<u8>) {
        assert(merkle_tree_span(s) == Some(a.len()));
        assert(merkle_tree_span(s) == Some(b.len()));
        assert(a =~= s.subrange(0, a.len() as int));
        assert(b =~= s.subrange(0, b.len() as int));
    }

    fn consensus_decode(bytes: &[u8], start: usize) -> (r: Result<(Self, usize), DecodeError>) {
        let rest = slice_subrange(bytes, start, bytes.len());
        assert(rest@ =~= bytes@.skip(start as int));
        match measure_merkle_tree(rest) {
            Ok(n) => {
                let held = slice_to_vec(slice_subrange(rest, 0, n));
                assert(held@ =~= rest@.take(n as int));
                assert(held@ =~= bytes@.subrange(start as int, start + n));
                Ok((PartialMerkleTree { bytes: held }, start + n))
            },
            Err(e) => {
                assert forall|v: Seq<u8>|
                    !(Self::canonical(v) && #[trigger] Self::encoding(v).is_prefix_of(rest@)) by {
                    if Self::canonical(v) && v.is_prefix_of(rest@) {
                        assert(merkle_tree_span(rest@) == Some(v.len()));
                    }
                }
                Err(DecodeError::from_err(e))
            },
        }
    }
}


/// The values, in satoshi, of the outputs of the transaction that `bitcoin`
/// decodes from the whole of `bytes`, in order; `None` where it reports an
/// error.
pub uninterp spec fn transaction_output_values(bytes: Seq<u8>) -> Option<Seq<u64>>;

/// Calls `bitcoin::consensus::encode::deserialize` for a
/// `bitcoin::Transaction` and hands out the `value` field of each of its
/// outputs.
#[verifier::external_body]
fn read_output_values(bytes: &[u8]) -> (r: Option<Vec<u64>>)
    ensures
        match r {
            Some(values) => transaction_output_values(bytes@) == Some(values@),
            None => transaction_output_values(bytes@) is None,
        },
{
    bitcoin::consensus::encode::deserialize::<bitcoin::Transaction>(bytes).ok().map(
        |tx| tx.output.iter().map(|out| out.value).collect(),
    )
}

/// The value of output `index` of the transaction with consensus bytes
/// `bytes`, if it has such an output.
pub open spec fn output_value(bytes: Seq<u8>, index: u32) -> Option<u64> {
    match transaction_output_values(bytes) {
        Some(values) => if index < values.len() {
            Some(values[index as int])
        } else {
            None
        },
        None => None,
    }
}

impl BitcoinTransaction {
    /// The value of output `index` of the transaction, if it has such an
    /// output.
    pub fn output_value(&self, index: u32) -> (value: Option<BitcoinAmount>)
        ensures
            match value {
                Some(held) => output_value(self.deep_view(), index) == Some(held.sat),
                None => output_value(self.deep_view(), index) is None,
            },
    {
        match read_output_values(self.bytes.as_slice()) {
            Some(values) => {
                let at = index as usize;
                if at < values.len() {
                    Some(BitcoinAmount::from_sat(values[at]))
                } else {
                    None
                }
            },
            None => None,
        }
    }
}

} // verus!
