//! The transaction model: inputs, outputs, and the transaction that binds
//! them under one aggregate signature.

use vstd::prelude::*;
use crate::amount::BitcoinAmount;
use crate::coins::{BlindToken, Coin, Coins};
use crate::encoding::{decode_outcome, lemma_prefix_split, Decodable, DecodeError, Encodable};
use crate::hash::TransactionId;
use crate::keys::Sig;
use crate::ledger::Script;
use crate::pegin::{PegInModel, PegInProof};

pub use crate::funding::{TransactionError, TransactionItem};

verus! {

/// An atomic transfer: it is valid only if its inputs fund its outputs and
/// fees, and its signature verifies over its inputs and outputs.
#[derive(Clone, Debug, PartialEq, Eq, Hash)]
pub struct Transaction {
    pub inputs: Vec<Input>,
    pub outputs: Vec<Output>,
    pub signature: Sig,
}

/// One funding source of a transaction.
#[derive(Clone, Debug, PartialEq, Eq, Hash)]
pub enum Input {
    /// Coins that are spent.
    Coins(Coins<Coin>),
    /// Bitcoin that was locked into the federation's contract.
    PegIn(PegInProof),
}

/// One funding destination of a transaction.
#[derive(Clone, Debug, PartialEq, Eq, Hash)]
pub enum Output {
    /// Blind tokens for the coins that are to be issued.
    Coins(Coins<BlindToken>),
    /// Bitcoin that is to be released.
    PegOut(PegOut),
}

/// A request to release bitcoin. The recipient is held as the output script
/// that pays them, whatever the notation of their address.
#[derive(Clone, Debug, PartialEq, Eq, Hash)]
pub struct PegOut {
    pub recipient: Script,
    pub amount: BitcoinAmount,
}

/// An output of a transaction of the mint.
#[derive(Clone, Copy, Debug, PartialEq, Eq, Hash)]
pub struct OutPoint {
    pub txid: TransactionId,
    pub out_idx: usize,
}

/// The logical value of an input.
pub enum InputModel {
    Coins(Seq<(u64, Seq<(Seq<u8>, Seq<u8>)>)>),
    PegIn(PegInModel),
}

/// The logical value of an output.
pub enum OutputModel {
    Coins(Seq<(u64, Seq<Seq<u8>>)>),
    PegOut((Seq<u8>, u64)),
}

/// The logical value of a transaction: inputs, outputs, signature.
pub type TransactionModel = ((Seq<InputModel>, Seq<OutputModel>), Seq<u8>);

/// The byte that stands before the payload of a coins input or output.
pub const TAG_COINS: u8 = 0x00;

/// The byte that stands before the payload of a peg-in or a peg-out.
pub const TAG_PEG: u8 = 0x01;

impl DeepView for PegOut {
    type V = (Seq<u8>, u64);

    open spec fn deep_view(&self) -> (Seq<u8>, u64) {
        (self.recipient.deep_view(), self.amount.deep_view())
    }
}

impl Encodable for PegOut {
    open spec fn encoding(v: (Seq<u8>, u64)) -> Seq<u8> {
        <(Script, BitcoinAmount)>::encoding(v)
    }

    open spec fn canonical(v: (Seq<u8>, u64)) -> bool {
        <(Script, BitcoinAmount)>::canonical(v)
    }

    fn consensus_encode(&self, writer: &mut Vec<u8>) -> (written: usize) {
        let before = writer.len();
        self.recipient.consensus_encode(writer);
        self.amount.consensus_encode(writer);
        assert(writer@ =~= old(writer)@ + Self::encoding(self.deep_view()));
        writer.len() - before
    }
}

impl Decodable for PegOut {
    proof fn lemma_unambiguous(a: (Seq<u8>, u64), b: (Seq<u8>, u64), s: Seq<u8>) {
        <(Script, BitcoinAmount)>::lemma_unambiguous(a, b, s);
    }

    fn consensus_decode(bytes: &[u8], start: usize) -> (r: Result<(Self, usize), DecodeError>) {
        match <(Script, BitcoinAmount)>::consensus_decode(bytes, start) {
            Ok(((recipient, amount), end)) => Ok((PegOut { recipient, amount }, end)),
            Err(e) => Err(e),
        }
    }
}

impl DeepView for Input {
    type V = InputModel;

    open spec fn deep_view(&self) -> InputModel {
        match self {
            Input::Coins(coins) => InputModel::Coins(coins.deep_view()),
            Input::PegIn(proof) => InputModel::PegIn(proof.deep_view()),
        }
    }
}

impl Encodable for Input {
    open spec fn encoding(v: InputModel) -> Seq<u8> {
        match v {
            InputModel::Coins(coins) => seq![TAG_COINS] + Coins::<Coin>::encoding(coins),
            InputModel::PegIn(proof) => seq![TAG_PEG] + PegInProof::encoding(proof),
        }
    }

    open spec fn canonical(v: InputModel) -> bool {
        match v {
            InputModel::Coins(coins) => Coins::<Coin>::canonical(coins),
            InputModel::PegIn(proof) => PegInProof::canonical(proof),
        }
    }

    fn consensus_encode(&self, writer: &mut Vec<u8>) -> (written: usize) {
        let before = writer.len();
        match self {
            Input::Coins(coins) => {
                writer.push(TAG_COINS);
                coins.consensus_encode(writer);
                assert(writer@ =~= old(writer)@ + Self::encoding(self.deep_view()));
                writer.len() - before
            },
            Input::PegIn(proof) => {
                writer.push(TAG_PEG);
                proof.consensus_encode(writer);
                assert(writer@ =~= old(writer)@ + Self::encoding(self.deep_view()));
                writer.len() - before
            },
        }
    }
}

impl Decodable for Input {
    proof fn lemma_unambiguous(a: InputModel, b: InputModel, s: Seq<u8>) {
        lemma_input_payload(a, s);
        lemma_input_payload(b, s);
        match (a, b) {
            (InputModel::Coins(x), InputModel::Coins(y)) => {
                Coins::<Coin>::lemma_unambiguous(x, y, s.skip(1));
            },
            (InputModel::PegIn(x), InputModel::PegIn(y)) => {
                PegInProof::lemma_unambiguous(x, y, s.skip(1));
            },
            _ => {},
        }
    }

    fn consensus_decode(bytes: &[u8], start: usize) -> (r: Result<(Self, usize), DecodeError>) {
        let ghost s = bytes@.skip(start as int);
        proof {
            assert forall|v: InputModel| #[trigger] Self::encoding(v).is_prefix_of(s) implies {
                &&& s.len() > 0
                &&& v is Coins ==> s[0] == TAG_COINS && Coins::<Coin>::encoding(
                    v->Coins_0,
                ).is_prefix_of(s.skip(1))
                &&& v is PegIn ==> s[0] == TAG_PEG && PegInProof::encoding(
                    v->PegIn_0,
                ).is_prefix_of(s.skip(1))
            } by {
                lemma_input_payload(v, s);
            }
        }
        if start >= bytes.len() {
            return Err(DecodeError::from_str("input ends before an input"));
        }
        let tag = bytes[start];
        assert(s.skip(1) =~= bytes@.skip(start + 1));
        if tag == TAG_COINS {
            match Coins::<Coin>::consensus_decode(bytes, start + 1) {
                Ok((coins, end)) => {
                    assert(bytes@.subrange(start as int, end as int) =~= seq![TAG_COINS]
                        + bytes@.subrange(start + 1, end as int));
                    Ok((Input::Coins(coins), end))
                },
                Err(e) => Err(e),
            }
        } else if tag == TAG_PEG {
            match PegInProof::consensus_decode(bytes, start + 1) {
                Ok((proof, end)) => {
                    assert(bytes@.subrange(start as int, end as int) =~= seq![TAG_PEG]
                        + bytes@.subrange(start + 1, end as int));
                    Ok((Input::PegIn(proof), end))
                },
                Err(e) => Err(e),
            }
        } else {
            Err(DecodeError::from_str("unknown discriminant of an input"))
        }
    }
}

/// Where the encoding of an input stands at the start of `s`, the first byte
/// of `s` is the input's discriminant and its payload follows.
pub proof fn lemma_input_payload(v: InputModel, s: Seq<u8>)
    requires
        Input::encoding(v).is_prefix_of(s),
    ensures
        s.len() > 0,
        v is Coins ==> s[0] == TAG_COINS && Coins::<Coin>::encoding(v->Coins_0).is_prefix_of(
            s.skip(1),
        ),
        v is PegIn ==> s[0] == TAG_PEG && PegInProof::encoding(v->PegIn_0).is_prefix_of(s.skip(1)),
{
    match v {
        InputModel::Coins(coins) => {
            lemma_prefix_split(seq![TAG_COINS], Coins::<Coin>::encoding(coins), s);
            assert(seq![TAG_COINS] =~= s.subrange(0, 1));
            assert(seq![TAG_COINS][0] == s.subrange(0, 1)[0]);
        },
        InputModel::PegIn(proof) => {
            lemma_prefix_split(seq![TAG_PEG], PegInProof::encoding(proof), s);
            assert(seq![TAG_PEG] =~= s.subrange(0, 1));
            assert(seq![TAG_PEG][0] == s.subrange(0, 1)[0]);
        },
    }
}

impl DeepView for Output {
    type V = OutputModel;

    open spec fn deep_view(&self) -> OutputModel {
        match self {
            Output::Coins(coins) => OutputModel::Coins(coins.deep_view()),
            Output::PegOut(request) => OutputModel::PegOut(request.deep_view()),
        }
    }
}

impl Encodable for Output {
    open spec fn encoding(v: OutputModel) -> Seq<u8> {
        match v {
            OutputModel::Coins(coins) => seq![TAG_COINS] + Coins::<BlindToken>::encoding(coins),
            OutputModel::PegOut(request) => seq![TAG_PEG] + PegOut::encoding(request),
        }
    }

    open spec fn canonical(v: OutputModel) -> bool {
        match v {
            OutputModel::Coins(coins) => Coins::<BlindToken>::canonical(coins),
            OutputModel::PegOut(request) => PegOut::canonical(request),
        }
    }

    fn consensus_encode(&self, writer: &mut Vec<u8>) -> (written: usize) {
        let before = writer.len();
        match self {
            Output::Coins(coins) => {
                writer.push(TAG_COINS);
                coins.consensus_encode(writer);
                assert(writer@ =~= old(writer)@ + Self::encoding(self.deep_view()));
                writer.len() - before
            },
            Output::PegOut(request) => {
                writer.push(TAG_PEG);
                request.consensus_encode(writer);
                assert(writer@ =~= old(writer)@ + Self::encoding(self.deep_view()));
                writer.len() - before
            },
        }
    }
}

impl Decodable for Output {
    proof fn lemma_unambiguous(a: OutputModel, b: OutputModel, s: Seq<u8>) {
        lemma_output_payload(a, s);
        lemma_output_payload(b, s);
        match (a, b) {
            (OutputModel::Coins(x), OutputModel::Coins(y)) => {
                Coins::<BlindToken>::lemma_unambiguous(x, y, s.skip(1));
            },
            (OutputModel::PegOut(x), OutputModel::PegOut(y)) => {
                PegOut::lemma_unambiguous(x, y, s.skip(1));
            },
            _ => {},
        }
    }

    fn consensus_decode(bytes: &[u8], start: usize) -> (r: Result<(Self, usize), DecodeError>) {
        let ghost s = bytes@.skip(start as int);
        proof {
            assert forall|v: OutputModel| #[trigger] Self::encoding(v).is_prefix_of(s) implies {
                &&& s.len() > 0
                &&& v is Coins ==> s[0] == TAG_COINS && Coins::<BlindToken>::encoding(
                    v->Coins_0,
                ).is_prefix_of(s.skip(1))
                &&& v is PegOut ==> s[0] == TAG_PEG && PegOut::encoding(
                    v->PegOut_0,
                ).is_prefix_of(s.skip(1))
            } by {
                lemma_output_payload(v, s);
            }
        }
        if start >= bytes.len() {
            return Err(DecodeError::from_str("input ends before an output"));
        }
        let tag = bytes[start];
        assert(s.skip(1) =~= bytes@.skip(start + 1));
        if tag == TAG_COINS {
            match Coins::<BlindToken>::consensus_decode(bytes, start + 1) {
                Ok((coins, end)) => {
                    assert(bytes@.subrange(start as int, end as int) =~= seq![TAG_COINS]
                        + bytes@.subrange(start + 1, end as int));
                    Ok((Output::Coins(coins), end))
                },
                Err(e) => Err(e),
            }
        } else if tag == TAG_PEG {
            match PegOut::consensus_decode(bytes, start + 1) {
                Ok((request, end)) => {
                    assert(bytes@.subrange(start as int, end as int) =~= seq![TAG_PEG]
                        + bytes@.subrange(start + 1, end as int));
                    Ok((Output::PegOut(request), end))
                },
                Err(e) => Err(e),
            }
        } else {
            Err(DecodeError::from_str("unknown discriminant of an output"))
        }
    }
}

/// Where the encoding of an output stands at the start of `s`, the first byte
/// of `s` is the output's discriminant and its payload follows.
pub proof fn lemma_output_payload(v: OutputModel, s: Seq<u8>)
    requires
        Output::encoding(v).is_prefix_of(s),
    ensures
        s.len() > 0,
        v is Coins ==> s[0] == TAG_COINS && Coins::<BlindToken>::encoding(v->Coins_0).is_prefix_of(
            s.skip(1),
        ),
        v is PegOut ==> s[0] == TAG_PEG && PegOut::encoding(v->PegOut_0).is_prefix_of(s.skip(1)),
{
    match v {
        OutputModel::Coins(coins) => {
            lemma_prefix_split(seq![TAG_COINS], Coins::<BlindToken>::encoding(coins), s);
            assert(seq![TAG_COINS] =~= s.subrange(0, 1));
            assert(seq![TAG_COINS][0] == s.subrange(0, 1)[0]);
        },
        OutputModel::PegOut(request) => {
            lemma_prefix_split(seq![TAG_PEG], PegOut::encoding(request), s);
            assert(seq![TAG_PEG] =~= s.subrange(0, 1));
            assert(seq![TAG_PEG][0] == s.subrange(0, 1)[0]);
        },
    }
}


impl DeepView for Transaction {
    type V = TransactionModel;

    open spec fn deep_view(&self) -> TransactionModel {
        ((self.inputs.deep_view(), self.outputs.deep_view()), self.signature.deep_view())
    }
}

impl Encodable for Transaction {
    open spec fn encoding(v: TransactionModel) -> Seq<u8> {
        <((Vec<Input>, Vec<Output>), Sig)>::encoding(v)
    }

    open spec fn canonical(v: TransactionModel) -> bool {
        <((Vec<Input>, Vec<Output>), Sig)>::canonical(v)
    }

    fn consensus_encode(&self, writer: &mut Vec<u8>) -> (written: usize) {
        let before = writer.len();
        self.inputs.consensus_encode(writer);
        self.outputs.consensus_encode(writer);
        self.signature.consensus_encode(writer);
        assert(writer@ =~= old(writer)@ + Self::encoding(self.deep_view()));
        writer.len() - before
    }
}

impl Decodable for Transaction {
    proof fn lemma_unambiguous(a: TransactionModel, b: TransactionModel, s: Seq<u8>) {
        <((Vec<Input>, Vec<Output>), Sig)>::lemma_unambiguous(a, b, s);
    }

    fn consensus_decode(bytes: &[u8], start: usize) -> (r: Result<(Self, usize), DecodeError>) {
        match <((Vec<Input>, Vec<Output>), Sig)>::consensus_decode(bytes, start) {
            Ok((((inputs, outputs), signature), end)) => Ok(
                (Transaction { inputs, outputs, signature }, end),
            ),
            Err(e) => Err(e),
        }
    }
}

/// Discriminant rejection: bytes whose first byte is neither of the two
/// discriminants, or that are empty, start with the encoding of no input,
/// so decoding an input from them fails.
pub proof fn lemma_input_discriminant_rejected(
    bytes: Seq<u8>,
    start: int,
    r: Result<(Input, usize), DecodeError>,
)
    requires
        0 <= start <= bytes.len(),
        start < bytes.len() ==> bytes[start] != TAG_COINS && bytes[start] != TAG_PEG,
        decode_outcome::<Input>(bytes, start, r),
    ensures
        r is Err,
        forall|v: InputModel| !(#[trigger] Input::encoding(v)).is_prefix_of(bytes.skip(start)),
{
    let s = bytes.skip(start);
    assert forall|v: InputModel| !(#[trigger] Input::encoding(v)).is_prefix_of(s) by {
        if Input::encoding(v).is_prefix_of(s) {
            lemma_input_payload(v, s);
        }
    }
    if let Ok((found, end)) = r {
        let e = Input::encoding(found.deep_view());
        assert(e =~= s.subrange(0, e.len() as int));
        assert(e.is_prefix_of(s));
    }
}

/// Discriminant rejection: bytes whose first byte is neither of the two
/// discriminants, or that are empty, start with the encoding of no output,
/// so decoding an output from them fails.
pub proof fn lemma_output_discriminant_rejected(
    bytes: Seq<u8>,
    start: int,
    r: Result<(Output, usize), DecodeError>,
)
    requires
        0 <= start <= bytes.len(),
        start < bytes.len() ==> bytes[start] != TAG_COINS && bytes[start] != TAG_PEG,
        decode_outcome::<Output>(bytes, start, r),
    ensures
        r is Err,
        forall|v: OutputModel| !(#[trigger] Output::encoding(v)).is_prefix_of(bytes.skip(start)),
{
    let s = bytes.skip(start);
    assert forall|v: OutputModel| !(#[trigger] Output::encoding(v)).is_prefix_of(s) by {
        if Output::encoding(v).is_prefix_of(s) {
            lemma_output_payload(v, s);
        }
    }
    if let Ok((found, end)) = r {
        let e = Output::encoding(found.deep_view());
        assert(e =~= s.subrange(0, e.len() as int));
        assert(e.is_prefix_of(s));
    }
}

} // verus!
