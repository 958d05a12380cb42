use mint_api::amount::{Amount, BitcoinAmount};
use mint_api::coins::{BlindToken, Coin, Coins};
use mint_api::encoding::{decode_exact, encode_to_vec, round_trip, Decodable, Encodable};
use mint_api::hash::TransactionId;
use mint_api::keys::{BlindSignature, BlindedMessage, PubKey, Sig};
use mint_api::ledger::{BitcoinTransaction, BlockHeader, PartialMerkleTree, Script};
use mint_api::pegin::{PegInProof, TxOutProof};
use mint_api::transaction::{Input, OutPoint, Output, PegOut, Transaction};

fn coin(n: u8) -> Coin {
    Coin { spend_key: PubKey([n; 32]), signature: BlindSignature([n; 48]) }
}

fn token(n: u8) -> BlindToken {
    BlindToken(BlindedMessage([n; 48]))
}

fn coins_input(tier: u64, n: u8) -> Input {
    Input::Coins(Coins::from_tiers(vec![(Amount::from_msat(tier), vec![coin(n)])]).unwrap())
}

fn coins_output(tier: u64, n: u8) -> Output {
    Output::Coins(Coins::from_tiers(vec![(Amount::from_msat(tier), vec![token(n)])]).unwrap())
}

fn peg_in() -> Input {
    let transaction = bitcoin::Transaction {
        version: 2,
        lock_time: 0,
        input: vec![bitcoin::TxIn::default()],
        output: vec![bitcoin::TxOut { value: 7, script_pubkey: bitcoin::Script::new() }],
    };
    let txout_proof = TxOutProof {
        block_header: decode_exact::<BlockHeader>(&[3; 80]).unwrap(),
        merkle_proof: decode_exact::<PartialMerkleTree>(&[0, 0, 0, 0, 0, 0]).unwrap(),
    };
    let held =
        decode_exact::<BitcoinTransaction>(&bitcoin::consensus::encode::serialize(&transaction))
            .unwrap();
    Input::PegIn(PegInProof::new(txout_proof, held, 0, PubKey([9; 32])).unwrap())
}

fn peg_out(sat: u64) -> Output {
    Output::PegOut(PegOut {
        recipient: decode_exact::<Script>(&[1, 0x51]).unwrap(),
        amount: BitcoinAmount::from_sat(sat),
    })
}

fn transaction() -> Transaction {
    Transaction {
        inputs: vec![coins_input(1000, 1), peg_in()],
        outputs: vec![coins_output(500, 2), peg_out(3)],
        signature: Sig([5; 64]),
    }
}

#[test]
fn coins_input_starts_with_zero() {
    let bytes = encode_to_vec(&coins_input(1000, 1));
    assert_eq!(bytes[0], 0x00);
    assert_eq!(bytes.len(), 1 + 8 + 8 + 8 + 80);
    assert_eq!(&bytes[1..9], &[1, 0, 0, 0, 0, 0, 0, 0]);
    assert_eq!(&bytes[9..17], &[0xE8, 0x03, 0, 0, 0, 0, 0, 0]);
}

#[test]
fn peg_in_input_starts_with_one() {
    let input = peg_in();
    let bytes = encode_to_vec(&input);
    assert_eq!(bytes[0], 0x01);
    assert_eq!(&bytes[1..81], &[3; 80]);
    let mut writer = vec![0xAA];
    assert_eq!(input.consensus_encode(&mut writer), bytes.len());
    assert_eq!(&writer[1..], &bytes[..]);
}

#[test]
fn coins_output_starts_with_zero() {
    let bytes = encode_to_vec(&coins_output(500, 2));
    assert_eq!(bytes[0], 0x00);
    assert_eq!(bytes.len(), 1 + 8 + 8 + 8 + 48);
    assert_eq!(&bytes[25..], &[2; 48]);
}

#[test]
fn peg_out_output_is_script_then_satoshi() {
    let bytes = encode_to_vec(&peg_out(258));
    assert_eq!(bytes, vec![0x01, 1, 0x51, 2, 1, 0, 0, 0, 0, 0, 0]);
    let request = PegOut {
        recipient: decode_exact::<Script>(&[1, 0x51]).unwrap(),
        amount: BitcoinAmount::from_sat(258),
    };
    assert_eq!(encode_to_vec(&request), vec![1, 0x51, 2, 1, 0, 0, 0, 0, 0, 0]);
    assert_eq!(decode_exact::<PegOut>(&[1, 0x51, 2, 1, 0, 0, 0, 0, 0, 0]), Ok(request));
}

#[test]
fn recipient_is_encoded_as_its_output_script() {
    let address: bitcoin::Address = "1BvBMSEYstWetqTFn5Au4m4GFg7xJaNVN2".parse().unwrap();
    let script = bitcoin::consensus::encode::serialize(&address.script_pubkey());
    let request = PegOut {
        recipient: decode_exact::<Script>(&script).unwrap(),
        amount: BitcoinAmount::from_sat(1),
    };
    let mut expected = script.clone();
    expected.extend_from_slice(&[1, 0, 0, 0, 0, 0, 0, 0]);
    assert_eq!(script.len(), 26);
    assert_eq!(encode_to_vec(&request), expected);
}

#[test]
fn inputs_round_trip() {
    for input in [coins_input(1000, 1), peg_in(), Input::Coins(Coins::new())] {
        let bytes = encode_to_vec(&input);
        assert_eq!(decode_exact::<Input>(&bytes), Ok(input.clone()));
        let mut longer = bytes.clone();
        longer.extend_from_slice(&[0xEE; 3]);
        assert_eq!(Input::consensus_decode(&longer, 0), Ok((input, bytes.len())));
    }
}

#[test]
fn outputs_round_trip() {
    for output in [coins_output(500, 2), peg_out(3), Output::Coins(Coins::new())] {
        let bytes = encode_to_vec(&output);
        assert_eq!(decode_exact::<Output>(&bytes), Ok(output.clone()));
        let mut longer = bytes.clone();
        longer.extend_from_slice(&[0xEE; 3]);
        assert_eq!(Output::consensus_decode(&longer, 0), Ok((output, bytes.len())));
    }
}

#[test]
fn transaction_round_trips() {
    let held = transaction();
    let bytes = encode_to_vec(&held);
    assert_eq!(&bytes[bytes.len() - 64..], &[5; 64]);
    assert_eq!(decode_exact::<Transaction>(&bytes), Ok(held));
    assert!(decode_exact::<Transaction>(&bytes[..bytes.len() - 1]).is_err());
}

#[test]
fn transaction_encodes_the_same_each_time() {
    assert_eq!(encode_to_vec(&transaction()), encode_to_vec(&transaction()));
}

#[test]
fn unknown_input_discriminant_is_rejected() {
    let mut bytes = encode_to_vec(&coins_input(1000, 1));
    for tag in [0x02u8, 0x7F, 0xFF] {
        bytes[0] = tag;
        let error = decode_exact::<Input>(&bytes).unwrap_err();
        assert_eq!(error.message(), "unknown discriminant of an input");
    }
    assert_eq!(decode_exact::<Input>(&[]).unwrap_err().message(), "input ends before an input");
}

#[test]
fn unknown_output_discriminant_is_rejected() {
    let mut bytes = encode_to_vec(&peg_out(3));
    for tag in [0x02u8, 0x7F, 0xFF] {
        bytes[0] = tag;
        let error = decode_exact::<Output>(&bytes).unwrap_err();
        assert_eq!(error.message(), "unknown discriminant of an output");
    }
    assert_eq!(decode_exact::<Output>(&[]).unwrap_err().message(), "input ends before an output");
}

#[test]
fn discriminant_decides_the_variant() {
    let mut bytes = encode_to_vec(&coins_input(1000, 1));
    bytes[0] = 0x01;
    assert!(decode_exact::<Input>(&bytes).is_err());
    let mut bytes = encode_to_vec(&peg_out(3));
    bytes[0] = 0x00;
    assert!(decode_exact::<Output>(&bytes).is_err());
}

#[test]
fn out_point_holds_transaction_and_index() {
    let point = OutPoint { txid: TransactionId([1; 32]), out_idx: 4 };
    assert_eq!(point, OutPoint { txid: TransactionId([1; 32]), out_idx: 4 });
    assert_ne!(point, OutPoint { txid: TransactionId([1; 32]), out_idx: 5 });
}

#[test]
fn round_trip_gives_the_value_back() {
    assert_eq!(round_trip(&transaction()), transaction());
    assert_eq!(round_trip(&peg_in()), peg_in());
    assert_eq!(round_trip(&peg_out(9)), peg_out(9));
    assert_eq!(round_trip(&7u64), 7);
}
