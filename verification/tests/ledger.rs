use mint_api::encoding::{decode_exact, encode_to_vec, Decodable, Encodable};
use mint_api::keys::PubKey;
use mint_api::ledger::{BitcoinTransaction, BlockHeader, PartialMerkleTree, Script};
use mint_api::pegin::{PegInProof, TxOutProof};

fn script_bytes(raw: &[u8]) -> Vec<u8> {
    bitcoin::consensus::encode::serialize(&bitcoin::Script::from(raw.to_vec()))
}

fn transaction_bytes(values: &[u64]) -> Vec<u8> {
    let transaction = bitcoin::Transaction {
        version: 2,
        lock_time: 0,
        input: vec![bitcoin::TxIn::default()],
        output: values
            .iter()
            .map(|value| bitcoin::TxOut { value: *value, script_pubkey: bitcoin::Script::new() })
            .collect(),
    };
    bitcoin::consensus::encode::serialize(&transaction)
}

fn merkle_tree_bytes() -> Vec<u8> {
    vec![1, 0, 0, 0, 1, 7, 7, 7, 7, 7, 7, 7, 7, 7, 7, 7, 7, 7, 7, 7, 7, 7, 7, 7, 7, 7, 7, 7, 7, 7, 7, 7, 7, 7, 7, 7, 7, 1, 1]
}

fn proof_of(values: &[u64], index: u32) -> Option<PegInProof> {
    let txout_proof = TxOutProof {
        block_header: decode_exact::<BlockHeader>(&[3; 80]).unwrap(),
        merkle_proof: decode_exact::<PartialMerkleTree>(&merkle_tree_bytes()).unwrap(),
    };
    let transaction = decode_exact::<BitcoinTransaction>(&transaction_bytes(values)).unwrap();
    PegInProof::new(txout_proof, transaction, index, PubKey([9; 32]))
}

#[test]
fn block_header_is_eighty_bytes() {
    let mut bytes = vec![3u8; 80];
    bytes.extend_from_slice(&[0xEE, 0xEE]);
    let (header, end) = BlockHeader::consensus_decode(&bytes, 0).unwrap();
    assert_eq!(end, 80);
    assert_eq!(header.consensus_bytes(), &vec![3u8; 80]);
    assert_eq!(encode_to_vec(&header), vec![3u8; 80]);
    assert!(decode_exact::<BlockHeader>(&[3; 79]).is_err());
    assert!(decode_exact::<BlockHeader>(&[3; 81]).is_err());
}

#[test]
fn block_header_agrees_with_the_bitcoin_crate() {
    let header: bitcoin::BlockHeader = bitcoin::consensus::encode::deserialize(&[3; 80]).unwrap();
    let held = decode_exact::<BlockHeader>(&bitcoin::consensus::encode::serialize(&header)).unwrap();
    assert_eq!(encode_to_vec(&held), bitcoin::consensus::encode::serialize(&header));
}

#[test]
fn script_ends_where_its_length_prefix_says() {
    let mut bytes = script_bytes(&[0x51, 0x52]);
    assert_eq!(bytes, vec![2, 0x51, 0x52]);
    bytes.push(0xEE);
    let (script, end) = Script::consensus_decode(&bytes, 0).unwrap();
    assert_eq!(end, 3);
    assert_eq!(script.consensus_bytes(), &vec![2, 0x51, 0x52]);
    let mut writer = vec![0xAA];
    assert_eq!(script.consensus_encode(&mut writer), 3);
    assert_eq!(writer, vec![0xAA, 2, 0x51, 0x52]);
    let (again, end) = Script::consensus_decode(&writer, 1).unwrap();
    assert_eq!((again, end), (script, 4));
}

#[test]
fn script_that_is_cut_short_is_rejected() {
    let error = decode_exact::<Script>(&[5, 0x51]).unwrap_err();
    assert!(!error.message().is_empty());
    assert!(decode_exact::<Script>(&[]).is_err());
}

#[test]
fn script_with_a_padded_length_prefix_is_rejected() {
    let error = decode_exact::<Script>(&[0xFD, 0x01, 0x00, 0x51]).unwrap_err();
    assert_eq!(error.message(), "non-minimal varint");
}

#[test]
fn transaction_round_trips_through_its_bytes() {
    let bytes = transaction_bytes(&[1000, 2000]);
    let mut longer = bytes.clone();
    longer.extend_from_slice(&[0xEE; 5]);
    let (transaction, end) = BitcoinTransaction::consensus_decode(&longer, 0).unwrap();
    assert_eq!(end, bytes.len());
    assert_eq!(encode_to_vec(&transaction), bytes);
    assert_eq!(decode_exact::<BitcoinTransaction>(&bytes), Ok(transaction));
    assert!(decode_exact::<BitcoinTransaction>(&bytes[..bytes.len() - 1]).is_err());
}

#[test]
fn transaction_hands_out_the_values_of_its_outputs() {
    let transaction = decode_exact::<BitcoinTransaction>(&transaction_bytes(&[1000, 2000])).unwrap();
    assert_eq!(transaction.output_value(0).map(|v| v.as_sat()), Some(1000));
    assert_eq!(transaction.output_value(1).map(|v| v.as_sat()), Some(2000));
    assert_eq!(transaction.output_value(2), None);
}

#[test]
fn merkle_tree_round_trips_through_its_bytes() {
    let bytes = merkle_tree_bytes();
    let tree: bitcoin::util::merkleblock::PartialMerkleTree =
        bitcoin::consensus::encode::deserialize(&bytes).unwrap();
    assert_eq!(bitcoin::consensus::encode::serialize(&tree), bytes);
    let mut longer = bytes.clone();
    longer.push(0xEE);
    let (held, end) = PartialMerkleTree::consensus_decode(&longer, 0).unwrap();
    assert_eq!(end, bytes.len());
    assert_eq!(encode_to_vec(&held), bytes);
    assert!(decode_exact::<PartialMerkleTree>(&bytes[..10]).is_err());
}

#[test]
fn peg_in_proof_records_the_value_of_its_output() {
    let proof = proof_of(&[1000, 2000], 1).unwrap();
    assert_eq!(proof.tx_output_value().as_sat(), 2000);
    assert_eq!(proof.output_idx(), 1);
    assert_eq!(*proof.tweak_contract_key(), PubKey([9; 32]));
    assert_eq!(encode_to_vec(proof.transaction()), transaction_bytes(&[1000, 2000]));
    assert_eq!(encode_to_vec(&proof.txout_proof().block_header), vec![3; 80]);
    assert!(proof_of(&[1000, 2000], 2).is_none());
}

#[test]
fn peg_in_proof_is_its_parts_in_order() {
    let proof = proof_of(&[1000], 0).unwrap();
    let mut expected = vec![3u8; 80];
    expected.extend_from_slice(&merkle_tree_bytes());
    expected.extend_from_slice(&transaction_bytes(&[1000]));
    expected.extend_from_slice(&[0, 0, 0, 0]);
    expected.extend_from_slice(&[9; 32]);
    assert_eq!(encode_to_vec(&proof), expected);
    assert_eq!(decode_exact::<PegInProof>(&expected), Ok(proof));
}

#[test]
fn peg_in_proof_that_names_a_missing_output_is_rejected() {
    let mut bytes = encode_to_vec(&proof_of(&[1000], 0).unwrap());
    let index_at = bytes.len() - 36;
    bytes[index_at] = 1;
    let error = decode_exact::<PegInProof>(&bytes).unwrap_err();
    assert_eq!(error.message(), "a peg-in proof names an output that is not there");
}

#[test]
fn address_resolves_to_the_script_that_pays_it() {
    let script = Script::of_address("1BvBMSEYstWetqTFn5Au4m4GFg7xJaNVN2").unwrap();
    let bytes = script.consensus_bytes();
    assert_eq!(bytes.len(), 26);
    assert_eq!(&bytes[..4], &[25, 0x76, 0xA9, 20]);
    assert_eq!(&bytes[24..], &[0x88, 0xAC]);
    let address: bitcoin::Address = "1BvBMSEYstWetqTFn5Au4m4GFg7xJaNVN2".parse().unwrap();
    assert_eq!(bytes, &bitcoin::consensus::encode::serialize(&address.script_pubkey()));
}

#[test]
fn notations_of_one_address_resolve_to_one_script() {
    let lower = Script::of_address("bc1qw508d6qejxtdg4y5r3zarvary0c5xw7kv8f3t4").unwrap();
    let upper = Script::of_address("BC1QW508D6QEJXTDG4Y5R3ZARVARY0C5XW7KV8F3T4").unwrap();
    assert_eq!(lower, upper);
    assert_eq!(
        lower.consensus_bytes(),
        &vec![
            22, 0x00, 20, 0x75, 0x1e, 0x76, 0xe8, 0x19, 0x91, 0x96, 0xd4, 0x54, 0x94, 0x1c, 0x45,
            0xd1, 0xb3, 0xa3, 0x23, 0xf1, 0x43, 0x3b, 0xd6
        ]
    );
}

#[test]
fn text_that_is_no_address_resolves_to_nothing() {
    assert_eq!(Script::of_address(""), None);
    assert_eq!(Script::of_address("not an address"), None);
    assert_eq!(Script::of_address("1BvBMSEYstWetqTFn5Au4m4GFg7xJaNVN3"), None);
}
