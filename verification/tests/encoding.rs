use mint_api::amount::{Amount, BitcoinAmount};
use mint_api::coins::{BlindToken, Coin, Coins};
use mint_api::encoding::{append_bytes, decode_exact, encode_to_vec, Decodable, DecodeError, Encodable};
use mint_api::hash::TransactionId;
use mint_api::keys::{BlindSignature, BlindedMessage, PubKey, Sig};

fn coin(n: u8) -> Coin {
    Coin { spend_key: PubKey([n; 32]), signature: BlindSignature([n.wrapping_add(1); 48]) }
}

fn amount(milli_sat: u64) -> Amount {
    Amount::from_msat(milli_sat)
}

#[test]
fn u64_is_little_endian_on_eight_bytes() {
    assert_eq!(
        encode_to_vec(&0x0102_0304_0506_0708u64),
        vec![0x08, 0x07, 0x06, 0x05, 0x04, 0x03, 0x02, 0x01]
    );
    let mut writer = vec![0xAAu8];
    let written = 1u64.consensus_encode(&mut writer);
    assert_eq!(written, 8);
    assert_eq!(writer, vec![0xAA, 1, 0, 0, 0, 0, 0, 0, 0]);
}

#[test]
fn u32_is_little_endian_on_four_bytes() {
    assert_eq!(encode_to_vec(&0x0102_0304u32), vec![0x04, 0x03, 0x02, 0x01]);
    assert_eq!(decode_exact::<u32>(&[0x04, 0x03, 0x02, 0x01]), Ok(0x0102_0304u32));
}

#[test]
fn integers_round_trip() {
    for value in [0u64, 1, 255, 256, 1000, u64::MAX] {
        let bytes = encode_to_vec(&value);
        assert_eq!(decode_exact::<u64>(&bytes), Ok(value));
        assert_eq!(u64::consensus_decode(&bytes, 0), Ok((value, 8)));
    }
    for value in [0u32, 1, 65_536, u32::MAX] {
        assert_eq!(decode_exact::<u32>(&encode_to_vec(&value)), Ok(value));
    }
}

#[test]
fn decoding_starts_where_it_is_told_and_reports_the_end() {
    let bytes = [0xFF, 0xFF, 7, 0, 0, 0, 0, 0, 0, 0, 0xEE];
    assert_eq!(u64::consensus_decode(&bytes, 2), Ok((7, 10)));
}

#[test]
fn truncated_integer_is_rejected() {
    let error = decode_exact::<u64>(&[1, 2, 3, 4, 5, 6, 7]).unwrap_err();
    assert_eq!(error, DecodeError::from_str("input ends inside an integer"));
    assert_eq!(error.message(), "input ends inside an integer");
    assert!(u64::consensus_decode(&[0; 8], 1).is_err());
    assert!(u32::consensus_decode(&[0; 3], 0).is_err());
}

#[test]
fn left_over_bytes_are_rejected_by_exact_decoding() {
    let error = decode_exact::<u64>(&[0; 9]).unwrap_err();
    assert_eq!(error.message(), "bytes are left over behind the value");
}

#[test]
fn sequence_is_count_then_items() {
    let items: Vec<u64> = vec![1, 2];
    assert_eq!(
        encode_to_vec(&items),
        vec![2, 0, 0, 0, 0, 0, 0, 0, 1, 0, 0, 0, 0, 0, 0, 0, 2, 0, 0, 0, 0, 0, 0, 0]
    );
    let mut writer = Vec::new();
    assert_eq!(items.as_slice().consensus_encode(&mut writer), 24);
    assert_eq!(writer, encode_to_vec(&items));
    let empty: Vec<u64> = Vec::new();
    assert_eq!(encode_to_vec(&empty), vec![0; 8]);
}

#[test]
fn sequences_round_trip() {
    let items: Vec<u64> = vec![3, 0, u64::MAX];
    assert_eq!(decode_exact::<Vec<u64>>(&encode_to_vec(&items)), Ok(items));
    let nested: Vec<Vec<u64>> = vec![vec![], vec![1], vec![2, 3]];
    assert_eq!(decode_exact::<Vec<Vec<u64>>>(&encode_to_vec(&nested)), Ok(nested));
}

#[test]
fn length_prefix_beyond_the_input_is_rejected() {
    let mut bytes = encode_to_vec(&vec![1u64, 2]);
    bytes.truncate(20);
    assert!(decode_exact::<Vec<u64>>(&bytes).is_err());
    let huge = encode_to_vec(&u64::MAX);
    assert!(decode_exact::<Vec<u64>>(&huge).is_err());
    assert!(decode_exact::<Vec<u64>>(&[1, 0, 0]).is_err());
}

#[test]
fn pair_is_first_then_second() {
    let pair = (1u64, 2u32);
    assert_eq!(encode_to_vec(&pair), vec![1, 0, 0, 0, 0, 0, 0, 0, 2, 0, 0, 0]);
    assert_eq!(decode_exact::<(u64, u32)>(&encode_to_vec(&pair)), Ok(pair));
    assert!(decode_exact::<(u64, u32)>(&[1, 0, 0, 0, 0, 0, 0, 0, 2, 0, 0]).is_err());
    assert!(decode_exact::<(u64, u32)>(&[1, 0, 0]).is_err());
}

#[test]
fn fixed_size_values_are_their_bytes() {
    let key = PubKey([9; 32]);
    assert_eq!(encode_to_vec(&key), vec![9; 32]);
    assert_eq!(decode_exact::<PubKey>(&[9; 32]), Ok(key));
    let signature = Sig([4; 64]);
    assert_eq!(encode_to_vec(&signature), vec![4; 64]);
    assert_eq!(decode_exact::<Sig>(&[4; 64]), Ok(signature));
    let id = TransactionId([1; 32]);
    assert_eq!(decode_exact::<TransactionId>(&encode_to_vec(&id)), Ok(id));
    assert_eq!(id.into_inner(), [1; 32]);
    let array = [1u8, 2, 3];
    assert_eq!(encode_to_vec(&array), vec![1, 2, 3]);
    assert_eq!(<[u8; 3]>::consensus_decode(&[0, 1, 2, 3, 4], 1), Ok(([1, 2, 3], 4)));
}

#[test]
fn truncated_fixed_size_value_is_rejected() {
    let error = decode_exact::<PubKey>(&[9; 31]).unwrap_err();
    assert_eq!(error.message(), "input ends inside a fixed-size value");
    assert!(decode_exact::<Sig>(&[0; 63]).is_err());
}

#[test]
fn blind_token_is_forty_eight_bytes() {
    let token = BlindToken(BlindedMessage([0xAB; 48]));
    let mut writer = Vec::new();
    assert_eq!(token.consensus_encode(&mut writer), 48);
    assert_eq!(writer, vec![0xAB; 48]);
    assert_eq!(decode_exact::<BlindToken>(&writer), Ok(token));
    assert!(decode_exact::<BlindToken>(&[0xAB; 47]).is_err());
    assert!(decode_exact::<BlindToken>(&[0xAB; 49]).is_err());
}

#[test]
fn coin_is_key_then_signature() {
    let held = coin(5);
    let mut expected = vec![5u8; 32];
    expected.extend_from_slice(&[6u8; 48]);
    assert_eq!(encode_to_vec(&held), expected);
    assert_eq!(decode_exact::<Coin>(&expected), Ok(held));
    assert_eq!(*held.spend_key(), PubKey([5; 32]));
}

#[test]
fn amounts_are_their_count_as_u64() {
    assert_eq!(encode_to_vec(&amount(1000)), vec![0xE8, 0x03, 0, 0, 0, 0, 0, 0]);
    assert_eq!(decode_exact::<Amount>(&[0xE8, 0x03, 0, 0, 0, 0, 0, 0]), Ok(amount(1000)));
    let sat = BitcoinAmount::from_sat(5);
    assert_eq!(sat.as_sat(), 5);
    assert_eq!(encode_to_vec(&sat), vec![5, 0, 0, 0, 0, 0, 0, 0]);
    assert_eq!(decode_exact::<BitcoinAmount>(&[5, 0, 0, 0, 0, 0, 0, 0]), Ok(sat));
}

#[test]
fn bundle_is_tiers_in_ascending_order() {
    let bundle = Coins::from_tiers(vec![(amount(1), vec![coin(1)]), (amount(8), vec![coin(2), coin(3)])])
        .unwrap();
    let bytes = encode_to_vec(&bundle);
    assert_eq!(bytes.len(), 8 + (8 + 8 + 80) + (8 + 8 + 160));
    assert_eq!(&bytes[..8], &[2, 0, 0, 0, 0, 0, 0, 0]);
    assert_eq!(&bytes[8..16], &[1, 0, 0, 0, 0, 0, 0, 0]);
    assert_eq!(&bytes[16..24], &[1, 0, 0, 0, 0, 0, 0, 0]);
    assert_eq!(&bytes[104..112], &[8, 0, 0, 0, 0, 0, 0, 0]);
    assert_eq!(&bytes[112..120], &[2, 0, 0, 0, 0, 0, 0, 0]);
    assert_eq!(decode_exact::<Coins<Coin>>(&bytes), Ok(bundle));
}

#[test]
fn bundle_with_tiers_out_of_order_is_rejected() {
    assert!(Coins::from_tiers(vec![(amount(8), vec![coin(1)]), (amount(1), vec![coin(2)])]).is_none());
    assert!(Coins::from_tiers(vec![(amount(8), vec![coin(1)]), (amount(8), vec![coin(2)])]).is_none());
    let unordered = vec![(amount(8), vec![coin(1)]), (amount(1), vec![coin(2)])];
    let error = decode_exact::<Coins<Coin>>(&encode_to_vec(&unordered)).unwrap_err();
    assert_eq!(error.message(), "the tiers of a bundle do not ascend");
    let empty: Coins<Coin> = Coins::new();
    assert_eq!(encode_to_vec(&empty), vec![0; 8]);
    assert_eq!(empty.tiers().len(), 0);
}

#[test]
fn encoding_twice_gives_the_same_bytes() {
    let bundle = Coins::from_tiers(vec![(amount(2), vec![coin(1), coin(2)])]).unwrap();
    let copy = bundle.clone();
    assert_eq!(encode_to_vec(&bundle), encode_to_vec(&bundle));
    assert_eq!(encode_to_vec(&bundle), encode_to_vec(&copy));
}

#[test]
fn append_bytes_appends() {
    let mut writer = vec![1u8];
    assert_eq!(append_bytes(&mut writer, &[2, 3]), 2);
    assert_eq!(writer, vec![1, 2, 3]);
}
