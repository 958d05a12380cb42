use mint_api::amount::{Amount, BitcoinAmount, FeeConsensus};
use mint_api::coins::{BlindToken, Coin, Coins};
use mint_api::encoding::decode_exact;
use mint_api::funding::{FundingTotals, TransactionError, TransactionItem};
use mint_api::keys::{BlindSignature, BlindedMessage, PubKey, Sig};
use mint_api::ledger::{BitcoinTransaction, BlockHeader, PartialMerkleTree, Script};
use mint_api::pegin::{PegInProof, TxOutProof};
use mint_api::transaction::{Input, Output, PegOut, Transaction};

fn msat(milli_sat: u64) -> Amount {
    Amount::from_msat(milli_sat)
}

fn fees(coin: u64, peg_in: u64, peg_out: u64) -> FeeConsensus {
    FeeConsensus {
        fee_coin_spend_abs: msat(coin),
        fee_peg_in_abs: msat(peg_in),
        fee_peg_out_abs: msat(peg_out),
    }
}

fn coin(n: u8) -> Coin {
    Coin { spend_key: PubKey([n; 32]), signature: BlindSignature([n; 48]) }
}

fn token(n: u8) -> BlindToken {
    BlindToken(BlindedMessage([n; 48]))
}

fn coins_in(tiers: &[(u64, usize)]) -> Input {
    let tiers = tiers.iter().map(|(tier, count)| (msat(*tier), vec![coin(1); *count])).collect();
    Input::Coins(Coins::from_tiers(tiers).unwrap())
}

fn coins_out(tiers: &[(u64, usize)]) -> Output {
    let tiers = tiers.iter().map(|(tier, count)| (msat(*tier), vec![token(1); *count])).collect();
    Output::Coins(Coins::from_tiers(tiers).unwrap())
}

fn peg_in(sat: u64) -> Input {
    let transaction = bitcoin::Transaction {
        version: 2,
        lock_time: 0,
        input: vec![bitcoin::TxIn::default()],
        output: vec![bitcoin::TxOut { value: sat, script_pubkey: bitcoin::Script::new() }],
    };
    let txout_proof = TxOutProof {
        block_header: decode_exact::<BlockHeader>(&[3; 80]).unwrap(),
        merkle_proof: decode_exact::<PartialMerkleTree>(&[0, 0, 0, 0, 0, 0]).unwrap(),
    };
    let held =
        decode_exact::<BitcoinTransaction>(&bitcoin::consensus::encode::serialize(&transaction))
            .unwrap();
    Input::PegIn(PegInProof::new(txout_proof, held, 0, PubKey([9; 32])).unwrap())
}

fn peg_out(sat: u64) -> Output {
    Output::PegOut(PegOut {
        recipient: decode_exact::<Script>(&[1, 0x51]).unwrap(),
        amount: BitcoinAmount::from_sat(sat),
    })
}

fn transaction(inputs: Vec<Input>, outputs: Vec<Output>) -> Transaction {
    Transaction { inputs, outputs, signature: Sig([0; 64]) }
}

fn insufficient(inputs: u64, outputs: u64, fee: u64) -> Result<(), TransactionError> {
    Err(TransactionError::InsufficientlyFunded {
        inputs: msat(inputs),
        outputs: msat(outputs),
        fee: msat(fee),
    })
}

#[test]
fn a_satoshi_is_a_thousand_units() {
    assert_eq!(Amount::from_sat(1), msat(1000));
    assert_eq!(Amount::from_sat(21), msat(21_000));
    assert_eq!(Amount::checked_from_sat(3), Some(msat(3000)));
    assert_eq!(Amount::checked_from_sat(u64::MAX / 1000), Some(msat(u64::MAX / 1000 * 1000)));
    assert_eq!(Amount::checked_from_sat(u64::MAX / 1000 + 1), None);
    assert_eq!(Amount::zero(), msat(0));
}

#[test]
fn amounts_add_and_scale_or_overflow() {
    assert_eq!(msat(2).checked_add(msat(3)), Some(msat(5)));
    assert_eq!(msat(u64::MAX).checked_add(msat(0)), Some(msat(u64::MAX)));
    assert_eq!(msat(u64::MAX).checked_add(msat(1)), None);
    assert_eq!(msat(7).checked_mul(3), Some(msat(21)));
    assert_eq!(msat(u64::MAX).checked_mul(2), None);
    assert_eq!(msat(u64::MAX).checked_mul(0), Some(msat(0)));
}

#[test]
fn bundle_is_worth_tier_times_count() {
    let input = coins_in(&[(1, 3), (8, 2), (1024, 1)]);
    assert_eq!(input.amount(), msat(3 + 16 + 1024));
    assert_eq!(input.checked_amount(), Some(msat(1043)));
    let output = coins_out(&[(2, 4)]);
    assert_eq!(output.amount(), msat(8));
    if let Input::Coins(coins) = &input {
        assert_eq!(coins.amount(), msat(1043));
        assert_eq!(coins.checked_count(), Some(6));
    } else {
        unreachable!();
    }
    assert_eq!(coins_in(&[]).amount(), msat(0));
    assert_eq!(coins_in(&[(5, 0)]).amount(), msat(0));
}

#[test]
fn bundle_too_large_for_an_amount_has_none() {
    assert_eq!(coins_in(&[(u64::MAX, 2)]).checked_amount(), None);
    assert_eq!(coins_in(&[(u64::MAX - 1, 1), (u64::MAX, 1)]).checked_amount(), None);
    assert_eq!(coins_in(&[(u64::MAX, 1)]).checked_amount(), Some(msat(u64::MAX)));
}

#[test]
fn peg_in_is_worth_its_locked_bitcoin() {
    assert_eq!(peg_in(3).amount(), msat(3000));
    assert_eq!(peg_in(u64::MAX).checked_amount(), None);
}

#[test]
fn peg_out_is_worth_its_requested_bitcoin() {
    assert_eq!(peg_out(5).amount(), msat(5000));
    assert_eq!(peg_out(u64::MAX).checked_amount(), None);
}

#[test]
fn coins_owe_the_fee_for_each_coin() {
    let schedule = fees(7, 100, 200);
    assert_eq!(coins_in(&[(1, 3), (8, 2)]).fee(&schedule), msat(35));
    assert_eq!(coins_out(&[(1, 3), (8, 2)]).fee(&schedule), msat(35));
    assert_eq!(coins_in(&[]).fee(&schedule), msat(0));
    assert_eq!(coins_in(&[(1, 2)]).checked_fee(&fees(u64::MAX, 0, 0)), None);
    assert_eq!(coins_in(&[(1, 2)]).checked_fee(&fees(0, 0, 0)), Some(msat(0)));
}

#[test]
fn pegs_owe_a_flat_fee() {
    let schedule = fees(7, 100, 200);
    assert_eq!(peg_in(3).fee(&schedule), msat(100));
    assert_eq!(peg_out(3).fee(&schedule), msat(200));
}

#[test]
fn totals_sum_every_input_and_output() {
    let held = transaction(
        vec![coins_in(&[(1000, 2)]), peg_in(5)],
        vec![coins_out(&[(10, 3)]), peg_out(1)],
    );
    let totals = held.funding_totals(&fees(1, 20, 300)).unwrap();
    assert_eq!(
        totals,
        FundingTotals { inputs: msat(7000), outputs: msat(1030), fee: msat(2 + 20 + 3 + 300) }
    );
    assert_eq!(held.validate_funding(&fees(1, 20, 300)), Ok(()));
}

#[test]
fn totals_too_large_for_an_amount_are_none() {
    let schedule = fees(1, 1, 1);
    assert!(transaction(vec![coins_in(&[(u64::MAX, 1)]), coins_in(&[(1, 1)])], vec![])
        .funding_totals(&schedule)
        .is_none());
    assert!(transaction(vec![], vec![peg_out(u64::MAX)]).funding_totals(&schedule).is_none());
    assert!(transaction(vec![peg_in(1)], vec![peg_out(1)])
        .funding_totals(&fees(0, u64::MAX, 1))
        .is_none());
    assert!(transaction(vec![peg_in(1)], vec![peg_out(1)])
        .funding_totals(&fees(0, u64::MAX, 0))
        .is_some());
}

#[test]
fn exactly_funded_transaction_is_accepted() {
    let schedule = fees(1, 0, 0);
    let held = transaction(vec![coins_in(&[(1000, 1)])], vec![coins_out(&[(998, 1)])]);
    assert_eq!(
        held.funding_totals(&schedule),
        Some(FundingTotals { inputs: msat(1000), outputs: msat(998), fee: msat(2) })
    );
    assert_eq!(held.validate_funding(&schedule), Ok(()));
}

#[test]
fn one_unit_short_is_rejected_with_the_three_sums() {
    let schedule = fees(1, 0, 0);
    let held = transaction(vec![coins_in(&[(1000, 1)])], vec![coins_out(&[(999, 1)])]);
    assert_eq!(held.validate_funding(&schedule), insufficient(1000, 999, 2));
    let held = transaction(vec![coins_in(&[(999, 1)])], vec![coins_out(&[(998, 1)])]);
    assert_eq!(held.validate_funding(&schedule), insufficient(999, 998, 2));
}

#[test]
fn verdict_on_three_sums() {
    let funded = FundingTotals { inputs: msat(1000), outputs: msat(998), fee: msat(2) };
    assert_eq!(funded.verdict(), Ok(()));
    let short = FundingTotals { inputs: msat(1000), outputs: msat(999), fee: msat(2) };
    assert_eq!(short.verdict(), insufficient(1000, 999, 2));
    let large = FundingTotals { inputs: msat(u64::MAX), outputs: msat(u64::MAX), fee: msat(1) };
    assert_eq!(large.verdict(), insufficient(u64::MAX, u64::MAX, 1));
    let full = FundingTotals { inputs: msat(u64::MAX), outputs: msat(u64::MAX), fee: msat(0) };
    assert_eq!(full.verdict(), Ok(()));
}

#[test]
fn the_fee_of_the_input_counts_too() {
    let schedule = fees(1, 0, 0);
    let held = transaction(vec![coins_in(&[(1000, 1)])], vec![coins_out(&[(499, 2)])]);
    assert_eq!(held.validate_funding(&schedule), insufficient(1000, 998, 3));
    let held = transaction(vec![coins_in(&[(1001, 1)])], vec![coins_out(&[(499, 2)])]);
    assert_eq!(held.validate_funding(&schedule), Ok(()));
}

#[test]
fn surplus_is_accepted() {
    let held = transaction(vec![peg_in(10)], vec![coins_out(&[(1000, 2)])]);
    assert_eq!(held.validate_funding(&fees(5, 50, 500)), Ok(()));
}

#[test]
fn empty_transaction_is_funded() {
    assert_eq!(transaction(vec![], vec![]).validate_funding(&fees(1, 1, 1)), Ok(()));
}

#[test]
fn outputs_without_inputs_are_unfunded() {
    let held = transaction(vec![], vec![peg_out(1)]);
    assert_eq!(held.validate_funding(&fees(0, 0, 10)), insufficient(0, 1000, 10));
}

#[test]
fn checked_validation_gives_the_verdict_or_none() {
    let schedule = fees(1, 0, 0);
    let held = transaction(vec![coins_in(&[(1000, 1)])], vec![coins_out(&[(998, 1)])]);
    assert_eq!(held.checked_validate_funding(&schedule), Some(Ok(())));
    let held = transaction(vec![coins_in(&[(1000, 1)])], vec![coins_out(&[(999, 1)])]);
    assert_eq!(held.checked_validate_funding(&schedule), Some(insufficient(1000, 999, 2)));
    let held = transaction(vec![coins_in(&[(u64::MAX, 2)])], vec![]);
    assert_eq!(held.checked_validate_funding(&schedule), None);
}
