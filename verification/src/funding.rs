//! Funding validation: a transaction must bring in at least what it pays
//! out plus the fees it owes.

use vstd::prelude::*;
use crate::amount::{Amount, FeeConsensus, MILLI_SAT_PER_SAT};
use crate::coins::Coins;
use crate::sums::{lemma_sum_prefix_le, lemma_sum_step, lemma_sum_term_le, sum};
use crate::transaction::{Input, Output, Transaction};

verus! {

/// Why a transaction is rejected.
#[derive(Clone, Copy, Debug, PartialEq, Eq, Structural)]
pub enum TransactionError {
    /// The inputs do not cover the outputs and the fee.
    InsufficientlyFunded { inputs: Amount, outputs: Amount, fee: Amount },
    /// The signature does not verify for the transaction and its keys.
    InvalidSignature,
}

/// The three sums that decide whether a transaction is funded.
#[derive(Clone, Copy, Debug, PartialEq, Eq, Structural)]
pub struct FundingTotals {
    pub inputs: Amount,
    pub outputs: Amount,
    pub fee: Amount,
}

/// Common properties of transaction in- and outputs.
pub trait TransactionItem {
    /// The amount before fees that the item stands for.
    spec fn amount_msat(&self) -> nat;

    /// The fee that the item costs under a fee schedule.
    spec fn fee_msat(&self, fee_consensus: &FeeConsensus) -> nat;

    /// The amount before fees that the item stands for, where an `Amount`
    /// can hold it.
    fn checked_amount(&self) -> (amount: Option<Amount>)
        ensures
            amount == amount_of(self.amount_msat()),
    ;

    /// The fee that the item costs, where an `Amount` can hold it.
    fn checked_fee(&self, fee_consensus: &FeeConsensus) -> (fee: Option<Amount>)
        ensures
            fee == amount_of(self.fee_msat(fee_consensus)),
    ;

    /// The amount before fees that the item stands for.
    fn amount(&self) -> (amount: Amount)
        requires
            self.amount_msat() <= u64::MAX,
        ensures
            amount.milli_sat == self.amount_msat(),
    ;

    /// The fee that the item costs.
    fn fee(&self, fee_consensus: &FeeConsensus) -> (fee: Amount)
        requires
            self.fee_msat(fee_consensus) <= u64::MAX,
        ensures
            fee.milli_sat == self.fee_msat(fee_consensus),
    ;
}

/// The `Amount` of `milli_sat` units, if an `Amount` can hold that many.
pub open spec fn amount_of(milli_sat: nat) -> Option<Amount> {
    if milli_sat <= u64::MAX {
        Some(Amount { milli_sat: milli_sat as u64 })
    } else {
        None
    }
}

/// The fee for a bundle: the fee per coin times the number of items.
fn bundle_fee<T: DeepView>(coins: &Coins<T>, per_coin: Amount) -> (fee: Option<Amount>)
    ensures
        fee == amount_of((per_coin.milli_sat * coins.count()) as nat),
{
    if per_coin.milli_sat == 0 {
        assert(per_coin.milli_sat * coins.count() == 0) by (nonlinear_arith)
            requires
                per_coin.milli_sat == 0,
        ;
        return Some(Amount::zero());
    }
    match coins.checked_count() {
        Some(count) => per_coin.checked_mul(count),
        None => {
            assert(per_coin.milli_sat * coins.count() >= coins.count()) by (nonlinear_arith)
                requires
                    per_coin.milli_sat >= 1,
            ;
            None
        },
    }
}

impl TransactionItem for Input {
    open spec fn amount_msat(&self) -> nat {
        match self {
            Input::Coins(coins) => coins.amount_msat(),
            Input::PegIn(proof) => (proof.locked_sat() * MILLI_SAT_PER_SAT) as nat,
        }
    }

    open spec fn fee_msat(&self, fee_consensus: &FeeConsensus) -> nat {
        match self {
            Input::Coins(coins) => (fee_consensus.fee_coin_spend_abs.milli_sat
                * coins.count()) as nat,
            Input::PegIn(_) => fee_consensus.fee_peg_in_abs.milli_sat as nat,
        }
    }

    fn checked_amount(&self) -> (amount: Option<Amount>) {
        match self {
            Input::Coins(coins) => coins.checked_amount(),
            Input::PegIn(proof) => Amount::checked_from_sat(proof.tx_output_value().as_sat()),
        }
    }

    fn checked_fee(&self, fee_consensus: &FeeConsensus) -> (fee: Option<Amount>) {
        match self {
            Input::Coins(coins) => bundle_fee(coins, fee_consensus.fee_coin_spend_abs),
            Input::PegIn(_) => Some(fee_consensus.fee_peg_in_abs),
        }
    }

    fn amount(&self) -> (amount: Amount) {
        match self.checked_amount() {
            Some(amount) => amount,
            None => vstd::pervasive::unreached(),
        }
    }

    fn fee(&self, fee_consensus: &FeeConsensus) -> (fee: Amount) {
        match self.checked_fee(fee_consensus) {
            Some(fee) => fee,
            None => vstd::pervasive::unreached(),
        }
    }
}

impl TransactionItem for Output {
    open spec fn amount_msat(&self) -> nat {
        match self {
            Output::Coins(coins) => coins.amount_msat(),
            Output::PegOut(request) => (request.amount.sat * MILLI_SAT_PER_SAT) as nat,
        }
    }

    open spec fn fee_msat(&self, fee_consensus: &FeeConsensus) -> nat {
        match self {
            Output::Coins(coins) => (fee_consensus.fee_coin_spend_abs.milli_sat
                * coins.count()) as nat,
            Output::PegOut(_) => fee_consensus.fee_peg_out_abs.milli_sat as nat,
        }
    }

    fn checked_amount(&self) -> (amount: Option<Amount>) {
        match self {
            Output::Coins(coins) => coins.checked_amount(),
            Output::PegOut(request) => Amount::checked_from_sat(request.amount.as_sat()),
        }
    }

    fn checked_fee(&self, fee_consensus: &FeeConsensus) -> (fee: Option<Amount>) {
        match self {
            Output::Coins(coins) => bundle_fee(coins, fee_consensus.fee_coin_spend_abs),
            Output::PegOut(_) => Some(fee_consensus.fee_peg_out_abs),
        }
    }

    fn amount(&self) -> (amount: Amount) {
        match self.checked_amount() {
            Some(amount) => amount,
            None => vstd::pervasive::unreached(),
        }
    }

    fn fee(&self, fee_consensus: &FeeConsensus) -> (fee: Amount) {
        match self.checked_fee(fee_consensus) {
            Some(fee) => fee,
            None => vstd::pervasive::unreached(),
        }
    }
}

/// The amounts of the items of `items`, in order.
pub open spec fn item_amounts<I: TransactionItem>(items: Seq<I>) -> Seq<nat> {
    Seq::new(items.len(), |i: int| items[i].amount_msat())
}

/// The fees of the items of `items` under a fee schedule, in order.
pub open spec fn item_fees<I: TransactionItem>(items: Seq<I>, fee_consensus: FeeConsensus) -> Seq<
    nat,
> {
    Seq::new(items.len(), |i: int| items[i].fee_msat(&fee_consensus))
}

/// The verdict on three sums: funded if and only if the inputs are at least
/// the outputs plus the fee; the error reports the three sums.
pub open spec fn funding_verdict(inputs: nat, outputs: nat, fee: nat) -> Result<
    (),
    TransactionError,
> {
    if inputs >= outputs + fee {
        Ok(())
    } else {
        Err(
            TransactionError::InsufficientlyFunded {
                inputs: Amount { milli_sat: inputs as u64 },
                outputs: Amount { milli_sat: outputs as u64 },
                fee: Amount { milli_sat: fee as u64 },
            },
        )
    }
}

/// The sum of the amounts of `items`, where an `Amount` can hold it.
fn checked_total_amount<I: TransactionItem>(items: &[I]) -> (total: Option<Amount>)
    ensures
        total == amount_of(sum(item_amounts(items@))),
{
    let ghost terms = item_amounts(items@);
    let mut total = Amount::zero();
    let mut i: usize = 0;
    assert(terms.take(0) =~= Seq::<nat>::empty());
    while i < items.len()
        invariant
            i <= items@.len(),
            terms == item_amounts(items@),
            total.milli_sat == sum(terms.take(i as int)),
        decreases items@.len() - i,
    {
        proof {
            lemma_sum_step(terms, i as int);
            lemma_sum_term_le(terms, i as int);
            lemma_sum_prefix_le(terms, i + 1);
        }
        let amount = match items[i].checked_amount() {
            Some(amount) => amount,
            None => {
                return None;
            },
        };
        total = match total.checked_add(amount) {
            Some(total) => total,
            None => {
                return None;
            },
        };
        i += 1;
    }
    assert(terms.take(i as int) =~= terms);
    Some(total)
}

/// The sum of the fees of `items`, where an `Amount` can hold it.
fn checked_total_fee<I: TransactionItem>(items: &[I], fee_consensus: &FeeConsensus) -> (total:
    Option<Amount>)
    ensures
        total == amount_of(sum(item_fees(items@, *fee_consensus))),
{
    let ghost terms = item_fees(items@, *fee_consensus);
    let mut total = Amount::zero();
    let mut i: usize = 0;
    assert(terms.take(0) =~= Seq::<nat>::empty());
    while i < items.len()
        invariant
            i <= items@.len(),
            terms == item_fees(items@, *fee_consensus),
            total.milli_sat == sum(terms.take(i as int)),
        decreases items@.len() - i,
    {
        proof {
            lemma_sum_step(terms, i as int);
            lemma_sum_term_le(terms, i as int);
            lemma_sum_prefix_le(terms, i + 1);
        }
        let fee = match items[i].checked_fee(fee_consensus) {
            Some(fee) => fee,
            None => {
                return None;
            },
        };
        total = match total.checked_add(fee) {
            Some(total) => total,
            None => {
                return None;
            },
        };
        i += 1;
    }
    assert(terms.take(i as int) =~= terms);
    Some(total)
}

impl FundingTotals {
    /// Whether the inputs cover the outputs and the fee.
    pub fn verdict(&self) -> (r: Result<(), TransactionError>)
        ensures
            r == funding_verdict(
                self.inputs.milli_sat as nat,
                self.outputs.milli_sat as nat,
                self.fee.milli_sat as nat,
            ),
    {
        let owed: u128 = self.outputs.milli_sat as u128 + self.fee.milli_sat as u128;
        if self.inputs.milli_sat as u128 >= owed {
            Ok(())
        } else {
            Err(
                TransactionError::InsufficientlyFunded {
                    inputs: self.inputs,
                    outputs: self.outputs,
                    fee: self.fee,
                },
            )
        }
    }
}

impl Transaction {
    /// The sum of the amounts of the inputs.
    pub open spec fn total_input_msat(&self) -> nat {
        sum(item_amounts(self.inputs@))
    }

    /// The sum of the amounts of the outputs.
    pub open spec fn total_output_msat(&self) -> nat {
        sum(item_amounts(self.outputs@))
    }

    /// The sum of the fees of all inputs and all outputs.
    pub open spec fn total_fee_msat(&self, fee_consensus: &FeeConsensus) -> nat {
        sum(item_fees(self.inputs@, *fee_consensus)) + sum(
            item_fees(self.outputs@, *fee_consensus),
        )
    }

    /// Each of the three sums is one that an `Amount` can hold.
    pub open spec fn amounts_fit(&self, fee_consensus: &FeeConsensus) -> bool {
        &&& self.total_input_msat() <= u64::MAX
        &&& self.total_output_msat() <= u64::MAX
        &&& self.total_fee_msat(fee_consensus) <= u64::MAX
    }

    /// The three sums of the transaction under a fee schedule, if an
    /// `Amount` can hold each; `None` if one of them is too large.
    pub fn funding_totals(&self, fee_consensus: &FeeConsensus) -> (totals: Option<FundingTotals>)
        ensures
            totals is Some <==> self.amounts_fit(fee_consensus),
            totals matches Some(t) ==> {
                &&& t.inputs.milli_sat == self.total_input_msat()
                &&& t.outputs.milli_sat == self.total_output_msat()
                &&& t.fee.milli_sat == self.total_fee_msat(fee_consensus)
            },
    {
        let inputs = match checked_total_amount(self.inputs.as_slice()) {
            Some(inputs) => inputs,
            None => {
                return None;
            },
        };
        let outputs = match checked_total_amount(self.outputs.as_slice()) {
            Some(outputs) => outputs,
            None => {
                return None;
            },
        };
        let input_fee = match checked_total_fee(self.inputs.as_slice(), fee_consensus) {
            Some(fee) => fee,
            None => {
                return None;
            },
        };
        let output_fee = match checked_total_fee(self.outputs.as_slice(), fee_consensus) {
            Some(fee) => fee,
            None => {
                return None;
            },
        };
        match input_fee.checked_add(output_fee) {
            Some(fee) => Some(FundingTotals { inputs, outputs, fee }),
            None => None,
        }
    }

    /// Decides whether the transaction funds itself under a fee schedule:
    /// it does if and only if its inputs are worth at least its outputs plus
    /// its fees. A surplus is no error. The error reports the three sums.
    pub fn validate_funding(&self, fee_consensus: &FeeConsensus) -> (r: Result<
        (),
        TransactionError,
    >)
        requires
            self.amounts_fit(fee_consensus),
        ensures
            r == funding_verdict(
                self.total_input_msat(),
                self.total_output_msat(),
                self.total_fee_msat(fee_consensus),
            ),
    {
        match self.funding_totals(fee_consensus) {
            Some(totals) => totals.verdict(),
            None => vstd::pervasive::unreached(),
        }
    }

    /// Decides whether the transaction funds itself, where an `Amount` can
    /// hold each of its three sums; `None` where one of them is too large.
    pub fn checked_validate_funding(&self, fee_consensus: &FeeConsensus) -> (r: Option<
        Result<(), TransactionError>,
    >)
        ensures
            r == (if self.amounts_fit(fee_consensus) {
                Some(
                    funding_verdict(
                        self.total_input_msat(),
                        self.total_output_msat(),
                        self.total_fee_msat(fee_consensus),
                    ),
                )
            } else {
                None
            }),
    {
        match self.funding_totals(fee_consensus) {
            Some(totals) => Some(totals.verdict()),
            None => None,
        }
    }
}

/// Funding boundary: inputs that equal outputs plus fee are accepted, and
/// one unit less is rejected with exactly the three sums.
pub proof fn lemma_funding_boundary(outputs: nat, fee: nat)
    requires
        outputs + fee <= u64::MAX,
    ensures
        funding_verdict(outputs + fee, outputs, fee) == Ok::<(), TransactionError>(()),
        outputs + fee > 0 ==> funding_verdict((outputs + fee - 1) as nat, outputs, fee) == Err::<
            (),
            TransactionError,
        >(
            TransactionError::InsufficientlyFunded {
                inputs: Amount { milli_sat: (outputs + fee - 1) as u64 },
                outputs: Amount { milli_sat: outputs as u64 },
                fee: Amount { milli_sat: fee as u64 },
            },
        ),
{
}

/// A surplus is accepted: whatever exceeds outputs plus fee stays with the
/// federation.
pub proof fn lemma_surplus_accepted(inputs: nat, outputs: nat, fee: nat)
    requires
        inputs >= outputs + fee,
    ensures
        funding_verdict(inputs, outputs, fee) == Ok::<(), TransactionError>(()),
{
}

} // verus!
