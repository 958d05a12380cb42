//! Coins, blind tokens, and tiered bundles of either.

use vstd::prelude::*;
use crate::amount::Amount;
use crate::encoding::{Decodable, DecodeError, Encodable};
use crate::keys::{BlindSignature, BlindedMessage, PubKey};
use crate::sums::{
    lemma_sum_insert, lemma_sum_prefix_le, lemma_sum_step, lemma_sum_term_le, lemma_sum_update, sum,
};

verus! {

/// An e-cash note: the key that may spend it and the mint's signature on it.
/// Its denomination is the tier of the bundle that holds it.
#[derive(Clone, Copy, Debug, PartialEq, Eq, Hash)]
pub struct Coin {
    pub spend_key: PubKey,
    pub signature: BlindSignature,
}

/// A request for a new coin: a blinded message that awaits the mint's
/// signature.
#[derive(Clone, Copy, Debug, PartialEq, Eq, Hash)]
pub struct BlindToken(pub BlindedMessage);

/// A bundle of items in tiers: for each denomination that occurs, the items
/// of that denomination in order. The tiers stand in ascending order and
/// none occurs twice.
#[derive(Debug, PartialEq, Eq, Hash)]
pub struct Coins<T> {
    tiers: Vec<(Amount, Vec<T>)>,
}

/// The worth of each tier of a bundle: its denomination times the number of
/// its items.
pub open spec fn tier_values<V>(tiers: Seq<(u64, Seq<V>)>) -> Seq<nat> {
    Seq::new(tiers.len(), |i: int| (tiers[i].0 * tiers[i].1.len()) as nat)
}

/// The number of items in each tier of a bundle.
pub open spec fn tier_counts<V>(tiers: Seq<(u64, Seq<V>)>) -> Seq<nat> {
    Seq::new(tiers.len(), |i: int| tiers[i].1.len())
}

/// The worth of a bundle: over its tiers, denomination times number of items.
pub open spec fn bundle_amount<V>(tiers: Seq<(u64, Seq<V>)>) -> nat {
    sum(tier_values(tiers))
}

/// The number of items in a bundle.
pub open spec fn bundle_count<V>(tiers: Seq<(u64, Seq<V>)>) -> nat {
    sum(tier_counts(tiers))
}

/// The denominations of a bundle ascend strictly.
pub open spec fn tiers_ascending<V>(tiers: Seq<(u64, Seq<V>)>) -> bool {
    forall|i: int| 0 < i < tiers.len() ==> tiers[i - 1].0 < (#[trigger] tiers[i]).0
}

/// The place of a denomination among ascending tiers: the number of tiers
/// below it.
pub open spec fn tier_rank<V>(tiers: Seq<(u64, Seq<V>)>, tier: u64) -> nat
    decreases tiers.len(),
{
    if tiers.len() == 0 || tiers[0].0 >= tier {
        0
    } else {
        1 + tier_rank(tiers.drop_first(), tier)
    }
}

/// A bundle with one more item of a denomination: behind the items of its
/// tier if the bundle has that tier, else as a new tier in its place.
pub open spec fn with_item<V>(tiers: Seq<(u64, Seq<V>)>, tier: u64, item: V) -> Seq<
    (u64, Seq<V>),
> {
    let at = tier_rank(tiers, tier) as int;
    if at < tiers.len() && tiers[at].0 == tier {
        tiers.update(at, (tier, tiers[at].1.push(item)))
    } else {
        tiers.insert(at, (tier, seq![item]))
    }
}

/// The rank of a denomination is the one place with only lower tiers before
/// it and no lower tier at it.
pub proof fn lemma_tier_rank<V>(tiers: Seq<(u64, Seq<V>)>, tier: u64, at: int)
    requires
        0 <= at <= tiers.len(),
        forall|j: int| 0 <= j < at ==> (#[trigger] tiers[j]).0 < tier,
        at < tiers.len() ==> tiers[at].0 >= tier,
    ensures
        tier_rank(tiers, tier) == at,
    decreases tiers.len(),
{
    if at > 0 {
        let rest = tiers.drop_first();
        assert(tiers[0].0 < tier);
        assert forall|j: int| 0 <= j < at - 1 implies (#[trigger] rest[j]).0 < tier by {
            assert(rest[j] == tiers[j + 1]);
        }
        lemma_tier_rank(rest, tier, at - 1);
    }
}

/// One more item of a denomination adds that denomination to the worth of a
/// bundle and one to its count, and leaves ascending tiers ascending.
pub proof fn lemma_with_item<V>(tiers: Seq<(u64, Seq<V>)>, tier: u64, item: V)
    requires
        tiers_ascending(tiers),
    ensures
        bundle_amount(with_item(tiers, tier, item)) == bundle_amount(tiers) + tier,
        bundle_count(with_item(tiers, tier, item)) == bundle_count(tiers) + 1,
        tiers_ascending(with_item(tiers, tier, item)),
{
    let at = tier_rank(tiers, tier) as int;
    lemma_rank_bounds(tiers, tier);
    let more = with_item(tiers, tier, item);
    if at < tiers.len() && tiers[at].0 == tier {
        let items = tiers[at].1.push(item);
        assert(tier_values(more) =~= tier_values(tiers).update(at, (tier * items.len()) as nat));
        assert(tier_counts(more) =~= tier_counts(tiers).update(at, items.len()));
        lemma_sum_update(tier_values(tiers), at, (tier * items.len()) as nat);
        lemma_sum_update(tier_counts(tiers), at, items.len());
        assert(tier * items.len() == tier * tiers[at].1.len() + tier) by (nonlinear_arith)
            requires
                items.len() == tiers[at].1.len() + 1,
        ;
        assert forall|i: int| 0 < i < more.len() implies more[i - 1].0 < (#[trigger] more[i]).0 by {
            assert(tiers[i - 1].0 < tiers[i].0);
        }
    } else {
        assert(more[at].1.len() == 1);
        assert(tier * 1 == tier) by (nonlinear_arith);
        assert(tier_values(more) =~= tier_values(tiers).insert(at, tier as nat));
        assert(tier_counts(more) =~= tier_counts(tiers).insert(at, 1nat));
        lemma_sum_insert(tier_values(tiers), at, tier as nat);
        lemma_sum_insert(tier_counts(tiers), at, 1nat);
        assert forall|i: int| 0 < i < more.len() implies more[i - 1].0 < (#[trigger] more[i]).0 by {
            if i < at {
                assert(tiers[i - 1].0 < tiers[i].0);
            } else if i == at {
                assert(tiers[at - 1].0 < tier);
            } else if i == at + 1 {
                assert(tiers[at].0 > tier);
            } else {
                assert(tiers[i - 2].0 < tiers[i - 1].0);
            }
        }
    }
}

/// The rank of a denomination lies within the bundle, behind all lower
/// tiers and not behind any other.
pub proof fn lemma_rank_bounds<V>(tiers: Seq<(u64, Seq<V>)>, tier: u64)
    ensures
        tier_rank(tiers, tier) <= tiers.len(),
        forall|j: int| 0 <= j < tier_rank(tiers, tier) ==> (#[trigger] tiers[j]).0 < tier,
        tier_rank(tiers, tier) < tiers.len() ==> tiers[tier_rank(tiers, tier) as int].0 >= tier,
    decreases tiers.len(),
{
    if tiers.len() == 0 || tiers[0].0 >= tier {
    } else {
        let rest = tiers.drop_first();
        lemma_rank_bounds(rest, tier);
        let at = tier_rank(rest, tier) as int;
        assert forall|j: int| 0 <= j < at + 1 implies (#[trigger] tiers[j]).0 < tier by {
            if j > 0 {
                assert(tiers[j] == rest[j - 1]);
            }
        }
        if at < rest.len() {
            assert(tiers[at + 1] == rest[at]);
        }
    }
}

impl Coin {
    /// The key that must sign a transaction that spends this coin.
    pub fn spend_key(&self) -> (key: &PubKey)
        ensures
            *key == self.spend_key,
    {
        &self.spend_key
    }
}

impl DeepView for Coin {
    type V = (Seq<u8>, Seq<u8>);

    open spec fn deep_view(&self) -> (Seq<u8>, Seq<u8>) {
        (self.spend_key.deep_view(), self.signature.deep_view())
    }
}

impl Encodable for Coin {
    open spec fn encoding(v: (Seq<u8>, Seq<u8>)) -> Seq<u8> {
        <(PubKey, BlindSignature)>::encoding(v)
    }

    open spec fn canonical(v: (Seq<u8>, Seq<u8>)) -> bool {
        <(PubKey, BlindSignature)>::canonical(v)
    }

    fn consensus_encode(&self, writer: &mut Vec<u8>) -> (written: usize) {
        let before = writer.len();
        self.spend_key.consensus_encode(writer);
        self.signature.consensus_encode(writer);
        assert(writer@ =~= old(writer)@ + Self::encoding(self.deep_view()));
        writer.len() - before
    }
}

impl Decodable for Coin {
    proof fn lemma_unambiguous(a: (Seq<u8>, Seq<u8>), b: (Seq<u8>, Seq<u8>), s: Seq<u8>) {
        <(PubKey, BlindSignature)>::lemma_unambiguous(a, b, s);
    }

    fn consensus_decode(bytes: &[u8], start: usize) -> (r: Result<(Self, usize), DecodeError>) {
        match <(PubKey, BlindSignature)>::consensus_decode(bytes, start) {
            Ok(((spend_key, signature), end)) => Ok((Coin { spend_key, signature }, end)),
            Err(e) => Err(e),
        }
    }
}

impl DeepView for BlindToken {
    type V = Seq<u8>;

    open spec fn deep_view(&self) -> Seq<u8> {
        self.0.deep_view()
    }
}

impl Encodable for BlindToken {
    open spec fn encoding(v: Seq<u8>) -> Seq<u8> {
        BlindedMessage::encoding(v)
    }

    open spec fn canonical(v: Seq<u8>) -> bool {
        BlindedMessage::canonical(v)
    }

    fn consensus_encode(&self, writer: &mut Vec<u8>) -> (written: usize) {
        self.0.consensus_encode(writer)
    }
}

impl Decodable for BlindToken {
    proof fn lemma_unambiguous(a: Seq<u8>, b: Seq<u8>, s: Seq<u8>) {
        BlindedMessage::lemma_unambiguous(a, b, s);
    }

    fn consensus_decode(bytes: &[u8], start: usize) -> (r: Result<(Self, usize), DecodeError>) {
        match BlindedMessage::consensus_decode(bytes, start) {
            Ok((message, end)) => Ok((BlindToken(message), end)),
            Err(e) => Err(e),
        }
    }
}

impl<T: Clone> Clone for Coins<T> {
    fn clone(&self) -> (copy: Self) {
        proof {
            use_type_invariant(self);
        }
        let mut tiers: Vec<(Amount, Vec<T>)> = Vec::new();
        let mut i: usize = 0;
        while i < self.tiers.len()
            invariant
                i <= self.tiers@.len(),
                tiers@.len() == i,
                forall|j: int| 0 <= j < i ==> (#[trigger] tiers@[j]).0 == self.tiers@[j].0,
            decreases self.tiers@.len() - i,
        {
            tiers.push((self.tiers[i].0, self.tiers[i].1.clone()));
            i += 1;
        }
        Coins { tiers }
    }
}

impl<T: DeepView> DeepView for Coins<T> {
    type V = Seq<(u64, Seq<T::V>)>;

    closed spec fn deep_view(&self) -> Seq<(u64, Seq<T::V>)> {
        self.tiers.deep_view()
    }
}

/// Tiers whose logical value ascends ascend as they are held.
proof fn lemma_ascending_held<T: DeepView>(tiers: Vec<(Amount, Vec<T>)>)
    requires
        tiers_ascending(tiers.deep_view()),
    ensures
        forall|i: int|
            0 < i < tiers@.len() ==> tiers@[i - 1].0.milli_sat < (#[trigger] tiers@[i]).0.milli_sat,
{
    let model = tiers.deep_view();
    assert forall|i: int| 0 < i < tiers@.len() implies tiers@[i - 1].0.milli_sat < (
    #[trigger] tiers@[i]).0.milli_sat by {
        assert(model[i - 1].0 < model[i].0);
    }
}

/// Whether the denominations in `tiers` ascend strictly.
fn ascending<T: DeepView>(tiers: &Vec<(Amount, Vec<T>)>) -> (yes: bool)
    ensures
        yes == tiers_ascending(tiers.deep_view()),
{
    let ghost model = tiers.deep_view();
    let mut i: usize = 1;
    while i < tiers.len()
        invariant
            1 <= i,
            model == tiers.deep_view(),
            forall|j: int| 0 < j < i && j < model.len() ==> model[j - 1].0 < (#[trigger] model[j]).0,
        decreases tiers.len() - i,
    {
        if tiers[i - 1].0.milli_sat >= tiers[i].0.milli_sat {
            assert(model[i - 1].0 >= model[i as int].0);
            return false;
        }
        i += 1;
    }
    true
}

impl<T> Coins<T> {
    #[verifier::type_invariant]
    spec fn tiers_ascend(self) -> bool {
        forall|i: int|
            0 < i < self.tiers@.len() ==> self.tiers@[i - 1].0.milli_sat < (
            #[trigger] self.tiers@[i]).0.milli_sat
    }
}

impl<T: DeepView> Coins<T> {
    /// The tiers of a bundle stand in ascending order.
    pub fn tiers_in_order(&self)
        ensures
            tiers_ascending(self.deep_view()),
    {
        proof {
            use_type_invariant(self);
            let model = self.tiers.deep_view();
            assert forall|i: int| 0 < i < model.len() implies model[i - 1].0 < (
            #[trigger] model[i]).0 by {
                assert(self.tiers@[i].0.milli_sat == model[i].0);
            }
        }
    }

    /// The worth of the bundle.
    pub open spec fn amount_msat(&self) -> nat {
        bundle_amount(self.deep_view())
    }

    /// The number of items in the bundle.
    pub open spec fn count(&self) -> nat {
        bundle_count(self.deep_view())
    }

    /// The bundle without items.
    pub fn new() -> (coins: Self)
        ensures
            coins.deep_view() == Seq::<(u64, Seq<T::V>)>::empty(),
    {
        let tiers: Vec<(Amount, Vec<T>)> = Vec::new();
        assert(tiers.deep_view() =~= Seq::<(u64, Seq<T::V>)>::empty());
        Coins { tiers }
    }

    /// The bundle of the given tiers, if their denominations ascend strictly;
    /// `None` if they do not.
    pub fn from_tiers(tiers: Vec<(Amount, Vec<T>)>) -> (coins: Option<Self>)
        ensures
            coins is Some <==> tiers_ascending(tiers.deep_view()),
            coins is Some ==> coins->Some_0.deep_view() == tiers.deep_view(),
    {
        if ascending(&tiers) {
            proof {
                lemma_ascending_held(tiers);
            }
            Some(Coins { tiers })
        } else {
            None
        }
    }

    /// Adds an item of a denomination to the bundle: behind the items of
    /// its tier if the bundle has that tier, else as a new tier in its
    /// place.
    pub fn insert(&mut self, tier: Amount, item: T)
        ensures
            final(self).deep_view() == with_item(
                old(self).deep_view(),
                tier.milli_sat,
                item.deep_view(),
            ),
            final(self).amount_msat() == old(self).amount_msat() + tier.milli_sat,
            final(self).count() == old(self).count() + 1,
    {
        self.tiers_in_order();
        let ghost before = self.tiers.deep_view();
        let count = self.tiers.len();
        let mut at: usize = 0;
        while at < count && self.tiers[at].0.milli_sat < tier.milli_sat
            invariant
                at <= count,
                count == self.tiers@.len(),
                forall|j: int|
                    0 <= j < at ==> (#[trigger] self.tiers@[j]).0.milli_sat < tier.milli_sat,
            decreases count - at,
        {
            at += 1;
        }
        proof {
            assert forall|j: int| 0 <= j < at implies (#[trigger] before[j]).0
                < tier.milli_sat by {
                assert(self.tiers@[j].0.milli_sat == before[j].0);
            }
            if at < count {
                assert(self.tiers@[at as int].0.milli_sat == before[at as int].0);
            }
            lemma_tier_rank(before, tier.milli_sat, at as int);
            lemma_with_item(before, tier.milli_sat, item.deep_view());
        }
        let mut tiers: Vec<(Amount, Vec<T>)> = Vec::new();
        core::mem::swap(&mut tiers, &mut self.tiers);
        if at < count && tiers[at].0.milli_sat == tier.milli_sat {
            let (amount, mut items) = tiers.remove(at);
            let ghost held = items.deep_view();
            items.push(item);
            assert(items.deep_view() =~= held.push(item.deep_view()));
            tiers.insert(at, (amount, items));
        } else {
            let mut items: Vec<T> = Vec::new();
            items.push(item);
            assert(items.deep_view() =~= seq![item.deep_view()]);
            tiers.insert(at, (tier, items));
        }
        proof {
            assert(tiers.deep_view() =~= with_item(before, tier.milli_sat, item.deep_view()));
            lemma_ascending_held(tiers);
        }
        self.tiers = tiers;
    }

    /// The tiers of the bundle, in order.
    pub fn tiers(&self) -> (tiers: &Vec<(Amount, Vec<T>)>)
        ensures
            tiers.deep_view() == self.deep_view(),
    {
        &self.tiers
    }

    /// The worth of the bundle, where an `Amount` can hold it.
    pub fn checked_amount(&self) -> (amount: Option<Amount>)
        ensures
            amount == (if self.amount_msat() <= u64::MAX {
                Some(Amount { milli_sat: self.amount_msat() as u64 })
            } else {
                None
            }),
    {
        let ghost values = tier_values(self.deep_view());
        let mut total: u64 = 0;
        let mut i: usize = 0;
        assert(values.take(0) =~= Seq::<nat>::empty());
        while i < self.tiers.len()
            invariant
                i <= self.tiers@.len(),
                values == tier_values(self.deep_view()),
                values.len() == self.tiers@.len(),
                total == sum(values.take(i as int)),
            decreases self.tiers@.len() - i,
        {
            let tier = self.tiers[i].0.milli_sat;
            let count = self.tiers[i].1.len() as u64;
            proof {
                assert(values[i as int] == tier * count);
                lemma_sum_step(values, i as int);
                lemma_sum_term_le(values, i as int);
                lemma_sum_prefix_le(values, i + 1);
            }
            let worth = match tier.checked_mul(count) {
                Some(worth) => worth,
                None => {
                    return None;
                },
            };
            total = match total.checked_add(worth) {
                Some(total) => total,
                None => {
                    return None;
                },
            };
            i += 1;
        }
        assert(values.take(i as int) =~= values);
        Some(Amount { milli_sat: total })
    }

    /// The number of items in the bundle, where a `u64` can hold it.
    pub fn checked_count(&self) -> (count: Option<u64>)
        ensures
            count == (if self.count() <= u64::MAX {
                Some(self.count() as u64)
            } else {
                None
            }),
    {
        let ghost counts = tier_counts(self.deep_view());
        let mut total: u64 = 0;
        let mut i: usize = 0;
        assert(counts.take(0) =~= Seq::<nat>::empty());
        while i < self.tiers.len()
            invariant
                i <= self.tiers@.len(),
                counts == tier_counts(self.deep_view()),
                counts.len() == self.tiers@.len(),
                total == sum(counts.take(i as int)),
            decreases self.tiers@.len() - i,
        {
            let count = self.tiers[i].1.len() as u64;
            proof {
                assert(counts[i as int] == count);
                lemma_sum_step(counts, i as int);
                lemma_sum_prefix_le(counts, i + 1);
            }
            total = match total.checked_add(count) {
                Some(total) => total,
                None => {
                    return None;
                },
            };
            i += 1;
        }
        assert(counts.take(i as int) =~= counts);
        Some(total)
    }

    /// The worth of the bundle.
    pub fn amount(&self) -> (amount: Amount)
        requires
            self.amount_msat() <= u64::MAX,
        ensures
            amount.milli_sat == self.amount_msat(),
    {
        match self.checked_amount() {
            Some(amount) => amount,
            None => vstd::pervasive::unreached(),
        }
    }
}

impl<T: Encodable> Encodable for Coins<T> {
    open spec fn encoding(v: Seq<(u64, Seq<T::V>)>) -> Seq<u8> {
        <Vec<(Amount, Vec<T>)>>::encoding(v)
    }

    open spec fn canonical(v: Seq<(u64, Seq<T::V>)>) -> bool {
        <Vec<(Amount, Vec<T>)>>::canonical(v) && tiers_ascending(v)
    }

    fn consensus_encode(&self, writer: &mut Vec<u8>) -> (written: usize) {
        self.tiers_in_order();
        self.tiers.consensus_encode(writer)
    }
}

impl<T: Decodable> Decodable for Coins<T> {
    proof fn lemma_unambiguous(
        a: Seq<(u64, Seq<T::V>)>,
        b: Seq<(u64, Seq<T::V>)>,
        s: Seq<u8>,
    ) {
        <Vec<(Amount, Vec<T>)>>::lemma_unambiguous(a, b, s);
    }

    fn consensus_decode(bytes: &[u8], start: usize) -> (r: Result<(Self, usize), DecodeError>) {
        let ghost s = bytes@.skip(start as int);
        match <Vec<(Amount, Vec<T>)>>::consensus_decode(bytes, start) {
            Ok((tiers, end)) => {
                if ascending(&tiers) {
                    proof {
                        lemma_ascending_held(tiers);
                    }
                    Ok((Coins { tiers }, end))
                } else {
                    proof {
                        let found = tiers.deep_view();
                        let e = <Vec<(Amount, Vec<T>)>>::encoding(found);
                        assert(e =~= s.subrange(0, e.len() as int));
                        assert forall|v: Seq<(u64, Seq<T::V>)>|
                            !(Self::canonical(v) && #[trigger] Self::encoding(v).is_prefix_of(
                                s,
                            )) by {
                            if Self::canonical(v) && Self::encoding(v).is_prefix_of(s) {
                                <Vec<(Amount, Vec<T>)>>::lemma_unambiguous(v, found, s);
                            }
                        }
                    }
                    Err(DecodeError::from_str("the tiers of a bundle do not ascend"))
                }
            },
            Err(e) => Err(e),
        }
    }
}

} // verus!
