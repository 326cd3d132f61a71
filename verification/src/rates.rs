//! The exchange-rate cache of one recording pass, and the reward normalizer
//! built on it.
//!
//! The cache lives only for the duration of one recording invocation.  It is
//! seeded with the vault denomination at rate 1.0; the caller resolves every
//! other denomination once against the external rate source and inserts the
//! answer, marking a denomination whose rate could not be fetched as
//! unresolvable.  Normalization then sums each reward coin converted at its
//! cached rate, skipping unresolvable coins rather than failing.
use vstd::prelude::*;

use crate::dec::{Dec, DECIMAL_FRACTIONAL, mul_atomics};
use crate::state::{Coin, CoinView};

verus! {

/// One cache entry: `None` records that the denomination's rate could not be
/// resolved, so its coins are skipped.
struct RateEntry {
    denom: String,
    rate: Option<Dec>,
}

/// Mathematical image of a `RateEntry`.
pub ghost struct RateEntryView {
    pub denom: Seq<char>,
    pub rate: Option<Dec>,
}

impl View for RateEntry {
    type V = RateEntryView;

    closed spec fn view(&self) -> RateEntryView {
        RateEntryView { denom: self.denom@, rate: self.rate }
    }
}

spec fn find_rate(es: Seq<RateEntryView>, denom: Seq<char>) -> Option<Option<Dec>>
    decreases es.len(),
{
    if es.len() == 0 {
        None
    } else if es[0].denom == denom {
        Some(es[0].rate)
    } else {
        find_rate(es.drop_first(), denom)
    }
}

spec fn distinct_denoms(es: Seq<RateEntryView>) -> bool {
    forall|i: int, j: int| 0 <= i < j < es.len() ==> es[i].denom != es[j].denom
}

proof fn lemma_find_rate_skip(es: Seq<RateEntryView>, denom: Seq<char>, i: int)
    requires
        0 <= i <= es.len(),
        forall|j: int| 0 <= j < i ==> (#[trigger] es[j]).denom != denom,
    ensures
        find_rate(es, denom) == find_rate(es.skip(i), denom),
    decreases i,
{
    if i > 0 {
        lemma_find_rate_skip(es.drop_first(), denom, i - 1);
        assert(es.drop_first().skip(i - 1) =~= es.skip(i));
    } else {
        assert(es.skip(0) =~= es);
    }
}

proof fn lemma_find_rate_push(es: Seq<RateEntryView>, e: RateEntryView, denom: Seq<char>)
    ensures
        find_rate(es.push(e), denom) == match find_rate(es, denom) {
            Some(r) => Some(r),
            None => if e.denom == denom {
                Some(e.rate)
            } else {
                None
            },
        },
    decreases es.len(),
{
    if es.len() == 0 {
        assert(es.push(e)[0] == e);
        assert(es.push(e).drop_first() =~= Seq::<RateEntryView>::empty());
        assert(find_rate(Seq::<RateEntryView>::empty(), denom) is None);
        assert(es =~= Seq::<RateEntryView>::empty());
    } else {
        assert(es.push(e)[0] == es[0]);
        assert(es.push(e).drop_first() =~= es.drop_first().push(e));
        lemma_find_rate_push(es.drop_first(), e, denom);
    }
}

/// The currency-to-vault-denomination rate cache of one recording pass.
pub struct ExchangeRates {
    entries: Vec<RateEntry>,
}

impl ExchangeRates {
    spec fn entries_view(&self) -> Seq<RateEntryView> {
        self.entries@.map_values(|e: RateEntry| e@)
    }

    /// Internal invariant: each denomination appears at most once.
    pub closed spec fn wf(&self) -> bool {
        distinct_denoms(self.entries_view())
    }

    /// What the cache knows of a denomination: nothing yet (`None`), known
    /// unresolvable (`Some(None)`), or a resolved rate (`Some(Some(r))`).
    pub closed spec fn spec_rate(&self, denom: Seq<char>) -> Option<Option<Dec>> {
        find_rate(self.entries_view(), denom)
    }

    /// Whether the denomination has been looked at, successfully or not.
    pub open spec fn has_denom(&self, denom: Seq<char>) -> bool {
        self.spec_rate(denom) is Some
    }

    /// A fresh cache for one recording pass, pre-seeded with the vault
    /// denomination at rate 1.0.
    pub fn new(vault_denom: &String) -> (c: ExchangeRates)
        ensures
            c.wf(),
            c.spec_rate(vault_denom@) == Some(Some(Dec { atomics: DECIMAL_FRACTIONAL })),
            forall|d: Seq<char>| d != vault_denom@ ==> #[trigger] c.spec_rate(d) is None,
    {
        let mut entries: Vec<RateEntry> = Vec::new();
        entries.push(RateEntry { denom: vault_denom.clone(), rate: Some(Dec::one()) });
        let c = ExchangeRates { entries };
        proof {
            let ev = c.entries_view();
            let e0 = RateEntryView {
                denom: vault_denom@,
                rate: Some(Dec { atomics: DECIMAL_FRACTIONAL }),
            };
            assert(ev =~= seq![e0]);
            assert(ev.drop_first() =~= Seq::<RateEntryView>::empty());
            assert forall|d: Seq<char>| d != vault_denom@ implies #[trigger] c.spec_rate(
                d,
            ) is None by {
                assert(find_rate(Seq::<RateEntryView>::empty(), d) is None);
            }
        }
        c
    }

    /// Records the outcome of resolving one denomination against the
    /// external rate source; every other denomination keeps its entry.
    pub fn insert(&mut self, denom: String, rate: Option<Dec>)
        requires
            old(self).wf(),
            !old(self).has_denom(denom@),
        ensures
            final(self).wf(),
            final(self).spec_rate(denom@) == Some(rate),
            forall|d: Seq<char>| d != denom@ ==> #[trigger] final(self).spec_rate(d) == old(
                self,
            ).spec_rate(d),
    {
        let ghost es0 = self.entries_view();
        let ghost dv = denom@;
        self.entries.push(RateEntry { denom, rate });
        proof {
            let ev = RateEntryView { denom: dv, rate };
            assert(self.entries_view() =~= es0.push(ev));
            assert forall|d: Seq<char>| true implies find_rate(self.entries_view(), d) == (
            if d == dv {
                Some(rate)
            } else {
                find_rate(es0, d)
            }) by {
                lemma_find_rate_push(es0, ev, d);
            }
            assert forall|i: int, j: int|
                0 <= i < j < self.entries_view().len() implies self.entries_view()[i].denom
                != self.entries_view()[j].denom by {
                if j == es0.len() {
                    lemma_find_rate_skip(es0, es0[i].denom, i);
                    assert(es0.skip(i)[0] == es0[i]);
                }
            }
        }
    }

    /// What the cache holds for a denomination.
    pub fn lookup(&self, denom: &String) -> (r: Option<Option<Dec>>)
        requires
            self.wf(),
        ensures
            r == self.spec_rate(denom@),
    {
        let ghost es = self.entries_view();
        let n = self.entries.len();
        for i in 0..n
            invariant
                n == self.entries@.len(),
                es == self.entries_view(),
                forall|j: int| 0 <= j < i ==> (#[trigger] es[j]).denom != denom@,
        {
            if self.entries[i].denom.eq(denom) {
                proof {
                    lemma_find_rate_skip(es, denom@, i as int);
                    assert(es.skip(i as int)[0] == es[i as int]);
                }
                return Some(self.entries[i].rate);
            }
        }
        proof {
            lemma_find_rate_skip(es, denom@, n as int);
            assert(es.skip(n as int) =~= Seq::<RateEntryView>::empty());
        }
        None
    }

    /// What one reward coin adds to the normalized total: its amount at the
    /// cached rate, and nothing when the rate is unresolvable.
    pub open spec fn spec_contribution(&self, c: CoinView) -> int {
        match self.spec_rate(c.denom) {
            Some(Some(r)) => c.amount * r.atomics,
            _ => 0,
        }
    }

    /// Whether converting one coin stays within the decimal range.
    pub open spec fn contribution_fits(&self, c: CoinView) -> bool {
        match self.spec_rate(c.denom) {
            Some(Some(r)) => c.amount * DECIMAL_FRACTIONAL <= u128::MAX && c.amount * r.atomics
                <= u128::MAX,
            _ => true,
        }
    }

    /// The normalized total of a reward vector, summed coin by coin.
    pub open spec fn spec_total(&self, coins: Seq<CoinView>) -> int
        decreases coins.len(),
    {
        if coins.len() == 0 {
            0
        } else {
            self.spec_total(coins.drop_last()) + self.spec_contribution(coins.last())
        }
    }

    /// The cache has been asked about every denomination of the vector.
    pub open spec fn covers(&self, coins: Seq<CoinView>) -> bool {
        forall|k: int| 0 <= k < coins.len() ==> self.has_denom((#[trigger] coins[k]).denom)
    }

    /// Every conversion and every partial sum of the vector stays within the
    /// decimal range.
    pub open spec fn total_fits(&self, coins: Seq<CoinView>) -> bool
        decreases coins.len(),
    {
        if coins.len() == 0 {
            true
        } else {
            &&& self.total_fits(coins.drop_last())
            &&& self.contribution_fits(coins.last())
            &&& self.spec_total(coins) <= u128::MAX
        }
    }

    /// A vector that fits does so on every prefix.
    pub proof fn lemma_total_fits_take(&self, coins: Seq<CoinView>, i: int)
        requires
            self.total_fits(coins),
            0 <= i <= coins.len(),
        ensures
            self.total_fits(coins.take(i)),
            self.spec_total(coins.take(i)) >= 0,
        decreases coins.len() - i,
    {
        self.lemma_total_nonneg(coins.take(i));
        if i == coins.len() {
            assert(coins.take(i) =~= coins);
        } else {
            self.lemma_total_fits_take(coins, i + 1);
            assert(coins.take(i + 1).drop_last() =~= coins.take(i));
        }
    }

    /// Normalized totals are sums of non-negative contributions.
    pub proof fn lemma_total_nonneg(&self, coins: Seq<CoinView>)
        ensures
            self.spec_total(coins) >= 0,
        decreases coins.len(),
    {
        if coins.len() > 0 {
            self.lemma_total_nonneg(coins.drop_last());
        }
    }
}

/// Converts one coin into the vault denomination at the given rate.
pub fn convert_amount_to_vault_denom(coin: &Coin, exchange_rate: Dec) -> (r: Dec)
    requires
        coin.amount * DECIMAL_FRACTIONAL <= u128::MAX,
        coin.amount * exchange_rate.atomics <= u128::MAX,
    ensures
        r.atomics == coin.amount * exchange_rate.atomics,
{
    let amount = crate::dec::uint128_to_decimal(coin.amount);
    proof {
        assert(mul_atomics(
            (coin.amount * DECIMAL_FRACTIONAL) as int,
            exchange_rate.atomics as int,
        ) == coin.amount * exchange_rate.atomics) by (nonlinear_arith)
            requires
                coin.amount * DECIMAL_FRACTIONAL <= u128::MAX,
                DECIMAL_FRACTIONAL > 0,
        ;
    }
    crate::dec::decimal_multiplication_in_256(amount, exchange_rate)
}

/// Converts one reward coin at its cached rate; `None` skips the coin
/// because its denomination was recorded as unresolvable.
pub fn get_amount_in_vault_denom(coin: &Coin, exchange_rates_map: &ExchangeRates) -> (r: Option<
    Dec,
>)
    requires
        exchange_rates_map.wf(),
        exchange_rates_map.has_denom(coin@.denom),
        exchange_rates_map.contribution_fits(coin@),
    ensures
        match exchange_rates_map.spec_rate(coin@.denom) {
            Some(Some(_)) => r == Some(
                Dec { atomics: exchange_rates_map.spec_contribution(coin@) as u128 },
            ),
            _ => r is None,
        },
{
    let rate_opt = exchange_rates_map.lookup(&coin.denom);
    match rate_opt {
        Some(Some(rate)) => Some(convert_amount_to_vault_denom(coin, rate)),
        _ => None,
    }
}

/// Sums a reward vector in the vault denomination, coin by coin in order,
/// skipping coins whose denomination is unresolvable.
pub fn get_total_rewards_in_vault_denom(rewards: &Vec<Coin>, exchange_rates_map: &ExchangeRates)
    -> (r: Dec)
    requires
        exchange_rates_map.wf(),
        exchange_rates_map.covers(rewards@.map_values(|c: Coin| c@)),
        exchange_rates_map.total_fits(rewards@.map_values(|c: Coin| c@)),
    ensures
        r.atomics == exchange_rates_map.spec_total(rewards@.map_values(|c: Coin| c@)),
{
    let ghost coins = rewards@.map_values(|c: Coin| c@);
    let mut current_rewards = Dec::zero();
    let n = rewards.len();
    proof {
        assert(coins.take(0) =~= Seq::<CoinView>::empty());
    }
    for i in 0..n
        invariant
            n == rewards@.len(),
            coins == rewards@.map_values(|c: Coin| c@),
            exchange_rates_map.wf(),
            exchange_rates_map.covers(coins),
            exchange_rates_map.total_fits(coins),
            current_rewards.atomics == exchange_rates_map.spec_total(coins.take(i as int)),
    {
        proof {
            assert(coins[i as int] == rewards@[i as int]@);
            exchange_rates_map.lemma_total_fits_take(coins, i + 1);
            exchange_rates_map.lemma_total_fits_take(coins, i as int);
            assert(coins.take(i + 1).drop_last() =~= coins.take(i as int));
            assert(coins.take(i + 1).last() == coins[i as int]);
        }
        let reward_for_coin = get_amount_in_vault_denom(&rewards[i], exchange_rates_map);
        if let Some(converted) = reward_for_coin {
            current_rewards = crate::dec::decimal_summation_in_256(converted, current_rewards);
        }
    }
    proof {
        assert(coins.take(n as int) =~= coins);
    }
    current_rewards
}

} // verus!
