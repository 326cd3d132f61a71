//! The snapshot computer and the batched, resumable recording pass.
//!
//! A recording call receives, for each validator of the current batch, an
//! observation of the external staking ledger: the pool's delegation to the
//! validator (amount and accumulated multi-currency rewards), the validator's
//! live commission figures (absent when it dropped out of the active set),
//! and its self-delegation.  The engine turns the observations into metric
//! records and advances the batch cursor; a rejected call mutates nothing.
use vstd::prelude::*;

use crate::dec::{Dec, DECIMAL_FRACTIONAL, div_atomics, mul_atomics};
use crate::error::ContractError;
use crate::rates::ExchangeRates;
use crate::state::{
    Coin, CoinView, Config, State, StateView, ValidatorAccounts, ValidatorAccountsView,
    distinct_operators,
    MetricsView, ValidatorMetrics, duplicate_coins,
};
use crate::store::MetricsStore;

verus! {

/// The pool's delegation to one validator, as the staking ledger reports it.
#[derive(Debug, PartialEq, Eq)]
pub struct DelegationInfo {
    /// The delegated amount, after any slashing.
    pub amount: u128,
    /// The rewards accumulated on the delegation, per currency.
    pub accumulated_rewards: Vec<Coin>,
}

/// Mathematical image of a `DelegationInfo`.
pub ghost struct DelegationInfoView {
    pub amount: u128,
    pub accumulated_rewards: Seq<CoinView>,
}

impl View for DelegationInfo {
    type V = DelegationInfoView;

    open spec fn view(&self) -> DelegationInfoView {
        DelegationInfoView {
            amount: self.amount,
            accumulated_rewards: self.accumulated_rewards@.map_values(|c: Coin| c@),
        }
    }
}

/// A validator's live commission figures.
#[derive(Debug, PartialEq, Eq)]
pub struct ValidatorInfo {
    pub commission: Dec,
    pub max_commission: Dec,
}

/// Mathematical image of a `ValidatorInfo`.
pub ghost struct ValidatorInfoView {
    pub commission: Dec,
    pub max_commission: Dec,
}

impl View for ValidatorInfo {
    type V = ValidatorInfoView;

    open spec fn view(&self) -> ValidatorInfoView {
        ValidatorInfoView { commission: self.commission, max_commission: self.max_commission }
    }
}

/// Everything the external staking ledger reports about one validator for
/// one recording pass.
#[derive(Debug, PartialEq, Eq)]
pub struct ValidatorObservation {
    /// The pool's delegation; its absence is fatal for the whole call.
    pub delegation: Option<DelegationInfo>,
    /// Live commission figures; absent when the validator left the active
    /// set, which silently skips it.
    pub validator: Option<ValidatorInfo>,
    /// The validator's own self-delegation; absent defaults to zero.
    pub self_delegation: Option<u128>,
}

/// Mathematical image of a `ValidatorObservation`.
pub ghost struct ValidatorObservationView {
    pub delegation: Option<DelegationInfoView>,
    pub validator: Option<ValidatorInfoView>,
    pub self_delegation: Option<u128>,
}

impl View for ValidatorObservation {
    type V = ValidatorObservationView;

    open spec fn view(&self) -> ValidatorObservationView {
        ValidatorObservationView {
            delegation: match self.delegation {
                Some(ref d) => Some(d@),
                None => None,
            },
            validator: match self.validator {
                Some(ref v) => Some(v@),
                None => None,
            },
            self_delegation: self.self_delegation,
        }
    }
}

/// The amount the previous snapshot's raw reward vector holds for a
/// denomination: the last matching coin, as a map built from the vector in
/// order would hold.
pub open spec fn prev_amount_of(prev: Seq<CoinView>, denom: Seq<char>) -> Option<u128>
    decreases prev.len(),
{
    if prev.len() == 0 {
        None
    } else if prev.last().denom == denom {
        Some(prev.last().amount)
    } else {
        prev_amount_of(prev.drop_last(), denom)
    }
}

/// The previous amount for a denomination, with zero for an absent one.
pub open spec fn prev_amount_or_zero(prev: Seq<CoinView>, denom: Seq<char>) -> u128 {
    match prev_amount_of(prev, denom) {
        Some(a) => a,
        None => 0,
    }
}

/// The per-currency reward difference since the previous snapshot: each
/// current coin less the previous amount of its denomination.
pub open spec fn spec_diff_coins(cur: Seq<CoinView>, prev: Seq<CoinView>) -> Seq<CoinView> {
    Seq::new(
        cur.len(),
        |i: int|
            CoinView {
                denom: cur[i].denom,
                amount: (cur[i].amount - prev_amount_or_zero(prev, cur[i].denom)) as u128,
            },
    )
}

/// No current reward has shrunk below its previous amount, so every
/// difference is representable.
pub open spec fn diff_ok(cur: Seq<CoinView>, prev: Seq<CoinView>) -> bool {
    forall|i: int|
        0 <= i < cur.len() ==> prev_amount_or_zero(prev, (#[trigger] cur[i]).denom) <= cur[i].amount
}

/// Finds the previous amount recorded for a denomination.
fn prev_amount_in(prev_coins: &Vec<Coin>, denom: &String) -> (r: Option<u128>)
    ensures
        r == prev_amount_of(prev_coins@.map_values(|c: Coin| c@), denom@),
{
    let ghost prev = prev_coins@.map_values(|c: Coin| c@);
    let n = prev_coins.len();
    proof {
        assert(prev.take(n as int) =~= prev);
    }
    let mut i = n;
    while i > 0
        invariant
            n == prev_coins@.len(),
            prev == prev_coins@.map_values(|c: Coin| c@),
            i <= n,
            prev_amount_of(prev, denom@) == prev_amount_of(prev.take(i as int), denom@),
        decreases i,
    {
        if prev_coins[i - 1].denom.eq(denom) {
            proof {
                let p = prev.take(i as int);
                assert(p.last() == prev[i - 1]);
                assert(prev[i - 1] == prev_coins@[i - 1]@);
            }
            return Some(prev_coins[i - 1].amount);
        }
        proof {
            let p = prev.take(i as int);
            assert(p.last() == prev[i - 1]);
            assert(prev[i - 1] == prev_coins@[i - 1]@);
            assert(p.drop_last() =~= prev.take(i - 1));
        }
        i = i - 1;
    }
    proof {
        assert(prev.take(0) =~= Seq::<CoinView>::empty());
    }
    None
}

/// The previous snapshot a recording pass diffs against: the record stored
/// at the immediately preceding recorded cron timestamp, if any.
pub open spec fn spec_prev_metric(
    store: MetricsStore,
    addr: Seq<char>,
    last_cron: Option<u64>,
) -> Option<MetricsView> {
    match last_cron {
        None => None,
        Some(t) => store.spec_load(addr, t),
    }
}

/// The reward vector a recording pass normalizes: the diff against the
/// previous snapshot, or the full current rewards for a first snapshot.
pub open spec fn spec_diff_of(cur: Seq<CoinView>, prev: Option<MetricsView>) -> Seq<CoinView> {
    match prev {
        None => cur,
        Some(pm) => spec_diff_coins(cur, pm.rewards_in_coins),
    }
}

/// The cumulative normalized rewards baseline: zero for a first snapshot.
pub open spec fn spec_prev_rewards_of(prev: Option<MetricsView>) -> Dec {
    match prev {
        None => Dec { atomics: 0 },
        Some(pm) => pm.rewards,
    }
}

/// Computes the reward diff since the previous cron snapshot, returning the
/// diff vector and the previous cumulative normalized rewards.  For a
/// validator without a snapshot at that timestamp the diff is the full
/// current reward vector and the baseline is zero.
pub fn get_diff_in_rewards_from_last_cron(
    store: &MetricsStore,
    validator_addr: &String,
    last_cron_time: Option<u64>,
    current_accumulated_rewards: Vec<Coin>,
) -> (r: (Vec<Coin>, Dec))
    requires
        store.wf(),
        spec_prev_metric(*store, validator_addr@, last_cron_time) matches Some(pm) ==> diff_ok(
            current_accumulated_rewards@.map_values(|c: Coin| c@),
            pm.rewards_in_coins,
        ),
    ensures
        ({
            let prev = spec_prev_metric(*store, validator_addr@, last_cron_time);
            let cur = current_accumulated_rewards@.map_values(|c: Coin| c@);
            r.0@.map_values(|c: Coin| c@) == spec_diff_of(cur, prev) && r.1
                == spec_prev_rewards_of(prev)
        }),
{
    let ghost cur = current_accumulated_rewards@.map_values(|c: Coin| c@);
    let last_cron = match last_cron_time {
        None => {
            return (current_accumulated_rewards, Dec::zero());
        },
        Some(t) => t,
    };
    let previous_metrics = match store.may_load(validator_addr, last_cron) {
        None => {
            return (current_accumulated_rewards, Dec::zero());
        },
        Some(m) => m,
    };
    let ghost pm = previous_metrics@;
    let ghost prev = pm.rewards_in_coins;
    let mut diff_in_rewards: Vec<Coin> = Vec::new();
    let n = current_accumulated_rewards.len();
    for i in 0..n
        invariant
            n == current_accumulated_rewards@.len(),
            cur == current_accumulated_rewards@.map_values(|c: Coin| c@),
            pm == previous_metrics@,
            prev == pm.rewards_in_coins,
            diff_ok(cur, prev),
            diff_in_rewards@.len() == i,
            forall|j: int| 0 <= j < i ==> diff_in_rewards@[j]@ == spec_diff_coins(cur, prev)[j],
    {
        let reward = &current_accumulated_rewards[i];
        proof {
            assert(reward@ == cur[i as int]);
        }
        let prev_reward_opt = prev_amount_in(&previous_metrics.rewards_in_coins, &reward.denom);
        let amount = match prev_reward_opt {
            Some(prev_amount) => reward.amount - prev_amount,
            None => reward.amount,
        };
        diff_in_rewards.push(Coin { denom: reward.denom.clone(), amount });
    }
    proof {
        assert(diff_in_rewards@.map_values(|c: Coin| c@) =~= spec_diff_coins(cur, prev));
    }
    (diff_in_rewards, previous_metrics.rewards)
}

/// The most recent snapshot of a validator, whatever its timestamp.
pub open spec fn spec_latest(store: MetricsStore, addr: Seq<char>) -> Option<MetricsView> {
    if store.history_of(addr).len() == 0 {
        None
    } else {
        Some(store.history_of(addr).last())
    }
}

/// One slashing-pointer step in atomics: the previous pointer scaled by the
/// ratio of the current to the previous delegated amount.
pub open spec fn pointer_step(prev_delegated: u128, prev_pointer: int, cur_delegated: u128) -> int {
    mul_atomics(
        div_atomics(
            cur_delegated * DECIMAL_FRACTIONAL,
            prev_delegated * DECIMAL_FRACTIONAL,
        ),
        prev_pointer,
    )
}

/// The new cumulative slashing pointer in atomics: 1.0 for a first
/// snapshot, else one pointer step from the most recent snapshot.
pub open spec fn spec_slashing(prev_latest: Option<MetricsView>, current_delegated: u128) -> int {
    match prev_latest {
        None => DECIMAL_FRACTIONAL as int,
        Some(lm) => pointer_step(
            lm.delegated_amount,
            lm.slashing_pointer.atomics as int,
            current_delegated,
        ),
    }
}

/// Whether the arithmetic of one validator's snapshot stays within the
/// decimal range; the machine limit a recording call must respect.
pub open spec fn metric_fits(
    store: MetricsStore,
    cache: ExchangeRates,
    last_cron: Option<u64>,
    addr: Seq<char>,
    del: DelegationInfoView,
) -> bool {
    let prev = spec_prev_metric(store, addr, last_cron);
    let diff = spec_diff_of(del.accumulated_rewards, prev);
    &&& (prev matches Some(pm) ==> diff_ok(del.accumulated_rewards, pm.rewards_in_coins))
    &&& cache.covers(diff)
    &&& cache.total_fits(diff)
    &&& cache.spec_total(diff) + spec_prev_rewards_of(prev).atomics <= u128::MAX
    &&& match spec_latest(store, addr) {
        None => true,
        Some(lm) => {
            &&& lm.delegated_amount > 0
            &&& del.amount * DECIMAL_FRACTIONAL <= u128::MAX
            &&& lm.delegated_amount * DECIMAL_FRACTIONAL <= u128::MAX
            &&& div_atomics(
                del.amount * DECIMAL_FRACTIONAL,
                lm.delegated_amount * DECIMAL_FRACTIONAL,
            ) <= u128::MAX
            &&& mul_atomics(
                div_atomics(
                    del.amount * DECIMAL_FRACTIONAL,
                    lm.delegated_amount * DECIMAL_FRACTIONAL,
                ),
                lm.slashing_pointer.atomics as int,
            ) <= u128::MAX
        },
    }
}

/// The full metric record one recording pass assembles for one validator.
pub open spec fn spec_metric(
    store: MetricsStore,
    cache: ExchangeRates,
    last_cron: Option<u64>,
    val: ValidatorAccountsView,
    del: DelegationInfoView,
    vinfo: ValidatorInfoView,
    self_del: Option<u128>,
    t: u64,
) -> MetricsView {
    let prev = spec_prev_metric(store, val.operator_address, last_cron);
    let diff = spec_diff_of(del.accumulated_rewards, prev);
    MetricsView {
        operator_addr: val.operator_address,
        rewards: Dec {
            atomics: (cache.spec_total(diff) + spec_prev_rewards_of(prev).atomics) as u128,
        },
        delegated_amount: del.amount,
        self_delegated_amount: match self_del {
            Some(a) => a,
            None => 0,
        },
        slashing_pointer: Dec {
            atomics: spec_slashing(spec_latest(store, val.operator_address), del.amount) as u128,
        },
        commission: vinfo.commission,
        max_commission: vinfo.max_commission,
        timestamp: t,
        rewards_in_coins: del.accumulated_rewards,
    }
}

/// Assembles one validator's metric record from the observation of the
/// staking ledger, the previous snapshots in the store, and the rate cache.
pub fn compute_validator_metric(
    store: &MetricsStore,
    cache: &ExchangeRates,
    last_cron_time: Option<u64>,
    validator_addr: &ValidatorAccounts,
    delegation: &DelegationInfo,
    validator: &ValidatorInfo,
    self_delegation: Option<u128>,
    timestamp: u64,
) -> (r: ValidatorMetrics)
    requires
        store.wf(),
        cache.wf(),
        metric_fits(*store, *cache, last_cron_time, validator_addr@.operator_address, delegation@),
    ensures
        r@ == spec_metric(
            *store,
            *cache,
            last_cron_time,
            validator_addr@,
            delegation@,
            validator@,
            self_delegation,
            timestamp,
        ),
{
    let ghost prev = spec_prev_metric(*store, validator_addr@.operator_address, last_cron_time);
    let (rewards_diff, previous_rewards) = get_diff_in_rewards_from_last_cron(
        store,
        &validator_addr.operator_address,
        last_cron_time,
        duplicate_coins(&delegation.accumulated_rewards),
    );
    let current_rewards_diff = crate::rates::get_total_rewards_in_vault_denom(&rewards_diff, cache);
    let current_delegated_amount = delegation.amount;
    let self_delegation_amount = match self_delegation {
        Some(a) => a,
        None => 0,
    };
    let mut current_slashing_pointer = Dec::one();
    let latest = store.latest_for_validator(&validator_addr.operator_address);
    if let Some(lm) = latest {
        let ratio = crate::dec::decimal_division_in_256(
            crate::dec::uint128_to_decimal(current_delegated_amount),
            crate::dec::uint128_to_decimal(lm.delegated_amount),
        );
        current_slashing_pointer = crate::dec::decimal_multiplication_in_256(
            ratio,
            lm.slashing_pointer,
        );
    }
    let r = ValidatorMetrics {
        operator_addr: validator_addr.operator_address.clone(),
        rewards: crate::dec::decimal_summation_in_256(current_rewards_diff, previous_rewards),
        delegated_amount: current_delegated_amount,
        self_delegated_amount: self_delegation_amount,
        slashing_pointer: current_slashing_pointer,
        commission: validator.commission,
        max_commission: validator.max_commission,
        timestamp,
        rewards_in_coins: duplicate_coins(&delegation.accumulated_rewards),
    };
    proof {
        assert(r@.rewards_in_coins =~= delegation@.accumulated_rewards);
    }
    r
}

/// The newest recorded cron timestamp, or 0 when none exists.
pub fn get_last_recorded_timestamp(state: &State) -> (r: u64)
    ensures
        r == state@.last_recorded_timestamp(),
{
    let len = state.cron_timestamps.len();
    if len == 0 {
        0
    } else {
        state.cron_timestamps[len - 1]
    }
}

/// Whether a recording call for `t` begins a new cron timestamp rather than
/// resuming the newest one.
pub open spec fn is_new_timestamp(sv: StateView, t: u64) -> bool {
    sv.cron_timestamps.len() == 0 || sv.cron_timestamps.last() != t
}

/// The state after `begin or resume`: a new timestamp is appended and the
/// batch cursor reset; resuming changes nothing.
pub open spec fn spec_state_with_timestamp(sv: StateView, t: u64) -> StateView {
    if is_new_timestamp(sv, t) {
        StateView {
            vault_denom: sv.vault_denom,
            validators: sv.validators,
            cron_timestamps: sv.cron_timestamps.push(t),
            validator_index_for_next_cron: 0,
        }
    } else {
        sv
    }
}

/// Where the current batch starts: the stored cursor.
pub open spec fn spec_batch_start(sv1: StateView) -> int {
    sv1.validator_index_for_next_cron as int
}

/// Where the current batch ends: one batch further, capped by the roster.
pub open spec fn spec_batch_end(sv1: StateView, batch_size: u64) -> int {
    let n = sv1.validators.len() as int;
    let s = spec_batch_start(sv1);
    if s >= n {
        s
    } else if s + batch_size <= n {
        s + batch_size
    } else {
        n
    }
}

/// The roster slice the current batch processes; empty once the cursor has
/// reached the roster size.
pub open spec fn spec_batch(sv1: StateView, batch_size: u64) -> Seq<ValidatorAccountsView> {
    if spec_batch_start(sv1) >= sv1.validators.len() {
        Seq::empty()
    } else {
        sv1.validators.subrange(spec_batch_start(sv1), spec_batch_end(sv1, batch_size))
    }
}

/// The state after the batch is taken: the cursor advances to the batch end.
pub open spec fn spec_state_after_batch(sv1: StateView, batch_size: u64) -> StateView {
    if spec_batch_start(sv1) >= sv1.validators.len() {
        sv1
    } else {
        StateView {
            vault_denom: sv1.vault_denom,
            validators: sv1.validators,
            cron_timestamps: sv1.cron_timestamps,
            validator_index_for_next_cron: spec_batch_end(sv1, batch_size) as u64,
        }
    }
}

/// The cron timestamp immediately preceding `t` among the recorded ones:
/// what a recording pass for `t` diffs rewards against.
pub open spec fn spec_prev_cron(ts: Seq<u64>, t: u64) -> Option<u64> {
    if ts.len() == 0 {
        None
    } else if ts.last() == t {
        if ts.len() >= 2 {
            Some(ts[ts.len() - 2])
        } else {
            None
        }
    } else {
        Some(ts.last())
    }
}

/// The batch cursor step: begins or resumes the timestamp, takes the next
/// roster slice and advances the cursor past it.  Once the roster is fully
/// processed for the newest timestamp, the slice is empty and the state does
/// not change.
pub fn get_validators_to_record(state: &mut State, config: &Config, timestamp: u64) -> (r: Vec<
    ValidatorAccounts,
>)
    requires
        old(state)@.wf(),
        old(state)@.last_recorded_timestamp() <= timestamp,
    ensures
        final(state)@.wf(),
        final(state)@ == spec_state_after_batch(
            spec_state_with_timestamp(old(state)@, timestamp),
            config.batch_size,
        ),
        r@.map_values(|v: ValidatorAccounts| v@) == spec_batch(
            spec_state_with_timestamp(old(state)@, timestamp),
            config.batch_size,
        ),
{
    let ghost sv0 = state@;
    let batch_size = config.batch_size;
    let len = state.cron_timestamps.len();
    let is_new = len == 0 || state.cron_timestamps[len - 1] != timestamp;
    if is_new {
        state.cron_timestamps.push(timestamp);
        state.validator_index_for_next_cron = 0;
    }
    let ghost sv1 = spec_state_with_timestamp(sv0, timestamp);
    proof {
        assert(state@ == sv1);
        assert forall|i: int, j: int|
            0 <= i < j < sv1.cron_timestamps.len() implies sv1.cron_timestamps[i]
            < sv1.cron_timestamps[j] by {
            if is_new && j == sv1.cron_timestamps.len() - 1 && sv0.cron_timestamps.len() > 0 {
                assert(sv0.cron_timestamps[i] <= sv0.cron_timestamps.last());
            }
        }
    }
    let total = state.validators.len();
    let start = state.validator_index_for_next_cron;
    if start >= total as u64 {
        let r: Vec<ValidatorAccounts> = Vec::new();
        proof {
            assert(r@.map_values(|v: ValidatorAccounts| v@) =~= spec_batch(sv1, batch_size));
        }
        return r;
    }
    let end: u64 = if batch_size < total as u64 - start {
        start + batch_size
    } else {
        total as u64
    };
    let mut r: Vec<ValidatorAccounts> = Vec::new();
    let mut i = start;
    while i < end
        invariant
            start <= i <= end,
            end <= total as u64,
            total == state.validators@.len(),
            state@ == sv1,
            r@.len() == i - start,
            forall|j: int| 0 <= j < i - start ==> r@[j]@ == sv1.validators[start + j],
        decreases end - i,
    {
        r.push(state.validators[i as usize].duplicate());
        i = i + 1;
    }
    state.validator_index_for_next_cron = end;
    proof {
        assert(end as int == spec_batch_end(sv1, batch_size));
        assert(state@ == spec_state_after_batch(sv1, batch_size));
        assert(r@.map_values(|v: ValidatorAccounts| v@) =~= spec_batch(sv1, batch_size));
    }
    r
}

/// Every observation of the batch found a delegation; absence anywhere is
/// fatal for the whole call.
pub open spec fn all_delegations_present(obs: Seq<ValidatorObservationView>) -> bool {
    forall|i: int| 0 <= i < obs.len() ==> (#[trigger] obs[i]).delegation is Some
}

/// The first batch position whose observation found no delegation.
pub open spec fn first_missing_delegation(obs: Seq<ValidatorObservationView>) -> int
    decreases obs.len(),
{
    if obs.len() == 0 {
        0
    } else if obs[0].delegation is None {
        0
    } else {
        1 + first_missing_delegation(obs.drop_first())
    }
}

proof fn lemma_first_missing(obs: Seq<ValidatorObservationView>, i: int)
    requires
        0 <= i < obs.len(),
        obs[i].delegation is None,
        forall|j: int| 0 <= j < i ==> (#[trigger] obs[j]).delegation is Some,
    ensures
        first_missing_delegation(obs) == i,
    decreases i,
{
    if i > 0 {
        assert forall|j: int| 0 <= j < i - 1 implies (#[trigger] obs.drop_first()[j]).delegation
            is Some by {
            assert(obs.drop_first()[j] == obs[j + 1]);
        }
        assert(obs.drop_first()[i - 1] == obs[i]);
        lemma_first_missing(obs.drop_first(), i - 1);
    }
}

/// The metric records one batch produces, in roster order, with validators
/// that left the active set silently skipped.
pub open spec fn spec_metrics_list(
    store: MetricsStore,
    cache: ExchangeRates,
    last_cron: Option<u64>,
    vals: Seq<ValidatorAccountsView>,
    obs: Seq<ValidatorObservationView>,
    t: u64,
) -> Seq<MetricsView>
    decreases vals.len(),
{
    if vals.len() == 0 || obs.len() != vals.len() {
        Seq::empty()
    } else {
        let rest = spec_metrics_list(store, cache, last_cron, vals.drop_last(), obs.drop_last(), t);
        match (obs.last().validator, obs.last().delegation) {
            (Some(vinfo), Some(del)) => rest.push(
                spec_metric(
                    store,
                    cache,
                    last_cron,
                    vals.last(),
                    del,
                    vinfo,
                    obs.last().self_delegation,
                    t,
                ),
            ),
            _ => rest,
        }
    }
}

/// The arithmetic of every snapshot the batch will compute stays in range.
pub open spec fn batch_fits(
    store: MetricsStore,
    cache: ExchangeRates,
    last_cron: Option<u64>,
    vals: Seq<ValidatorAccountsView>,
    obs: Seq<ValidatorObservationView>,
) -> bool {
    forall|i: int|
        0 <= i < vals.len() ==> ((#[trigger] obs[i]).delegation matches Some(del)
            ==> (obs[i].validator is Some ==> metric_fits(
            store,
            cache,
            last_cron,
            vals[i].operator_address,
            del,
        )))
}

/// What the records of one batch look like: every record carries the batch
/// timestamp, names a distinct operator address, and that address is one of
/// the batch's validators.
pub proof fn lemma_metrics_list_props(
    store: MetricsStore,
    cache: ExchangeRates,
    last_cron: Option<u64>,
    vals: Seq<ValidatorAccountsView>,
    obs: Seq<ValidatorObservationView>,
    t: u64,
)
    requires
        vals.len() == obs.len(),
        crate::state::distinct_operators(vals),
    ensures
        ({
            let list = spec_metrics_list(store, cache, last_cron, vals, obs, t);
            &&& forall|j: int| 0 <= j < list.len() ==> (#[trigger] list[j]).timestamp == t
            &&& forall|j: int| 0 <= j < list.len() ==> exists|k: int|
                0 <= k < vals.len() && (#[trigger] list[j]).operator_addr
                    == vals[k].operator_address
            &&& forall|p: int, q: int|
                0 <= p < q < list.len() ==> list[p].operator_addr != list[q].operator_addr
        }),
    decreases vals.len(),
{
    let list = spec_metrics_list(store, cache, last_cron, vals, obs, t);
    if vals.len() > 0 {
        let vrest = vals.drop_last();
        let orest = obs.drop_last();
        assert forall|i: int, j: int|
            0 <= i < j < vrest.len() implies vrest[i].operator_address
            != vrest[j].operator_address by {
            assert(vrest[i] == vals[i] && vrest[j] == vals[j]);
        }
        lemma_metrics_list_props(store, cache, last_cron, vrest, orest, t);
        let rest = spec_metrics_list(store, cache, last_cron, vrest, orest, t);
        assert forall|j: int| 0 <= j < list.len() implies exists|k: int|
            0 <= k < vals.len() && (#[trigger] list[j]).operator_addr
                == vals[k].operator_address by {
            if j < rest.len() {
                let k = choose|k: int|
                    0 <= k < vrest.len() && rest[j].operator_addr == vrest[k].operator_address;
                assert(vals[k] == vrest[k]);
                assert(0 <= k < vals.len() && list[j].operator_addr == vals[k].operator_address);
            } else {
                assert(list[j].operator_addr == vals[vals.len() - 1].operator_address);
            }
        }
        assert forall|p: int, q: int|
            0 <= p < q < list.len() implies list[p].operator_addr != list[q].operator_addr by {
            if q == list.len() - 1 && list.len() > rest.len() {
                let k = choose|k: int|
                    0 <= k < vrest.len() && rest[p].operator_addr == vrest[k].operator_address;
                assert(vals[k] == vrest[k]);
                assert(vals[k].operator_address != vals[vals.len() - 1].operator_address);
            }
        }
    }
}

/// Computes the metric records of one batch from its observations.  Fails,
/// computing nothing, as soon as any validator of the batch has no
/// delegation from the pool; a validator outside the active set is skipped.
pub fn compute_current_metrics(
    store: &MetricsStore,
    cache: &ExchangeRates,
    last_cron_time: Option<u64>,
    delegator: &String,
    validators: &Vec<ValidatorAccounts>,
    observations: &Vec<ValidatorObservation>,
    timestamp: u64,
) -> (r: Result<Vec<ValidatorMetrics>, ContractError>)
    requires
        store.wf(),
        cache.wf(),
        validators@.len() == observations@.len(),
        batch_fits(
            *store,
            *cache,
            last_cron_time,
            validators@.map_values(|v: ValidatorAccounts| v@),
            observations@.map_values(|o: ValidatorObservation| o@),
        ),
    ensures
        ({
            let vals = validators@.map_values(|v: ValidatorAccounts| v@);
            let obs = observations@.map_values(|o: ValidatorObservation| o@);
            &&& (r is Ok <==> all_delegations_present(obs))
            &&& (r matches Ok(v) ==> v@.map_values(|m: ValidatorMetrics| m@) == spec_metrics_list(
                *store,
                *cache,
                last_cron_time,
                vals,
                obs,
                timestamp,
            ))
            &&& (r matches Err(e) ==> e matches ContractError::NoDelegationFound {
                manager,
                validator,
            } && manager@ == delegator@ && validator@ == vals[first_missing_delegation(
                obs,
            )].operator_address)
        }),
{
    let ghost vals = validators@.map_values(|v: ValidatorAccounts| v@);
    let ghost obs = observations@.map_values(|o: ValidatorObservation| o@);
    let mut current_metrics: Vec<ValidatorMetrics> = Vec::new();
    let n = validators.len();
    proof {
        assert(vals.take(0) =~= Seq::<ValidatorAccountsView>::empty());
        assert(obs.take(0) =~= Seq::<ValidatorObservationView>::empty());
    }
    for i in 0..n
        invariant
            n == validators@.len(),
            n == observations@.len(),
            vals == validators@.map_values(|v: ValidatorAccounts| v@),
            obs == observations@.map_values(|o: ValidatorObservation| o@),
            store.wf(),
            cache.wf(),
            batch_fits(*store, *cache, last_cron_time, vals, obs),
            forall|j: int| 0 <= j < i ==> (#[trigger] obs[j]).delegation is Some,
            current_metrics@.map_values(|m: ValidatorMetrics| m@) == spec_metrics_list(
                *store,
                *cache,
                last_cron_time,
                vals.take(i as int),
                obs.take(i as int),
                timestamp,
            ),
    {
        let validator_addr = &validators[i];
        let observation = &observations[i];
        proof {
            assert(vals[i as int] == validators@[i as int]@);
            assert(obs[i as int] == observations@[i as int]@);
        }
        let delegation = match observation.delegation {
            None => {
                proof {
                    lemma_first_missing(obs, i as int);
                }
                return Err(
                    ContractError::NoDelegationFound {
                        manager: delegator.clone(),
                        validator: validator_addr.operator_address.clone(),
                    },
                );
            },
            Some(ref d) => d,
        };
        let ghost metrics_before = current_metrics@;
        match observation.validator {
            None => {
                // the validator dropped out of the active set: skip it
            },
            Some(ref validator) => {
                let metric = compute_validator_metric(
                    store,
                    cache,
                    last_cron_time,
                    validator_addr,
                    delegation,
                    validator,
                    observation.self_delegation,
                    timestamp,
                );
                current_metrics.push(metric);
            },
        }
        proof {
            assert(vals.take(i + 1).drop_last() =~= vals.take(i as int));
            assert(obs.take(i + 1).drop_last() =~= obs.take(i as int));
            assert(vals.take(i + 1).last() == vals[i as int]);
            assert(obs.take(i + 1).last() == obs[i as int]);
            if obs[i as int].validator is Some {
                assert(current_metrics@.map_values(|m: ValidatorMetrics| m@)
                    =~= metrics_before.map_values(|m: ValidatorMetrics| m@).push(
                    current_metrics@.last()@,
                ));
            }
        }
    }
    proof {
        assert(vals.take(n as int) =~= vals);
        assert(obs.take(n as int) =~= obs);
    }
    Ok(current_metrics)
}

/// One recording call: authorizes the caller, begins or resumes the cron
/// timestamp, computes the metric records of the next batch from the
/// observations, persists them, and advances the cursor.  A rejected call
/// leaves the state and the store exactly as they were; once the roster is
/// fully processed for the newest timestamp, further calls for it return
/// `Ok(0)` and change nothing.
pub fn record_validator_metrics(
    state: &mut State,
    store: &mut MetricsStore,
    config: &Config,
    caller: &String,
    delegator: &String,
    timestamp: u64,
    observations: &Vec<ValidatorObservation>,
    cache: &ExchangeRates,
) -> (r: Result<u64, ContractError>)
    requires
        old(state)@.wf(),
        old(store).wf(),
        cache.wf(),
        caller@ == config@.manager && old(state)@.last_recorded_timestamp() <= timestamp ==> ({
            let batch = spec_batch(
                spec_state_with_timestamp(old(state)@, timestamp),
                config.batch_size,
            );
            &&& observations@.len() == batch.len()
            &&& batch_fits(
                *old(store),
                *cache,
                spec_prev_cron(old(state)@.cron_timestamps, timestamp),
                batch,
                observations@.map_values(|o: ValidatorObservation| o@),
            )
        }),
    ensures
        final(state)@.wf(),
        final(store).wf(),
        (r matches Err(ContractError::Unauthorized {})) <==> caller@ != config@.manager,
        caller@ == config@.manager ==> ((r matches Err(
            ContractError::TimestampWithinExistingRange {},
        )) <==> old(state)@.last_recorded_timestamp() > timestamp),
        caller@ == config@.manager && old(state)@.last_recorded_timestamp() <= timestamp ==> (r
            is Ok <==> all_delegations_present(
            observations@.map_values(|o: ValidatorObservation| o@),
        )),
        r is Err ==> final(state)@ == old(state)@ && *final(store) == *old(store),
        r matches Ok(count) ==> ({
            let sv1 = spec_state_with_timestamp(old(state)@, timestamp);
            let batch = spec_batch(sv1, config.batch_size);
            let list = spec_metrics_list(
                *old(store),
                *cache,
                spec_prev_cron(old(state)@.cron_timestamps, timestamp),
                batch,
                observations@.map_values(|o: ValidatorObservation| o@),
                timestamp,
            );
            &&& count as int == batch.len()
            &&& final(state)@ == spec_state_after_batch(sv1, config.batch_size)
            &&& forall|j: int| 0 <= j < list.len() ==> final(store).spec_load(
                (#[trigger] list[j]).operator_addr,
                timestamp,
            ) == Some(list[j])
            &&& forall|a: Seq<char>, t2: u64|
                (t2 != timestamp || (forall|j: int|
                    0 <= j < list.len() ==> (#[trigger] list[j]).operator_addr != a))
                    ==> #[trigger] final(store).spec_load(a, t2) == old(store).spec_load(a, t2)
        }),
        caller@ == config@.manager && !is_new_timestamp(old(state)@, timestamp) && spec_batch_start(
            old(state)@,
        ) >= old(state)@.validators.len() ==> r == Result::<u64, ContractError>::Ok(0u64)
            && final(state)@ == old(state)@ && *final(store) == *old(store),
{
    if !crate::state::sender_is_manager(config, caller) {
        return Err(ContractError::Unauthorized {});
    }
    if get_last_recorded_timestamp(state) > timestamp {
        return Err(ContractError::TimestampWithinExistingRange {});
    }
    let ghost sv0 = state@;
    let ghost sv1 = spec_state_with_timestamp(sv0, timestamp);
    let ghost batch = spec_batch(sv1, config.batch_size);
    let ghost obs = observations@.map_values(|o: ValidatorObservation| o@);
    let ghost last_cron = spec_prev_cron(sv0.cron_timestamps, timestamp);

    let len0 = state.cron_timestamps.len();
    let was_new = len0 == 0 || state.cron_timestamps[len0 - 1] != timestamp;
    let saved_cursor = state.validator_index_for_next_cron;

    let validators_to_record = get_validators_to_record(state, config, timestamp);

    if validators_to_record.is_empty() {
        proof {
            assert(batch.len() == 0);
            if !was_new {
                assert(state@ == sv0);
            }
            assert(spec_metrics_list(*store, *cache, last_cron, batch, obs, timestamp)
                =~= Seq::<MetricsView>::empty());
        }
        return Ok(0);
    }

    // The timestamp the rewards are diffed against: the recorded timestamp
    // immediately before the one now being recorded.
    let len1 = state.cron_timestamps.len();
    let prev_cron_time: Option<u64> = if len1 >= 2 {
        Some(state.cron_timestamps[len1 - 2])
    } else {
        None
    };
    proof {
        assert(sv1.cron_timestamps.last() == timestamp);
        assert(prev_cron_time == last_cron);
    }

    let computed = compute_current_metrics(
        store,
        cache,
        prev_cron_time,
        delegator,
        &validators_to_record,
        observations,
        timestamp,
    );
    let current_validators_metrics = match computed {
        Err(e) => {
            // a missing delegation rejects the whole call: undo the cursor step
            if was_new {
                state.cron_timestamps.pop();
            }
            state.validator_index_for_next_cron = saved_cursor;
            proof {
                assert(state@.cron_timestamps =~= sv0.cron_timestamps);
                assert(state@ == sv0);
                assert(e matches ContractError::NoDelegationFound { .. });
            }
            return Err(e);
        },
        Ok(m) => m,
    };

    let ghost list = spec_metrics_list(*store, *cache, last_cron, batch, obs, timestamp);
    proof {
        assert forall|i: int, j: int|
            0 <= i < j < batch.len() implies batch[i].operator_address
            != batch[j].operator_address by {
            let s = spec_batch_start(sv1);
            assert(batch[i] == sv1.validators[s + i]);
            assert(batch[j] == sv1.validators[s + j]);
        }
        lemma_metrics_list_props(*store, *cache, last_cron, batch, obs, timestamp);
    }

    let count = validators_to_record.len() as u64;
    let total = current_validators_metrics.len();
    let ghost store0 = *store;
    for i in 0..total
        invariant
            total == current_validators_metrics@.len(),
            current_validators_metrics@.map_values(|m: ValidatorMetrics| m@) == list,
            forall|j: int| 0 <= j < list.len() ==> (#[trigger] list[j]).timestamp == timestamp,
            forall|p: int, q: int|
                0 <= p < q < list.len() ==> list[p].operator_addr != list[q].operator_addr,
            store.wf(),
            forall|j: int| 0 <= j < i ==> store.spec_load(
                (#[trigger] list[j]).operator_addr,
                timestamp,
            ) == Some(list[j]),
            forall|a: Seq<char>, t2: u64|
                (t2 != timestamp || (forall|j: int|
                    0 <= j < list.len() ==> (#[trigger] list[j]).operator_addr != a))
                    ==> #[trigger] store.spec_load(a, t2) == store0.spec_load(a, t2),
    {
        proof {
            assert(current_validators_metrics@[i as int]@ == list[i as int]);
        }
        store.save(current_validators_metrics[i].duplicate());
    }
    Ok(count)
}

/// Law: once the roster is fully processed for the newest recorded
/// timestamp, resuming that timestamp is a no-op, however often it is
/// repeated: the batch is empty and the state does not change, so a
/// recording call writes nothing and changes nothing.
pub proof fn lemma_batch_completion_idempotent(sv: StateView, batch_size: u64, t: u64)
    requires
        !is_new_timestamp(sv, t),
        spec_batch_start(sv) >= sv.validators.len(),
    ensures
        spec_state_after_batch(spec_state_with_timestamp(sv, t), batch_size) == sv,
        spec_batch(spec_state_with_timestamp(sv, t), batch_size) == Seq::<
            ValidatorAccountsView,
        >::empty(),
{
}

/// The one call (counting from 1) whose batch processes roster position `j`
/// when batches have size `b`.
pub open spec fn covering_call(j: int, b: u64) -> int {
    j / (b as int) + 1
}

/// The state after `k` recording calls for one timestamp, each taking one
/// batch.
pub open spec fn spec_record_state_iter(sv: StateView, batch_size: u64, t: u64, k: nat) -> StateView
    decreases k,
{
    if k == 0 {
        sv
    } else {
        spec_state_after_batch(
            spec_state_with_timestamp(spec_record_state_iter(sv, batch_size, t, (k - 1) as nat), t),
            batch_size,
        )
    }
}

/// After `i >= 1` recording calls for a fresh timestamp, the timestamp has
/// been appended exactly once and the cursor stands at `min(i * b, n)`.
proof fn lemma_iter_cursor(sv: StateView, b: u64, t: u64, k: nat)
    requires
        b >= 1,
        is_new_timestamp(sv, t),
        k >= 1,
        sv.validators.len() <= u64::MAX,
    ensures
        ({
            let svk = spec_record_state_iter(sv, b, t, k);
            let n = sv.validators.len() as int;
            &&& svk.validators == sv.validators
            &&& svk.vault_denom == sv.vault_denom
            &&& svk.cron_timestamps == sv.cron_timestamps.push(t)
            &&& svk.validator_index_for_next_cron as int == vstd::math::min(k * b, n)
        }),
    decreases k,
{
    let n = sv.validators.len() as int;
    if k == 1 {
        let sv1 = spec_state_with_timestamp(sv, t);
        assert(sv1.cron_timestamps.last() == t);
        assert(spec_record_state_iter(sv, b, t, 0) == sv);
        let svk = spec_record_state_iter(sv, b, t, k);
        assert(svk == spec_state_after_batch(sv1, b));
        assert(k * b == b as int);
        assert(sv1.validator_index_for_next_cron == 0);
        if n == 0 {
            assert(svk == sv1);
            assert(vstd::math::min(k * b, n) == 0);
        } else {
            assert(svk.validator_index_for_next_cron as int == spec_batch_end(sv1, b));
            assert(spec_batch_end(sv1, b) == vstd::math::min(b as int, n));
        }
    } else {
        lemma_iter_cursor(sv, b, t, (k - 1) as nat);
        let prev = spec_record_state_iter(sv, b, t, (k - 1) as nat);
        assert(prev.cron_timestamps.last() == t);
        assert(!is_new_timestamp(prev, t));
        assert(spec_state_with_timestamp(prev, t) == prev);
        let svk = spec_record_state_iter(sv, b, t, k);
        assert(svk == spec_state_after_batch(prev, b));
        assert((k - 1) * b == k * b - b) by (nonlinear_arith);
        let s = prev.validator_index_for_next_cron as int;
        assert(s == vstd::math::min((k - 1) * b, n));
        if s >= n {
            assert(svk == prev);
            assert(s == n);
            assert(k * b >= n);
            assert(vstd::math::min(k * b, n) == n);
        } else {
            assert(s == (k - 1) * b);
            assert(svk.validator_index_for_next_cron as int == spec_batch_end(prev, b));
            assert(spec_batch_end(prev, b) == vstd::math::min(k * b, n));
        }
    }
}

/// Law: resumability of the recording pass.  With batch size `b >= 1`,
/// beginning a fresh timestamp `t` and calling the batch cursor step `k`
/// times, where `k * b` covers the roster size `n`, appends `t` exactly
/// once and drives the cursor to `n`, so further calls are no-ops; and call
/// `i` (counting from 1) hands out exactly the roster slice
/// `[min((i-1)*b, n), min(i*b, n))`.  Those slices are consecutive, so
/// together they cover every roster position exactly once, in order: a
/// position `j` is processed by call `j / b + 1` and no other.
pub proof fn lemma_resumability(sv: StateView, b: u64, t: u64, k: nat)
    requires
        b >= 1,
        k >= 1,
        is_new_timestamp(sv, t),
        k * b >= sv.validators.len(),
        sv.validators.len() <= u64::MAX,
    ensures
        spec_record_state_iter(sv, b, t, k).cron_timestamps == sv.cron_timestamps.push(t),
        spec_record_state_iter(sv, b, t, k).validator_index_for_next_cron
            == sv.validators.len(),
        forall|i: nat|
            1 <= i <= k ==> #[trigger] spec_batch(
                spec_state_with_timestamp(spec_record_state_iter(sv, b, t, (i - 1) as nat), t),
                b,
            ) =~= sv.validators.subrange(
                vstd::math::min((i - 1) * b, sv.validators.len() as int),
                vstd::math::min(i * b, sv.validators.len() as int),
            ),
        forall|j: int|
            0 <= j < sv.validators.len() ==> ({
                let i = #[trigger] covering_call(j, b);
                &&& 1 <= i <= k
                &&& vstd::math::min((i - 1) * b, sv.validators.len() as int) <= j < vstd::math::min(
                    i * b,
                    sv.validators.len() as int,
                )
            }),
{
    let n = sv.validators.len() as int;
    lemma_iter_cursor(sv, b, t, k);
    assert(k * b >= n);
    assert(vstd::math::min(k * b, n) == n);
    assert forall|i: nat| 1 <= i <= k implies #[trigger] spec_batch(
        spec_state_with_timestamp(spec_record_state_iter(sv, b, t, (i - 1) as nat), t),
        b,
    ) =~= sv.validators.subrange(
        vstd::math::min((i - 1) * b, n),
        vstd::math::min(i * b, n),
    ) by {
        let svp = if i == 1 {
            spec_state_with_timestamp(sv, t)
        } else {
            spec_record_state_iter(sv, b, t, (i - 1) as nat)
        };
        if i == 1 {
            assert(spec_record_state_iter(sv, b, t, 0) == sv);
            assert(spec_state_with_timestamp(sv, t).validator_index_for_next_cron == 0);
            assert((1 - 1) * (b as int) == 0) by (nonlinear_arith);
        } else {
            lemma_iter_cursor(sv, b, t, (i - 1) as nat);
            let prev = spec_record_state_iter(sv, b, t, (i - 1) as nat);
            assert(prev.cron_timestamps.last() == t);
            assert(spec_state_with_timestamp(prev, t) == prev);
        }
        let sv1 = spec_state_with_timestamp(spec_record_state_iter(sv, b, t, (i - 1) as nat), t);
        assert(sv1.validator_index_for_next_cron as int == vstd::math::min((i - 1) * b, n));
        assert((i - 1) * b + b == i * b) by (nonlinear_arith);
    }
    assert forall|j: int| 0 <= j < n implies ({
        let i = #[trigger] covering_call(j, b);
        &&& 1 <= i <= k
        &&& vstd::math::min((i - 1) * b, n) <= j < vstd::math::min(i * b, n)
    }) by {
        let bi = b as int;
        vstd::arithmetic::div_mod::lemma_fundamental_div_mod(j, bi);
        let q = j / bi;
        assert(j == bi * q + j % bi);
        assert(0 <= j % bi < bi);
        let i = covering_call(j, b);
        assert(i == q + 1);
        assert(q * bi <= j) by (nonlinear_arith)
            requires
                j == bi * q + j % bi && j % bi >= 0,
        ;
        assert(j < (q + 1) * bi) by (nonlinear_arith)
            requires
                j == bi * q + j % bi && j % bi < bi,
        ;
        assert(q >= 0) by {
            vstd::arithmetic::div_mod::lemma_div_pos_is_pos(j, bi);
        }
        assert(q < k) by (nonlinear_arith)
            requires
                q * bi <= j && j < k * bi && bi > 0 && q >= 0,
        ;
        assert((i - 1) * bi == q * bi);
        assert((q + 1) * bi == i * bi);
    }
}

/// The records of a batch whose validators are all active and delegated:
/// exactly one per batch position, in order, at the batch timestamp.
proof fn lemma_metrics_list_full(
    store: MetricsStore,
    cache: ExchangeRates,
    last_cron: Option<u64>,
    vals: Seq<ValidatorAccountsView>,
    obs: Seq<ValidatorObservationView>,
    t: u64,
)
    requires
        vals.len() == obs.len(),
        forall|i: int|
            0 <= i < obs.len() ==> (#[trigger] obs[i]).validator is Some && obs[i].delegation
                is Some,
    ensures
        ({
            let list = spec_metrics_list(store, cache, last_cron, vals, obs, t);
            &&& list.len() == vals.len()
            &&& forall|j: int|
                0 <= j < vals.len() ==> (#[trigger] list[j]).operator_addr
                    == vals[j].operator_address && list[j].timestamp == t
        }),
    decreases vals.len(),
{
    if vals.len() > 0 {
        assert forall|i: int|
            0 <= i < obs.drop_last().len() implies ((#[trigger] obs.drop_last()[i]).validator
            is Some && obs.drop_last()[i].delegation is Some) by {
            assert(obs.drop_last()[i] == obs[i]);
        }
        lemma_metrics_list_full(store, cache, last_cron, vals.drop_last(), obs.drop_last(), t);
        let list = spec_metrics_list(store, cache, last_cron, vals, obs, t);
        let rest = spec_metrics_list(
            store,
            cache,
            last_cron,
            vals.drop_last(),
            obs.drop_last(),
            t,
        );
        assert(list == rest.push(list.last()));
        assert forall|j: int| 0 <= j < vals.len() implies (#[trigger] list[j]).operator_addr
            == vals[j].operator_address && list[j].timestamp == t by {
            if j < vals.len() - 1 {
                assert(list[j] == rest[j]);
                assert(vals.drop_last()[j] == vals[j]);
            }
        }
    }
}

/// What one successful recording call for timestamp `t` promises of the
/// states and stores around it: the Ok case of the recorder's contract.
pub open spec fn record_ok_transition(
    sv: StateView,
    sv2: StateView,
    s: MetricsStore,
    s2: MetricsStore,
    batch_size: u64,
    t: u64,
    obs: Seq<ValidatorObservationView>,
    cache: ExchangeRates,
) -> bool {
    let sv1 = spec_state_with_timestamp(sv, t);
    let batch = spec_batch(sv1, batch_size);
    let list = spec_metrics_list(s, cache, spec_prev_cron(sv.cron_timestamps, t), batch, obs, t);
    &&& obs.len() == batch.len()
    &&& sv2 == spec_state_after_batch(sv1, batch_size)
    &&& (forall|j: int| 0 <= j < list.len() ==> s2.spec_load(
        (#[trigger] list[j]).operator_addr,
        t,
    ) == Some(list[j]))
    &&& (forall|a: Seq<char>, t2: u64|
        (t2 != t || (forall|j: int| 0 <= j < list.len() ==> (#[trigger] list[j]).operator_addr
            != a)) ==> #[trigger] s2.spec_load(a, t2) == s.spec_load(a, t2))
}

/// Law: resumability, end to end.  Beginning a fresh timestamp `t` on a
/// roster whose validators are all active and delegated, `k` successful
/// recording calls with batch size `b`, where `k * b` covers the roster,
/// leave every roster validator with a metric record for `t` in the final
/// store.  `svs` and `stores` are the states and stores around the calls,
/// each adjacent pair related by the recorder's contract.
pub proof fn lemma_resumability_covers_store(
    svs: Seq<StateView>,
    stores: Seq<MetricsStore>,
    obss: Seq<Seq<ValidatorObservationView>>,
    caches: Seq<ExchangeRates>,
    b: u64,
    t: u64,
    k: nat,
)
    requires
        b >= 1,
        k >= 1,
        svs.len() == k + 1,
        stores.len() == k + 1,
        obss.len() == k,
        caches.len() == k,
        is_new_timestamp(svs[0], t),
        svs[0].validators.len() <= u64::MAX,
        k * b >= svs[0].validators.len(),
        distinct_operators(svs[0].validators),
        forall|i: int| 0 <= i < k ==> record_ok_transition(
            svs[i],
            svs[i + 1],
            #[trigger] stores[i],
            stores[i + 1],
            b,
            t,
            obss[i],
            caches[i],
        ),
        forall|i: int, j: int|
            0 <= i < k && 0 <= j < obss[i].len() ==> (#[trigger] obss[i][j]).validator is Some
                && obss[i][j].delegation is Some,
    ensures
        forall|j: int| 0 <= j < svs[0].validators.len() ==> stores[k as int].contains(
            (#[trigger] svs[0].validators[j]).operator_address,
            t,
        ),
{
    let n = svs[0].validators.len() as int;
    lemma_stores_cover_prefix(svs, stores, obss, caches, b, t, k, k);
    lemma_iter_cursor(svs[0], b, t, k);
    lemma_states_follow_iteration(svs, stores, obss, caches, b, t, k, k);
    assert(vstd::math::min(k * b, n) == n);
}

/// The states along a chain of successful recording calls follow the
/// iterated cursor step.
proof fn lemma_states_follow_iteration(
    svs: Seq<StateView>,
    stores: Seq<MetricsStore>,
    obss: Seq<Seq<ValidatorObservationView>>,
    caches: Seq<ExchangeRates>,
    b: u64,
    t: u64,
    k: nat,
    i: nat,
)
    requires
        i <= k,
        svs.len() == k + 1,
        stores.len() == k + 1,
        obss.len() == k,
        caches.len() == k,
        forall|i2: int| 0 <= i2 < k ==> record_ok_transition(
            svs[i2],
            svs[i2 + 1],
            #[trigger] stores[i2],
            stores[i2 + 1],
            b,
            t,
            obss[i2],
            caches[i2],
        ),
    ensures
        svs[i as int] == spec_record_state_iter(svs[0], b, t, i),
    decreases i,
{
    if i > 0 {
        lemma_states_follow_iteration(svs, stores, obss, caches, b, t, k, (i - 1) as nat);
        assert(record_ok_transition(
            svs[i - 1],
            svs[i as int],
            stores[i - 1],
            stores[i as int],
            b,
            t,
            obss[i - 1],
            caches[i - 1],
        ));
    }
}

/// After `i` successful recording calls, every roster position below the
/// cursor has its record in the store.
proof fn lemma_stores_cover_prefix(
    svs: Seq<StateView>,
    stores: Seq<MetricsStore>,
    obss: Seq<Seq<ValidatorObservationView>>,
    caches: Seq<ExchangeRates>,
    b: u64,
    t: u64,
    k: nat,
    i: nat,
)
    requires
        b >= 1,
        i <= k,
        svs.len() == k + 1,
        stores.len() == k + 1,
        obss.len() == k,
        caches.len() == k,
        is_new_timestamp(svs[0], t),
        svs[0].validators.len() <= u64::MAX,
        distinct_operators(svs[0].validators),
        forall|i2: int| 0 <= i2 < k ==> record_ok_transition(
            svs[i2],
            svs[i2 + 1],
            #[trigger] stores[i2],
            stores[i2 + 1],
            b,
            t,
            obss[i2],
            caches[i2],
        ),
        forall|i2: int, j: int|
            0 <= i2 < k && 0 <= j < obss[i2].len() ==> (#[trigger] obss[i2][j]).validator is Some
                && obss[i2][j].delegation is Some,
    ensures
        i >= 1 ==> forall|j: int|
            0 <= j < vstd::math::min(i * b, svs[0].validators.len() as int) ==> stores[i as int].contains(
                (#[trigger] svs[0].validators[j]).operator_address,
                t,
            ),
    decreases i,
{
    let n = svs[0].validators.len() as int;
    if i >= 1 {
        lemma_stores_cover_prefix(svs, stores, obss, caches, b, t, k, (i - 1) as nat);
        lemma_states_follow_iteration(svs, stores, obss, caches, b, t, k, (i - 1) as nat);
        let svp = svs[i - 1];
        let sv1 = spec_state_with_timestamp(svp, t);
        let batch = spec_batch(sv1, b);
        let list = spec_metrics_list(
            stores[i - 1],
            caches[i - 1],
            spec_prev_cron(svp.cron_timestamps, t),
            batch,
            obss[i - 1],
            t,
        );
        // where this call's batch sits in the roster
        let s = if i == 1 {
            0int
        } else {
            lemma_iter_cursor(svs[0], b, t, (i - 1) as nat);
            vstd::math::min((i - 1) * b, n)
        };
        if i == 1 {
            assert(sv1.validator_index_for_next_cron == 0);
        } else {
            assert(svp.cron_timestamps == svs[0].cron_timestamps.push(t));
            assert(svp.cron_timestamps.last() == t);
            assert(spec_state_with_timestamp(svp, t) == svp);
        }
        assert(sv1.validators == svs[0].validators);
        assert(sv1.validator_index_for_next_cron as int == s);
        assert((i - 1) * b + b == i * b) by (nonlinear_arith);
        let e = vstd::math::min(i * b, n);
        if s < n {
            assert(batch == sv1.validators.subrange(s, e));
            lemma_metrics_list_full(
                stores[i - 1],
                caches[i - 1],
                spec_prev_cron(svp.cron_timestamps, t),
                batch,
                obss[i - 1],
                t,
            );
            assert forall|j: int| 0 <= j < e implies stores[i as int].contains(
                (#[trigger] svs[0].validators[j]).operator_address,
                t,
            ) by {
                if j >= s {
                    // written by this call
                    assert(batch[j - s] == svs[0].validators[j]);
                    assert(list[j - s].operator_addr == svs[0].validators[j].operator_address);
                    assert(stores[i as int].spec_load(list[j - s].operator_addr, t) == Some(
                        list[j - s],
                    ));
                } else {
                    // written by an earlier call and untouched since: this
                    // call only writes batch addresses, all distinct from it
                    assert(j < vstd::math::min((i - 1) * b, n));
                    assert forall|p: int| 0 <= p < list.len() implies (#[trigger] list[p]).operator_addr
                        != svs[0].validators[j].operator_address by {
                        assert(list[p].operator_addr == batch[p].operator_address);
                        assert(batch[p] == svs[0].validators[s + p]);
                        let vj = svs[0].validators[j];
                        assert(svs[0].validators[s + p].operator_address != vj.operator_address);
                    }
                    assert(stores[i as int].spec_load(
                        svs[0].validators[j].operator_address,
                        t,
                    ) == stores[i - 1].spec_load(svs[0].validators[j].operator_address, t));
                }
            }
        } else {
            // the cursor had already covered the roster: nothing new to write
            assert(e <= s);
            assert forall|j: int| 0 <= j < e implies stores[i as int].contains(
                (#[trigger] svs[0].validators[j]).operator_address,
                t,
            ) by {
                assert(i >= 2);
                assert(j < vstd::math::min((i - 1) * b, n));
                assert(batch == Seq::<ValidatorAccountsView>::empty());
                assert(spec_metrics_list(
                    stores[i - 1],
                    caches[i - 1],
                    spec_prev_cron(svp.cron_timestamps, t),
                    batch,
                    obss[i - 1],
                    t,
                ) == Seq::<MetricsView>::empty());
                assert(stores[i as int].spec_load(
                    svs[0].validators[j].operator_address,
                    t,
                ) == stores[i - 1].spec_load(svs[0].validators[j].operator_address, t));
            }
        }
    }
}

/// Law: a validator's first recorded metric has slashing pointer 1.0 and
/// cumulative normalized rewards equal to its full current accumulated
/// rewards converted to the vault denomination.
pub proof fn lemma_first_snapshot_baseline(
    store: MetricsStore,
    cache: ExchangeRates,
    last_cron: Option<u64>,
    val: ValidatorAccountsView,
    del: DelegationInfoView,
    vinfo: ValidatorInfoView,
    self_del: Option<u128>,
    t: u64,
)
    requires
        store.wf(),
        store.history_of(val.operator_address).len() == 0,
        cache.spec_total(del.accumulated_rewards) <= u128::MAX,
    ensures
        spec_metric(store, cache, last_cron, val, del, vinfo, self_del, t).slashing_pointer == (Dec {
            atomics: DECIMAL_FRACTIONAL,
        }),
        spec_metric(store, cache, last_cron, val, del, vinfo, self_del, t).rewards == (Dec {
            atomics: cache.spec_total(del.accumulated_rewards) as u128,
        }),
{
    store.lemma_empty_history_loads_nothing(val.operator_address);
    cache.lemma_total_nonneg(del.accumulated_rewards);
    assert(spec_prev_metric(store, val.operator_address, last_cron) is None);
    assert(spec_latest(store, val.operator_address) is None);
}

/// Law: the slashing pointer composes multiplicatively across consecutive
/// snapshots.  For delegated amounts `d0`, `d1`, `d2` the pointer sequence
/// is `1.0`, then `d1/d0`, then `(d1/d0) * (d2/d1)`; when the two ratios
/// are exact in 18 fractional digits the composition telescopes to the
/// single-step ratio `d2/d0`.
pub proof fn lemma_slashing_pointer_composition(d0: u128, d1: u128, d2: u128)
    requires
        d0 > 0,
        d1 > 0,
        (d1 * DECIMAL_FRACTIONAL) % (d0 as int) == 0,
        (d2 * DECIMAL_FRACTIONAL) % (d1 as int) == 0,
    ensures
        pointer_step(d0, DECIMAL_FRACTIONAL as int, d1) == d1 * DECIMAL_FRACTIONAL / (d0 as int),
        pointer_step(d1, d1 * DECIMAL_FRACTIONAL / (d0 as int), d2) == div_atomics(
            d2 * DECIMAL_FRACTIONAL,
            d0 * DECIMAL_FRACTIONAL,
        ),
{
    let f = DECIMAL_FRACTIONAL as int;
    let a = d1 * f / (d0 as int);
    let q = d2 * f / (d1 as int);
    vstd::arithmetic::div_mod::lemma_fundamental_div_mod(d1 * f, d0 as int);
    vstd::arithmetic::div_mod::lemma_fundamental_div_mod(d2 * f, d1 as int);
    assert(d1 * f == (d0 as int) * a);
    assert(d2 * f == (d1 as int) * q);
    assert(a >= 0 && q >= 0) by {
        vstd::arithmetic::div_mod::lemma_div_pos_is_pos(d1 * f, d0 as int);
        vstd::arithmetic::div_mod::lemma_div_pos_is_pos(d2 * f, d1 as int);
    }
    // first step: div_atomics(d1 f, d0 f) == a, then scaling 1.0 is exact
    assert(d1 * f * f == (d0 * f) * a) by (nonlinear_arith)
        requires
            d1 * f == (d0 as int) * a,
    ;
    vstd::arithmetic::div_mod::lemma_div_multiples_vanish(a, d0 * f);
    assert(((d0 * f) * a) / (d0 * f) == a) by {
        vstd::arithmetic::div_mod::lemma_div_multiples_vanish(a, (d0 * f) as int);
    }
    assert(div_atomics(d1 * f, d0 * f) == a);
    assert(mul_atomics(a, f) == a) by {
        vstd::arithmetic::div_mod::lemma_div_multiples_vanish(a, f);
        assert(a * f == f * a) by (nonlinear_arith);
    }
    // second step: div_atomics(d2 f, d1 f) == q, and q * a lands on
    // d2 f f / d0, whose final shift down by f is the single-step ratio
    assert(d2 * f * f == (d1 * f) * q) by (nonlinear_arith)
        requires
            d2 * f == (d1 as int) * q,
    ;
    assert(((d1 * f) * q) / (d1 * f) == q) by {
        vstd::arithmetic::div_mod::lemma_div_multiples_vanish(q, (d1 * f) as int);
    }
    assert(div_atomics(d2 * f, d1 * f) == q);
    // q * a == d2 * f * f / d0 exactly
    assert(q * a * (d0 as int) == d2 * f * f) by (nonlinear_arith)
        requires
            d1 * f == (d0 as int) * a && d2 * f == (d1 as int) * q && d1 > 0,
    ;
    // the composed pointer (q * a) / f equals d2 f f / (d0 f)
    assert(mul_atomics(q, a) == (d2 * f * f) / ((d0 as int) * f)) by {
        assert(q * a == ((d0 as int) * (q * a)) / (d0 as int)) by {
            vstd::arithmetic::div_mod::lemma_div_multiples_vanish(q * a, d0 as int);
        }
        assert((d0 as int) * (q * a) == d2 * f * f) by (nonlinear_arith)
            requires
                q * a * (d0 as int) == d2 * f * f,
        ;
        assert(q * a == (d2 * f * f) / (d0 as int));
        vstd::arithmetic::div_mod::lemma_div_denominator(d2 * f * f, d0 as int, f);
    }
    assert(div_atomics(d2 * f, d0 * f) == (d2 * f * f) / ((d0 as int) * f)) by {
        assert((d2 * f) * f == d2 * f * f) by (nonlinear_arith);
        assert((d0 as int) * f == d0 * f) by (nonlinear_arith);
    }
}

} // verus!
