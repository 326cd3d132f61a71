//! Data model: configuration, roster state, coins and metric records.
use vstd::prelude::*;

use crate::dec::Dec;

verus! {

/// An amount of one currency, identified by its denomination string.
#[derive(Debug, PartialEq, Eq)]
pub struct Coin {
    pub denom: String,
    pub amount: u128,
}

/// Mathematical image of a `Coin`.
pub ghost struct CoinView {
    pub denom: Seq<char>,
    pub amount: u128,
}

impl View for Coin {
    type V = CoinView;

    open spec fn view(&self) -> CoinView {
        CoinView { denom: self.denom@, amount: self.amount }
    }
}

impl Coin {
    /// An independent copy with the same denomination and amount.
    pub fn duplicate(&self) -> (c: Coin)
        ensures
            c@ == self@,
    {
        Coin { denom: self.denom.clone(), amount: self.amount }
    }
}

/// Copies a reward vector coin by coin.
pub fn duplicate_coins(coins: &Vec<Coin>) -> (r: Vec<Coin>)
    ensures
        r@.map_values(|c: Coin| c@) == coins@.map_values(|c: Coin| c@),
{
    let mut r: Vec<Coin> = Vec::new();
    let n = coins.len();
    for i in 0..n
        invariant
            n == coins@.len(),
            r@.len() == i,
            forall|j: int| 0 <= j < i ==> r@[j]@ == coins@[j]@,
    {
        r.push(coins[i].duplicate());
    }
    proof {
        assert(r@.map_values(|c: Coin| c@) =~= coins@.map_values(|c: Coin| c@));
    }
    r
}

/// A registered validator: its operator address and its own staking account.
#[derive(Debug, PartialEq, Eq)]
pub struct ValidatorAccounts {
    pub operator_address: String,
    pub account_address: String,
}

/// Mathematical image of a `ValidatorAccounts`.
pub ghost struct ValidatorAccountsView {
    pub operator_address: Seq<char>,
    pub account_address: Seq<char>,
}

impl View for ValidatorAccounts {
    type V = ValidatorAccountsView;

    open spec fn view(&self) -> ValidatorAccountsView {
        ValidatorAccountsView {
            operator_address: self.operator_address@,
            account_address: self.account_address@,
        }
    }
}

impl ValidatorAccounts {
    /// An independent copy naming the same two addresses.
    pub fn duplicate(&self) -> (c: ValidatorAccounts)
        ensures
            c@ == self@,
    {
        ValidatorAccounts {
            operator_address: self.operator_address.clone(),
            account_address: self.account_address.clone(),
        }
    }
}

/// One snapshot of a validator's performance at a cron timestamp.
#[derive(Debug, PartialEq, Eq)]
pub struct ValidatorMetrics {
    /// The validator's operator address.
    pub operator_addr: String,
    /// Cumulative rewards, normalized to the vault denomination.
    pub rewards: Dec,
    /// Delegated amount at snapshot time (reflects slashing).
    pub delegated_amount: u128,
    /// The validator's own self-delegated amount.
    pub self_delegated_amount: u128,
    /// Cumulative slashing adjustment ratio; 1.0 for a first snapshot.
    pub slashing_pointer: Dec,
    pub commission: Dec,
    pub max_commission: Dec,
    pub timestamp: u64,
    /// Raw multi-currency rewards, kept to diff the next snapshot against.
    pub rewards_in_coins: Vec<Coin>,
}

/// Mathematical image of a `ValidatorMetrics`.
pub ghost struct MetricsView {
    pub operator_addr: Seq<char>,
    pub rewards: Dec,
    pub delegated_amount: u128,
    pub self_delegated_amount: u128,
    pub slashing_pointer: Dec,
    pub commission: Dec,
    pub max_commission: Dec,
    pub timestamp: u64,
    pub rewards_in_coins: Seq<CoinView>,
}

impl View for ValidatorMetrics {
    type V = MetricsView;

    open spec fn view(&self) -> MetricsView {
        MetricsView {
            operator_addr: self.operator_addr@,
            rewards: self.rewards,
            delegated_amount: self.delegated_amount,
            self_delegated_amount: self.self_delegated_amount,
            slashing_pointer: self.slashing_pointer,
            commission: self.commission,
            max_commission: self.max_commission,
            timestamp: self.timestamp,
            rewards_in_coins: self.rewards_in_coins@.map_values(|c: Coin| c@),
        }
    }
}

impl ValidatorMetrics {
    /// An independent copy of the whole record.
    pub fn duplicate(&self) -> (c: ValidatorMetrics)
        ensures
            c@ == self@,
    {
        ValidatorMetrics {
            operator_addr: self.operator_addr.clone(),
            rewards: self.rewards,
            delegated_amount: self.delegated_amount,
            self_delegated_amount: self.self_delegated_amount,
            slashing_pointer: self.slashing_pointer,
            commission: self.commission,
            max_commission: self.max_commission,
            timestamp: self.timestamp,
            rewards_in_coins: duplicate_coins(&self.rewards_in_coins),
        }
    }
}

/// The persistent roster state of the recording engine.
#[derive(Debug, PartialEq, Eq)]
pub struct State {
    /// The denomination all rewards are normalized to.
    pub vault_denom: String,
    /// The registered validators, in registration order.
    pub validators: Vec<ValidatorAccounts>,
    /// Every cron timestamp recorded so far, strictly increasing.
    pub cron_timestamps: Vec<u64>,
    /// Roster index at which the next batch for the newest timestamp starts.
    pub validator_index_for_next_cron: u64,
}

/// Mathematical image of a `State`.
pub ghost struct StateView {
    pub vault_denom: Seq<char>,
    pub validators: Seq<ValidatorAccountsView>,
    pub cron_timestamps: Seq<u64>,
    pub validator_index_for_next_cron: u64,
}

impl View for State {
    type V = StateView;

    open spec fn view(&self) -> StateView {
        StateView {
            vault_denom: self.vault_denom@,
            validators: self.validators@.map_values(|v: ValidatorAccounts| v@),
            cron_timestamps: self.cron_timestamps@,
            validator_index_for_next_cron: self.validator_index_for_next_cron,
        }
    }
}

/// Whether a timestamp sequence is strictly increasing.
pub open spec fn strictly_increasing(s: Seq<u64>) -> bool {
    forall|i: int, j: int| 0 <= i < j < s.len() ==> s[i] < s[j]
}

/// Whether no two roster entries share an operator address.
pub open spec fn distinct_operators(vs: Seq<ValidatorAccountsView>) -> bool {
    forall|i: int, j: int|
        0 <= i < j < vs.len() ==> vs[i].operator_address != vs[j].operator_address
}

impl StateView {
    /// Well-formedness: cron timestamps strictly increase and operator
    /// addresses are unique, as registration and recording maintain.
    pub open spec fn wf(&self) -> bool {
        &&& strictly_increasing(self.cron_timestamps)
        &&& distinct_operators(self.validators)
    }

    /// The newest recorded cron timestamp, or 0 when none exists.
    pub open spec fn last_recorded_timestamp(&self) -> u64 {
        if self.cron_timestamps.len() == 0 {
            0
        } else {
            self.cron_timestamps.last()
        }
    }
}

impl State {
    /// An independent copy of the whole state.
    pub fn duplicate(&self) -> (c: State)
        ensures
            c@ == self@,
    {
        let mut validators: Vec<ValidatorAccounts> = Vec::new();
        let n = self.validators.len();
        for i in 0..n
            invariant
                n == self.validators@.len(),
                validators@.len() == i,
                forall|j: int| 0 <= j < i ==> validators@[j]@ == self.validators@[j]@,
        {
            validators.push(self.validators[i].duplicate());
        }
        let mut cron_timestamps: Vec<u64> = Vec::new();
        let m = self.cron_timestamps.len();
        for i in 0..m
            invariant
                m == self.cron_timestamps@.len(),
                cron_timestamps@.len() == i,
                forall|j: int| 0 <= j < i ==> cron_timestamps@[j] == self.cron_timestamps@[j],
        {
            cron_timestamps.push(self.cron_timestamps[i]);
        }
        let c = State {
            vault_denom: self.vault_denom.clone(),
            validators,
            cron_timestamps,
            validator_index_for_next_cron: self.validator_index_for_next_cron,
        };
        proof {
            assert(c@.validators =~= self@.validators);
            assert(c@.cron_timestamps =~= self@.cron_timestamps);
        }
        c
    }
}

/// The static configuration of one engine instance.
#[derive(Debug, PartialEq, Eq)]
pub struct Config {
    /// The single address allowed to run mutating operations.
    pub manager: String,
    pub amount_to_stake_per_validator: u128,
    /// How many validators one recording call processes at most.
    pub batch_size: u64,
}

/// Mathematical image of a `Config`.
pub ghost struct ConfigView {
    pub manager: Seq<char>,
    pub amount_to_stake_per_validator: u128,
    pub batch_size: u64,
}

impl View for Config {
    type V = ConfigView;

    open spec fn view(&self) -> ConfigView {
        ConfigView {
            manager: self.manager@,
            amount_to_stake_per_validator: self.amount_to_stake_per_validator,
            batch_size: self.batch_size,
        }
    }
}

impl Config {
    /// An independent copy of the configuration.
    pub fn duplicate(&self) -> (c: Config)
        ensures
            c@ == self@,
    {
        Config {
            manager: self.manager.clone(),
            amount_to_stake_per_validator: self.amount_to_stake_per_validator,
            batch_size: self.batch_size,
        }
    }
}

/// The authorization gate: only the configured manager may mutate.
pub fn sender_is_manager(config: &Config, sender: &String) -> (r: bool)
    ensures
        r == (sender@ == config@.manager),
{
    sender.eq(&config.manager)
}

/// A validator's annualized return, as answered by the APR queries.
#[derive(Debug, PartialEq, Eq)]
pub struct ValidatorAprResponse {
    pub addr: String,
    pub apr: Dec,
}

/// Mathematical image of a `ValidatorAprResponse`.
pub ghost struct ValidatorAprResponseView {
    pub addr: Seq<char>,
    pub apr: Dec,
}

impl View for ValidatorAprResponse {
    type V = ValidatorAprResponseView;

    open spec fn view(&self) -> ValidatorAprResponseView {
        ValidatorAprResponseView { addr: self.addr@, apr: self.apr }
    }
}

/// Progress of the off-chain metrics ingestion interface: the index the next
/// registered off-chain validator will receive.
#[derive(Clone, Copy, Debug, PartialEq, Eq, Structural)]
pub struct OffChainState {
    pub next_validator_idx: u16,
}

/// The timestamps for which off-chain metrics have been published.
#[derive(Debug, PartialEq, Eq)]
pub struct OffChainTimestamps {
    pub timestamps: Vec<u64>,
}

impl View for OffChainTimestamps {
    type V = Seq<u64>;

    open spec fn view(&self) -> Seq<u64> {
        self.timestamps@
    }
}

} // verus!
