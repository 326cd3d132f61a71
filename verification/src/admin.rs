//! Administration of the engine: instantiation, configuration, the validator
//! roster, and paginated deletion of recorded metrics.
//!
//! Every mutating operation is gated on the manager and rejects without
//! mutating anything.  Operations that direct the host ledger to move funds
//! return the instruction as a value; the surrounding shell issues it.
use vstd::prelude::*;

use crate::error::ContractError;
use crate::state::{
    Coin, Config, State, ValidatorAccounts, ValidatorAccountsView, sender_is_manager,
    distinct_operators, strictly_increasing,
};
use crate::store::MetricsStore;

verus! {

/// A fire-and-forget staking instruction handed to the host ledger.
#[derive(Debug, PartialEq, Eq)]
pub enum StakingInstruction {
    Delegate { validator: String, denom: String, amount: u128 },
    Undelegate { validator: String, denom: String, amount: u128 },
}

/// A fire-and-forget fund transfer handed to the host ledger.
#[derive(Debug, PartialEq, Eq)]
pub struct TransferInstruction {
    pub to_address: String,
    pub denom: String,
    pub amount: u128,
}

/// Sets up a fresh engine: an empty roster and no recorded timestamps.
pub fn instantiate(
    vault_denom: String,
    manager: String,
    amount_to_stake_per_validator: u128,
    batch_size: u64,
) -> (r: (State, Config))
    ensures
        r.0@.wf(),
        r.0@.vault_denom == vault_denom@,
        r.0@.validators == Seq::<ValidatorAccountsView>::empty(),
        r.0@.cron_timestamps == Seq::<u64>::empty(),
        r.0@.validator_index_for_next_cron == 0,
        r.1@.manager == manager@,
        r.1@.amount_to_stake_per_validator == amount_to_stake_per_validator,
        r.1@.batch_size == batch_size,
{
    let state = State {
        vault_denom,
        validators: Vec::new(),
        cron_timestamps: Vec::new(),
        validator_index_for_next_cron: 0,
    };
    let config = Config { manager, amount_to_stake_per_validator, batch_size };
    proof {
        assert(state@.validators =~= Seq::<ValidatorAccountsView>::empty());
    }
    (state, config)
}

/// Hands the engine to a new manager; nothing else changes.
pub fn migrate(config: &mut Config, manager_address: String)
    ensures
        final(config)@.manager == manager_address@,
        final(config)@.amount_to_stake_per_validator == old(
            config,
        )@.amount_to_stake_per_validator,
        final(config)@.batch_size == old(config)@.batch_size,
{
    config.manager = manager_address;
}

/// Changes the recorder's batch size; zero is rejected before anything else.
pub fn update_config(config: &mut Config, caller: &String, batch_size: u64) -> (r: Result<
    (),
    ContractError,
>)
    ensures
        batch_size == 0 ==> r == Result::<(), ContractError>::Err(
            ContractError::BatchSizeCannotBeZero {},
        ) && *final(config) == *old(config),
        batch_size != 0 && caller@ != old(config)@.manager ==> r == Result::<
            (),
            ContractError,
        >::Err(ContractError::Unauthorized {}) && *final(config) == *old(config),
        batch_size != 0 && caller@ == old(config)@.manager ==> r is Ok && final(config)@.batch_size
            == batch_size && final(config)@.manager == old(config)@.manager
            && final(config)@.amount_to_stake_per_validator
            == old(config)@.amount_to_stake_per_validator,
{
    if batch_size == 0 {
        return Err(ContractError::BatchSizeCannotBeZero {});
    }
    if !sender_is_manager(config, caller) {
        return Err(ContractError::Unauthorized {});
    }
    config.batch_size = batch_size;
    Ok(())
}

/// Whether an operator address is already registered.
pub open spec fn spec_registered(vs: Seq<ValidatorAccountsView>, addr: Seq<char>) -> bool {
    exists|i: int| 0 <= i < vs.len() && (#[trigger] vs[i]).operator_address == addr
}

fn is_registered(state: &State, addr: &String) -> (r: bool)
    ensures
        r == spec_registered(state@.validators, addr@),
{
    let n = state.validators.len();
    for i in 0..n
        invariant
            n == state.validators@.len(),
            forall|j: int| 0 <= j < i ==> (#[trigger] state@.validators[j]).operator_address
                != addr@,
    {
        proof {
            assert(state@.validators[i as int] == state.validators@[i as int]@);
        }
        if state.validators[i].operator_address.eq(addr) {
            return true;
        }
    }
    false
}

/// Registers a validator and directs the ledger to delegate the configured
/// stake to it.  The caller attaches funds; the first attached coin must
/// cover the stake.
pub fn add_validator(
    state: &mut State,
    config: &Config,
    caller: &String,
    validator_addr: String,
    account_addr: String,
    validator_is_on_chain: bool,
    funds: &Vec<Coin>,
) -> (r: Result<StakingInstruction, ContractError>)
    requires
        old(state)@.wf(),
    ensures
        final(state)@.wf(),
        r is Err ==> *final(state) == *old(state),
        ({
            let sv = old(state)@;
            if caller@ != config@.manager {
                r == Result::<StakingInstruction, ContractError>::Err(
                    ContractError::Unauthorized {},
                )
            } else if !validator_is_on_chain {
                r == Result::<StakingInstruction, ContractError>::Err(
                    ContractError::ValidatorDoesNotExist {},
                )
            } else if spec_registered(sv.validators, validator_addr@) {
                r == Result::<StakingInstruction, ContractError>::Err(
                    ContractError::ValidatorAlreadyExists {},
                )
            } else if funds@.len() == 0 {
                r == Result::<StakingInstruction, ContractError>::Err(
                    ContractError::NoFundsFound {},
                )
            } else if funds@[0].amount < config@.amount_to_stake_per_validator {
                r == Result::<StakingInstruction, ContractError>::Err(
                    ContractError::InsufficientFunds {},
                )
            } else {
                &&& r matches Ok(StakingInstruction::Delegate { validator, denom, amount })
                    && validator@ == validator_addr@ && denom@ == sv.vault_denom && amount
                    == config@.amount_to_stake_per_validator
                &&& final(state)@.validators == sv.validators.push(
                    ValidatorAccountsView {
                        operator_address: validator_addr@,
                        account_address: account_addr@,
                    },
                )
                &&& final(state)@.cron_timestamps == sv.cron_timestamps
                &&& final(state)@.vault_denom == sv.vault_denom
                &&& final(state)@.validator_index_for_next_cron
                    == sv.validator_index_for_next_cron
            }
        }),
{
    if !sender_is_manager(config, caller) {
        return Err(ContractError::Unauthorized {});
    }
    if !validator_is_on_chain {
        return Err(ContractError::ValidatorDoesNotExist {});
    }
    if is_registered(state, &validator_addr) {
        return Err(ContractError::ValidatorAlreadyExists {});
    }
    if funds.len() == 0 {
        return Err(ContractError::NoFundsFound {});
    }
    if funds[0].amount < config.amount_to_stake_per_validator {
        return Err(ContractError::InsufficientFunds {});
    }
    let instruction = StakingInstruction::Delegate {
        validator: validator_addr.clone(),
        denom: state.vault_denom.clone(),
        amount: config.amount_to_stake_per_validator,
    };
    let ghost vs0 = state@.validators;
    let current_validator = ValidatorAccounts {
        operator_address: validator_addr,
        account_address: account_addr,
    };
    let ghost nv = current_validator@;
    state.validators.push(current_validator);
    proof {
        assert(state@.validators =~= vs0.push(nv));
        assert forall|i: int, j: int|
            0 <= i < j < state@.validators.len() implies state@.validators[i].operator_address
            != state@.validators[j].operator_address by {
            if j == vs0.len() {
                assert(state@.validators[i] == vs0[i]);
            }
        }
    }
    Ok(instruction)
}

/// Removes a validator from the roster and directs the ledger to undelegate
/// the configured stake.  Its recorded metrics remain.
pub fn remove_validator(
    state: &mut State,
    config: &Config,
    caller: &String,
    val_opr_addr: &String,
) -> (r: Result<StakingInstruction, ContractError>)
    requires
        old(state)@.wf(),
    ensures
        final(state)@.wf(),
        r is Err ==> *final(state) == *old(state),
        ({
            let sv = old(state)@;
            if caller@ != config@.manager {
                r == Result::<StakingInstruction, ContractError>::Err(
                    ContractError::Unauthorized {},
                )
            } else if !spec_registered(sv.validators, val_opr_addr@) {
                r == Result::<StakingInstruction, ContractError>::Err(
                    ContractError::ValidatorDoesNotExist {},
                )
            } else {
                &&& r matches Ok(StakingInstruction::Undelegate { validator, denom, amount })
                    && validator@ == val_opr_addr@ && denom@ == sv.vault_denom && amount
                    == config@.amount_to_stake_per_validator
                &&& final(state)@.validators == sv.validators.filter(
                    |v: ValidatorAccountsView| v.operator_address != val_opr_addr@,
                )
                &&& final(state)@.cron_timestamps == sv.cron_timestamps
                &&& final(state)@.vault_denom == sv.vault_denom
                &&& final(state)@.validator_index_for_next_cron
                    == sv.validator_index_for_next_cron
            }
        }),
{
    if !sender_is_manager(config, caller) {
        return Err(ContractError::Unauthorized {});
    }
    let ghost vs0 = state@.validators;
    let ghost keep = |v: ValidatorAccountsView| v.operator_address != val_opr_addr@;
    let mut other_validators: Vec<ValidatorAccounts> = Vec::new();
    let mut removed_any = false;
    let n = state.validators.len();
    proof {
        reveal(Seq::filter);
        assert(vs0.take(0) =~= Seq::<ValidatorAccountsView>::empty());
        assert(other_validators@.map_values(|v: ValidatorAccounts| v@) =~= vs0.take(0).filter(
            keep,
        ));
    }
    for i in 0..n
        invariant
            n == state.validators@.len(),
            vs0 == state@.validators,
            distinct_operators(vs0),
            forall|m: ValidatorAccountsView| #[trigger] keep(m) == (m.operator_address
                != val_opr_addr@),
            other_validators@.map_values(|v: ValidatorAccounts| v@) == vs0.take(i as int).filter(
                keep,
            ),
            removed_any == exists|j: int|
                0 <= j < i && (#[trigger] vs0[j]).operator_address == val_opr_addr@,
    {
        let v = &state.validators[i];
        proof {
            assert(v@ == vs0[i as int]);
        }
        let ghost before = other_validators@;
        let matches_target = v.operator_address.eq(val_opr_addr);
        if matches_target {
            removed_any = true;
        } else {
            other_validators.push(v.duplicate());
        }
        proof {
            reveal(Seq::filter);
            let taken = vs0.take(i + 1);
            assert(taken.drop_last() =~= vs0.take(i as int));
            assert(taken.last() == vs0[i as int]);
            if !matches_target {
                assert(other_validators@.map_values(|v2: ValidatorAccounts| v2@)
                    =~= before.map_values(|v2: ValidatorAccounts| v2@).push(vs0[i as int]));
            }
        }
    }
    if !removed_any {
        return Err(ContractError::ValidatorDoesNotExist {});
    }
    let instruction = StakingInstruction::Undelegate {
        validator: val_opr_addr.clone(),
        denom: state.vault_denom.clone(),
        amount: config.amount_to_stake_per_validator,
    };
    proof {
        assert(vs0.take(n as int) =~= vs0);
        lemma_filter_keeps_distinct_operators(vs0, keep);
    }
    state.validators = other_validators;
    Ok(instruction)
}

/// Removes one timestamp from the recorded cron timestamps, reporting
/// whether it existed.  Metric records stored under it remain until deleted
/// explicitly.
pub fn remove_timestamp(state: &mut State, config: &Config, caller: &String, timestamp: u64) -> (r:
    Result<bool, ContractError>)
    requires
        old(state)@.wf(),
    ensures
        final(state)@.wf(),
        r is Err ==> *final(state) == *old(state),
        ({
            let sv = old(state)@;
            if caller@ != config@.manager {
                r == Result::<bool, ContractError>::Err(ContractError::Unauthorized {})
            } else {
                &&& r == Result::<bool, ContractError>::Ok(sv.cron_timestamps.contains(timestamp))
                &&& final(state)@.cron_timestamps == sv.cron_timestamps.filter(
                    |x: u64| x != timestamp,
                )
                &&& final(state)@.validators == sv.validators
                &&& final(state)@.vault_denom == sv.vault_denom
                &&& final(state)@.validator_index_for_next_cron
                    == sv.validator_index_for_next_cron
            }
        }),
{
    if !sender_is_manager(config, caller) {
        return Err(ContractError::Unauthorized {});
    }
    let ghost ts0 = state@.cron_timestamps;
    let ghost keep = |x: u64| x != timestamp;
    let mut new_timestamps: Vec<u64> = Vec::new();
    let mut timestamp_existed = false;
    let n = state.cron_timestamps.len();
    proof {
        reveal(Seq::filter);
        assert(ts0.take(0) =~= Seq::<u64>::empty());
        assert(new_timestamps@ =~= ts0.take(0).filter(keep));
    }
    for i in 0..n
        invariant
            n == state.cron_timestamps@.len(),
            ts0 == state@.cron_timestamps,
            forall|x: u64| #[trigger] keep(x) == (x != timestamp),
            new_timestamps@ == ts0.take(i as int).filter(keep),
            timestamp_existed == exists|j: int| 0 <= j < i && ts0[j] == timestamp,
    {
        let t = state.cron_timestamps[i];
        let ghost before = new_timestamps@;
        if t == timestamp {
            timestamp_existed = true;
        } else {
            new_timestamps.push(t);
        }
        proof {
            reveal(Seq::filter);
            let taken = ts0.take(i + 1);
            assert(taken.drop_last() =~= ts0.take(i as int));
            assert(taken.last() == ts0[i as int]);
        }
    }
    proof {
        assert(ts0.take(n as int) =~= ts0);
        lemma_filter_keeps_increasing(ts0, keep);
        if timestamp_existed {
            let j = choose|j: int| 0 <= j < n && ts0[j] == timestamp;
            assert(ts0.contains(timestamp));
        }
    }
    state.cron_timestamps = new_timestamps;
    Ok(timestamp_existed)
}

/// Directs the ledger to send the requested amount of the vault denomination
/// to the manager.  Anyone may call; the funds only ever go to the manager.
pub fn withdraw_funds(state: &State, config: &Config, amount: u128) -> (r: Result<
    TransferInstruction,
    ContractError,
>)
    ensures
        amount == 0 ==> r matches Err(ContractError::ZeroAmount {}),
        amount != 0 ==> (r matches Ok(instr) && instr.to_address@ == config@.manager
            && instr.denom@ == state@.vault_denom && instr.amount == amount),
{
    if amount == 0 {
        return Err(ContractError::ZeroAmount {});
    }
    Ok(
        TransferInstruction {
            to_address: config.manager.clone(),
            denom: state.vault_denom.clone(),
            amount,
        },
    )
}

/// Deletes the metric records of one timestamp for a contiguous roster
/// slice, `validator_ct` validators starting at `validator_start`, and
/// reports how many validators remain beyond the slice together with the
/// index a follow-up call should start at.
pub fn delete_metrics_for_timestamp(
    store: &mut MetricsStore,
    state: &State,
    config: &Config,
    caller: &String,
    timestamp: u64,
    validator_start: usize,
    validator_ct: usize,
) -> (r: Result<(u64, u64), ContractError>)
    requires
        old(store).wf(),
        state@.wf(),
    ensures
        final(store).wf(),
        r is Err ==> *final(store) == *old(store),
        caller@ != config@.manager ==> r == Result::<(u64, u64), ContractError>::Err(
            ContractError::Unauthorized {},
        ),
        caller@ == config@.manager && validator_start >= state@.validators.len() ==> r == Result::<
            (u64, u64),
            ContractError,
        >::Err(ContractError::ValidatorOutOfRange {}),
        caller@ == config@.manager && validator_start < state@.validators.len() ==> ({
            let n = state@.validators.len() as int;
            let end = if validator_start + validator_ct <= n {
                validator_start + validator_ct
            } else {
                n
            };
            &&& r == Result::<(u64, u64), ContractError>::Ok(
                ((n - end) as u64, end as u64),
            )
            &&& forall|i: int| validator_start <= i < end ==> final(store).spec_load(
                (#[trigger] state@.validators[i]).operator_address,
                timestamp,
            ) is None
            &&& forall|a: Seq<char>, t2: u64|
                (t2 != timestamp || (forall|i: int|
                    validator_start <= i < end ==> (#[trigger] state@.validators[i]).operator_address
                        != a)) ==> #[trigger] final(store).spec_load(a, t2) == old(
                    store,
                ).spec_load(a, t2)
        }),
{
    if !sender_is_manager(config, caller) {
        return Err(ContractError::Unauthorized {});
    }
    let total = state.validators.len();
    if validator_start >= total {
        return Err(ContractError::ValidatorOutOfRange {});
    }
    let validator_end = if validator_ct < total - validator_start {
        validator_start + validator_ct
    } else {
        total
    };
    let ghost store0 = *store;
    let mut i = validator_start;
    while i < validator_end
        invariant
            validator_start <= i <= validator_end,
            validator_end <= total,
            total == state.validators@.len(),
            state@.wf(),
            store.wf(),
            forall|j: int| validator_start <= j < i ==> store.spec_load(
                (#[trigger] state@.validators[j]).operator_address,
                timestamp,
            ) is None,
            forall|a: Seq<char>, t2: u64|
                (t2 != timestamp || (forall|j: int|
                    validator_start <= j < validator_end ==> (#[trigger] state@.validators[j]).operator_address
                        != a)) ==> #[trigger] store.spec_load(a, t2) == store0.spec_load(a, t2),
            forall|j: int| i <= j < validator_end ==> #[trigger] store.spec_load(
                state@.validators[j].operator_address,
                timestamp,
            ) == store0.spec_load(state@.validators[j].operator_address, timestamp),
        decreases validator_end - i,
    {
        proof {
            assert(state@.validators[i as int] == state.validators@[i as int]@);
        }
        store.remove(&state.validators[i].operator_address, timestamp);
        i = i + 1;
    }
    Ok(((total - validator_end) as u64, validator_end as u64))
}

/// Deletes one validator's metric records for a contiguous slice of the
/// recorded cron timestamps, `timestamp_count` of them starting at index
/// `timestamp_start`, and reports how many timestamps remain beyond the
/// slice.
pub fn delete_metrics_for_validator(
    store: &mut MetricsStore,
    state: &State,
    config: &Config,
    caller: &String,
    val_address: &String,
    timestamp_start: usize,
    timestamp_count: usize,
) -> (r: Result<u64, ContractError>)
    requires
        old(store).wf(),
        state@.wf(),
    ensures
        final(store).wf(),
        r is Err ==> *final(store) == *old(store),
        caller@ != config@.manager ==> r == Result::<u64, ContractError>::Err(
            ContractError::Unauthorized {},
        ),
        caller@ == config@.manager && timestamp_start >= state@.cron_timestamps.len() ==> r
            == Result::<u64, ContractError>::Err(ContractError::TimestampOutOfRange {}),
        caller@ == config@.manager && timestamp_start < state@.cron_timestamps.len() ==> ({
            let n = state@.cron_timestamps.len() as int;
            let end = if timestamp_start + timestamp_count <= n {
                timestamp_start + timestamp_count
            } else {
                n
            };
            &&& r == Result::<u64, ContractError>::Ok((n - end) as u64)
            &&& forall|i: int| timestamp_start <= i < end ==> final(store).spec_load(
                val_address@,
                #[trigger] state@.cron_timestamps[i],
            ) is None
            &&& forall|a: Seq<char>, t2: u64|
                (a != val_address@ || (forall|i: int|
                    timestamp_start <= i < end ==> #[trigger] state@.cron_timestamps[i] != t2))
                    ==> #[trigger] final(store).spec_load(a, t2) == old(store).spec_load(a, t2)
        }),
{
    if !sender_is_manager(config, caller) {
        return Err(ContractError::Unauthorized {});
    }
    let total = state.cron_timestamps.len();
    if timestamp_start >= total {
        return Err(ContractError::TimestampOutOfRange {});
    }
    let timestamp_end = if timestamp_count < total - timestamp_start {
        timestamp_start + timestamp_count
    } else {
        total
    };
    let ghost store0 = *store;
    let mut i = timestamp_start;
    while i < timestamp_end
        invariant
            timestamp_start <= i <= timestamp_end,
            timestamp_end <= total,
            total == state.cron_timestamps@.len(),
            state@.wf(),
            store.wf(),
            forall|j: int| timestamp_start <= j < i ==> store.spec_load(
                val_address@,
                #[trigger] state@.cron_timestamps[j],
            ) is None,
            forall|a: Seq<char>, t2: u64|
                (a != val_address@ || (forall|j: int|
                    timestamp_start <= j < timestamp_end ==> #[trigger] state@.cron_timestamps[j]
                        != t2)) ==> #[trigger] store.spec_load(a, t2) == store0.spec_load(a, t2),
            forall|j: int| i <= j < timestamp_end ==> #[trigger] store.spec_load(
                val_address@,
                state@.cron_timestamps[j],
            ) == store0.spec_load(val_address@, state@.cron_timestamps[j]),
        decreases timestamp_end - i,
    {
        store.remove(val_address, state.cron_timestamps[i]);
        i = i + 1;
    }
    Ok((total - timestamp_end) as u64)
}

/// Filtering strictly increasing timestamps keeps them strictly increasing.
proof fn lemma_filter_keeps_increasing(ts: Seq<u64>, keep: spec_fn(u64) -> bool)
    requires
        strictly_increasing(ts),
    ensures
        strictly_increasing(ts.filter(keep)),
        forall|p: int| 0 <= p < ts.filter(keep).len() ==> ts.contains(#[trigger] ts.filter(keep)[p]),
    decreases ts.len(),
{
    reveal(Seq::filter);
    if ts.len() > 0 {
        let rest = ts.drop_last();
        assert forall|i: int, j: int| 0 <= i < j < rest.len() implies rest[i] < rest[j] by {
            assert(rest[i] == ts[i] && rest[j] == ts[j]);
        }
        lemma_filter_keeps_increasing(rest, keep);
        let f = ts.filter(keep);
        let frest = rest.filter(keep);
        assert forall|p: int| 0 <= p < f.len() implies ts.contains(#[trigger] f[p]) by {
            if p < frest.len() {
                assert(f[p] == frest[p]);
                let j = choose|j: int| 0 <= j < rest.len() && rest[j] == frest[p];
                assert(ts[j] == f[p]);
            } else {
                assert(f[p] == ts.last());
                assert(ts[ts.len() - 1] == f[p]);
            }
        }
        assert forall|p: int, q: int| 0 <= p < q < f.len() implies f[p] < f[q] by {
            if q >= frest.len() {
                assert(f[q] == ts.last());
                assert(f[p] == frest[p]);
                let j = choose|j: int| 0 <= j < rest.len() && rest[j] == frest[p];
                assert(ts[j] < ts[ts.len() - 1]);
            } else {
                assert(f[p] == frest[p] && f[q] == frest[q]);
            }
        }
    }
}

/// Filtering a roster with pairwise distinct operator addresses keeps them
/// pairwise distinct, and keeps only entries of the roster.
proof fn lemma_filter_keeps_distinct_operators(
    vs: Seq<ValidatorAccountsView>,
    keep: spec_fn(ValidatorAccountsView) -> bool,
)
    requires
        distinct_operators(vs),
    ensures
        distinct_operators(vs.filter(keep)),
        forall|p: int| 0 <= p < vs.filter(keep).len() ==> vs.contains(#[trigger] vs.filter(keep)[p]),
    decreases vs.len(),
{
    reveal(Seq::filter);
    if vs.len() > 0 {
        let rest = vs.drop_last();
        assert forall|i: int, j: int|
            0 <= i < j < rest.len() implies rest[i].operator_address
            != rest[j].operator_address by {
            assert(rest[i] == vs[i] && rest[j] == vs[j]);
        }
        lemma_filter_keeps_distinct_operators(rest, keep);
        let f = vs.filter(keep);
        let frest = rest.filter(keep);
        assert forall|p: int| 0 <= p < f.len() implies vs.contains(#[trigger] f[p]) by {
            if p < frest.len() {
                assert(f[p] == frest[p]);
                let j = choose|j: int| 0 <= j < rest.len() && rest[j] == frest[p];
                assert(vs[j] == f[p]);
            } else {
                assert(f[p] == vs.last());
                assert(vs[vs.len() - 1] == f[p]);
            }
        }
        assert forall|p: int, q: int|
            0 <= p < q < f.len() implies f[p].operator_address != f[q].operator_address by {
            if q >= frest.len() {
                assert(f[q] == vs.last());
                assert(f[p] == frest[p]);
                let j = choose|j: int| 0 <= j < rest.len() && rest[j] == frest[p];
                assert(vs[j].operator_address != vs[vs.len() - 1].operator_address);
            } else {
                assert(f[p] == frest[p] && f[q] == frest[q]);
            }
        }
    }
}

} // verus!