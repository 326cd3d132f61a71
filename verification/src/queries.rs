//! The read-only query surface over the engine's state and metrics store.
use vstd::prelude::*;

use crate::apr::{apr_fits, spec_apr};
use crate::dec::Dec;
use crate::error::ContractError;
use crate::state::{
    Config, MetricsView, State, ValidatorAccountsView, ValidatorAprResponse,
    ValidatorAprResponseView, ValidatorMetrics,
};
use crate::store::MetricsStore;

verus! {

/// A copy of the engine's state, as the state query answers it.
pub fn query_state(state: &State) -> (r: State)
    ensures
        r@ == state@,
{
    state.duplicate()
}

/// A copy of the configuration, as the config query answers it.
pub fn query_config(config: &Config) -> (r: Config)
    ensures
        r@ == config@,
{
    config.duplicate()
}

/// All recorded cron timestamps, oldest first.
pub fn query_timestamps(state: &State) -> (r: Vec<u64>)
    ensures
        r@ == state@.cron_timestamps,
{
    let mut r: Vec<u64> = Vec::new();
    let n = state.cron_timestamps.len();
    for i in 0..n
        invariant
            n == state.cron_timestamps@.len(),
            r@.len() == i,
            forall|j: int| 0 <= j < i ==> r@[j] == state.cron_timestamps@[j],
    {
        r.push(state.cron_timestamps[i]);
    }
    proof {
        assert(r@ =~= state@.cron_timestamps);
    }
    r
}

/// Every recorded metric of one validator, ascending by timestamp.
pub fn query_all_validator_metrics(store: &MetricsStore, addr: &String) -> (r: Vec<
    ValidatorMetrics,
>)
    requires
        store.wf(),
    ensures
        r@.map_values(|m: ValidatorMetrics| m@) == store.history_of(addr@),
{
    store.all_for_validator(addr)
}

/// One validator's metrics with timestamps in the inclusive interval
/// `[timestamp1, timestamp2]`, ascending; the interval must be non-empty.
pub fn query_all_validator_metrics_btw_timestamps(
    store: &MetricsStore,
    addr: &String,
    timestamp1: u64,
    timestamp2: u64,
) -> (r: Result<Vec<ValidatorMetrics>, ContractError>)
    requires
        store.wf(),
    ensures
        timestamp1 >= timestamp2 ==> r matches Err(ContractError::InvalidTimestamps {}),
        timestamp1 < timestamp2 ==> (r matches Ok(v) && v@.map_values(|m: ValidatorMetrics| m@)
            == store.history_of(addr@).filter(
            |m: MetricsView| timestamp1 <= m.timestamp <= timestamp2,
        )),
{
    if timestamp1 >= timestamp2 {
        return Err(ContractError::InvalidTimestamps {});
    }
    Ok(store.for_validator_between(addr, timestamp1, timestamp2))
}

/// The metric record of one validator at one timestamp.
pub fn query_validator_metrics_by_timestamp(
    store: &MetricsStore,
    addr: &String,
    timestamp: u64,
) -> (r: Result<ValidatorMetrics, ContractError>)
    requires
        store.wf(),
    ensures
        match store.spec_load(addr@, timestamp) {
            Some(m) => r matches Ok(found) && found@ == m,
            None => r matches Err(ContractError::MetricsNotFound {}),
        },
{
    match store.may_load(addr, timestamp) {
        Some(m) => Ok(m.duplicate()),
        None => Err(ContractError::MetricsNotFound {}),
    }
}

/// The metrics of the roster slice `[from, to]` at one timestamp, in roster
/// order.  The indexes must lie within the roster, and every validator of
/// the slice must have a record at the timestamp.
pub fn query_validators_metrics_by_timestamp(
    store: &MetricsStore,
    state: &State,
    timestamp: u64,
    from: u64,
    to: u64,
) -> (r: Result<Vec<ValidatorMetrics>, ContractError>)
    requires
        store.wf(),
    ensures
        ({
            let vals = state@.validators;
            if to >= vals.len() || from > to {
                r matches Err(ContractError::ValidatorOutOfRange {})
            } else if exists|i: int|
                from <= i <= to && store.spec_load(
                    (#[trigger] vals[i]).operator_address,
                    timestamp,
                ) is None {
                r matches Err(ContractError::MetricsNotFound {})
            } else {
                r matches Ok(v) && v@.len() == to + 1 - from && forall|k: int|
                    0 <= k < v@.len() ==> store.spec_load(
                        vals[from + k].operator_address,
                        timestamp,
                    ) == Some((#[trigger] v@[k])@)
            }
        }),
{
    let ghost vals = state@.validators;
    let total = state.validators.len();
    if to >= total as u64 || from > to {
        return Err(ContractError::ValidatorOutOfRange {});
    }
    let mut res: Vec<ValidatorMetrics> = Vec::new();
    let mut start = from;
    while start <= to
        invariant
            from <= start <= to + 1,
            to < total as u64,
            total == state.validators@.len(),
            vals == state@.validators,
            store.wf(),
            res@.len() == start - from,
            forall|k: int| 0 <= k < res@.len() ==> store.spec_load(
                vals[from + k].operator_address,
                timestamp,
            ) == Some((#[trigger] res@[k])@),
            forall|i: int| from <= i < start ==> store.spec_load(
                (#[trigger] vals[i]).operator_address,
                timestamp,
            ) is Some,
        decreases to + 1 - start,
    {
        proof {
            assert(vals[start as int] == state.validators@[start as int]@);
        }
        match store.may_load(&state.validators[start as usize].operator_address, timestamp) {
            None => {
                return Err(ContractError::MetricsNotFound {});
            },
            Some(m) => {
                res.push(m.duplicate());
            },
        }
        start = start + 1;
    }
    Ok(res)
}

/// The annualized return of one validator between two of its snapshots.
pub fn query_validator_apr(
    store: &MetricsStore,
    timestamp1: u64,
    timestamp2: u64,
    addr: String,
) -> (r: Result<ValidatorAprResponse, ContractError>)
    requires
        store.wf(),
        timestamp1 < timestamp2 ==> match (
            store.spec_load(addr@, timestamp1),
            store.spec_load(addr@, timestamp2),
        ) {
            (Some(h1), Some(h2)) => h1.delegated_amount != 0 ==> apr_fits(
                h1.rewards,
                h2.rewards,
                h1.delegated_amount,
                (timestamp2 - timestamp1) as u64,
            ),
            _ => true,
        },
    ensures
        timestamp1 >= timestamp2 ==> r matches Err(ContractError::InvalidTimestamps {}),
        timestamp1 < timestamp2 ==> match (
            store.spec_load(addr@, timestamp1),
            store.spec_load(addr@, timestamp2),
        ) {
            (Some(h1), Some(h2)) => {
                if h1.delegated_amount == 0 {
                    r matches Err(ContractError::ZeroDelegatedAmount {})
                } else {
                    r matches Ok(resp) && resp@.addr == addr@ && resp@.apr == Dec {
                        atomics: spec_apr(
                            h1.rewards,
                            h2.rewards,
                            h1.delegated_amount,
                            (timestamp2 - timestamp1) as u64,
                        ) as u128,
                    }
                }
            },
            _ => r matches Err(ContractError::MetricsNotFound {}),
        },
{
    if timestamp1 >= timestamp2 {
        return Err(ContractError::InvalidTimestamps {});
    }
    let h1 = match store.may_load(&addr, timestamp1) {
        None => {
            return Err(ContractError::MetricsNotFound {});
        },
        Some(m) => m,
    };
    let h2 = match store.may_load(&addr, timestamp2) {
        None => {
            return Err(ContractError::MetricsNotFound {});
        },
        Some(m) => m,
    };
    let apr = match crate::apr::compute_apr(h1, h2, timestamp2 - timestamp1) {
        Err(e) => {
            return Err(e);
        },
        Ok(a) => a,
    };
    Ok(ValidatorAprResponse { addr, apr })
}

/// Both snapshots of one validator for an APR over `[t1, t2]`, when it has
/// both.
pub open spec fn spec_apr_pair(
    store: MetricsStore,
    addr: Seq<char>,
    t1: u64,
    t2: u64,
) -> Option<(MetricsView, MetricsView)> {
    match (store.spec_load(addr, t1), store.spec_load(addr, t2)) {
        (Some(h1), Some(h2)) => Some((h1, h2)),
        _ => None,
    }
}

/// The APR responses of the roster positions `i..=to`, in roster order,
/// skipping validators that lack either snapshot.
pub open spec fn spec_aprs_from(
    store: MetricsStore,
    vals: Seq<ValidatorAccountsView>,
    t1: u64,
    t2: u64,
    i: int,
    to: int,
) -> Seq<ValidatorAprResponseView>
    decreases to + 1 - i,
{
    if i > to {
        Seq::empty()
    } else {
        let rest = spec_aprs_from(store, vals, t1, t2, i + 1, to);
        match spec_apr_pair(store, vals[i].operator_address, t1, t2) {
            Some(p) => seq![
                ValidatorAprResponseView {
                    addr: p.1.operator_addr,
                    apr: Dec {
                        atomics: spec_apr(
                            p.0.rewards,
                            p.1.rewards,
                            p.0.delegated_amount,
                            (t2 - t1) as u64,
                        ) as u128,
                    },
                },
            ] + rest,
            None => rest,
        }
    }
}

/// No validator in the positions `i..=to` pairs a present snapshot couple
/// with a zero starting delegated amount.
pub open spec fn no_zero_delegation_pair(
    store: MetricsStore,
    vals: Seq<ValidatorAccountsView>,
    t1: u64,
    t2: u64,
    i: int,
    to: int,
) -> bool {
    forall|j: int|
        i <= j <= to ==> (#[trigger] spec_apr_pair(store, vals[j].operator_address, t1, t2) matches
            Some(p) ==> p.0.delegated_amount != 0)
}

/// The annualized returns of the roster slice `[from, to]` between two
/// timestamps, in roster order, skipping validators without both snapshots.
pub fn query_validators_aprs_by_interval(
    store: &MetricsStore,
    state: &State,
    timestamp1: u64,
    timestamp2: u64,
    from: u64,
    to: u64,
) -> (r: Result<Vec<ValidatorAprResponse>, ContractError>)
    requires
        store.wf(),
        forall|i: int|
            from <= i <= to && i < state@.validators.len() ==> ((#[trigger] spec_apr_pair(
                *store,
                state@.validators[i].operator_address,
                timestamp1,
                timestamp2,
            )) matches Some(p) ==> (p.0.delegated_amount != 0 && no_zero_delegation_pair(
                *store,
                state@.validators,
                timestamp1,
                timestamp2,
                from as int,
                i - 1,
            ) && timestamp1 < timestamp2 ==> apr_fits(
                p.0.rewards,
                p.1.rewards,
                p.0.delegated_amount,
                (timestamp2 - timestamp1) as u64,
            ))),
    ensures
        timestamp1 >= timestamp2 ==> r matches Err(ContractError::InvalidTimestamps {}),
        timestamp1 < timestamp2 ==> ({
            let vals = state@.validators;
            if to >= vals.len() || from > to {
                r matches Err(ContractError::ValidatorOutOfRange {})
            } else if !no_zero_delegation_pair(
                *store,
                vals,
                timestamp1,
                timestamp2,
                from as int,
                to as int,
            ) {
                r matches Err(ContractError::ZeroDelegatedAmount {})
            } else {
                r matches Ok(v) && v@.map_values(|resp: ValidatorAprResponse| resp@)
                    == spec_aprs_from(*store, vals, timestamp1, timestamp2, from as int, to as int)
            }
        }),
{
    if timestamp1 >= timestamp2 {
        return Err(ContractError::InvalidTimestamps {});
    }
    let ghost vals = state@.validators;
    let total = state.validators.len();
    if to >= total as u64 || from > to {
        return Err(ContractError::ValidatorOutOfRange {});
    }
    let mut response: Vec<ValidatorAprResponse> = Vec::new();
    let mut start = from;
    while start <= to
        invariant
            from <= start <= to + 1,
            to < total as u64,
            total == state.validators@.len(),
            vals == state@.validators,
            timestamp1 < timestamp2,
            store.wf(),
            forall|i: int|
                from <= i <= to ==> ((#[trigger] spec_apr_pair(
                    *store,
                    vals[i].operator_address,
                    timestamp1,
                    timestamp2,
                )) matches Some(p) ==> (p.0.delegated_amount != 0 && no_zero_delegation_pair(
                    *store,
                    vals,
                    timestamp1,
                    timestamp2,
                    from as int,
                    i - 1,
                ) ==> apr_fits(
                    p.0.rewards,
                    p.1.rewards,
                    p.0.delegated_amount,
                    (timestamp2 - timestamp1) as u64,
                ))),
            no_zero_delegation_pair(
                *store,
                vals,
                timestamp1,
                timestamp2,
                from as int,
                start - 1,
            ),
            spec_aprs_from(*store, vals, timestamp1, timestamp2, from as int, to as int)
                == response@.map_values(|resp: ValidatorAprResponse| resp@) + spec_aprs_from(
                *store,
                vals,
                timestamp1,
                timestamp2,
                start as int,
                to as int,
            ),
        decreases to + 1 - start,
    {
        let validator_addr = &state.validators[start as usize];
        proof {
            assert(vals[start as int] == state.validators@[start as int]@);
        }
        let h1_opt = store.may_load(&validator_addr.operator_address, timestamp1);
        let h2_opt = store.may_load(&validator_addr.operator_address, timestamp2);
        let ghost before = response@;
        if let (Some(h1), Some(h2)) = (h1_opt, h2_opt) {
            if h1.delegated_amount == 0 {
                return Err(ContractError::ZeroDelegatedAmount {});
            }
            let apr = match crate::apr::compute_apr(h1, h2, timestamp2 - timestamp1) {
                Err(e) => {
                    // unreachable: the delegated amount was tested above and
                    // the elapsed time is positive
                    proof {
                        assert(false);
                    }
                    return Err(e);
                },
                Ok(a) => a,
            };
            response.push(ValidatorAprResponse { addr: h2.operator_addr.clone(), apr });
        }
        proof {
            let pair = spec_apr_pair(*store, vals[start as int].operator_address, timestamp1, timestamp2);
            let head = spec_aprs_from(*store, vals, timestamp1, timestamp2, start as int, to as int);
            let rest = spec_aprs_from(*store, vals, timestamp1, timestamp2, start + 1, to as int);
            match pair {
                Some(p) => {
                    assert(response@.map_values(|resp: ValidatorAprResponse| resp@)
                        =~= before.map_values(|resp: ValidatorAprResponse| resp@).push(
                        response@.last()@,
                    ));
                    assert(before.map_values(|resp: ValidatorAprResponse| resp@).push(
                        response@.last()@,
                    ) + rest =~= before.map_values(|resp: ValidatorAprResponse| resp@) + head);
                },
                None => {
                    assert(head == rest);
                },
            }
        }
        start = start + 1;
    }
    proof {
        assert(spec_aprs_from(*store, vals, timestamp1, timestamp2, start as int, to as int)
            =~= Seq::<ValidatorAprResponseView>::empty());
        assert(response@.map_values(|resp: ValidatorAprResponse| resp@) =~= response@.map_values(
            |resp: ValidatorAprResponse| resp@,
        ) + Seq::<ValidatorAprResponseView>::empty());
    }
    Ok(response)
}

} // verus!
