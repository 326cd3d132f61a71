use validator_metrics::admin::{
    add_validator, delete_metrics_for_timestamp, delete_metrics_for_validator, instantiate,
    migrate, remove_timestamp, remove_validator, update_config, withdraw_funds,
    StakingInstruction,
};
use validator_metrics::dec::{u64_to_decimal, Dec};
use validator_metrics::error::ContractError;
use validator_metrics::queries::{
    query_all_validator_metrics, query_all_validator_metrics_btw_timestamps, query_config,
    query_state, query_timestamps, query_validator_apr, query_validator_metrics_by_timestamp,
    query_validators_aprs_by_interval, query_validators_metrics_by_timestamp,
};
use validator_metrics::state::{Coin, Config, State, ValidatorMetrics};
use validator_metrics::store::MetricsStore;

const MANAGER: &str = "manager001";
const DENOM: &str = "uluna";

fn setup(n_validators: u64) -> (State, Config) {
    let (mut state, config) =
        instantiate(String::from(DENOM), String::from(MANAGER), 10, 10);
    let funds = vec![Coin { denom: String::from(DENOM), amount: 100 }];
    for i in 0..n_validators {
        add_validator(
            &mut state,
            &config,
            &String::from(MANAGER),
            format!("valoper{}", i),
            format!("valacc{}", i),
            true,
            &funds,
        )
        .unwrap();
    }
    (state, config)
}

fn metric(addr: &str, t: u64, rewards: Dec, delegated: u128) -> ValidatorMetrics {
    ValidatorMetrics {
        operator_addr: String::from(addr),
        rewards,
        delegated_amount: delegated,
        self_delegated_amount: 1,
        slashing_pointer: Dec::one(),
        commission: Dec::zero(),
        max_commission: Dec::one(),
        timestamp: t,
        rewards_in_coins: vec![],
    }
}

#[test]
fn add_validator_rejections_in_order() {
    let (mut state, config) = setup(1);
    let manager = String::from(MANAGER);
    let funds = vec![Coin { denom: String::from(DENOM), amount: 100 }];

    let r = add_validator(
        &mut state,
        &config,
        &String::from("intruder"),
        String::from("valoperX"),
        String::from("valaccX"),
        true,
        &funds,
    );
    assert_eq!(r.unwrap_err(), ContractError::Unauthorized {});

    let r = add_validator(
        &mut state,
        &config,
        &manager,
        String::from("valoperX"),
        String::from("valaccX"),
        false,
        &funds,
    );
    assert_eq!(r.unwrap_err(), ContractError::ValidatorDoesNotExist {});

    let r = add_validator(
        &mut state,
        &config,
        &manager,
        String::from("valoper0"),
        String::from("valacc0"),
        true,
        &funds,
    );
    assert_eq!(r.unwrap_err(), ContractError::ValidatorAlreadyExists {});

    let r = add_validator(
        &mut state,
        &config,
        &manager,
        String::from("valoperX"),
        String::from("valaccX"),
        true,
        &Vec::new(),
    );
    assert_eq!(r.unwrap_err(), ContractError::NoFundsFound {});

    let poor = vec![Coin { denom: String::from(DENOM), amount: 9 }];
    let r = add_validator(
        &mut state,
        &config,
        &manager,
        String::from("valoperX"),
        String::from("valaccX"),
        true,
        &poor,
    );
    assert_eq!(r.unwrap_err(), ContractError::InsufficientFunds {});

    // the roster still only holds the one registered validator
    assert_eq!(state.validators.len(), 1);

    let r = add_validator(
        &mut state,
        &config,
        &manager,
        String::from("valoperX"),
        String::from("valaccX"),
        true,
        &funds,
    )
    .unwrap();
    match r {
        StakingInstruction::Delegate { validator, denom, amount } => {
            assert_eq!(validator, "valoperX");
            assert_eq!(denom, DENOM);
            assert_eq!(amount, 10);
        },
        _ => panic!("expected a delegate instruction"),
    }
    assert_eq!(state.validators.len(), 2);
}

#[test]
fn remove_validator_filters_roster() {
    let (mut state, config) = setup(3);
    let manager = String::from(MANAGER);
    let r = remove_validator(&mut state, &config, &manager, &String::from("valoper1")).unwrap();
    match r {
        StakingInstruction::Undelegate { validator, denom, amount } => {
            assert_eq!(validator, "valoper1");
            assert_eq!(denom, DENOM);
            assert_eq!(amount, 10);
        },
        _ => panic!("expected an undelegate instruction"),
    }
    assert_eq!(state.validators.len(), 2);
    assert_eq!(state.validators[0].operator_address, "valoper0");
    assert_eq!(state.validators[1].operator_address, "valoper2");

    let r = remove_validator(&mut state, &config, &manager, &String::from("valoper1"));
    assert_eq!(r.unwrap_err(), ContractError::ValidatorDoesNotExist {});
}

#[test]
fn update_config_checks_batch_size_first() {
    let (_, mut config) = setup(0);
    assert_eq!(
        update_config(&mut config, &String::from("intruder"), 0),
        Err(ContractError::BatchSizeCannotBeZero {})
    );
    assert_eq!(
        update_config(&mut config, &String::from("intruder"), 5),
        Err(ContractError::Unauthorized {})
    );
    assert_eq!(update_config(&mut config, &String::from(MANAGER), 5), Ok(()));
    assert_eq!(config.batch_size, 5);
}

#[test]
fn migrate_hands_over_the_manager() {
    let (_, mut config) = setup(0);
    migrate(&mut config, String::from("manager002"));
    assert_eq!(config.manager, "manager002");
    assert_eq!(config.batch_size, 10);
}

#[test]
fn withdraw_funds_goes_to_manager_only() {
    let (state, config) = setup(0);
    assert_eq!(
        withdraw_funds(&state, &config, 0).unwrap_err(),
        ContractError::ZeroAmount {}
    );
    let instr = withdraw_funds(&state, &config, 25).unwrap();
    assert_eq!(instr.to_address, MANAGER);
    assert_eq!(instr.denom, DENOM);
    assert_eq!(instr.amount, 25);
}

#[test]
fn remove_timestamp_reports_existence() {
    let (mut state, config) = setup(0);
    state.cron_timestamps = vec![10, 20, 30];
    let manager = String::from(MANAGER);
    assert_eq!(
        remove_timestamp(&mut state, &config, &String::from("intruder"), 20),
        Err(ContractError::Unauthorized {})
    );
    assert_eq!(remove_timestamp(&mut state, &config, &manager, 20), Ok(true));
    assert_eq!(state.cron_timestamps, vec![10, 30]);
    assert_eq!(remove_timestamp(&mut state, &config, &manager, 20), Ok(false));
    assert_eq!(state.cron_timestamps, vec![10, 30]);
}

#[test]
fn deletion_pagination_removes_all_records() {
    let (state, config) = setup(4);
    let manager = String::from(MANAGER);
    let mut store = MetricsStore::new();
    for i in 0..4 {
        store.save(metric(&format!("valoper{}", i), 77, Dec::one(), 100));
    }
    // slice [0, 2): two validators left beyond the slice
    assert_eq!(
        delete_metrics_for_timestamp(&mut store, &state, &config, &manager, 77, 0, 2),
        Ok((2, 2))
    );
    // slice [2, 4): zero remaining
    assert_eq!(
        delete_metrics_for_timestamp(&mut store, &state, &config, &manager, 77, 2, 2),
        Ok((0, 4))
    );
    for i in 0..4 {
        assert_eq!(
            query_validator_metrics_by_timestamp(&store, &format!("valoper{}", i), 77),
            Err(ContractError::MetricsNotFound {})
        );
    }
    assert_eq!(
        delete_metrics_for_timestamp(&mut store, &state, &config, &manager, 77, 4, 1),
        Err(ContractError::ValidatorOutOfRange {})
    );
    assert_eq!(
        delete_metrics_for_timestamp(&mut store, &state, &config, &String::from("x"), 77, 0, 1),
        Err(ContractError::Unauthorized {})
    );
}

#[test]
fn deletion_for_validator_walks_timestamps() {
    let (mut state, config) = setup(1);
    let manager = String::from(MANAGER);
    state.cron_timestamps = vec![10, 20, 30];
    let addr = String::from("valoper0");
    let mut store = MetricsStore::new();
    for t in [10u64, 20, 30] {
        store.save(metric("valoper0", t, Dec::one(), 100));
    }
    assert_eq!(
        delete_metrics_for_validator(&mut store, &state, &config, &manager, &addr, 0, 2),
        Ok(1)
    );
    assert_eq!(
        query_validator_metrics_by_timestamp(&store, &addr, 10),
        Err(ContractError::MetricsNotFound {})
    );
    assert!(query_validator_metrics_by_timestamp(&store, &addr, 30).is_ok());
    assert_eq!(
        delete_metrics_for_validator(&mut store, &state, &config, &manager, &addr, 2, 5),
        Ok(0)
    );
    assert_eq!(
        query_validator_metrics_by_timestamp(&store, &addr, 30),
        Err(ContractError::MetricsNotFound {})
    );
    assert_eq!(
        delete_metrics_for_validator(&mut store, &state, &config, &manager, &addr, 3, 1),
        Err(ContractError::TimestampOutOfRange {})
    );
}

#[test]
fn apr_interval_query_validates_ranges() {
    let (state, _) = setup(3);
    let store = MetricsStore::new();
    // from > to
    assert_eq!(
        query_validators_aprs_by_interval(&store, &state, 1, 2, 2, 1),
        Err(ContractError::ValidatorOutOfRange {})
    );
    // to beyond the roster
    assert_eq!(
        query_validators_aprs_by_interval(&store, &state, 1, 2, 0, 3),
        Err(ContractError::ValidatorOutOfRange {})
    );
    // timestamps not increasing
    assert_eq!(
        query_validators_aprs_by_interval(&store, &state, 2, 2, 0, 1),
        Err(ContractError::InvalidTimestamps {})
    );
}

#[test]
fn apr_interval_query_computes_and_skips() {
    let (state, _) = setup(3);
    let mut store = MetricsStore::new();
    // validators 0 and 2 have both snapshots; validator 1 has none
    for addr in ["valoper0", "valoper2"] {
        store.save(metric(addr, 100, u64_to_decimal(1), 10));
        store.save(metric(addr, 200, u64_to_decimal(2), 999));
    }
    let r = query_validators_aprs_by_interval(&store, &state, 100, 200, 0, 2).unwrap();
    assert_eq!(r.len(), 2);
    // (2 - 1) * 3153600000 / (10 * 100) = 3153600
    assert_eq!(r[0].addr, "valoper0");
    assert_eq!(r[0].apr, u64_to_decimal(3153600));
    assert_eq!(r[1].addr, "valoper2");
    assert_eq!(r[1].apr, u64_to_decimal(3153600));
}

#[test]
fn apr_by_validator_query() {
    let store_empty = MetricsStore::new();
    let addr = String::from("valoper0");
    assert_eq!(
        query_validator_apr(&store_empty, 5, 5, addr.clone()),
        Err(ContractError::InvalidTimestamps {})
    );
    assert_eq!(
        query_validator_apr(&store_empty, 4, 5, addr.clone()),
        Err(ContractError::MetricsNotFound {})
    );
    let mut store = MetricsStore::new();
    store.save(metric("valoper0", 1, u64_to_decimal(1), 10));
    store.save(metric("valoper0", 2, u64_to_decimal(2), 100));
    let r = query_validator_apr(&store, 1, 2, addr).unwrap();
    assert_eq!(r.addr, "valoper0");
    assert_eq!(r.apr, u64_to_decimal(315360000));
}

#[test]
fn metrics_queries_by_timestamp_and_range() {
    let (state, _) = setup(2);
    let mut store = MetricsStore::new();
    store.save(metric("valoper0", 10, u64_to_decimal(1), 5));
    store.save(metric("valoper0", 20, u64_to_decimal(2), 5));
    store.save(metric("valoper0", 30, u64_to_decimal(3), 5));
    store.save(metric("valoper1", 10, u64_to_decimal(9), 5));

    let all = query_all_validator_metrics(&store, &String::from("valoper0"));
    assert_eq!(all.len(), 3);
    assert_eq!(all[0].timestamp, 10);
    assert_eq!(all[1].timestamp, 20);
    assert_eq!(all[2].timestamp, 30);

    let between =
        query_all_validator_metrics_btw_timestamps(&store, &String::from("valoper0"), 10, 20)
            .unwrap();
    assert_eq!(between.len(), 2);
    assert_eq!(between[0].timestamp, 10);
    assert_eq!(between[1].timestamp, 20);
    assert_eq!(
        query_all_validator_metrics_btw_timestamps(&store, &String::from("valoper0"), 20, 10),
        Err(ContractError::InvalidTimestamps {})
    );

    let row = query_validators_metrics_by_timestamp(&store, &state, 10, 0, 1).unwrap();
    assert_eq!(row.len(), 2);
    assert_eq!(row[0].operator_addr, "valoper0");
    assert_eq!(row[1].operator_addr, "valoper1");
    assert_eq!(
        query_validators_metrics_by_timestamp(&store, &state, 10, 0, 2),
        Err(ContractError::ValidatorOutOfRange {})
    );
    assert_eq!(
        query_validators_metrics_by_timestamp(&store, &state, 20, 0, 1),
        Err(ContractError::MetricsNotFound {})
    );
}

#[test]
fn state_and_config_queries_copy_everything() {
    let (mut state, config) = setup(2);
    state.cron_timestamps = vec![1, 2, 3];
    let s = query_state(&state);
    assert_eq!(s.vault_denom, DENOM);
    assert_eq!(s.validators.len(), 2);
    assert_eq!(s.cron_timestamps, vec![1, 2, 3]);
    let c = query_config(&config);
    assert_eq!(c.manager, MANAGER);
    assert_eq!(c.batch_size, 10);
    assert_eq!(c.amount_to_stake_per_validator, 10);
    assert_eq!(query_timestamps(&state), vec![1, 2, 3]);
}

#[test]
fn error_messages_have_wording() {
    assert_eq!(ContractError::Unauthorized {}.message(), "Unauthorized");
    assert_eq!(
        ContractError::BatchSizeCannotBeZero {}.message(),
        "Batch size cannot be zero"
    );
}
