use validator_metrics::admin::{add_validator, instantiate};
use validator_metrics::dec::{u64_to_decimal, Dec, DECIMAL_FRACTIONAL};
use validator_metrics::error::ContractError;
use validator_metrics::rates::ExchangeRates;
use validator_metrics::record::{
    record_validator_metrics, DelegationInfo, ValidatorInfo, ValidatorObservation,
};
use validator_metrics::state::{Coin, Config, State};
use validator_metrics::store::MetricsStore;

const MANAGER: &str = "manager001";
const DELEGATOR: &str = "pool001";
const DENOM: &str = "uluna";

fn setup(n_validators: u64, batch_size: u64) -> (State, Config) {
    let (mut state, config) = instantiate(
        String::from(DENOM),
        String::from(MANAGER),
        10,
        batch_size,
    );
    let funds = vec![Coin { denom: String::from(DENOM), amount: 100 }];
    for i in 0..n_validators {
        let res = add_validator(
            &mut state,
            &config,
            &String::from(MANAGER),
            format!("valoper{}", i),
            format!("valacc{}", i),
            true,
            &funds,
        );
        assert!(res.is_ok());
    }
    (state, config)
}

fn observation(delegated: u128, rewards: Vec<Coin>) -> ValidatorObservation {
    ValidatorObservation {
        delegation: Some(DelegationInfo { amount: delegated, accumulated_rewards: rewards }),
        validator: Some(ValidatorInfo { commission: Dec::zero(), max_commission: Dec::one() }),
        self_delegation: Some(5),
    }
}

fn observations(count: usize, delegated: u128, reward_amount: u128) -> Vec<ValidatorObservation> {
    let mut obs = Vec::new();
    for _ in 0..count {
        obs.push(observation(
            delegated,
            vec![Coin { denom: String::from(DENOM), amount: reward_amount }],
        ));
    }
    obs
}

fn record(
    state: &mut State,
    store: &mut MetricsStore,
    config: &Config,
    t: u64,
    obs: &Vec<ValidatorObservation>,
) -> Result<u64, ContractError> {
    let cache = ExchangeRates::new(&String::from(DENOM));
    record_validator_metrics(
        state,
        store,
        config,
        &String::from(MANAGER),
        &String::from(DELEGATOR),
        t,
        obs,
        &cache,
    )
}

#[test]
fn batched_recording_covers_roster_and_completes() {
    let (mut state, config) = setup(4, 2);
    let mut store = MetricsStore::new();

    // ceil(4 / 2) = 2 calls process everyone, in roster order
    assert_eq!(record(&mut state, &mut store, &config, 100, &observations(2, 50, 10)), Ok(2));
    assert_eq!(state.validator_index_for_next_cron, 2);
    assert_eq!(record(&mut state, &mut store, &config, 100, &observations(2, 50, 10)), Ok(2));
    assert_eq!(state.validator_index_for_next_cron, 4);
    assert_eq!(state.cron_timestamps, vec![100]);

    for i in 0..4 {
        let m = validator_metrics::queries::query_validator_metrics_by_timestamp(
            &store,
            &format!("valoper{}", i),
            100,
        )
        .unwrap();
        // first snapshot: slashing pointer 1.0, rewards are the full current
        // accumulated rewards normalized (10 uluna at rate 1.0)
        assert_eq!(m.slashing_pointer, Dec::one());
        assert_eq!(m.rewards, u64_to_decimal(10));
        assert_eq!(m.delegated_amount, 50);
        assert_eq!(m.self_delegated_amount, 5);
        assert_eq!(m.timestamp, 100);
    }
}

#[test]
fn completed_timestamp_makes_further_calls_no_ops() {
    let (mut state, config) = setup(3, 3);
    let mut store = MetricsStore::new();
    assert_eq!(record(&mut state, &mut store, &config, 7, &observations(3, 50, 10)), Ok(3));

    let cron_before = state.cron_timestamps.clone();
    let cursor_before = state.validator_index_for_next_cron;
    let m_before = validator_metrics::queries::query_validator_metrics_by_timestamp(
        &store,
        &String::from("valoper0"),
        7,
    )
    .unwrap();

    // repeatedly resuming the completed timestamp is a no-op
    for _ in 0..3 {
        let empty: Vec<ValidatorObservation> = Vec::new();
        assert_eq!(record(&mut state, &mut store, &config, 7, &empty), Ok(0));
        assert_eq!(state.cron_timestamps, cron_before);
        assert_eq!(state.validator_index_for_next_cron, cursor_before);
    }
    let m_after = validator_metrics::queries::query_validator_metrics_by_timestamp(
        &store,
        &String::from("valoper0"),
        7,
    )
    .unwrap();
    assert_eq!(m_before.rewards, m_after.rewards);
    assert_eq!(m_before.timestamp, m_after.timestamp);
}

#[test]
fn slashing_pointer_composes_over_three_snapshots() {
    let (mut state, config) = setup(1, 1);
    let mut store = MetricsStore::new();
    let addr = String::from("valoper0");

    // delegated amounts 100 -> 90 -> 99 give pointers 1.0 -> 0.9 -> 0.99
    assert_eq!(record(&mut state, &mut store, &config, 1, &observations(1, 100, 0)), Ok(1));
    assert_eq!(record(&mut state, &mut store, &config, 2, &observations(1, 90, 0)), Ok(1));
    assert_eq!(record(&mut state, &mut store, &config, 3, &observations(1, 99, 0)), Ok(1));

    let q = |t: u64| {
        validator_metrics::queries::query_validator_metrics_by_timestamp(&store, &addr, t).unwrap()
    };
    assert_eq!(q(1).slashing_pointer, Dec::one());
    assert_eq!(q(2).slashing_pointer, Dec::from_atomics(900_000_000_000_000_000));
    assert_eq!(q(3).slashing_pointer, Dec::from_atomics(990_000_000_000_000_000));
}

#[test]
fn rewards_accumulate_from_diffs() {
    let (mut state, config) = setup(1, 1);
    let mut store = MetricsStore::new();
    let addr = String::from("valoper0");

    assert_eq!(record(&mut state, &mut store, &config, 1, &observations(1, 100, 10)), Ok(1));
    // accumulated rewards grew from 10 to 25: the diff of 15 is added
    assert_eq!(record(&mut state, &mut store, &config, 2, &observations(1, 100, 25)), Ok(1));

    let q = |t: u64| {
        validator_metrics::queries::query_validator_metrics_by_timestamp(&store, &addr, t).unwrap()
    };
    assert_eq!(q(1).rewards, u64_to_decimal(10));
    assert_eq!(q(2).rewards, u64_to_decimal(25));
}

#[test]
fn unresolvable_rate_skips_the_coin() {
    let (mut state, config) = setup(1, 1);
    let mut store = MetricsStore::new();
    let mut cache = ExchangeRates::new(&String::from(DENOM));
    cache.insert(String::from("ukrw"), None);
    cache.insert(
        String::from("uusd"),
        Some(Dec::from_atomics(DECIMAL_FRACTIONAL / 2)), // rate 0.5
    );
    let obs = vec![observation(
        100,
        vec![
            Coin { denom: String::from(DENOM), amount: 5 },
            Coin { denom: String::from("ukrw"), amount: 1000 },
            Coin { denom: String::from("uusd"), amount: 8 },
        ],
    )];
    let r = record_validator_metrics(
        &mut state,
        &mut store,
        &config,
        &String::from(MANAGER),
        &String::from(DELEGATOR),
        42,
        &obs,
        &cache,
    );
    assert_eq!(r, Ok(1));
    let m = validator_metrics::queries::query_validator_metrics_by_timestamp(
        &store,
        &String::from("valoper0"),
        42,
    )
    .unwrap();
    // 5 uluna at 1.0 plus 8 uusd at 0.5; the unresolvable ukrw is skipped
    assert_eq!(m.rewards, u64_to_decimal(9));
}

#[test]
fn missing_delegation_rejects_whole_call_without_mutation() {
    let (mut state, config) = setup(2, 2);
    let mut store = MetricsStore::new();
    let obs = vec![
        observation(50, vec![]),
        ValidatorObservation { delegation: None, validator: None, self_delegation: None },
    ];
    let r = record(&mut state, &mut store, &config, 9, &obs);
    assert_eq!(
        r,
        Err(ContractError::NoDelegationFound {
            manager: String::from(DELEGATOR),
            validator: String::from("valoper1"),
        })
    );
    // nothing was mutated: no timestamp, cursor untouched, no records
    assert_eq!(state.cron_timestamps, Vec::<u64>::new());
    assert_eq!(state.validator_index_for_next_cron, 0);
    assert_eq!(
        validator_metrics::queries::query_validator_metrics_by_timestamp(
            &store,
            &String::from("valoper0"),
            9,
        ),
        Err(ContractError::MetricsNotFound {})
    );
}

#[test]
fn inactive_validator_is_skipped_silently() {
    let (mut state, config) = setup(2, 2);
    let mut store = MetricsStore::new();
    let mut obs = observations(2, 50, 10);
    obs[1].validator = None;
    assert_eq!(record(&mut state, &mut store, &config, 5, &obs), Ok(2));
    assert!(validator_metrics::queries::query_validator_metrics_by_timestamp(
        &store,
        &String::from("valoper0"),
        5,
    )
    .is_ok());
    assert_eq!(
        validator_metrics::queries::query_validator_metrics_by_timestamp(
            &store,
            &String::from("valoper1"),
            5,
        ),
        Err(ContractError::MetricsNotFound {})
    );
    // the cursor still advanced past the skipped validator
    assert_eq!(state.validator_index_for_next_cron, 2);
}

#[test]
fn recording_rejects_non_manager() {
    let (mut state, config) = setup(1, 1);
    let mut store = MetricsStore::new();
    let cache = ExchangeRates::new(&String::from(DENOM));
    let r = record_validator_metrics(
        &mut state,
        &mut store,
        &config,
        &String::from("intruder"),
        &String::from(DELEGATOR),
        1,
        &observations(1, 100, 0),
        &cache,
    );
    assert_eq!(r, Err(ContractError::Unauthorized {}));
    assert_eq!(state.cron_timestamps, Vec::<u64>::new());
}

#[test]
fn recording_rejects_timestamp_before_newest() {
    let (mut state, config) = setup(1, 1);
    let mut store = MetricsStore::new();
    assert_eq!(record(&mut state, &mut store, &config, 100, &observations(1, 100, 0)), Ok(1));
    let r = record(&mut state, &mut store, &config, 99, &observations(1, 100, 0));
    assert_eq!(r, Err(ContractError::TimestampWithinExistingRange {}));
    assert_eq!(state.cron_timestamps, vec![100]);
}
