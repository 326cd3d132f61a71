//! The error taxonomy of the engine.
use vstd::prelude::*;

verus! {

/// Everything a call into the engine can be rejected with.  A rejected call
/// mutates nothing.
#[derive(Debug, PartialEq, Eq)]
pub enum ContractError {
    /// The caller is not the configured manager.
    Unauthorized {},
    /// The operator address is not a validator of the host chain.
    ValidatorDoesNotExist {},
    /// The operator address is already registered for metrics recording.
    ValidatorAlreadyExists {},
    /// A registration came without an attached fund.
    NoFundsFound {},
    /// The attached fund is below the configured stake per validator.
    InsufficientFunds {},
    /// A registered validator unexpectedly has no delegation from the pool.
    NoDelegationFound { manager: String, validator: String },
    /// A query gave a pair of timestamps that is not strictly increasing.
    InvalidTimestamps {},
    /// The batch size of the recorder cannot be set to zero.
    BatchSizeCannotBeZero {},
    /// A withdrawal of zero was requested.
    ZeroAmount {},
    /// A timestamp index lies beyond the recorded cron timestamps.
    TimestampOutOfRange {},
    /// A validator index lies beyond the roster.
    ValidatorOutOfRange {},
    /// A recording call named a timestamp older than the newest recorded one.
    TimestampWithinExistingRange {},
    /// No metric record exists for the requested key.
    MetricsNotFound {},
    /// An APR was requested over a snapshot with zero delegated amount.
    ZeroDelegatedAmount {},
    /// An APR was requested over an empty time interval.
    ZeroElapsedTime {},
}

impl ContractError {
    /// The wording of each error.
    pub open spec fn spec_message(&self) -> Seq<char> {
        match self {
            ContractError::Unauthorized {} => "Unauthorized"@,
            ContractError::ValidatorDoesNotExist {} => "Validator not present in block chain"@,
            ContractError::ValidatorAlreadyExists {} => "Validator is already added to record metrics"@,
            ContractError::NoFundsFound {} => "No funds found"@,
            ContractError::InsufficientFunds {} => "In sufficient funds for this action"@,
            ContractError::NoDelegationFound { .. } => "Something went wrong while getting the delegation"@,
            ContractError::InvalidTimestamps {} => "timestamp1 cannot be greater than or equal to timestamp2"@,
            ContractError::BatchSizeCannotBeZero {} => "Batch size cannot be zero"@,
            ContractError::ZeroAmount {} => "Amount cannot be zero"@,
            ContractError::TimestampOutOfRange {} => "No metrics found for the given timestamp range"@,
            ContractError::ValidatorOutOfRange {} => "No metrics found for given timestamp, for validators in given range"@,
            ContractError::TimestampWithinExistingRange {} => "Timestamp is within the already recorded range"@,
            ContractError::MetricsNotFound {} => "No metrics found for the given key"@,
            ContractError::ZeroDelegatedAmount {} => "ZeroDivisionError: Cannot compute apr as the delegation amount is zero"@,
            ContractError::ZeroElapsedTime {} => "ZeroDivisionError: Cannot compute apr as the time difference is zero"@,
        }
    }

    /// The human-readable wording of the error.
    pub fn message(&self) -> (r: String)
        ensures
            r@ == self.spec_message(),
    {
        match self {
            ContractError::Unauthorized {} => "Unauthorized".to_owned(),
            ContractError::ValidatorDoesNotExist {} => "Validator not present in block chain".to_owned(),
            ContractError::ValidatorAlreadyExists {} => "Validator is already added to record metrics".to_owned(),
            ContractError::NoFundsFound {} => "No funds found".to_owned(),
            ContractError::InsufficientFunds {} => "In sufficient funds for this action".to_owned(),
            ContractError::NoDelegationFound { .. } => "Something went wrong while getting the delegation".to_owned(),
            ContractError::InvalidTimestamps {} => "timestamp1 cannot be greater than or equal to timestamp2".to_owned(),
            ContractError::BatchSizeCannotBeZero {} => "Batch size cannot be zero".to_owned(),
            ContractError::ZeroAmount {} => "Amount cannot be zero".to_owned(),
            ContractError::TimestampOutOfRange {} => "No metrics found for the given timestamp range".to_owned(),
            ContractError::ValidatorOutOfRange {} => "No metrics found for given timestamp, for validators in given range".to_owned(),
            ContractError::TimestampWithinExistingRange {} => "Timestamp is within the already recorded range".to_owned(),
            ContractError::MetricsNotFound {} => "No metrics found for the given key".to_owned(),
            ContractError::ZeroDelegatedAmount {} => "ZeroDivisionError: Cannot compute apr as the delegation amount is zero".to_owned(),
            ContractError::ZeroElapsedTime {} => "ZeroDivisionError: Cannot compute apr as the time difference is zero".to_owned(),
        }
    }
}

} // verus!
