//! Identifiers, records, commands, events and errors of the exchange.

use vstd::prelude::*;

verus! {

/// Identifies an account that holds simulated microcredits.
#[derive(Debug, Clone, Copy, PartialEq, Eq, Structural, PartialOrd, Ord, Hash)]
pub struct AccountId(pub u64);

/// Identifies a worker; each worker offers exactly one execution slot.
#[derive(Debug, Clone, Copy, PartialEq, Eq, Structural, PartialOrd, Ord, Hash)]
pub struct WorkerId(pub u64);

/// Identifies an offer of capacity.
#[derive(Debug, Clone, Copy, PartialEq, Eq, Structural, PartialOrd, Ord, Hash)]
pub struct OfferId(pub u64);

/// Identifies a job submitted by a buyer.
#[derive(Debug, Clone, Copy, PartialEq, Eq, Structural, PartialOrd, Ord, Hash)]
pub struct JobId(pub u64);

/// Funds of one account: what can still be spent, and what is held for jobs.
#[derive(Debug, Clone, Copy, PartialEq, Eq, Structural)]
pub struct Balance {
    pub available: u64,
    pub reserved: u64,
}

impl Default for Balance {
    fn default() -> (b: Balance)
        ensures
            b == (Balance { available: 0, reserved: 0 }),
    {
        Balance { available: 0, reserved: 0 }
    }
}

/// Lifecycle of a job.
#[derive(Debug, Clone, Copy, PartialEq, Eq, Structural)]
pub enum JobState {
    Queued,
    Reserved { offer_id: OfferId },
    Cancelled,
}

/// Lifecycle of an offer.
#[derive(Debug, Clone, Copy, PartialEq, Eq, Structural)]
pub enum OfferState {
    Available,
    Reserved { job_id: JobId },
}

/// A buyer's request for capacity, with the microcredits currently held for it.
#[derive(Debug, Clone, Copy, PartialEq, Eq, Structural)]
pub struct Job {
    pub id: JobId,
    pub buyer: AccountId,
    pub max_price_per_second: u64,
    pub duration_seconds: u64,
    pub held_microcredits: u64,
    pub arrival: u64,
    pub state: JobState,
}

/// One execution slot of a worker, offered at a fixed price per second.
#[derive(Debug, Clone, Copy, PartialEq, Eq, Structural)]
pub struct Offer {
    pub id: OfferId,
    pub worker: WorkerId,
    pub provider: AccountId,
    pub price_per_second: u64,
    pub arrival: u64,
    pub state: OfferState,
}

/// The pairing of a job with an offer, made when the job was matched.
#[derive(Debug, Clone, Copy, PartialEq, Eq, Structural)]
pub struct Reservation {
    pub job_id: JobId,
    pub offer_id: OfferId,
    pub price_per_second: u64,
    pub duration_seconds: u64,
    pub held_microcredits: u64,
    pub created_at: u64,
}

/// A request to change the exchange.
#[allow(inconsistent_fields)]
#[derive(Debug, Clone, Copy, PartialEq, Eq, Structural)]
pub enum Command {
    Fund { account: AccountId, amount: u64 },
    RegisterOffer { id: OfferId, worker: WorkerId, provider: AccountId, price_per_second: u64 },
    SubmitJob { id: JobId, buyer: AccountId, max_price_per_second: u64, duration_seconds: u64 },
    CancelJob { id: JobId, buyer: AccountId },
}

/// What a successful command did, in the order it happened.
#[derive(Debug, Clone, Copy, PartialEq, Eq, Structural)]
pub enum Event {
    AccountFunded { account: AccountId, amount: u64 },
    OfferRegistered(OfferId),
    JobQueued(JobId),
    JobReserved(Reservation),
    JobCancelled(JobId),
}

/// Why a command was rejected.
#[derive(Debug, Clone, Copy, PartialEq, Eq, Structural)]
pub enum ExchangeError {
    ZeroValue,
    ArithmeticOverflow,
    InsufficientFunds,
    DuplicateJob,
    DuplicateOffer,
    WorkerAlreadyRegistered,
    UnknownJob,
    WrongBuyer,
    JobNotQueued,
    TimeWentBackwards,
}

impl ExchangeError {
    /// The name of the error, as it is displayed.
    pub fn as_str(&self) -> (s: &'static str)
        ensures
            *self == ExchangeError::ZeroValue ==> s@ == "ZeroValue"@,
            *self == ExchangeError::ArithmeticOverflow ==> s@ == "ArithmeticOverflow"@,
            *self == ExchangeError::InsufficientFunds ==> s@ == "InsufficientFunds"@,
            *self == ExchangeError::DuplicateJob ==> s@ == "DuplicateJob"@,
            *self == ExchangeError::DuplicateOffer ==> s@ == "DuplicateOffer"@,
            *self == ExchangeError::WorkerAlreadyRegistered ==> s@ == "WorkerAlreadyRegistered"@,
            *self == ExchangeError::UnknownJob ==> s@ == "UnknownJob"@,
            *self == ExchangeError::WrongBuyer ==> s@ == "WrongBuyer"@,
            *self == ExchangeError::JobNotQueued ==> s@ == "JobNotQueued"@,
            *self == ExchangeError::TimeWentBackwards ==> s@ == "TimeWentBackwards"@,
    {
        match self {
            ExchangeError::ZeroValue => "ZeroValue",
            ExchangeError::ArithmeticOverflow => "ArithmeticOverflow",
            ExchangeError::InsufficientFunds => "InsufficientFunds",
            ExchangeError::DuplicateJob => "DuplicateJob",
            ExchangeError::DuplicateOffer => "DuplicateOffer",
            ExchangeError::WorkerAlreadyRegistered => "WorkerAlreadyRegistered",
            ExchangeError::UnknownJob => "UnknownJob",
            ExchangeError::WrongBuyer => "WrongBuyer",
            ExchangeError::JobNotQueued => "JobNotQueued",
            ExchangeError::TimeWentBackwards => "TimeWentBackwards",
        }
    }
}

} // verus!
