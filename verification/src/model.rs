//! The exchange as a pure state machine: its state, and what each command
//! does to it. The executable `Exchange` is proved to follow this machine.

use vstd::prelude::*;

use crate::types::{
    AccountId, Balance, Command, Event, ExchangeError, Job, JobId, JobState, Offer, OfferId,
    OfferState, Reservation, WorkerId,
};

verus! {

/// The abstract state of an exchange. Maps are keyed by the raw identifier;
/// `offer_order` and `job_order` list the identifiers in arrival order.
pub struct State {
    pub accounts: Map<u64, Balance>,
    pub offers: Map<u64, Offer>,
    pub jobs: Map<u64, Job>,
    pub reservations: Map<u64, Reservation>,
    pub workers: Map<u64, OfferId>,
    pub offer_order: Seq<u64>,
    pub job_order: Seq<u64>,
    pub sequence: u64,
    pub last_time: Option<u64>,
    pub total_funded: u64,
}

/// The state of a fresh exchange: nothing registered, nothing funded.
pub open spec fn initial_state() -> State {
    State {
        accounts: Map::empty(),
        offers: Map::empty(),
        jobs: Map::empty(),
        reservations: Map::empty(),
        workers: Map::empty(),
        offer_order: Seq::empty(),
        job_order: Seq::empty(),
        sequence: 0,
        last_time: None,
        total_funded: 0,
    }
}

/// The balance of an account that has never been seen.
pub open spec fn zero_balance() -> Balance {
    Balance { available: 0, reserved: 0 }
}

/// The balance of `account`, zero when the exchange does not know it.
pub open spec fn balance_of(accounts: Map<u64, Balance>, account: u64) -> Balance {
    if accounts.contains_key(account) {
        accounts[account]
    } else {
        zero_balance()
    }
}

/// Funding credits `amount` to the account's available funds.
pub open spec fn funded(s: State, account: AccountId, amount: u64) -> State {
    let b = balance_of(s.accounts, account.0);
    State {
        accounts: s.accounts.insert(
            account.0,
            Balance { available: (b.available + amount) as u64, reserved: b.reserved },
        ),
        total_funded: (s.total_funded + amount) as u64,
        ..s
    }
}

/// Registering an offer: a new available slot, arriving after everything so far.
pub open spec fn with_offer(
    s: State,
    id: OfferId,
    worker: WorkerId,
    provider: AccountId,
    price_per_second: u64,
) -> State {
    let arrival = (s.sequence + 1) as u64;
    State {
        accounts: if s.accounts.contains_key(provider.0) {
            s.accounts
        } else {
            s.accounts.insert(provider.0, zero_balance())
        },
        workers: s.workers.insert(worker.0, id),
        offers: s.offers.insert(
            id.0,
            Offer { id, worker, provider, price_per_second, arrival, state: OfferState::Available },
        ),
        offer_order: s.offer_order.push(id.0),
        sequence: arrival,
        ..s
    }
}

/// Submitting a job: the buyer's maximum cost moves from available to reserved,
/// and the job is queued after everything so far.
pub open spec fn with_job(
    s: State,
    id: JobId,
    buyer: AccountId,
    max_price_per_second: u64,
    duration_seconds: u64,
) -> State {
    let hold = (max_price_per_second * duration_seconds) as u64;
    let b = balance_of(s.accounts, buyer.0);
    let arrival = (s.sequence + 1) as u64;
    State {
        accounts: s.accounts.insert(
            buyer.0,
            Balance {
                available: (b.available - hold) as u64,
                reserved: (b.reserved + hold) as u64,
            },
        ),
        jobs: s.jobs.insert(
            id.0,
            Job {
                id,
                buyer,
                max_price_per_second,
                duration_seconds,
                held_microcredits: hold,
                arrival,
                state: JobState::Queued,
            },
        ),
        job_order: s.job_order.push(id.0),
        sequence: arrival,
        ..s
    }
}

/// Cancelling a job: its hold returns to the buyer's available funds.
pub open spec fn without_job(s: State, id: JobId) -> State {
    let job = s.jobs[id.0];
    let b = s.accounts[job.buyer.0];
    State {
        accounts: s.accounts.insert(
            job.buyer.0,
            Balance {
                available: (b.available + job.held_microcredits) as u64,
                reserved: (b.reserved - job.held_microcredits) as u64,
            },
        ),
        jobs: s.jobs.insert(
            id.0,
            Job { held_microcredits: 0, state: JobState::Cancelled, ..job },
        ),
        ..s
    }
}

/// Whether offer `o` is available at no more than `max_price_per_second`.
pub open spec fn eligible(s: State, o: u64, max_price_per_second: u64) -> bool {
    &&& s.offers.contains_key(o)
    &&& s.offers[o].state == OfferState::Available
    &&& s.offers[o].price_per_second <= max_price_per_second
}

/// The cheapest eligible offer of `order`; among equal prices the one listed first.
pub open spec fn best_offer_in(s: State, order: Seq<u64>, max_price_per_second: u64) -> Option<u64>
    decreases order.len(),
{
    if order.len() == 0 {
        None
    } else {
        let rest = best_offer_in(s, order.drop_last(), max_price_per_second);
        let o = order.last();
        if eligible(s, o, max_price_per_second) && (match rest {
            None => true,
            Some(r) => s.offers[o].price_per_second < s.offers[r].price_per_second,
        }) {
            Some(o)
        } else {
            rest
        }
    }
}

/// The offer a job with this maximum price is matched with, if any.
pub open spec fn best_offer(s: State, max_price_per_second: u64) -> Option<u64> {
    best_offer_in(s, s.offer_order, max_price_per_second)
}

/// The reservation made when job `j` is matched with offer `o` at time `now`:
/// it holds the offer's price times the job's duration.
pub open spec fn reservation_for(s: State, j: u64, o: u64, now: u64) -> Reservation {
    let job = s.jobs[j];
    let offer = s.offers[o];
    Reservation {
        job_id: JobId(j),
        offer_id: OfferId(o),
        price_per_second: offer.price_per_second,
        duration_seconds: job.duration_seconds,
        held_microcredits: (offer.price_per_second * job.duration_seconds) as u64,
        created_at: now,
    }
}

/// Matching job `j` with offer `o`: both become reserved, the job now holds the
/// reservation's amount, and the difference returns to the buyer's available funds.
pub open spec fn reserve(s: State, j: u64, o: u64, now: u64) -> State {
    let job = s.jobs[j];
    let offer = s.offers[o];
    let r = reservation_for(s, j, o, now);
    let release = job.held_microcredits - r.held_microcredits;
    let b = s.accounts[job.buyer.0];
    State {
        accounts: s.accounts.insert(
            job.buyer.0,
            Balance {
                available: (b.available + release) as u64,
                reserved: (b.reserved - release) as u64,
            },
        ),
        jobs: s.jobs.insert(
            j,
            Job {
                held_microcredits: r.held_microcredits,
                state: JobState::Reserved { offer_id: OfferId(o) },
                ..job
            },
        ),
        offers: s.offers.insert(o, Offer { state: OfferState::Reserved { job_id: JobId(j) }, ..offer }),
        reservations: s.reservations.insert(j, r),
        ..s
    }
}

/// One matching pass over the jobs of `order` from position `i` on: each queued
/// job, in turn, is matched with its best offer if it has one, and skipped otherwise.
pub open spec fn match_from(s: State, order: Seq<u64>, i: int, now: u64) -> (State, Seq<Event>)
    decreases order.len() - i,
{
    if i < 0 || i >= order.len() {
        (s, Seq::empty())
    } else {
        let j = order[i];
        if s.jobs[j].state == JobState::Queued {
            match best_offer(s, s.jobs[j].max_price_per_second) {
                Some(o) => {
                    let (t, events) = match_from(reserve(s, j, o, now), order, i + 1, now);
                    (t, seq![Event::JobReserved(reservation_for(s, j, o, now))] + events)
                },
                None => match_from(s, order, i + 1, now),
            }
        } else {
            match_from(s, order, i + 1, now)
        }
    }
}

/// A full matching pass over the queued jobs, in arrival order.
pub open spec fn match_jobs(s: State, now: u64) -> (State, Seq<Event>) {
    match_from(s, s.job_order, 0, now)
}

/// Prefixes `first` to the events of a successful matching pass.
pub open spec fn then_match(t: State, first: Event, now: u64) -> Result<(State, Seq<Event>), ExchangeError> {
    let (u, events) = match_jobs(t, now);
    Ok((u, seq![first] + events))
}

/// What a command does, before the clock is advanced: the new state and its
/// events, or the error that rejects it.
pub open spec fn apply_command(s: State, command: Command, now: u64) -> Result<(State, Seq<Event>), ExchangeError> {
    match command {
        Command::Fund { account, amount } => {
            if amount == 0 {
                Err(ExchangeError::ZeroValue)
            } else if s.total_funded + amount > u64::MAX {
                Err(ExchangeError::ArithmeticOverflow)
            } else {
                Ok((funded(s, account, amount), seq![Event::AccountFunded { account, amount }]))
            }
        },
        Command::RegisterOffer { id, worker, provider, price_per_second } => {
            if price_per_second == 0 {
                Err(ExchangeError::ZeroValue)
            } else if s.offers.contains_key(id.0) {
                Err(ExchangeError::DuplicateOffer)
            } else if s.workers.contains_key(worker.0) {
                Err(ExchangeError::WorkerAlreadyRegistered)
            } else if s.sequence == u64::MAX {
                Err(ExchangeError::ArithmeticOverflow)
            } else {
                then_match(
                    with_offer(s, id, worker, provider, price_per_second),
                    Event::OfferRegistered(id),
                    now,
                )
            }
        },
        Command::SubmitJob { id, buyer, max_price_per_second, duration_seconds } => {
            if max_price_per_second == 0 || duration_seconds == 0 {
                Err(ExchangeError::ZeroValue)
            } else if s.jobs.contains_key(id.0) {
                Err(ExchangeError::DuplicateJob)
            } else if max_price_per_second * duration_seconds > u64::MAX {
                Err(ExchangeError::ArithmeticOverflow)
            } else if balance_of(s.accounts, buyer.0).available < max_price_per_second
                * duration_seconds {
                Err(ExchangeError::InsufficientFunds)
            } else if s.sequence == u64::MAX {
                Err(ExchangeError::ArithmeticOverflow)
            } else {
                then_match(
                    with_job(s, id, buyer, max_price_per_second, duration_seconds),
                    Event::JobQueued(id),
                    now,
                )
            }
        },
        Command::CancelJob { id, buyer } => {
            if !s.jobs.contains_key(id.0) {
                Err(ExchangeError::UnknownJob)
            } else if s.jobs[id.0].buyer != buyer {
                Err(ExchangeError::WrongBuyer)
            } else if s.jobs[id.0].state != JobState::Queued {
                Err(ExchangeError::JobNotQueued)
            } else {
                Ok((without_job(s, id), seq![Event::JobCancelled(id)]))
            }
        },
    }
}

/// Executing a command at time `now`: rejected when time went backwards,
/// otherwise the command's effect with the clock moved to `now`.
pub open spec fn step(s: State, command: Command, now: u64) -> Result<(State, Seq<Event>), ExchangeError> {
    if s.last_time matches Some(previous) && now < previous {
        Err(ExchangeError::TimeWentBackwards)
    } else {
        match apply_command(s, command, now) {
            Ok((t, events)) => Ok((State { last_time: Some(now), ..t }, events)),
            Err(e) => Err(e),
        }
    }
}

} // verus!
