//! What each command does, stated over its inputs, its events and the states
//! before and after it.

use vstd::prelude::*;

use crate::invariants::{
    consistent, lemma_funded, lemma_match_from, lemma_match_jobs, lemma_with_job,
    lemma_with_offer, lemma_without_job, wf,
};
use crate::matching::{
    cheaper_or_earlier, lemma_match_record, made_at, matched_best, new_reservation, none_passed_over,
    reports_reservations, was_open_to,
};
use crate::model::{State, balance_of, match_jobs, step, with_job, with_offer};
use crate::types::{AccountId, Command, Event, ExchangeError, Job, JobId, JobState, OfferId, OfferState, WorkerId};

verus! {

/// `now` is not earlier than the time of the last accepted command.
pub open spec fn time_ok(s: State, now: u64) -> bool {
    match s.last_time {
        Some(previous) => previous <= now,
        None => true,
    }
}

/// Funding is accepted exactly when the time is in order, the amount is
/// positive and the total funded stays within `u64`; it then reports the
/// amount funded and credits exactly that amount to the account's available
/// funds, touching nothing else.
pub proof fn funding_credits_the_amount(s: State, account: AccountId, amount: u64, now: u64)
    requires
        wf(s),
    ensures
        step(s, Command::Fund { account, amount }, now) is Ok <==> (time_ok(s, now) && amount > 0
            && s.total_funded + amount <= u64::MAX),
        step(s, Command::Fund { account, amount }, now) matches Ok((t, events)) ==> {
            &&& events == seq![Event::AccountFunded { account, amount }]
            &&& balance_of(t.accounts, account.0).available == balance_of(
                s.accounts,
                account.0,
            ).available + amount
            &&& balance_of(t.accounts, account.0).reserved == balance_of(
                s.accounts,
                account.0,
            ).reserved
            &&& t.total_funded == s.total_funded + amount
            &&& forall|a: u64| a != account.0 ==> #[trigger] balance_of(t.accounts, a) == balance_of(
                s.accounts,
                a,
            )
            &&& t.jobs == s.jobs
            &&& t.offers == s.offers
            &&& t.reservations == s.reservations
            &&& t.sequence == s.sequence
        },
{
    if amount > 0 && s.total_funded + amount <= u64::MAX {
        lemma_funded(s, account, amount);
    }
}

/// Cancelling is accepted exactly when the time is in order and the job is a
/// queued job of the buyer; it then reports the cancelled job, returns the
/// job's hold to the buyer's available funds, and leaves the job cancelled
/// with nothing held, touching nothing else.
pub proof fn cancelling_releases_the_hold(s: State, id: JobId, buyer: AccountId, now: u64)
    requires
        wf(s),
    ensures
        step(s, Command::CancelJob { id, buyer }, now) is Ok <==> (time_ok(s, now) && s.jobs.contains_key(
            id.0,
        ) && s.jobs[id.0].buyer == buyer && s.jobs[id.0].state == JobState::Queued),
        step(s, Command::CancelJob { id, buyer }, now) matches Ok((t, events)) ==> {
            let held = s.jobs[id.0].held_microcredits;
            &&& events == seq![Event::JobCancelled(id)]
            &&& t.jobs == s.jobs.insert(
                id.0,
                Job { held_microcredits: 0, state: JobState::Cancelled, ..s.jobs[id.0] },
            )
            &&& balance_of(t.accounts, buyer.0).available == balance_of(s.accounts, buyer.0).available
                + held
            &&& balance_of(t.accounts, buyer.0).reserved == balance_of(s.accounts, buyer.0).reserved
                - held
            &&& forall|a: u64| a != buyer.0 ==> #[trigger] balance_of(t.accounts, a) == balance_of(
                s.accounts,
                a,
            )
            &&& t.total_funded == s.total_funded
            &&& t.offers == s.offers
            &&& t.reservations == s.reservations
            &&& t.sequence == s.sequence
        },
{
    if s.jobs.contains_key(id.0) && s.jobs[id.0].buyer == buyer && s.jobs[id.0].state
        == JobState::Queued {
        lemma_without_job(s, id);
    }
}

/// Submitting is accepted exactly when the time is in order, the price and
/// duration are positive, the identifier is new, the maximum cost fits in
/// `u64`, the buyer's available funds cover it and the arrival counter can
/// advance. The job is then stored as submitted, arriving after everything so
/// far; the events are `JobQueued` followed by one `JobReserved` per
/// reservation made, in arrival order; and each reservation took the best
/// offer open to its job.
pub proof fn submitting_queues_then_matches(
    s: State,
    id: JobId,
    buyer: AccountId,
    max_price_per_second: u64,
    duration_seconds: u64,
    now: u64,
)
    requires
        wf(s),
    ensures
        step(s, Command::SubmitJob { id, buyer, max_price_per_second, duration_seconds }, now) is Ok
            <==> (time_ok(s, now) && max_price_per_second > 0 && duration_seconds > 0
            && !s.jobs.contains_key(id.0) && max_price_per_second * duration_seconds <= u64::MAX
            && balance_of(s.accounts, buyer.0).available >= max_price_per_second * duration_seconds
            && s.sequence < u64::MAX),
        step(s, Command::SubmitJob { id, buyer, max_price_per_second, duration_seconds }, now) matches Ok(
            (t, events),
        ) ==> {
            &&& events.len() >= 1
            &&& events[0] == Event::JobQueued(id)
            &&& t.jobs.contains_key(id.0)
            &&& t.jobs[id.0].id == id
            &&& t.jobs[id.0].buyer == buyer
            &&& t.jobs[id.0].max_price_per_second == max_price_per_second
            &&& t.jobs[id.0].duration_seconds == duration_seconds
            &&& t.jobs[id.0].arrival == s.sequence + 1
            &&& t.jobs[id.0].state == JobState::Queued ==> t.jobs[id.0].held_microcredits
                == max_price_per_second * duration_seconds
            &&& reports_reservations(s, t, events.drop_first())
            &&& matched_best(s, t)
            &&& none_passed_over(s, t)
            &&& made_at(s, t, now)
            &&& t.sequence == s.sequence + 1
        },
{
    let command = Command::SubmitJob { id, buyer, max_price_per_second, duration_seconds };
    if let Ok((t, events)) = step(s, command, now) {
        let u = with_job(s, id, buyer, max_price_per_second, duration_seconds);
        lemma_with_job(s, id, buyer, max_price_per_second, duration_seconds);
        lemma_match_jobs(u, now);
        lemma_match_record(u, u.job_order, 0, now);
        lemma_first_pass_covers_all(u, match_jobs(u, now).0, now);
        let (m, rest) = match_jobs(u, now);
        assert(events == seq![Event::JobQueued(id)] + rest);
        assert(events.drop_first() =~= rest);
        assert(u.jobs[id.0].state == JobState::Queued);
        lemma_transfer_record(s, u, m, t, rest, now);
    }
}

/// Registering is accepted exactly when the time is in order, the price is
/// positive, the offer identifier and the worker are new and the arrival
/// counter can advance. The offer is then stored as registered, arriving
/// after everything so far; the events are `OfferRegistered` followed by one
/// `JobReserved` per reservation made, in arrival order; and each reservation
/// took the best offer open to its job.
pub proof fn registering_lists_then_matches(
    s: State,
    id: OfferId,
    worker: WorkerId,
    provider: AccountId,
    price_per_second: u64,
    now: u64,
)
    requires
        wf(s),
    ensures
        step(s, Command::RegisterOffer { id, worker, provider, price_per_second }, now) is Ok <==> (
        time_ok(s, now) && price_per_second > 0 && !s.offers.contains_key(id.0)
            && !s.workers.contains_key(worker.0) && s.sequence < u64::MAX),
        step(s, Command::RegisterOffer { id, worker, provider, price_per_second }, now) matches Ok(
            (t, events),
        ) ==> {
            &&& events.len() >= 1
            &&& events[0] == Event::OfferRegistered(id)
            &&& t.offers.contains_key(id.0)
            &&& t.offers[id.0].id == id
            &&& t.offers[id.0].worker == worker
            &&& t.offers[id.0].provider == provider
            &&& t.offers[id.0].price_per_second == price_per_second
            &&& t.offers[id.0].arrival == s.sequence + 1
            &&& t.workers == s.workers.insert(worker.0, id)
            &&& reports_reservations(s, t, events.drop_first())
            &&& matched_best(s, t)
            &&& none_passed_over(s, t)
            &&& made_at(s, t, now)
            &&& t.sequence == s.sequence + 1
        },
{
    let command = Command::RegisterOffer { id, worker, provider, price_per_second };
    if let Ok((t, events)) = step(s, command, now) {
        let u = with_offer(s, id, worker, provider, price_per_second);
        lemma_with_offer(s, id, worker, provider, price_per_second);
        lemma_match_jobs(u, now);
        lemma_match_record(u, u.job_order, 0, now);
        lemma_first_pass_covers_all(u, match_jobs(u, now).0, now);
        let (m, rest) = match_jobs(u, now);
        assert(events == seq![Event::OfferRegistered(id)] + rest);
        assert(events.drop_first() =~= rest);
        lemma_transfer_record(s, u, m, t, rest, now);
    }
}

/// A full matching pass passes over no queued job.
proof fn lemma_first_pass_covers_all(u: State, m: State, now: u64)
    requires
        consistent(u),
        m == match_jobs(u, now).0,
    ensures
        none_passed_over(u, m),
{
    let order = u.job_order;
    lemma_match_from(u, order, 0, now);
    lemma_match_record(u, order, 0, now);
    assert forall|j: u64, k: u64|
        #![trigger m.jobs[j], new_reservation(u, m, k)]
        m.jobs.contains_key(j) && m.jobs[j].state == JobState::Queued && new_reservation(u, m, k)
            && m.jobs[k].arrival > m.jobs[j].arrival implies m.offers[m.reservations[k].offer_id.0].price_per_second
        > m.jobs[j].max_price_per_second by {
        let p = choose|p: int| 0 <= p < order.len() && order[p] == j;
        if p > 0 {
            assert(u.jobs[order[0]].arrival < u.jobs[order[p]].arrival);
        }
    }
}

/// What a pass from `u` to `m` records carries over to the states `s` before
/// the command and `t` after it, when `u` only added to `s` and `t` only
/// advanced the clock of `m`.
proof fn lemma_transfer_record(s: State, u: State, m: State, t: State, events: Seq<Event>, now: u64)
    requires
        u.reservations == s.reservations,
        forall|k: u64| #[trigger] s.jobs.contains_key(k) ==> u.jobs.contains_key(k) && u.jobs[k] == s.jobs[k],
        forall|o: u64| #[trigger]
            s.offers.contains_key(o) ==> u.offers.contains_key(o) && u.offers[o] == s.offers[o],
        t == (State { last_time: t.last_time, ..m }),
        matched_best(u, m),
        reports_reservations(u, m, events),
        none_passed_over(u, m),
        made_at(u, m, now),
    ensures
        made_at(s, t, now),
        matched_best(s, t),
        reports_reservations(s, t, events),
        none_passed_over(s, t),
{
    assert forall|j: u64| new_reservation(s, t, j) == new_reservation(u, m, j) by {}
    assert forall|j: u64, x: u64| was_open_to(s, t, j, x) == was_open_to(u, m, j, x) by {
        if t.offers.contains_key(x) {
            if let OfferState::Reserved { job_id } = t.offers[x].state {
                assert(new_reservation(s, t, job_id.0) == new_reservation(u, m, job_id.0));
            }
        }
    }
    assert forall|j: u64| #[trigger] new_reservation(s, t, j) implies {
        let o = t.reservations[j].offer_id.0;
        &&& s.jobs.contains_key(j) ==> s.jobs[j].state == JobState::Queued
        &&& s.offers.contains_key(o) ==> s.offers[o].state == OfferState::Available
        &&& t.offers.contains_key(o)
        &&& t.offers[o].price_per_second <= t.jobs[j].max_price_per_second
        &&& forall|x: u64|
            x != o && #[trigger] was_open_to(s, t, j, x) ==> cheaper_or_earlier(
                t.offers[o],
                t.offers[x],
            )
    } by {
        assert(new_reservation(u, m, j));
        let o = t.reservations[j].offer_id.0;
        assert forall|x: u64| x != o && #[trigger] was_open_to(s, t, j, x) implies cheaper_or_earlier(
            t.offers[o],
            t.offers[x],
        ) by {
            assert(was_open_to(u, m, j, x));
        }
    }
    assert forall|j: u64, k: u64|
        #![trigger t.jobs[j], new_reservation(s, t, k)]
        t.jobs.contains_key(j) && t.jobs[j].state == JobState::Queued && new_reservation(s, t, k)
            && t.jobs[k].arrival > t.jobs[j].arrival implies t.offers[t.reservations[k].offer_id.0].price_per_second
        > t.jobs[j].max_price_per_second by {
        assert(new_reservation(u, m, k));
        assert(m.jobs[j] == t.jobs[j]);
    }
    assert forall|j: u64| #[trigger] new_reservation(s, t, j) implies t.reservations[j].created_at
        == now by {
        assert(new_reservation(u, m, j));
    }
    assert forall|j: u64| #[trigger] new_reservation(s, t, j) implies exists|p: int|
        0 <= p < events.len() && #[trigger] events[p] == Event::JobReserved(t.reservations[j]) by {
        assert(new_reservation(u, m, j));
    }
    assert forall|p: int|
        0 <= p < events.len() implies {
        &&& #[trigger] events[p] is JobReserved
        &&& new_reservation(s, t, events[p]->JobReserved_0.job_id.0)
        &&& t.reservations[events[p]->JobReserved_0.job_id.0] == events[p]->JobReserved_0
    } by {
        assert(new_reservation(u, m, events[p]->JobReserved_0.job_id.0));
    }
}

/// The error of a rejected command names the first rule it breaks, checked in
/// this order: the clock; then, for funding, a zero amount and an overflowing
/// total; for registering, a zero price, a known offer, a known worker and an
/// exhausted arrival counter; for submitting, a zero price or duration, a
/// known job, an overflowing maximum cost, insufficient available funds and
/// an exhausted arrival counter; for cancelling, an unknown job, another
/// buyer and a job that is not queued.
pub proof fn rejections_name_the_first_broken_rule(s: State, command: Command, now: u64)
    ensures
        !time_ok(s, now) ==> step(s, command, now) == Err::<(State, Seq<Event>), ExchangeError>(
            ExchangeError::TimeWentBackwards,
        ),
        time_ok(s, now) ==> match command {
            Command::Fund { account, amount } => {
                &&& amount == 0 ==> step(s, command, now) == Err::<(State, Seq<Event>), ExchangeError>(
                    ExchangeError::ZeroValue,
                )
                &&& amount > 0 && s.total_funded + amount > u64::MAX ==> step(s, command, now) == Err::<
                    (State, Seq<Event>),
                    ExchangeError,
                >(ExchangeError::ArithmeticOverflow)
            },
            Command::RegisterOffer { id, worker, provider, price_per_second } => {
                &&& price_per_second == 0 ==> step(s, command, now) == Err::<
                    (State, Seq<Event>),
                    ExchangeError,
                >(ExchangeError::ZeroValue)
                &&& price_per_second > 0 && s.offers.contains_key(id.0) ==> step(s, command, now)
                    == Err::<(State, Seq<Event>), ExchangeError>(ExchangeError::DuplicateOffer)
                &&& price_per_second > 0 && !s.offers.contains_key(id.0) && s.workers.contains_key(
                    worker.0,
                ) ==> step(s, command, now) == Err::<(State, Seq<Event>), ExchangeError>(
                    ExchangeError::WorkerAlreadyRegistered,
                )
                &&& price_per_second > 0 && !s.offers.contains_key(id.0) && !s.workers.contains_key(
                    worker.0,
                ) && s.sequence == u64::MAX ==> step(s, command, now) == Err::<
                    (State, Seq<Event>),
                    ExchangeError,
                >(ExchangeError::ArithmeticOverflow)
            },
            Command::SubmitJob { id, buyer, max_price_per_second, duration_seconds } => {
                let positive = max_price_per_second > 0 && duration_seconds > 0;
                let fits = max_price_per_second * duration_seconds <= u64::MAX;
                let covered = balance_of(s.accounts, buyer.0).available >= max_price_per_second
                    * duration_seconds;
                &&& !positive ==> step(s, command, now) == Err::<(State, Seq<Event>), ExchangeError>(
                    ExchangeError::ZeroValue,
                )
                &&& positive && s.jobs.contains_key(id.0) ==> step(s, command, now) == Err::<
                    (State, Seq<Event>),
                    ExchangeError,
                >(ExchangeError::DuplicateJob)
                &&& positive && !s.jobs.contains_key(id.0) && !fits ==> step(s, command, now)
                    == Err::<(State, Seq<Event>), ExchangeError>(ExchangeError::ArithmeticOverflow)
                &&& positive && !s.jobs.contains_key(id.0) && fits && !covered ==> step(
                    s,
                    command,
                    now,
                ) == Err::<(State, Seq<Event>), ExchangeError>(ExchangeError::InsufficientFunds)
                &&& positive && !s.jobs.contains_key(id.0) && fits && covered && s.sequence
                    == u64::MAX ==> step(s, command, now) == Err::<(State, Seq<Event>), ExchangeError>(
                    ExchangeError::ArithmeticOverflow,
                )
            },
            Command::CancelJob { id, buyer } => {
                &&& !s.jobs.contains_key(id.0) ==> step(s, command, now) == Err::<
                    (State, Seq<Event>),
                    ExchangeError,
                >(ExchangeError::UnknownJob)
                &&& s.jobs.contains_key(id.0) && s.jobs[id.0].buyer != buyer ==> step(s, command, now)
                    == Err::<(State, Seq<Event>), ExchangeError>(ExchangeError::WrongBuyer)
                &&& s.jobs.contains_key(id.0) && s.jobs[id.0].buyer == buyer && s.jobs[id.0].state
                    != JobState::Queued ==> step(s, command, now) == Err::<
                    (State, Seq<Event>),
                    ExchangeError,
                >(ExchangeError::JobNotQueued)
            },
        },
{
}

} // verus!
