//! The laws of the exchange: what holds of every state it can reach and of
//! every command it executes.

use vstd::prelude::*;
use vstd::set_lib::lemma_map_size;

use crate::invariants::{
    balance_total, consistent, funds_of, held_for, lemma_best_offer_in, lemma_funded, lemma_match_jobs,
    lemma_match_without_events, lemma_wf_clock, lemma_with_job, lemma_with_offer,
    lemma_without_job, same_job_terms, same_offer_terms, wf,
};
use crate::model::{
    State, apply_command, balance_of, best_offer, best_offer_in, eligible, match_jobs, step,
    with_job, with_offer, without_job,
};
use crate::sums::map_sum;
use crate::types::{AccountId, Command, Event, JobId, JobState, OfferId, OfferState};

verus! {

/// Every accepted command leads from a well-formed state to a well-formed state.
pub proof fn step_keeps_invariant(s: State, command: Command, now: u64)
    requires
        wf(s),
    ensures
        step(s, command, now) matches Ok((t, _)) ==> wf(t),
{
    if let Ok((t, _)) = apply_command(s, command, now) {
        match command {
            Command::Fund { account, amount } => {
                lemma_funded(s, account, amount);
            },
            Command::RegisterOffer { id, worker, provider, price_per_second } => {
                lemma_with_offer(s, id, worker, provider, price_per_second);
                lemma_match_jobs(with_offer(s, id, worker, provider, price_per_second), now);
            },
            Command::SubmitJob { id, buyer, max_price_per_second, duration_seconds } => {
                lemma_with_job(s, id, buyer, max_price_per_second, duration_seconds);
                lemma_match_jobs(with_job(s, id, buyer, max_price_per_second, duration_seconds), now);
            },
            Command::CancelJob { id, buyer } => {
                lemma_without_job(s, id);
            },
        }
        lemma_wf_clock(t, now);
    }
}

/// Funds are conserved: the available and reserved funds of all accounts add
/// up to the total ever funded.
pub proof fn balances_add_up_to_total_funded(s: State)
    requires
        wf(s),
    ensures
        map_sum(s.accounts, balance_total()) == s.total_funded,
{
}

/// An account's reserved funds are exactly what its jobs hold.
pub proof fn reserved_funds_are_job_holds(s: State, account: u64)
    requires
        wf(s),
        s.accounts.contains_key(account),
    ensures
        s.accounts[account].reserved == map_sum(s.jobs, held_for(account)),
{
}

/// A queued job holds its maximum price times its duration, a cancelled job
/// holds nothing, and a reserved job holds what its reservation holds.
pub proof fn job_holds_follow_state(s: State, job: u64)
    requires
        wf(s),
        s.jobs.contains_key(job),
    ensures
        s.jobs[job].state == JobState::Queued ==> s.jobs[job].held_microcredits
            == s.jobs[job].max_price_per_second * s.jobs[job].duration_seconds,
        s.jobs[job].state == JobState::Cancelled ==> s.jobs[job].held_microcredits == 0,
        s.jobs[job].state matches JobState::Reserved { offer_id } ==> {
            &&& s.reservations.contains_key(job)
            &&& s.reservations[job].offer_id == offer_id
            &&& s.offers.contains_key(offer_id.0)
            &&& s.jobs[job].held_microcredits == s.reservations[job].held_microcredits
            &&& s.jobs[job].held_microcredits == s.offers[offer_id.0].price_per_second
                * s.jobs[job].duration_seconds
            &&& s.jobs[job].held_microcredits <= s.jobs[job].max_price_per_second
                * s.jobs[job].duration_seconds
        },
{
    if let JobState::Reserved { offer_id } = s.jobs[job].state {
        let r = s.reservations[job];
        assert(r.price_per_second * r.duration_seconds <= s.jobs[job].max_price_per_second
            * r.duration_seconds) by (nonlinear_arith)
            requires
                r.price_per_second <= s.jobs[job].max_price_per_second,
        ;
    }
}

/// Every stored job and offer is filed under its own identifier, has a
/// positive price (and a job a positive duration), and every provider and
/// buyer has an account.
pub proof fn stored_jobs_and_offers_are_valid(s: State)
    requires
        wf(s),
    ensures
        forall|k: u64| #[trigger]
            s.jobs.contains_key(k) ==> {
                &&& s.jobs[k].id.0 == k
                &&& s.jobs[k].max_price_per_second > 0
                &&& s.jobs[k].duration_seconds > 0
                &&& s.accounts.contains_key(s.jobs[k].buyer.0)
            },
        forall|o: u64| #[trigger]
            s.offers.contains_key(o) ==> {
                &&& s.offers[o].id.0 == o
                &&& s.offers[o].price_per_second > 0
                &&& s.accounts.contains_key(s.offers[o].provider.0)
            },
{
}

/// Distinct jobs arrived at distinct times, and so did distinct offers.
pub proof fn arrivals_are_distinct(s: State, a: u64, b: u64)
    requires
        wf(s),
        a != b,
    ensures
        s.jobs.contains_key(a) && s.jobs.contains_key(b) ==> s.jobs[a].arrival != s.jobs[b].arrival,
        s.offers.contains_key(a) && s.offers.contains_key(b) ==> s.offers[a].arrival
            != s.offers[b].arrival,
{
    if s.jobs.contains_key(a) && s.jobs.contains_key(b) {
        let i = choose|i: int| 0 <= i < s.job_order.len() && s.job_order[i] == a;
        let j = choose|j: int| 0 <= j < s.job_order.len() && s.job_order[j] == b;
        assert(s.job_order[i] == a && s.job_order[j] == b);
    }
    if s.offers.contains_key(a) && s.offers.contains_key(b) {
        let i = choose|i: int| 0 <= i < s.offer_order.len() && s.offer_order[i] == a;
        let j = choose|j: int| 0 <= j < s.offer_order.len() && s.offer_order[j] == b;
        assert(s.offer_order[i] == a && s.offer_order[j] == b);
    }
}

/// A reserved offer serves exactly the job that is reserved on it, so no
/// offer serves two jobs.
pub proof fn reserved_offer_serves_its_job(s: State, offer: u64)
    requires
        wf(s),
        s.offers.contains_key(offer),
    ensures
        s.offers[offer].state matches OfferState::Reserved { job_id } ==> {
            &&& s.jobs.contains_key(job_id.0)
            &&& s.jobs[job_id.0].state == JobState::Reserved { offer_id: OfferId(offer) }
        },
{
    if let OfferState::Reserved { job_id } = s.offers[offer].state {
        let r = s.reservations[job_id.0];
        assert(r.offer_id == OfferId(offer));
    }
}

/// A reservation pairs a reserved job with a reserved offer and holds the
/// offer's price times the job's duration.
pub proof fn reservations_tie_jobs_and_offers(s: State, job: u64)
    requires
        wf(s),
        s.reservations.contains_key(job),
    ensures
        ({
            let r = s.reservations[job];
            &&& s.jobs.contains_key(job)
            &&& s.jobs[job].state == JobState::Reserved { offer_id: r.offer_id }
            &&& s.offers.contains_key(r.offer_id.0)
            &&& s.offers[r.offer_id.0].state == OfferState::Reserved { job_id: JobId(job) }
            &&& r.price_per_second == s.offers[r.offer_id.0].price_per_second
            &&& r.duration_seconds == s.jobs[job].duration_seconds
            &&& r.held_microcredits == r.price_per_second * r.duration_seconds
        }),
{
}

/// The offers that are reserved.
pub open spec fn reserved_offers(s: State) -> Set<u64> {
    s.offers.dom().filter(|o: u64| s.offers[o].state is Reserved)
}

/// Every reserved offer belongs to exactly one reservation and back: there are
/// as many reserved offers as reservations.
pub proof fn reserved_offers_match_reservations(s: State)
    requires
        wf(s),
    ensures
        s.reservations.dom().map(|j: u64| s.reservations[j].offer_id.0) == reserved_offers(s),
        reserved_offers(s).len() == s.reservations.dom().len(),
{
    let f = |j: u64| s.reservations[j].offer_id.0;
    let dom = s.reservations.dom();
    assert(dom.subset_of(s.jobs.dom()));
    vstd::set_lib::lemma_len_subset(dom, s.jobs.dom());
    assert forall|o: u64| reserved_offers(s).contains(o) implies dom.map(f).contains(o) by {
        if let OfferState::Reserved { job_id } = s.offers[o].state {
            assert(dom.contains(job_id.0) && f(job_id.0) == o);
        }
    }
    assert(dom.map(f) =~= reserved_offers(s));
    assert forall|a: u64, b: u64| dom.contains(a) && dom.contains(b) && #[trigger] f(a) == #[trigger] f(
        b,
    ) implies a == b by {
        assert(s.offers[f(a)].state == OfferState::Reserved { job_id: JobId(a) });
        assert(s.offers[f(b)].state == OfferState::Reserved { job_id: JobId(b) });
    }
    lemma_map_size(dom, reserved_offers(s), f);
}

/// Matching picks the cheapest available offer at or below the job's maximum
/// price, and among equal prices the one that arrived first; it picks none
/// exactly when no offer is eligible.
pub proof fn best_offer_is_cheapest_then_earliest(s: State, max_price_per_second: u64)
    requires
        consistent(s),
    ensures
        best_offer(s, max_price_per_second) matches Some(o) ==> {
            &&& eligible(s, o, max_price_per_second)
            &&& forall|other: u64|
                #[trigger] eligible(s, other, max_price_per_second) && other != o ==> {
                    ||| s.offers[o].price_per_second < s.offers[other].price_per_second
                    ||| s.offers[o].price_per_second == s.offers[other].price_per_second
                        && s.offers[o].arrival < s.offers[other].arrival
                }
        },
        best_offer(s, max_price_per_second) is None ==> forall|other: u64|
            !#[trigger] eligible(s, other, max_price_per_second),
{
    let order = s.offer_order;
    lemma_best_among(s, order, max_price_per_second);
    lemma_best_offer_in(s, order, max_price_per_second);
    assert forall|other: u64| #[trigger] eligible(s, other, max_price_per_second) implies exists|
        p: int,
    | 0 <= p < order.len() && order[p] == other by {
        assert(order.contains(other));
    }
}

/// Over a list in increasing arrival order, the best offer is cheaper than
/// every other eligible member, or as cheap and earlier.
proof fn lemma_best_among(s: State, order: Seq<u64>, max_price_per_second: u64)
    requires
        consistent(s),
        forall|i: int| 0 <= i < order.len() ==> s.offers.contains_key(#[trigger] order[i]),
        forall|i: int, j: int|
            #![trigger order[i], order[j]]
            0 <= i < j < order.len() ==> s.offers[order[i]].arrival < s.offers[order[j]].arrival,
    ensures
        best_offer_in(s, order, max_price_per_second) matches Some(o) ==> forall|p: int|
            0 <= p < order.len() && eligible(s, #[trigger] order[p], max_price_per_second)
                && order[p] != o ==> {
                ||| s.offers[o].price_per_second < s.offers[order[p]].price_per_second
                ||| s.offers[o].price_per_second == s.offers[order[p]].price_per_second
                    && s.offers[o].arrival < s.offers[order[p]].arrival
            },
    decreases order.len(),
{
    if order.len() > 0 {
        let rest = order.drop_last();
        let last = order.last();
        lemma_best_among(s, rest, max_price_per_second);
        lemma_best_offer_in(s, rest, max_price_per_second);
        assert forall|i: int| 0 <= i < rest.len() implies rest[i] == order[i] by {}
        if let Some(o) = best_offer_in(s, order, max_price_per_second) {
            assert forall|p: int|
                0 <= p < order.len() && eligible(s, #[trigger] order[p], max_price_per_second)
                    && order[p] != o implies {
                ||| s.offers[o].price_per_second < s.offers[order[p]].price_per_second
                ||| s.offers[o].price_per_second == s.offers[order[p]].price_per_second
                    && s.offers[o].arrival < s.offers[order[p]].arrival
            } by {
                if p < rest.len() {
                    assert(rest[p] == order[p]);
                }
                if let Some(r) = best_offer_in(s, rest, max_price_per_second) {
                    let q = choose|q: int| 0 <= q < rest.len() && rest[q] == r;
                    assert(rest[q] == order[q]);
                    if p == order.len() - 1 && o == r {
                        assert(s.offers[order[q]].arrival < s.offers[order[p]].arrival);
                    }
                }
            }
        }
    }
}

/// Matching is immediate: in a reachable state no queued job could be
/// matched with any offer.
pub proof fn queued_jobs_cannot_be_matched(s: State, job: u64, offer: u64)
    requires
        wf(s),
        s.jobs.contains_key(job),
        s.jobs[job].state == JobState::Queued,
    ensures
        !eligible(s, offer, s.jobs[job].max_price_per_second),
{
}

/// Each worker registers at most one offer: distinct offers have distinct workers.
pub proof fn one_offer_per_worker(s: State, a: u64, b: u64)
    requires
        wf(s),
        s.offers.contains_key(a),
        s.offers.contains_key(b),
        a != b,
    ensures
        s.offers[a].worker != s.offers[b].worker,
{
}

/// `t` keeps the history of `s`: no job, offer or account disappears; jobs
/// and offers keep their identifier, parties, price, duration and arrival; a
/// reserved or cancelled job, a reserved offer and a reservation are
/// unchanged; and the total funded has not decreased.
pub open spec fn keeps_history(s: State, t: State) -> bool {
    &&& s.jobs.dom().subset_of(t.jobs.dom())
    &&& s.offers.dom().subset_of(t.offers.dom())
    &&& s.accounts.dom().subset_of(t.accounts.dom())
    &&& t.total_funded >= s.total_funded
    &&& forall|k: u64| #[trigger] s.jobs.contains_key(k) ==> same_job_terms(s.jobs[k], t.jobs[k])
    &&& forall|k: u64| #[trigger]
        s.jobs.contains_key(k) && s.jobs[k].state != JobState::Queued ==> t.jobs[k] == s.jobs[k]
    &&& forall|o: u64| #[trigger]
        s.offers.contains_key(o) ==> same_offer_terms(s.offers[o], t.offers[o])
    &&& forall|o: u64| #[trigger]
        s.offers.contains_key(o) && s.offers[o].state is Reserved ==> t.offers[o] == s.offers[o]
    &&& forall|k: u64| #[trigger]
        s.reservations.contains_key(k) ==> t.reservations.contains_key(k) && t.reservations[k]
            == s.reservations[k]
}

/// An accepted command keeps the history of the exchange: no job, offer or
/// account disappears; jobs and offers keep their identifier, parties, price,
/// duration and arrival; a reserved or cancelled job, a reserved offer and a
/// reservation never change again (a later cheaper offer does not replace a
/// reservation, and nothing returns to queued or available); and the total
/// funded never decreases.
pub proof fn accepted_commands_keep_history(s: State, command: Command, now: u64)
    requires
        wf(s),
    ensures
        step(s, command, now) matches Ok((t, _)) ==> keeps_history(s, t),
{
    if let Ok((t, _)) = apply_command(s, command, now) {
        match command {
            Command::Fund { account, amount } => {
                assert(keeps_history(s, t));
            },
            Command::RegisterOffer { id, worker, provider, price_per_second } => {
                let u = with_offer(s, id, worker, provider, price_per_second);
                lemma_with_offer(s, id, worker, provider, price_per_second);
                lemma_match_jobs(u, now);
                assert forall|o: u64| #[trigger]
                    s.offers.contains_key(o) && s.offers[o].state is Reserved implies t.offers[o]
                    == s.offers[o] by {
                    assert(u.offers[o] == s.offers[o]);
                }
                assert(keeps_history(s, t));
            },
            Command::SubmitJob { id, buyer, max_price_per_second, duration_seconds } => {
                let u = with_job(s, id, buyer, max_price_per_second, duration_seconds);
                lemma_with_job(s, id, buyer, max_price_per_second, duration_seconds);
                lemma_match_jobs(u, now);
                assert forall|o: u64| #[trigger]
                    s.offers.contains_key(o) && s.offers[o].state is Reserved implies t.offers[o]
                    == s.offers[o] by {
                    assert(u.offers[o] == s.offers[o]);
                }
                assert forall|k: u64| #[trigger]
                    s.jobs.contains_key(k) && s.jobs[k].state != JobState::Queued implies t.jobs[k]
                    == s.jobs[k] by {
                    assert(k != id.0);
                    assert(u.jobs.contains_key(k) && u.jobs[k] == s.jobs[k]);
                    assert(u.jobs[k].state != JobState::Queued);
                }
                assert forall|k: u64| #[trigger] s.jobs.contains_key(k) implies same_job_terms(
                    s.jobs[k],
                    t.jobs[k],
                ) by {
                    assert(u.jobs.contains_key(k) && u.jobs[k] == s.jobs[k]);
                }
                assert(keeps_history(s, t));
            },
            Command::CancelJob { id, buyer } => {
                assert(keeps_history(s, t));
            },
        }
        assert(keeps_history(s, State { last_time: Some(now), ..t }));
    }
}

/// Cancelling a job that stayed queued since it was submitted undoes the
/// submission at the level of a single command (before the clock is
/// considered): the accounts, the total funded, the offers and the
/// reservations are as they were before it, and the job is cancelled with
/// nothing held.
pub proof fn cancelling_a_queued_submission_undoes_it(
    s: State,
    id: JobId,
    buyer: AccountId,
    max_price_per_second: u64,
    duration_seconds: u64,
    submitted: u64,
    cancelled: u64,
)
    requires
        wf(s),
        apply_command(
            s,
            Command::SubmitJob { id, buyer, max_price_per_second, duration_seconds },
            submitted,
        ) matches Ok((_, events)) && events == seq![Event::JobQueued(id)],
    ensures
        ({
            let s1 = apply_command(
                s,
                Command::SubmitJob { id, buyer, max_price_per_second, duration_seconds },
                submitted,
            )->Ok_0.0;
            let r = apply_command(s1, Command::CancelJob { id, buyer }, cancelled);
            &&& r matches Ok((s2, events)) && {
                &&& events == seq![Event::JobCancelled(id)]
                &&& s2.accounts == s.accounts
                &&& s2.total_funded == s.total_funded
                &&& s2.offers == s.offers
                &&& s2.reservations == s.reservations
                &&& s2.jobs.contains_key(id.0)
                &&& s2.jobs[id.0].state == JobState::Cancelled
                &&& s2.jobs[id.0].held_microcredits == 0
            }
        }),
{
    let u = with_job(s, id, buyer, max_price_per_second, duration_seconds);
    lemma_with_job(s, id, buyer, max_price_per_second, duration_seconds);
    let (m, events) = match_jobs(u, submitted);
    assert(events.len() == 0) by {
        assert((seq![Event::JobQueued(id)] + events).len() == 1 + events.len());
    }
    lemma_match_without_events(u, u.job_order, 0, submitted);
    let b = s.accounts[buyer.0];
    assert(u.jobs[id.0].state == JobState::Queued);
    let s2 = without_job(u, id);
    assert(s2.accounts =~= s.accounts) by {
        assert(s2.accounts[buyer.0] == b);
    }
}

/// Cancelling a job that stayed queued since it was submitted, no earlier
/// than the submission, undoes the submission: the accounts, the total funded, the offers and the
/// reservations are as they were before it, and the job is cancelled with
/// nothing held.
pub proof fn cancelling_a_queued_submission_restores_funds(
    s: State,
    id: JobId,
    buyer: AccountId,
    max_price_per_second: u64,
    duration_seconds: u64,
    submitted: u64,
    cancelled: u64,
)
    requires
        wf(s),
        submitted <= cancelled,
        step(
            s,
            Command::SubmitJob { id, buyer, max_price_per_second, duration_seconds },
            submitted,
        ) matches Ok((_, events)) && events == seq![Event::JobQueued(id)],
    ensures
        ({
            let s1 = step(
                s,
                Command::SubmitJob { id, buyer, max_price_per_second, duration_seconds },
                submitted,
            )->Ok_0.0;
            let r = step(s1, Command::CancelJob { id, buyer }, cancelled);
            &&& r matches Ok((s2, events)) && {
                &&& events == seq![Event::JobCancelled(id)]
                &&& s2.accounts == s.accounts
                &&& s2.total_funded == s.total_funded
                &&& s2.offers == s.offers
                &&& s2.reservations == s.reservations
                &&& s2.jobs.contains_key(id.0)
                &&& s2.jobs[id.0].state == JobState::Cancelled
                &&& s2.jobs[id.0].held_microcredits == 0
            }
        }),
{
    let u = with_job(s, id, buyer, max_price_per_second, duration_seconds);
    lemma_with_job(s, id, buyer, max_price_per_second, duration_seconds);
    let (m, events) = match_jobs(u, submitted);
    assert(events.len() == 0) by {
        assert((seq![Event::JobQueued(id)] + events).len() == 1 + events.len());
    }
    lemma_match_without_events(u, u.job_order, 0, submitted);
    let s1 = State { last_time: Some(submitted), ..u };
    let b = s.accounts[buyer.0];
    let hold = (max_price_per_second * duration_seconds) as u64;
    assert(s1.jobs[id.0].state == JobState::Queued);
    let s2 = without_job(s1, id);
    assert(s2.accounts =~= s.accounts) by {
        assert(s2.accounts[buyer.0] == b);
    }
}

/// An accepted command happens no earlier than the previous one and moves the
/// clock to its time.
pub proof fn accepted_commands_move_the_clock(s: State, command: Command, now: u64)
    ensures
        step(s, command, now) matches Ok((t, _)) ==> t.last_time == Some(now) && (
        s.last_time matches Some(previous) ==> previous <= now),
{
}

/// A submission is accepted only when the buyer's available funds cover its
/// maximum price times its duration, even if a cheaper offer exists.
pub proof fn submissions_need_their_maximum_cost(
    s: State,
    command: Command,
    now: u64,
)
    requires
        command is SubmitJob,
    ensures
        step(s, command, now) is Ok ==> balance_of(s.accounts, command->SubmitJob_buyer.0).available
            >= command->SubmitJob_max_price_per_second * command->SubmitJob_duration_seconds,
{
}

/// Executing is deterministic: the same state, command and time give the same
/// state and events.
pub proof fn execution_is_deterministic(s1: State, s2: State, command: Command, now: u64)
    requires
        s1 == s2,
    ensures
        step(s1, command, now) == step(s2, command, now),
{
}

/// Identifiers are never reused: an offer or a job is accepted only under an
/// identifier the exchange has not seen, and a worker registers only once.
pub proof fn identifiers_are_never_reused(s: State, command: Command, now: u64)
    ensures
        step(s, command, now) is Ok ==> match command {
            Command::RegisterOffer { id, worker, .. } => !s.offers.contains_key(id.0)
                && !s.workers.contains_key(worker.0),
            Command::SubmitJob { id, .. } => !s.jobs.contains_key(id.0),
            _ => true,
        },
{
}

/// Only a queued job can be cancelled, and only by its buyer.
pub proof fn only_the_buyer_cancels_a_queued_job(s: State, id: JobId, buyer: AccountId, now: u64)
    ensures
        step(s, Command::CancelJob { id, buyer }, now) is Ok ==> {
            &&& s.jobs.contains_key(id.0)
            &&& s.jobs[id.0].buyer == buyer
            &&& s.jobs[id.0].state == JobState::Queued
        },
{
}

/// Prices, funding amounts and durations of accepted commands are positive.
pub proof fn accepted_values_are_positive(s: State, command: Command, now: u64)
    ensures
        step(s, command, now) is Ok ==> match command {
            Command::Fund { amount, .. } => amount > 0,
            Command::RegisterOffer { price_per_second, .. } => price_per_second > 0,
            Command::SubmitJob { max_price_per_second, duration_seconds, .. } => max_price_per_second
                > 0 && duration_seconds > 0,
            Command::CancelJob { .. } => true,
        },
{
}

/// Jobs and offers are listed once each, by strictly increasing arrival; a
/// matching pass follows the job list, so queued jobs are considered in
/// arrival order, whatever their identifiers.
pub proof fn jobs_and_offers_are_listed_by_arrival(s: State)
    requires
        wf(s),
    ensures
        forall|k: u64| s.jobs.contains_key(k) <==> s.job_order.contains(k),
        forall|i: int, j: int|
            #![trigger s.job_order[i], s.job_order[j]]
            0 <= i < j < s.job_order.len() ==> s.jobs[s.job_order[i]].arrival
                < s.jobs[s.job_order[j]].arrival,
        forall|k: u64| s.offers.contains_key(k) <==> s.offer_order.contains(k),
        forall|i: int, j: int|
            #![trigger s.offer_order[i], s.offer_order[j]]
            0 <= i < j < s.offer_order.len() ==> s.offers[s.offer_order[i]].arrival
                < s.offers[s.offer_order[j]].arrival,
{
}

/// An account's funds, available plus reserved, change only when that account
/// is funded, and then by the amount funded; so an account that was never
/// funded, such as a provider's, keeps a zero balance.
pub proof fn only_funding_changes_an_accounts_funds(s: State, command: Command, now: u64, account: u64)
    requires
        wf(s),
    ensures
        step(s, command, now) matches Ok((t, _)) ==> funds_of(t, account) == funds_of(s, account)
            + match command {
            Command::Fund { account: funded, amount } => if funded.0 == account {
                amount as int
            } else {
                0
            },
            _ => 0,
        },
{
    if let Ok((t, _)) = apply_command(s, command, now) {
        match command {
            Command::Fund { account: funded, amount } => {
                lemma_funded(s, funded, amount);
            },
            Command::RegisterOffer { id, worker, provider, price_per_second } => {
                let u = with_offer(s, id, worker, provider, price_per_second);
                lemma_with_offer(s, id, worker, provider, price_per_second);
                lemma_match_jobs(u, now);
                assert(funds_of(u, account) == funds_of(s, account));
                assert(funds_of(t, account) == funds_of(u, account));
            },
            Command::SubmitJob { id, buyer, max_price_per_second, duration_seconds } => {
                let u = with_job(s, id, buyer, max_price_per_second, duration_seconds);
                lemma_with_job(s, id, buyer, max_price_per_second, duration_seconds);
                lemma_match_jobs(u, now);
                assert(funds_of(u, account) == funds_of(s, account));
                assert(funds_of(t, account) == funds_of(u, account));
            },
            Command::CancelJob { id, buyer } => {
                lemma_without_job(s, id);
            },
        }
    }
}

} // verus!
