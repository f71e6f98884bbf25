//! The invariants of the exchange state and the proofs that every command
//! keeps them.

use vstd::prelude::*;

use crate::model::{
    State, balance_of, match_jobs, best_offer, best_offer_in, eligible, funded, initial_state, match_from,
    reservation_for, reserve, with_job, with_offer, without_job, zero_balance,
};
use crate::sums::{
    lemma_map_sum_bounds, lemma_map_sum_insert, lemma_map_sum_zero, map_sum,
};
use crate::types::{AccountId, Balance, Event, Job, Offer, JobId, JobState, OfferId, OfferState, WorkerId};

verus! {

/// What an account contributes to the funds in the exchange.
pub open spec fn balance_total() -> spec_fn(Balance) -> int {
    |b: Balance| b.available as int + b.reserved as int
}

/// What a job holds on behalf of account `a` (nothing if `a` is not its buyer).
pub open spec fn held_for(a: u64) -> spec_fn(Job) -> int {
    |j: Job| if j.buyer.0 == a { j.held_microcredits as int } else { 0 }
}

/// Identifiers are the keys they are stored under, and `job_order` and
/// `offer_order` list every job and offer exactly once, by increasing arrival,
/// all arrivals being at most the sequence counter.
pub open spec fn orders_ok(s: State) -> bool {
    &&& forall|i: int| 0 <= i < s.job_order.len() ==> #[trigger] s.jobs.contains_key(s.job_order[i])
    &&& forall|k: u64| #[trigger] s.jobs.contains_key(k) ==> s.job_order.contains(k)
    &&& forall|i: int, j: int|
        #![trigger s.job_order[i], s.job_order[j]]
        0 <= i < j < s.job_order.len() ==> s.jobs[s.job_order[i]].arrival < s.jobs[s.job_order[j]].arrival
    &&& forall|k: u64| #[trigger]
        s.jobs.contains_key(k) ==> s.jobs[k].id.0 == k && s.jobs[k].arrival <= s.sequence
    &&& forall|i: int|
        0 <= i < s.offer_order.len() ==> #[trigger] s.offers.contains_key(s.offer_order[i])
    &&& forall|k: u64| #[trigger] s.offers.contains_key(k) ==> s.offer_order.contains(k)
    &&& forall|i: int, j: int|
        #![trigger s.offer_order[i], s.offer_order[j]]
        0 <= i < j < s.offer_order.len() ==> s.offers[s.offer_order[i]].arrival
            < s.offers[s.offer_order[j]].arrival
    &&& forall|k: u64| #[trigger]
        s.offers.contains_key(k) ==> s.offers[k].id.0 == k && s.offers[k].arrival <= s.sequence
}

/// Workers and offers correspond one to one.
pub open spec fn workers_ok(s: State) -> bool {
    &&& forall|w: u64| #[trigger]
        s.workers.contains_key(w) ==> s.offers.contains_key(s.workers[w].0) && s.offers[s.workers[w].0].worker.0 == w
    &&& forall|o: u64| #[trigger]
        s.offers.contains_key(o) ==> s.workers.contains_key(s.offers[o].worker.0)
            && s.workers[s.offers[o].worker.0].0 == o
}

/// All funds are accounted for: the balances add up to the total funded, each
/// account's reserved funds are exactly what its jobs hold, and every buyer has an account.
pub open spec fn money_ok(s: State) -> bool {
    &&& s.accounts.dom().finite()
    &&& s.jobs.dom().finite()
    &&& map_sum(s.accounts, balance_total()) == s.total_funded
    &&& forall|a: u64| #[trigger]
        s.accounts.contains_key(a) ==> s.accounts[a].reserved == map_sum(s.jobs, held_for(a))
    &&& forall|k: u64| #[trigger] s.jobs.contains_key(k) ==> s.accounts.contains_key(s.jobs[k].buyer.0)
}

/// A queued job holds its maximum price times its duration, a cancelled job
/// holds nothing, and exactly the reserved jobs have reservations.
pub open spec fn jobs_ok(s: State) -> bool {
    forall|k: u64| #[trigger]
        s.jobs.contains_key(k) ==> match s.jobs[k].state {
            JobState::Queued => {
                &&& s.jobs[k].held_microcredits == s.jobs[k].max_price_per_second
                    * s.jobs[k].duration_seconds
                &&& !s.reservations.contains_key(k)
            },
            JobState::Reserved { offer_id } => {
                &&& s.reservations.contains_key(k)
                &&& s.reservations[k].offer_id == offer_id
            },
            JobState::Cancelled => {
                &&& s.jobs[k].held_microcredits == 0
                &&& !s.reservations.contains_key(k)
            },
        }
}

/// Each reservation ties a reserved job to a reserved offer, holds the offer's
/// price times the job's duration, and every reserved offer has its reservation.
pub open spec fn reservations_ok(s: State) -> bool {
    &&& forall|k: u64| #[trigger]
        s.reservations.contains_key(k) ==> {
            let r = s.reservations[k];
            &&& r.job_id.0 == k
            &&& s.jobs.contains_key(k)
            &&& s.jobs[k].state == JobState::Reserved { offer_id: r.offer_id }
            &&& s.jobs[k].held_microcredits == r.held_microcredits
            &&& s.offers.contains_key(r.offer_id.0)
            &&& s.offers[r.offer_id.0].state == OfferState::Reserved { job_id: JobId(k) }
            &&& r.held_microcredits == r.price_per_second * r.duration_seconds
            &&& r.price_per_second == s.offers[r.offer_id.0].price_per_second
            &&& r.duration_seconds == s.jobs[k].duration_seconds
            &&& r.price_per_second <= s.jobs[k].max_price_per_second
        }
    &&& forall|o: u64| #[trigger]
        s.offers.contains_key(o) ==> match s.offers[o].state {
            OfferState::Available => true,
            OfferState::Reserved { job_id } => {
                &&& s.reservations.contains_key(job_id.0)
                &&& s.reservations[job_id.0].offer_id.0 == o
            },
        }
}

/// Stored prices and durations are positive, and every provider has an account.
pub open spec fn values_ok(s: State) -> bool {
    &&& forall|k: u64| #[trigger]
        s.jobs.contains_key(k) ==> s.jobs[k].max_price_per_second > 0 && s.jobs[k].duration_seconds
            > 0
    &&& forall|o: u64| #[trigger]
        s.offers.contains_key(o) ==> s.offers[o].price_per_second > 0 && s.accounts.contains_key(
            s.offers[o].provider.0,
        )
}

/// The bookkeeping invariant, which holds between and within commands.
pub open spec fn consistent(s: State) -> bool {
    &&& values_ok(s)
    &&& orders_ok(s)
    &&& workers_ok(s)
    &&& money_ok(s)
    &&& jobs_ok(s)
    &&& reservations_ok(s)
}

/// Matching is immediate: no queued job could be matched with an offer.
pub open spec fn settled(s: State) -> bool {
    forall|k: u64, o: u64|
        s.jobs.contains_key(k) && s.jobs[k].state == JobState::Queued ==> !#[trigger] eligible(
            s,
            o,
            s.jobs[k].max_price_per_second,
        )
}

/// The invariant that holds between commands.
pub open spec fn wf(s: State) -> bool {
    consistent(s) && settled(s)
}

/// A fresh exchange satisfies the invariant.
pub proof fn lemma_initial_wf()
    ensures
        wf(initial_state()),
{
    let s = initial_state();
    lemma_map_sum_zero(s.accounts, balance_total());
}

/// An account's funds never exceed the total funded.
pub proof fn lemma_account_bound(s: State, a: u64)
    requires
        consistent(s),
    ensures
        balance_of(s.accounts, a).available + balance_of(s.accounts, a).reserved <= s.total_funded,
{
    lemma_map_sum_bounds(s.accounts, balance_total(), a);
}

/// A job's buyer has an account whose reserved funds cover the job's hold.
pub proof fn lemma_job_bound(s: State, k: u64)
    requires
        consistent(s),
        s.jobs.contains_key(k),
    ensures
        s.accounts.contains_key(s.jobs[k].buyer.0),
        s.jobs[k].held_microcredits <= s.accounts[s.jobs[k].buyer.0].reserved,
{
    let a = s.jobs[k].buyer.0;
    assert forall|x: u64| s.jobs.contains_key(x) implies (#[trigger] held_for(a)(s.jobs[x])) >= 0 by {}
    lemma_map_sum_bounds(s.jobs, held_for(a), k);
}

/// No job is held for an account the exchange does not know.
proof fn lemma_unknown_account_holds_nothing(s: State, a: u64)
    requires
        money_ok(s),
        !s.accounts.contains_key(a),
    ensures
        map_sum(s.jobs, held_for(a)) == 0,
{
    assert forall|x: u64| s.jobs.contains_key(x) implies (#[trigger] held_for(a)(s.jobs[x])) == 0 by {}
    lemma_map_sum_zero(s.jobs, held_for(a));
}

/// Funding keeps the invariant.
pub proof fn lemma_funded(s: State, account: AccountId, amount: u64)
    requires
        wf(s),
        s.total_funded + amount <= u64::MAX,
    ensures
        balance_of(s.accounts, account.0).available + amount <= u64::MAX,
        wf(funded(s, account, amount)),
{
    let t = funded(s, account, amount);
    let a = account.0;
    lemma_account_bound(s, a);
    lemma_map_sum_insert(s.accounts, balance_total(), a, t.accounts[a]);
    if !s.accounts.contains_key(a) {
        lemma_unknown_account_holds_nothing(s, a);
    }
    assert(money_ok(t));
    assert forall|k: u64, o: u64|
        t.jobs.contains_key(k) && t.jobs[k].state == JobState::Queued implies !#[trigger] eligible(
        t,
        o,
        t.jobs[k].max_price_per_second,
    ) by {
        assert(!eligible(s, o, s.jobs[k].max_price_per_second));
    }
}

/// Registering a new offer keeps the bookkeeping invariant (matching comes next).
pub proof fn lemma_with_offer(
    s: State,
    id: OfferId,
    worker: WorkerId,
    provider: AccountId,
    price_per_second: u64,
)
    requires
        wf(s),
        price_per_second > 0,
        !s.offers.contains_key(id.0),
        !s.workers.contains_key(worker.0),
        s.sequence < u64::MAX,
    ensures
        consistent(with_offer(s, id, worker, provider, price_per_second)),
{
    let t = with_offer(s, id, worker, provider, price_per_second);
    let p = provider.0;
    if !s.accounts.contains_key(p) {
        lemma_map_sum_insert(s.accounts, balance_total(), p, zero_balance());
        lemma_unknown_account_holds_nothing(s, p);
    }
    assert(money_ok(t));
    assert forall|k: u64| #[trigger] t.offers.contains_key(k) implies t.offer_order.contains(k) by {
        if k != id.0 {
            let i = choose|i: int| 0 <= i < s.offer_order.len() && s.offer_order[i] == k;
            assert(t.offer_order[i] == k);
        } else {
            assert(t.offer_order[s.offer_order.len() as int] == k);
        }
    }
    assert forall|i: int, j: int|
        #![trigger t.offer_order[i], t.offer_order[j]]
        0 <= i < j < t.offer_order.len() implies t.offers[t.offer_order[i]].arrival
        < t.offers[t.offer_order[j]].arrival by {
        if j == s.offer_order.len() {
            assert(s.offers.contains_key(s.offer_order[i]));
        } else {
            assert(s.offer_order[i] != id.0 && s.offer_order[j] != id.0);
        }
    }
    assert(orders_ok(t));
    assert(workers_ok(t));
    assert(jobs_ok(t));
    assert(reservations_ok(t));
}

/// Submitting a new job that the buyer can afford keeps the bookkeeping
/// invariant (matching comes next).
pub proof fn lemma_with_job(
    s: State,
    id: JobId,
    buyer: AccountId,
    max_price_per_second: u64,
    duration_seconds: u64,
)
    requires
        wf(s),
        max_price_per_second > 0,
        duration_seconds > 0,
        !s.jobs.contains_key(id.0),
        max_price_per_second * duration_seconds <= u64::MAX,
        balance_of(s.accounts, buyer.0).available >= max_price_per_second * duration_seconds,
        s.sequence < u64::MAX,
    ensures
        s.accounts.contains_key(buyer.0),
        s.accounts[buyer.0].reserved + max_price_per_second * duration_seconds <= u64::MAX,
        consistent(with_job(s, id, buyer, max_price_per_second, duration_seconds)),
{
    let t = with_job(s, id, buyer, max_price_per_second, duration_seconds);
    let b = buyer.0;
    let hold = (max_price_per_second * duration_seconds) as u64;
    assert(max_price_per_second * duration_seconds > 0) by (nonlinear_arith)
        requires
            max_price_per_second > 0,
            duration_seconds > 0,
    ;
    lemma_account_bound(s, b);
    lemma_map_sum_insert(s.accounts, balance_total(), b, t.accounts[b]);
    let new_job = t.jobs[id.0];
    assert forall|a: u64| #[trigger] t.accounts.contains_key(a) implies t.accounts[a].reserved
        == map_sum(t.jobs, held_for(a)) by {
        lemma_map_sum_insert(s.jobs, held_for(a), id.0, new_job);
    }
    assert(money_ok(t));
    assert forall|k: u64| #[trigger] t.jobs.contains_key(k) implies t.job_order.contains(k) by {
        if k != id.0 {
            let i = choose|i: int| 0 <= i < s.job_order.len() && s.job_order[i] == k;
            assert(t.job_order[i] == k);
        } else {
            assert(t.job_order[s.job_order.len() as int] == k);
        }
    }
    assert forall|i: int, j: int|
        #![trigger t.job_order[i], t.job_order[j]]
        0 <= i < j < t.job_order.len() implies t.jobs[t.job_order[i]].arrival
        < t.jobs[t.job_order[j]].arrival by {
        if j == s.job_order.len() {
            assert(s.jobs.contains_key(s.job_order[i]));
        } else {
            assert(s.job_order[i] != id.0 && s.job_order[j] != id.0);
        }
    }
    assert(orders_ok(t));
    assert(workers_ok(t));
    assert(jobs_ok(t));
    assert(reservations_ok(t));
}

/// Cancelling a queued job keeps the invariant.
pub proof fn lemma_without_job(s: State, id: JobId)
    requires
        wf(s),
        s.jobs.contains_key(id.0),
        s.jobs[id.0].state == JobState::Queued,
    ensures
        s.accounts.contains_key(s.jobs[id.0].buyer.0),
        s.jobs[id.0].held_microcredits <= s.accounts[s.jobs[id.0].buyer.0].reserved,
        s.accounts[s.jobs[id.0].buyer.0].available + s.jobs[id.0].held_microcredits <= u64::MAX,
        wf(without_job(s, id)),
{
    let t = without_job(s, id);
    let job = s.jobs[id.0];
    let b = job.buyer.0;
    lemma_job_bound(s, id.0);
    lemma_account_bound(s, b);
    lemma_map_sum_insert(s.accounts, balance_total(), b, t.accounts[b]);
    assert forall|a: u64| #[trigger] t.accounts.contains_key(a) implies t.accounts[a].reserved
        == map_sum(t.jobs, held_for(a)) by {
        lemma_map_sum_insert(s.jobs, held_for(a), id.0, t.jobs[id.0]);
    }
    assert(money_ok(t));
    assert(orders_ok(t));
    assert(workers_ok(t));
    assert(jobs_ok(t));
    assert(reservations_ok(t));
    assert forall|k: u64, o: u64|
        t.jobs.contains_key(k) && t.jobs[k].state == JobState::Queued implies !#[trigger] eligible(
        t,
        o,
        t.jobs[k].max_price_per_second,
    ) by {
        assert(!eligible(s, o, s.jobs[k].max_price_per_second));
    }
}

/// The best offer of a list is an eligible member of it, and there is none
/// exactly when no member is eligible.
pub proof fn lemma_best_offer_in(s: State, order: Seq<u64>, max_price_per_second: u64)
    ensures
        best_offer_in(s, order, max_price_per_second) matches Some(o) ==> order.contains(o)
            && eligible(s, o, max_price_per_second),
        best_offer_in(s, order, max_price_per_second) is None ==> forall|i: int|
            0 <= i < order.len() ==> !eligible(s, #[trigger] order[i], max_price_per_second),
    decreases order.len(),
{
    if order.len() > 0 {
        let rest = order.drop_last();
        lemma_best_offer_in(s, rest, max_price_per_second);
        if let Some(o) = best_offer_in(s, rest, max_price_per_second) {
            let i = choose|i: int| 0 <= i < rest.len() && rest[i] == o;
            assert(order[i] == o);
        }
        assert(order[order.len() - 1] == order.last());
        assert forall|i: int| 0 <= i < order.len() - 1 implies order[i] == rest[i] by {}
    }
}

/// Matching a queued job with an eligible offer keeps the bookkeeping invariant,
/// and none of its arithmetic overflows.
pub proof fn lemma_reserve(s: State, j: u64, o: u64, now: u64)
    requires
        consistent(s),
        s.jobs.contains_key(j),
        s.jobs[j].state == JobState::Queued,
        eligible(s, o, s.jobs[j].max_price_per_second),
    ensures
        s.accounts.contains_key(s.jobs[j].buyer.0),
        s.offers[o].price_per_second * s.jobs[j].duration_seconds <= s.jobs[j].held_microcredits,
        s.jobs[j].held_microcredits - s.offers[o].price_per_second * s.jobs[j].duration_seconds
            <= s.accounts[s.jobs[j].buyer.0].reserved,
        s.accounts[s.jobs[j].buyer.0].available + s.jobs[j].held_microcredits
            - s.offers[o].price_per_second * s.jobs[j].duration_seconds <= u64::MAX,
        consistent(reserve(s, j, o, now)),
{
    let t = reserve(s, j, o, now);
    let job = s.jobs[j];
    let offer = s.offers[o];
    let b = job.buyer.0;
    let price = offer.price_per_second;
    let dur = job.duration_seconds;
    assert(price * dur <= job.max_price_per_second * dur) by (nonlinear_arith)
        requires
            price <= job.max_price_per_second,
    ;
    lemma_job_bound(s, j);
    lemma_account_bound(s, b);
    lemma_map_sum_insert(s.accounts, balance_total(), b, t.accounts[b]);
    assert forall|a: u64| #[trigger] t.accounts.contains_key(a) implies t.accounts[a].reserved
        == map_sum(t.jobs, held_for(a)) by {
        lemma_map_sum_insert(s.jobs, held_for(a), j, t.jobs[j]);
    }
    assert(money_ok(t));
    assert(orders_ok(t));
    assert(workers_ok(t));
    assert(jobs_ok(t));
    assert(reservations_ok(t));
}

/// No queued job among the first `i` of `order` could be matched.
pub open spec fn settled_before(s: State, order: Seq<u64>, i: int) -> bool {
    forall|p: int, o: u64|
        #![trigger eligible(s, o, s.jobs[order[p]].max_price_per_second)]
        0 <= p < i && s.jobs[order[p]].state == JobState::Queued ==> !eligible(
            s,
            o,
            s.jobs[order[p]].max_price_per_second,
        )
}

/// What a matching pass leaves alone: the orders, counters and workers, every
/// existing reservation, and the state of every job that was not queued.
pub open spec fn match_frame(s: State, t: State) -> bool {
    &&& t.job_order == s.job_order
    &&& t.offer_order == s.offer_order
    &&& t.sequence == s.sequence
    &&& t.last_time == s.last_time
    &&& t.total_funded == s.total_funded
    &&& t.workers == s.workers
    &&& t.jobs.dom() == s.jobs.dom()
    &&& forall|k: u64| #[trigger]
        s.reservations.contains_key(k) ==> t.reservations.contains_key(k) && t.reservations[k]
            == s.reservations[k]
    &&& forall|k: u64| #[trigger]
        s.jobs.contains_key(k) && s.jobs[k].state != JobState::Queued ==> t.jobs[k] == s.jobs[k]
    &&& forall|k: u64| #[trigger]
        s.jobs.contains_key(k) ==> same_job_terms(s.jobs[k], t.jobs[k])
    &&& t.offers.dom() == s.offers.dom()
    &&& forall|o: u64| #[trigger]
        s.offers.contains_key(o) ==> same_offer_terms(s.offers[o], t.offers[o]) && (
        s.offers[o].state is Reserved ==> t.offers[o].state == s.offers[o].state)
    &&& t.accounts.dom() == s.accounts.dom()
    &&& forall|a: u64| #[trigger] funds_of(t, a) == funds_of(s, a)
}

/// All funds of account `a`, available and reserved.
pub open spec fn funds_of(s: State, a: u64) -> int {
    balance_of(s.accounts, a).available + balance_of(s.accounts, a).reserved
}

/// Two versions of a job with the same identifier, buyer, price, duration and arrival.
pub open spec fn same_job_terms(a: Job, b: Job) -> bool {
    &&& b.id == a.id
    &&& b.buyer == a.buyer
    &&& b.max_price_per_second == a.max_price_per_second
    &&& b.duration_seconds == a.duration_seconds
    &&& b.arrival == a.arrival
}

/// Two versions of an offer with the same identifier, worker, provider, price and arrival.
pub open spec fn same_offer_terms(a: Offer, b: Offer) -> bool {
    &&& b.id == a.id
    &&& b.worker == a.worker
    &&& b.provider == a.provider
    &&& b.price_per_second == a.price_per_second
    &&& b.arrival == a.arrival
}

/// A matching pass from position `i` keeps the bookkeeping invariant and ends
/// with no queued job that could be matched.
pub proof fn lemma_match_from(s: State, order: Seq<u64>, i: int, now: u64)
    requires
        consistent(s),
        order == s.job_order,
        0 <= i <= order.len(),
    ensures
        consistent(match_from(s, order, i, now).0),
        settled_before(s, order, i) ==> settled(match_from(s, order, i, now).0),
        match_frame(s, match_from(s, order, i, now).0),
    decreases order.len() - i,
{
    if i == order.len() {
        if settled_before(s, order, i) {
            assert forall|k: u64, o: u64|
                s.jobs.contains_key(k) && s.jobs[k].state == JobState::Queued implies !#[trigger] eligible(
                s,
                o,
                s.jobs[k].max_price_per_second,
            ) by {
                let p = choose|p: int| 0 <= p < order.len() && order[p] == k;
                assert(!eligible(s, o, s.jobs[order[p]].max_price_per_second));
            }
        }
    } else {
        let j = order[i];
        let max = s.jobs[j].max_price_per_second;
        lemma_best_offer_in(s, s.offer_order, max);
        if s.jobs[j].state == JobState::Queued {
            match best_offer(s, max) {
                Some(o) => {
                    let t = reserve(s, j, o, now);
                    lemma_reserve(s, j, o, now);
                    if settled_before(s, order, i) {
                        assert forall|p: int, x: u64|
                            #![trigger eligible(t, x, t.jobs[order[p]].max_price_per_second)]
                            0 <= p < i + 1 && t.jobs[order[p]].state == JobState::Queued implies !eligible(
                            t,
                            x,
                            t.jobs[order[p]].max_price_per_second,
                        ) by {
                            if p < i {
                                assert(s.jobs[order[p]].arrival < s.jobs[order[i]].arrival);
                                assert(!eligible(s, x, s.jobs[order[p]].max_price_per_second));
                            }
                        }
                    }
                    lemma_match_from(t, order, i + 1, now);
                    assert(t.jobs.dom() =~= s.jobs.dom());
                    assert(t.offers.dom() =~= s.offers.dom());
                    assert(t.accounts.dom() =~= s.accounts.dom());
                    assert forall|a: u64| #[trigger] funds_of(t, a) == funds_of(s, a) by {}
                    assert(match_frame(s, t));
                },
                None => {
                    if settled_before(s, order, i) {
                        assert forall|p: int, x: u64|
                            #![trigger eligible(s, x, s.jobs[order[p]].max_price_per_second)]
                            0 <= p < i + 1 && s.jobs[order[p]].state == JobState::Queued implies !eligible(
                            s,
                            x,
                            s.jobs[order[p]].max_price_per_second,
                        ) by {
                            if p == i && eligible(s, x, max) {
                                let q = choose|q: int| 0 <= q < s.offer_order.len() && s.offer_order[q] == x;
                                assert(!eligible(s, s.offer_order[q], max));
                            }
                        }
                    }
                    lemma_match_from(s, order, i + 1, now);
                },
            }
        } else {
            lemma_match_from(s, order, i + 1, now);
        }
    }
}

/// A full matching pass keeps the invariant, even from a state in which
/// queued jobs could be matched.
pub proof fn lemma_match_jobs(s: State, now: u64)
    requires
        consistent(s),
    ensures
        wf(match_jobs(s, now).0),
        match_frame(s, match_jobs(s, now).0),
{
    lemma_match_from(s, s.job_order, 0, now);
}

/// The invariant does not depend on the clock.
pub proof fn lemma_wf_clock(t: State, now: u64)
    requires
        wf(t),
    ensures
        wf(State { last_time: Some(now), ..t }),
{
    let u = State { last_time: Some(now), ..t };
    assert forall|k: u64, o: u64|
        u.jobs.contains_key(k) && u.jobs[k].state == JobState::Queued implies !#[trigger] eligible(
        u,
        o,
        u.jobs[k].max_price_per_second,
    ) by {
        assert(!eligible(t, o, t.jobs[k].max_price_per_second));
    }
}

/// A matching pass that reserves nothing leaves the state as it was.
pub proof fn lemma_match_without_events(s: State, order: Seq<u64>, i: int, now: u64)
    requires
        match_from(s, order, i, now).1.len() == 0,
    ensures
        match_from(s, order, i, now).0 == s,
    decreases order.len() - i,
{
    if 0 <= i < order.len() {
        let j = order[i];
        if s.jobs[j].state == JobState::Queued {
            match best_offer(s, s.jobs[j].max_price_per_second) {
                Some(o) => {
                    let (t, events) = match_from(reserve(s, j, o, now), order, i + 1, now);
                    assert((seq![Event::JobReserved(reservation_for(s, j, o, now))] + events).len()
                        == 1 + events.len());
                },
                None => lemma_match_without_events(s, order, i + 1, now),
            }
        } else {
            lemma_match_without_events(s, order, i + 1, now);
        }
    }
}

} // verus!
