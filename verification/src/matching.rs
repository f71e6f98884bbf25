//! What a matching pass creates, stated without reference to how it chooses:
//! the reservations it makes, the events it reports, and why each offer was
//! the right one.

use vstd::prelude::*;

use crate::invariants::{
    consistent, lemma_best_offer_in, lemma_match_from, lemma_reserve, match_frame,
};
use crate::laws::best_offer_is_cheapest_then_earliest;
use crate::model::{State, best_offer, eligible, match_from, reservation_for, reserve};
use crate::types::{Event, JobState, Offer, OfferState};

verus! {

/// Job `j` has a reservation in `t` that it did not have in `s`.
pub open spec fn new_reservation(s: State, t: State, j: u64) -> bool {
    t.reservations.contains_key(j) && !s.reservations.contains_key(j)
}

/// Offer `a` is cheaper than offer `b`, or as cheap and earlier.
pub open spec fn cheaper_or_earlier(a: Offer, b: Offer) -> bool {
    ||| a.price_per_second < b.price_per_second
    ||| a.price_per_second == b.price_per_second && a.arrival < b.arrival
}

/// Offer `x` was open to job `j` when `j` was matched on the way from `s` to
/// `t`: it is at or below `j`'s maximum price, and in `t` it is either still
/// available or reserved by a job matched later in the same pass.
pub open spec fn was_open_to(s: State, t: State, j: u64, x: u64) -> bool {
    &&& t.offers.contains_key(x)
    &&& t.offers[x].price_per_second <= t.jobs[j].max_price_per_second
    &&& match t.offers[x].state {
        OfferState::Available => true,
        OfferState::Reserved { job_id } => new_reservation(s, t, job_id.0) && t.jobs[job_id.0].arrival
            > t.jobs[j].arrival,
    }
}

/// Every reservation made on the way from `s` to `t` took, for a job that was
/// queued, an offer that was available at or below the job's maximum price
/// and that was cheaper than, or as cheap as and earlier than, every other
/// offer that was open to the job.
pub open spec fn matched_best(s: State, t: State) -> bool {
    forall|j: u64| #[trigger]
        new_reservation(s, t, j) ==> {
            let o = t.reservations[j].offer_id.0;
            &&& s.jobs.contains_key(j) ==> s.jobs[j].state == JobState::Queued
            &&& s.offers.contains_key(o) ==> s.offers[o].state == OfferState::Available
            &&& t.offers.contains_key(o)
            &&& t.offers[o].price_per_second <= t.jobs[j].max_price_per_second
            &&& forall|x: u64|
                x != o && #[trigger] was_open_to(s, t, j, x) ==> cheaper_or_earlier(
                    t.offers[o],
                    t.offers[x],
                )
        }
}

/// Every reservation made on the way from `s` to `t` was made at time `now`.
pub open spec fn made_at(s: State, t: State, now: u64) -> bool {
    forall|j: u64| #[trigger] new_reservation(s, t, j) ==> t.reservations[j].created_at == now
}

/// No job still queued in `t` was passed over for a job that arrived after it:
/// every offer reserved on the way from `s` to `t` by a later job is above the
/// queued job's maximum price.
pub open spec fn none_passed_over(s: State, t: State) -> bool {
    forall|j: u64, k: u64|
        #![trigger t.jobs[j], new_reservation(s, t, k)]
        t.jobs.contains_key(j) && t.jobs[j].state == JobState::Queued && new_reservation(s, t, k)
            && t.jobs[k].arrival > t.jobs[j].arrival ==> t.offers[t.reservations[k].offer_id.0].price_per_second
            > t.jobs[j].max_price_per_second
}

/// The events of a pass from `s` to `t`: one `JobReserved` per reservation it
/// made, carrying that reservation, in increasing arrival of the jobs.
pub open spec fn reports_reservations(s: State, t: State, events: Seq<Event>) -> bool {
    &&& forall|p: int|
        0 <= p < events.len() ==> {
            &&& #[trigger] events[p] is JobReserved
            &&& new_reservation(s, t, events[p]->JobReserved_0.job_id.0)
            &&& t.reservations[events[p]->JobReserved_0.job_id.0] == events[p]->JobReserved_0
        }
    &&& forall|p: int, q: int|
        #![trigger events[p], events[q]]
        0 <= p < q < events.len() ==> t.jobs[events[p]->JobReserved_0.job_id.0].arrival
            < t.jobs[events[q]->JobReserved_0.job_id.0].arrival
    &&& forall|j: u64| #[trigger]
        new_reservation(s, t, j) ==> exists|p: int|
            0 <= p < events.len() && #[trigger] events[p] == Event::JobReserved(t.reservations[j])
}

/// A matching pass from position `i` makes each reservation for a job at or
/// after position `i`, reports exactly its reservations in arrival order, and
/// gives each job the best offer open to it.
pub proof fn lemma_match_record(s: State, order: Seq<u64>, i: int, now: u64)
    requires
        consistent(s),
        order == s.job_order,
        0 <= i <= order.len(),
    ensures
        ({
            let (t, events) = match_from(s, order, i, now);
            &&& forall|j: u64| #[trigger]
                new_reservation(s, t, j) ==> s.jobs.contains_key(j) && i < order.len()
                    && s.jobs[j].arrival >= s.jobs[order[i]].arrival
            &&& matched_best(s, t)
            &&& reports_reservations(s, t, events)
            &&& made_at(s, t, now)
            &&& forall|j: u64, k: u64|
                #![trigger t.jobs[j], new_reservation(s, t, k)]
                t.jobs.contains_key(j) && t.jobs[j].state == JobState::Queued && i < order.len()
                    && s.jobs[j].arrival >= s.jobs[order[i]].arrival && new_reservation(s, t, k)
                    && t.jobs[k].arrival > t.jobs[j].arrival ==> t.offers[t.reservations[k].offer_id.0].price_per_second
                    > t.jobs[j].max_price_per_second
        }),
    decreases order.len() - i,
{
    lemma_match_from(s, order, i, now);
    let (t, events) = match_from(s, order, i, now);
    if i == order.len() {
        assert(t == s);
    } else {
        let j0 = order[i];
        let max = s.jobs[j0].max_price_per_second;
        if s.jobs[j0].state == JobState::Queued && best_offer(s, max) is Some {
            let o0 = best_offer(s, max)->Some_0;
            let s1 = reserve(s, j0, o0, now);
            let r0 = reservation_for(s, j0, o0, now);
            best_offer_is_cheapest_then_earliest(s, max);
            lemma_reserve(s, j0, o0, now);
            lemma_match_from(s1, order, i + 1, now);
            lemma_match_record(s1, order, i + 1, now);
            let rest = match_from(s1, order, i + 1, now).1;
            assert(events == seq![Event::JobReserved(r0)] + rest);
            assert(match_frame(s1, t));
            assert(t.reservations[j0] == r0);
            // Jobs reserved later in the pass arrived after `j0`.
            assert forall|j: u64| #[trigger] new_reservation(s1, t, j) implies j != j0
                && s.jobs[j].arrival > s.jobs[j0].arrival by {
                assert(s1.jobs[j].arrival >= s1.jobs[order[i + 1]].arrival);
                assert(s.jobs[order[i]].arrival < s.jobs[order[i + 1]].arrival);
            }
            assert forall|j: u64| #[trigger]
                new_reservation(s, t, j) implies s.jobs.contains_key(j) && i < order.len()
                && s.jobs[j].arrival >= s.jobs[order[i]].arrival && t.reservations[j].created_at
                == now by {
                if j != j0 {
                    assert(new_reservation(s1, t, j));
                }
            }
            // An offer that was open to a job here was available before this step.
            assert forall|j: u64, x: u64|
                new_reservation(s, t, j) && #[trigger] was_open_to(s, t, j, x) implies s.offers.contains_key(x)
                && s1.offers[x].state == OfferState::Available by {
                if let OfferState::Reserved { job_id } = t.offers[x].state {
                    let k = job_id.0;
                    assert(t.reservations[k].offer_id.0 == x);
                    if k == j0 {
                        assert(t.jobs[k].arrival == s.jobs[j0].arrival);
                        if j != j0 {
                            assert(new_reservation(s1, t, j));
                        }
                        assert(false);
                    }
                    assert(new_reservation(s1, t, k));
                } else {
                    if s1.offers[x].state != OfferState::Available {
                        assert(t.offers[x].state == s1.offers[x].state);
                    }
                }
            }
            assert forall|j: u64| #[trigger] new_reservation(s, t, j) implies {
                let o = t.reservations[j].offer_id.0;
                &&& s.jobs.contains_key(j) ==> s.jobs[j].state == JobState::Queued
                &&& s.offers.contains_key(o) ==> s.offers[o].state == OfferState::Available
                &&& t.offers.contains_key(o)
                &&& t.offers[o].price_per_second <= t.jobs[j].max_price_per_second
                &&& forall|x: u64|
                    x != o && #[trigger] was_open_to(s, t, j, x) ==> cheaper_or_earlier(
                        t.offers[o],
                        t.offers[x],
                    )
            } by {
                let o = t.reservations[j].offer_id.0;
                if j == j0 {
                    assert(o == o0);
                    assert forall|x: u64| x != o && #[trigger] was_open_to(s, t, j, x) implies cheaper_or_earlier(
                        t.offers[o],
                        t.offers[x],
                    ) by {
                        assert(s1.offers[x].state == OfferState::Available);
                        assert(eligible(s, x, max));
                    }
                } else {
                    assert(new_reservation(s1, t, j));
                    assert forall|x: u64| x != o && #[trigger] was_open_to(s, t, j, x) implies cheaper_or_earlier(
                        t.offers[o],
                        t.offers[x],
                    ) by {
                        assert(was_open_to(s1, t, j, x));
                    }
                }
            }
            assert forall|j: u64| #[trigger] new_reservation(s, t, j) implies exists|p: int|
                0 <= p < events.len() && #[trigger] events[p] == Event::JobReserved(t.reservations[j]) by {
                if j == j0 {
                    assert(events[0] == Event::JobReserved(t.reservations[j]));
                } else {
                    assert(new_reservation(s1, t, j));
                    let p = choose|p: int| 0 <= p < rest.len() && #[trigger] rest[p]
                        == Event::JobReserved(t.reservations[j]);
                    assert(events[p + 1] == rest[p]);
                }
            }
            assert forall|p: int|
                0 <= p < events.len() implies {
                &&& #[trigger] events[p] is JobReserved
                &&& new_reservation(s, t, events[p]->JobReserved_0.job_id.0)
                &&& t.reservations[events[p]->JobReserved_0.job_id.0] == events[p]->JobReserved_0
            } by {
                if p > 0 {
                    assert(events[p] == rest[p - 1]);
                }
            }
            assert forall|p: int, q: int|
                #![trigger events[p], events[q]]
                0 <= p < q < events.len() implies t.jobs[events[p]->JobReserved_0.job_id.0].arrival
                < t.jobs[events[q]->JobReserved_0.job_id.0].arrival by {
                assert(events[q] == rest[q - 1]);
                if p > 0 {
                    assert(events[p] == rest[p - 1]);
                } else {
                    assert(new_reservation(s1, t, rest[q - 1]->JobReserved_0.job_id.0));
                }
            }
            assert forall|j: u64, k: u64|
                #![trigger t.jobs[j], new_reservation(s, t, k)]
                t.jobs.contains_key(j) && t.jobs[j].state == JobState::Queued && i < order.len()
                    && s.jobs[j].arrival >= s.jobs[order[i]].arrival && new_reservation(s, t, k)
                    && t.jobs[k].arrival > t.jobs[j].arrival implies t.offers[t.reservations[k].offer_id.0].price_per_second
                > t.jobs[j].max_price_per_second by {
                assert(j != j0);
                assert(s1.jobs[j].arrival == s.jobs[j].arrival);
                let p = choose|p: int| 0 <= p < order.len() && order[p] == j;
                if p <= i {
                    assert(order[p] == j);
                    if p < i {
                        assert(s.jobs[order[p]].arrival < s.jobs[order[i]].arrival);
                    }
                    assert(false);
                }
                assert(s.jobs[order[i]].arrival < s.jobs[order[i + 1]].arrival);
                if p > i + 1 {
                    assert(s.jobs[order[i + 1]].arrival < s.jobs[order[p]].arrival);
                }
                assert(new_reservation(s1, t, k));
            }
        } else {
            lemma_match_record(s, order, i + 1, now);
            lemma_best_offer_in(s, s.offer_order, max);
            assert forall|j: u64| #[trigger]
                new_reservation(s, t, j) implies s.jobs.contains_key(j) && i < order.len()
                && s.jobs[j].arrival >= s.jobs[order[i]].arrival by {
                assert(s.jobs[order[i]].arrival < s.jobs[order[i + 1]].arrival);
            }
            assert forall|j: u64, k: u64|
                #![trigger t.jobs[j], new_reservation(s, t, k)]
                t.jobs.contains_key(j) && t.jobs[j].state == JobState::Queued && i < order.len()
                    && s.jobs[j].arrival >= s.jobs[order[i]].arrival && new_reservation(s, t, k)
                    && t.jobs[k].arrival > t.jobs[j].arrival implies t.offers[t.reservations[k].offer_id.0].price_per_second
                > t.jobs[j].max_price_per_second by {
                let x = t.reservations[k].offer_id.0;
                if j == j0 {
                    assert(s.jobs[j0].state == JobState::Queued);
                    assert(s.offers.contains_key(x));
                    assert(s.offers[x].state == OfferState::Available);
                    let q = choose|q: int| 0 <= q < s.offer_order.len() && s.offer_order[q] == x;
                    assert(!eligible(s, s.offer_order[q], max));
                } else {
                    let p = choose|p: int| 0 <= p < order.len() && order[p] == j;
                    if p <= i {
                        assert(order[p] == j);
                        if p < i {
                            assert(s.jobs[order[p]].arrival < s.jobs[order[i]].arrival);
                        }
                        assert(false);
                    }
                    if p > i + 1 {
                        assert(s.jobs[order[i + 1]].arrival < s.jobs[order[p]].arrival);
                    }
                }
            }
        }
    }
}

} // verus!
