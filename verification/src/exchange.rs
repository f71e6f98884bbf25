//! The executable exchange, proved to follow the state machine of `model`.

use std::collections::BTreeMap;

use vstd::prelude::*;

use crate::arith::{multiply, positive};
use crate::invariants::{
    consistent, lemma_funded, lemma_initial_wf, lemma_reserve,
    lemma_with_job, lemma_with_offer, lemma_without_job, lemma_best_offer_in, wf,
};
use crate::model::{
    State, apply_command, balance_of, best_offer, best_offer_in, initial_state,
    match_from, match_jobs, reservation_for, reserve, step, with_job, with_offer,
};
use crate::types::{
    AccountId, Balance, Command, Event, ExchangeError, Job, JobId, JobState, Offer, OfferId,
    OfferState, Reservation, WorkerId,
};

verus! {

/// The state of an exchange and the commands on it. Within a command the
/// state passes through intermediate values that break the invariant, so the
/// invariant is a precondition here and a type invariant only on `Exchange`.
#[derive(Debug, PartialEq, Eq)]
struct Ledger {
    accounts: BTreeMap<u64, Balance>,
    offers: BTreeMap<u64, Offer>,
    jobs: BTreeMap<u64, Job>,
    reservations: BTreeMap<u64, Reservation>,
    workers: BTreeMap<u64, OfferId>,
    offer_order: Vec<u64>,
    job_order: Vec<u64>,
    sequence: u64,
    last_time: Option<u64>,
    total_funded: u64,
}

impl View for Ledger {
    type V = State;

    closed spec fn view(&self) -> State {
        State {
            accounts: self.accounts@,
            offers: self.offers@,
            jobs: self.jobs@,
            reservations: self.reservations@,
            workers: self.workers@,
            offer_order: self.offer_order@,
            job_order: self.job_order@,
            sequence: self.sequence,
            last_time: self.last_time,
            total_funded: self.total_funded,
        }
    }
}

impl Ledger {
    /// The balance of `account`; zero for an account the ledger does not know.
    fn balance(&self, account: AccountId) -> (balance: Balance)
        ensures
            balance == balance_of(self@.accounts, account.0),
    {
        match self.accounts.get(&account.0) {
            Some(balance) => *balance,
            None => Balance::default(),
        }
    }

    /// An empty ledger.
    fn new() -> (ledger: Ledger)
        ensures
            ledger@ == initial_state(),
            wf(ledger@),
    {
        proof {
            lemma_initial_wf();
        }
        Ledger {
            accounts: BTreeMap::new(),
            offers: BTreeMap::new(),
            jobs: BTreeMap::new(),
            reservations: BTreeMap::new(),
            workers: BTreeMap::new(),
            offer_order: Vec::new(),
            job_order: Vec::new(),
            sequence: 0,
            last_time: None,
            total_funded: 0,
        }
    }

    /// Executes `command` at the caller-supplied time `now`, which must not be
    /// earlier than the time of the last successful command. No network or
    /// clock access occurs. A rejected command leaves every field unchanged,
    /// including time and sequence.
    fn execute(&mut self, command: Command, now: u64) -> (result: Result<Vec<Event>, ExchangeError>)
        requires
            wf(old(self)@),
        ensures
            wf(final(self)@),
            match result {
                Ok(events) => step(old(self)@, command, now) == Ok::<(State, Seq<Event>), ExchangeError>(
                    (final(self)@, events@),
                ),
                Err(e) => step(old(self)@, command, now) == Err::<(State, Seq<Event>), ExchangeError>(e)
                    && *final(self) == *old(self),
            },
    {
        proof {
            crate::laws::step_keeps_invariant(self@, command, now);
        }
        if let Some(previous) = self.last_time {
            if now < previous {
                return Err(ExchangeError::TimeWentBackwards);
            }
        }
        match self.apply(command, now) {
            Ok(events) => {
                self.last_time = Some(now);
                Ok(events)
            },
            Err(e) => Err(e),
        }
    }

    /// Advances the arrival counter and returns its new value.
    fn next_sequence(&mut self) -> (result: Result<u64, ExchangeError>)
        ensures
            match result {
                Ok(v) => old(self).sequence < u64::MAX && v == old(self).sequence + 1
                    && *final(self) == (Ledger { sequence: v, ..*old(self) }),
                Err(e) => old(self).sequence == u64::MAX && e == ExchangeError::ArithmeticOverflow
                    && *final(self) == *old(self),
            },
    {
        match crate::arith::add(self.sequence, 1) {
            Ok(v) => {
                self.sequence = v;
                Ok(v)
            },
            Err(e) => Err(e),
        }
    }

    /// Applies `command` without looking at the clock.
    fn apply(&mut self, command: Command, now: u64) -> (result: Result<Vec<Event>, ExchangeError>)
        requires
            wf(old(self)@),
        ensures
            match result {
                Ok(events) => apply_command(old(self)@, command, now) == Ok::<
                    (State, Seq<Event>),
                    ExchangeError,
                >((final(self)@, events@)),
                Err(e) => apply_command(old(self)@, command, now) == Err::<
                    (State, Seq<Event>),
                    ExchangeError,
                >(e) && *final(self) == *old(self),
            },
    {
        match command {
            Command::Fund { account, amount } => self.fund(account, amount),
            Command::RegisterOffer { id, worker, provider, price_per_second } => {
                self.register_offer(id, worker, provider, price_per_second, now)
            },
            Command::SubmitJob { id, buyer, max_price_per_second, duration_seconds } => {
                self.submit_job(id, buyer, max_price_per_second, duration_seconds, now)
            },
            Command::CancelJob { id, buyer } => self.cancel_job(id, buyer),
        }
    }

    /// Credits `amount` to `account`. Funding does not depend on the time, so
    /// the contract names time zero.
    fn fund(&mut self, account: AccountId, amount: u64) -> (result: Result<Vec<Event>, ExchangeError>)
        requires
            wf(old(self)@),
        ensures
            match result {
                Ok(events) => apply_command(old(self)@, Command::Fund { account, amount }, 0) == Ok::<
                    (State, Seq<Event>),
                    ExchangeError,
                >((final(self)@, events@)),
                Err(e) => apply_command(old(self)@, Command::Fund { account, amount }, 0) == Err::<
                    (State, Seq<Event>),
                    ExchangeError,
                >(e) && *final(self) == *old(self),
            },
    {
        if let Err(e) = positive(amount) {
            return Err(e);
        }
        let total = match crate::arith::add(self.total_funded, amount) {
            Ok(total) => total,
            Err(e) => return Err(e),
        };
        proof {
            lemma_funded(self@, account, amount);
        }
        let current = self.balance(account);
        let available = match crate::arith::add(current.available, amount) {
            Ok(available) => available,
            Err(e) => return Err(e),
        };
        self.total_funded = total;
        self.accounts.insert(account.0, Balance { available, reserved: current.reserved });
        let mut events = Vec::new();
        events.push(Event::AccountFunded { account, amount });
        proof {
            assert(events@ =~= seq![Event::AccountFunded { account, amount }]);
        }
        Ok(events)
    }
    /// Registers a new offer, then matches queued jobs.
    fn register_offer(
        &mut self,
        id: OfferId,
        worker: WorkerId,
        provider: AccountId,
        price_per_second: u64,
        now: u64,
    ) -> (result: Result<Vec<Event>, ExchangeError>)
        requires
            wf(old(self)@),
        ensures
            match result {
                Ok(events) => apply_command(
                    old(self)@,
                    Command::RegisterOffer { id, worker, provider, price_per_second },
                    now,
                ) == Ok::<(State, Seq<Event>), ExchangeError>((final(self)@, events@)),
                Err(e) => apply_command(
                    old(self)@,
                    Command::RegisterOffer { id, worker, provider, price_per_second },
                    now,
                ) == Err::<(State, Seq<Event>), ExchangeError>(e) && *final(self) == *old(self),
            },
    {
        if let Err(e) = positive(price_per_second) {
            return Err(e);
        }
        if self.offers.contains_key(&id.0) {
            return Err(ExchangeError::DuplicateOffer);
        }
        if self.workers.contains_key(&worker.0) {
            return Err(ExchangeError::WorkerAlreadyRegistered);
        }
        let ghost before = self@;
        let arrival = match self.next_sequence() {
            Ok(arrival) => arrival,
            Err(e) => return Err(e),
        };
        proof {
            lemma_with_offer(before, id, worker, provider, price_per_second);
        }
        if !self.accounts.contains_key(&provider.0) {
            self.accounts.insert(provider.0, Balance::default());
        }
        self.workers.insert(worker.0, id);
        self.offers.insert(
            id.0,
            Offer { id, worker, provider, price_per_second, arrival, state: OfferState::Available },
        );
        self.offer_order.push(id.0);
        assert(self@ == with_offer(before, id, worker, provider, price_per_second));
        let mut events = Vec::new();
        events.push(Event::OfferRegistered(id));
        match self.match_jobs(now, &mut events) {
            Ok(()) => {},
            Err(e) => return Err(e),
        }
        Ok(events)
    }

    /// Submits a new job, holding its maximum cost, then matches queued jobs.
    fn submit_job(
        &mut self,
        id: JobId,
        buyer: AccountId,
        max_price_per_second: u64,
        duration_seconds: u64,
        now: u64,
    ) -> (result: Result<Vec<Event>, ExchangeError>)
        requires
            wf(old(self)@),
        ensures
            match result {
                Ok(events) => apply_command(
                    old(self)@,
                    Command::SubmitJob { id, buyer, max_price_per_second, duration_seconds },
                    now,
                ) == Ok::<(State, Seq<Event>), ExchangeError>((final(self)@, events@)),
                Err(e) => apply_command(
                    old(self)@,
                    Command::SubmitJob { id, buyer, max_price_per_second, duration_seconds },
                    now,
                ) == Err::<(State, Seq<Event>), ExchangeError>(e) && *final(self) == *old(self),
            },
    {
        if let Err(e) = positive(max_price_per_second) {
            return Err(e);
        }
        if let Err(e) = positive(duration_seconds) {
            return Err(e);
        }
        if self.jobs.contains_key(&id.0) {
            return Err(ExchangeError::DuplicateJob);
        }
        let hold = match multiply(max_price_per_second, duration_seconds) {
            Ok(hold) => hold,
            Err(e) => return Err(e),
        };
        let current = self.balance(buyer);
        if current.available < hold {
            return Err(ExchangeError::InsufficientFunds);
        }
        let ghost before = self@;
        let arrival = match self.next_sequence() {
            Ok(arrival) => arrival,
            Err(e) => return Err(e),
        };
        proof {
            lemma_with_job(before, id, buyer, max_price_per_second, duration_seconds);
        }
        let reserved = match crate::arith::add(current.reserved, hold) {
            Ok(reserved) => reserved,
            Err(e) => return Err(e),
        };
        self.accounts.insert(buyer.0, Balance { available: current.available - hold, reserved });
        self.jobs.insert(
            id.0,
            Job {
                id,
                buyer,
                max_price_per_second,
                duration_seconds,
                held_microcredits: hold,
                arrival,
                state: JobState::Queued,
            },
        );
        self.job_order.push(id.0);
        assert(self@ == with_job(before, id, buyer, max_price_per_second, duration_seconds));
        let mut events = Vec::new();
        events.push(Event::JobQueued(id));
        match self.match_jobs(now, &mut events) {
            Ok(()) => {},
            Err(e) => return Err(e),
        }
        Ok(events)
    }

    /// Cancels a queued job of `buyer`, releasing its hold. Cancelling does not
    /// depend on the time, so the contract names time zero.
    fn cancel_job(&mut self, id: JobId, buyer: AccountId) -> (result: Result<Vec<Event>, ExchangeError>)
        requires
            wf(old(self)@),
        ensures
            match result {
                Ok(events) => apply_command(old(self)@, Command::CancelJob { id, buyer }, 0) == Ok::<
                    (State, Seq<Event>),
                    ExchangeError,
                >((final(self)@, events@)),
                Err(e) => apply_command(old(self)@, Command::CancelJob { id, buyer }, 0) == Err::<
                    (State, Seq<Event>),
                    ExchangeError,
                >(e) && *final(self) == *old(self),
            },
    {
        let job = match self.jobs.get(&id.0) {
            Some(job) => *job,
            None => return Err(ExchangeError::UnknownJob),
        };
        if job.buyer != buyer {
            return Err(ExchangeError::WrongBuyer);
        }
        if job.state != JobState::Queued {
            return Err(ExchangeError::JobNotQueued);
        }
        proof {
            lemma_without_job(self@, id);
        }
        let current = self.balance(buyer);
        let available = match crate::arith::add(current.available, job.held_microcredits) {
            Ok(available) => available,
            Err(e) => return Err(e),
        };
        self.accounts.insert(
            buyer.0,
            Balance { available, reserved: current.reserved - job.held_microcredits },
        );
        self.jobs.insert(id.0, Job { held_microcredits: 0, state: JobState::Cancelled, ..job });
        let mut events = Vec::new();
        events.push(Event::JobCancelled(id));
        proof {
            assert(events@ =~= seq![Event::JobCancelled(id)]);
        }
        Ok(events)
    }

    /// The cheapest available offer at or below `max_price_per_second`, the
    /// earliest arrival among equal prices, with its price.
    fn best_offer(&self, max_price_per_second: u64) -> (best: Option<(u64, u64)>)
        requires
            consistent(self@),
        ensures
            match best {
                Some((o, price)) => best_offer(self@, max_price_per_second) == Some(o)
                    && self@.offers.contains_key(o) && price == self@.offers[o].price_per_second,
                None => best_offer(self@, max_price_per_second) is None,
            },
    {
        let ghost order = self@.offer_order;
        let mut best: Option<(u64, u64)> = None;
        let mut i: usize = 0;
        while i < self.offer_order.len()
            invariant
                consistent(self@),
                order == self@.offer_order,
                i <= order.len(),
                match best {
                    Some((o, price)) => best_offer_in(self@, order.take(i as int), max_price_per_second)
                        == Some(o) && self@.offers.contains_key(o) && price
                        == self@.offers[o].price_per_second,
                    None => best_offer_in(self@, order.take(i as int), max_price_per_second) is None,
                },
            decreases order.len() - i,
        {
            let o = self.offer_order[i];
            let offer = *self.offers.get(&o).expect("listed offer exists");
            proof {
                assert(order.take(i + 1).drop_last() =~= order.take(i as int));
                assert(order.take(i + 1).last() == o);
            }
            if offer.state == OfferState::Available && offer.price_per_second <= max_price_per_second {
                let better = match best {
                    None => true,
                    Some((_, price)) => offer.price_per_second < price,
                };
                if better {
                    best = Some((o, offer.price_per_second));
                }
            }
            i += 1;
        }
        proof {
            assert(order.take(order.len() as int) =~= order);
        }
        best
    }

    /// Matches queued jobs, in arrival order, with their best offers. A job
    /// with no eligible offer stays queued and does not block later jobs.
    fn match_jobs(&mut self, now: u64, events: &mut Vec<Event>) -> (result: Result<(), ExchangeError>)
        requires
            consistent(old(self)@),
        ensures
            result is Ok,
            final(self)@ == match_jobs(old(self)@, now).0,
            final(events)@ == old(events)@ + match_jobs(old(self)@, now).1,
    {
        let ghost s0 = self@;
        let ghost order = s0.job_order;
        let ghost target = match_from(s0, order, 0, now);
        let ghost e0 = events@;
        let n = self.job_order.len();
        let mut i: usize = 0;
        while i < n
            invariant
                n == order.len(),
                i <= n,
                consistent(self@),
                self@.job_order == order,
                match_from(self@, order, i as int, now).0 == target.0,
                events@ + match_from(self@, order, i as int, now).1 == e0 + target.1,
            decreases n - i,
        {
            let job_id = self.job_order[i];
            let job = *self.jobs.get(&job_id).expect("queued job exists");
            if job.state == JobState::Queued {
                match self.best_offer(job.max_price_per_second) {
                    None => {},
                    Some((offer_id, price_per_second)) => {
                        let ghost s = self@;
                        let ghost ev_before = events@;
                        proof {
                            lemma_best_offer_in(s, s.offer_order, job.max_price_per_second);
                            lemma_reserve(s, job_id, offer_id, now);
                        }
                        let hold = match multiply(price_per_second, job.duration_seconds) {
                            Ok(hold) => hold,
                            Err(e) => return Err(e),
                        };
                        let release = job.held_microcredits - hold;
                        let current = self.balance(job.buyer);
                        let available = match crate::arith::add(current.available, release) {
                            Ok(available) => available,
                            Err(e) => return Err(e),
                        };
                        self.accounts.insert(
                            job.buyer.0,
                            Balance { available, reserved: current.reserved - release },
                        );
                        self.jobs.insert(
                            job_id,
                            Job {
                                held_microcredits: hold,
                                state: JobState::Reserved { offer_id: OfferId(offer_id) },
                                ..job
                            },
                        );
                        let offer = *self.offers.get(&offer_id).expect("offer exists");
                        self.offers.insert(
                            offer_id,
                            Offer { state: OfferState::Reserved { job_id: JobId(job_id) }, ..offer },
                        );
                        let reservation = Reservation {
                            job_id: JobId(job_id),
                            offer_id: OfferId(offer_id),
                            price_per_second,
                            duration_seconds: job.duration_seconds,
                            held_microcredits: hold,
                            created_at: now,
                        };
                        self.reservations.insert(job_id, reservation);
                        events.push(Event::JobReserved(reservation));
                        proof {
                            assert(self@ == reserve(s, job_id, offer_id, now));
                            assert(reservation == reservation_for(s, job_id, offer_id, now));
                            let rest = match_from(self@, order, i + 1, now).1;
                            assert(events@ + rest =~= ev_before + (seq![Event::JobReserved(reservation)] + rest));
                        }
                    },
                }
            }
            i += 1;
        }
        Ok(())
    }
}

impl Clone for Ledger {
    /// A copy with the same state.
    fn clone(&self) -> (copy: Ledger)
        ensures
            copy@ == self@,
    {
        let offer_order = self.offer_order.clone();
        let job_order = self.job_order.clone();
        proof {
            assert(offer_order@ =~= self.offer_order@);
            assert(job_order@ =~= self.job_order@);
        }
        Ledger {
            accounts: self.accounts.clone(),
            offers: self.offers.clone(),
            jobs: self.jobs.clone(),
            reservations: self.reservations.clone(),
            workers: self.workers.clone(),
            offer_order,
            job_order,
            sequence: self.sequence,
            last_time: self.last_time,
            total_funded: self.total_funded,
        }
    }
}

/// A deterministic, single-writer compute exchange. Every command either
/// succeeds in full or is rejected with the exchange left exactly as it was.
/// Every exchange satisfies the invariant `wf` of its state.
#[derive(Debug, PartialEq, Eq)]
pub struct Exchange {
    ledger: Ledger,
}

impl View for Exchange {
    type V = State;

    closed spec fn view(&self) -> State {
        self.ledger@
    }
}

impl Exchange {
    /// Every exchange's state satisfies the invariant.
    #[verifier::type_invariant]
    closed spec fn well_formed(self) -> bool {
        wf(self.ledger@)
    }

    /// An empty exchange.
    pub fn new() -> (exchange: Exchange)
        ensures
            exchange@ == initial_state(),
            wf(exchange@),
    {
        Exchange { ledger: Ledger::new() }
    }

    /// An empty exchange whose arrival counter already stands at `sequence`.
    pub fn with_sequence(sequence: u64) -> (exchange: Exchange)
        ensures
            exchange@ == (State { sequence, ..initial_state() }),
            wf(exchange@),
    {
        let mut ledger = Ledger::new();
        ledger.sequence = sequence;
        Exchange { ledger }
    }

    /// Every account the exchange knows, by identifier.
    pub fn accounts(&self) -> (accounts: &BTreeMap<u64, Balance>)
        ensures
            accounts@ == self@.accounts,
    {
        &self.ledger.accounts
    }

    /// Every offer, by identifier.
    pub fn offers(&self) -> (offers: &BTreeMap<u64, Offer>)
        ensures
            offers@ == self@.offers,
    {
        &self.ledger.offers
    }

    /// Every job, by identifier.
    pub fn jobs(&self) -> (jobs: &BTreeMap<u64, Job>)
        ensures
            jobs@ == self@.jobs,
    {
        &self.ledger.jobs
    }

    /// Every reservation, by the identifier of its job.
    pub fn reservations(&self) -> (reservations: &BTreeMap<u64, Reservation>)
        ensures
            reservations@ == self@.reservations,
    {
        &self.ledger.reservations
    }

    /// The balance of `account`; zero for an account the exchange does not know.
    pub fn balance(&self, account: AccountId) -> (balance: Balance)
        ensures
            balance == balance_of(self@.accounts, account.0),
    {
        self.ledger.balance(account)
    }

    /// Everything ever funded into the exchange.
    pub fn total_funded(&self) -> (total: u64)
        ensures
            total == self@.total_funded,
    {
        self.ledger.total_funded
    }

    /// Executes `command` at the caller-supplied time `now`, which must not be
    /// earlier than the time of the last successful command. No network or
    /// clock access occurs. A rejected command leaves every field unchanged,
    /// including time and sequence. The state satisfies the invariant before
    /// and after.
    pub fn execute(&mut self, command: Command, now: u64) -> (result: Result<Vec<Event>, ExchangeError>)
        ensures
            wf(old(self)@),
            wf(final(self)@),
            match result {
                Ok(events) => step(old(self)@, command, now) == Ok::<(State, Seq<Event>), ExchangeError>(
                    (final(self)@, events@),
                ),
                Err(e) => step(old(self)@, command, now) == Err::<(State, Seq<Event>), ExchangeError>(e)
                    && *final(self) == *old(self),
            },
    {
        proof {
            use_type_invariant(&*self);
        }
        let mut ledger = Ledger::new();
        std::mem::swap(&mut ledger, &mut self.ledger);
        let result = ledger.execute(command, now);
        self.ledger = ledger;
        result
    }
}

impl Clone for Exchange {
    /// A copy with the same state.
    fn clone(&self) -> (copy: Exchange)
        ensures
            copy@ == self@,
    {
        proof {
            use_type_invariant(self);
        }
        Exchange { ledger: self.ledger.clone() }
    }
}

impl Default for Exchange {
    /// An empty exchange, as `Exchange::new` builds it.
    fn default() -> (exchange: Exchange)
        ensures
            exchange@ == initial_state(),
            wf(exchange@),
    {
        Exchange::new()
    }
}

} // verus!
