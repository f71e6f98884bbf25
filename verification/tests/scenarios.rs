use exchange_core::arith::{add, multiply, positive};
use exchange_core::exchange::Exchange;
use exchange_core::types::{
    AccountId, Balance, Command, Event, ExchangeError, JobId, JobState, OfferId, OfferState,
    Reservation, WorkerId,
};
use exchange_core::CAPACITY_CLASS;

fn offer_by(id: u64, worker: u64, provider: u64, price: u64) -> Command {
    Command::RegisterOffer {
        id: OfferId(id),
        worker: WorkerId(worker),
        provider: AccountId(provider),
        price_per_second: price,
    }
}

fn job_for(id: u64, buyer: u64, price: u64, duration: u64) -> Command {
    Command::SubmitJob {
        id: JobId(id),
        buyer: AccountId(buyer),
        max_price_per_second: price,
        duration_seconds: duration,
    }
}

fn fund_account(account: u64, amount: u64) -> Command {
    Command::Fund {
        account: AccountId(account),
        amount,
    }
}

#[test]
fn demo_run_ends_with_documented_balances() {
    let mut exchange = Exchange::new();
    let commands = [
        fund_account(1, 1_000),
        fund_account(2, 1_000),
        offer_by(30, 1, 101, 8),
        offer_by(20, 2, 102, 3),
        offer_by(10, 3, 103, 3),
        job_for(1, 1, 5, 10),
        job_for(2, 2, 5, 10),
        job_for(3, 1, 2, 10),
        job_for(4, 2, 10, 10),
        Command::CancelJob {
            id: JobId(3),
            buyer: AccountId(1),
        },
    ];
    for (now, command) in commands.into_iter().enumerate() {
        exchange.execute(command, now as u64).unwrap();
    }
    assert_eq!(exchange.reservations()[&1].offer_id, OfferId(20));
    assert_eq!(exchange.reservations()[&2].offer_id, OfferId(10));
    assert_eq!(exchange.reservations()[&4].offer_id, OfferId(30));
    assert_eq!(exchange.jobs()[&3].state, JobState::Cancelled);
    let before = exchange.clone();
    assert_eq!(
        exchange.execute(job_for(5, 1, 1_000, 10), 10),
        Err(ExchangeError::InsufficientFunds)
    );
    assert_eq!(exchange, before);
    assert_eq!(
        exchange.balance(AccountId(1)),
        Balance {
            available: 970,
            reserved: 30
        }
    );
    assert_eq!(
        exchange.balance(AccountId(2)),
        Balance {
            available: 890,
            reserved: 110
        }
    );
    for provider in [101, 102, 103] {
        assert_eq!(
            exchange.accounts()[&provider],
            Balance {
                available: 0,
                reserved: 0
            }
        );
    }
    assert_eq!(exchange.total_funded(), 2_000);
}

#[test]
fn cancelling_an_unknown_job_is_rejected() {
    let mut exchange = Exchange::new();
    let before = exchange.clone();
    assert_eq!(
        exchange.execute(
            Command::CancelJob {
                id: JobId(7),
                buyer: AccountId(1)
            },
            0
        ),
        Err(ExchangeError::UnknownJob)
    );
    assert_eq!(exchange, before);
}

#[test]
fn error_names_match_their_variants() {
    let cases = [
        (ExchangeError::ZeroValue, "ZeroValue"),
        (ExchangeError::ArithmeticOverflow, "ArithmeticOverflow"),
        (ExchangeError::InsufficientFunds, "InsufficientFunds"),
        (ExchangeError::DuplicateJob, "DuplicateJob"),
        (ExchangeError::DuplicateOffer, "DuplicateOffer"),
        (ExchangeError::WorkerAlreadyRegistered, "WorkerAlreadyRegistered"),
        (ExchangeError::UnknownJob, "UnknownJob"),
        (ExchangeError::WrongBuyer, "WrongBuyer"),
        (ExchangeError::JobNotQueued, "JobNotQueued"),
        (ExchangeError::TimeWentBackwards, "TimeWentBackwards"),
    ];
    for (error, name) in cases {
        assert_eq!(error.as_str(), name);
        assert_eq!(format!("{error:?}"), name);
    }
}

#[test]
fn unknown_accounts_have_zero_balance() {
    let exchange = Exchange::new();
    assert_eq!(exchange.balance(AccountId(42)), Balance::default());
    assert_eq!(exchange.total_funded(), 0);
    assert!(exchange.accounts().is_empty());
    assert!(exchange.offers().is_empty());
    assert!(exchange.jobs().is_empty());
    assert!(exchange.reservations().is_empty());
}

#[test]
fn funding_accumulates_and_counts_towards_total() {
    let mut exchange = Exchange::new();
    let events = exchange.execute(fund_account(3, 40), 0).unwrap();
    assert_eq!(
        events,
        vec![Event::AccountFunded {
            account: AccountId(3),
            amount: 40
        }]
    );
    exchange.execute(fund_account(3, 2), 1).unwrap();
    exchange.execute(fund_account(4, 8), 1).unwrap();
    assert_eq!(exchange.balance(AccountId(3)).available, 42);
    assert_eq!(exchange.total_funded(), 50);
}

#[test]
fn reservation_records_price_duration_and_time() {
    let mut exchange = Exchange::new();
    exchange.execute(fund_account(1, 100), 3).unwrap();
    exchange.execute(offer_by(9, 9, 50, 4), 4).unwrap();
    let events = exchange.execute(job_for(1, 1, 6, 5), 7).unwrap();
    let expected = Reservation {
        job_id: JobId(1),
        offer_id: OfferId(9),
        price_per_second: 4,
        duration_seconds: 5,
        held_microcredits: 20,
        created_at: 7,
    };
    assert_eq!(
        events,
        vec![Event::JobQueued(JobId(1)), Event::JobReserved(expected.clone())]
    );
    assert_eq!(exchange.reservations()[&1], expected);
    assert_eq!(exchange.jobs()[&1].held_microcredits, 20);
    assert_eq!(
        exchange.offers()[&9].state,
        OfferState::Reserved { job_id: JobId(1) }
    );
    assert_eq!(
        exchange.balance(AccountId(1)),
        Balance {
            available: 80,
            reserved: 20
        }
    );
}

#[test]
fn later_cheaper_offer_does_not_replace_reservation() {
    let mut exchange = Exchange::new();
    exchange.execute(fund_account(1, 100), 0).unwrap();
    exchange.execute(offer_by(1, 1, 50, 5), 0).unwrap();
    exchange.execute(job_for(1, 1, 5, 2), 0).unwrap();
    let events = exchange.execute(offer_by(2, 2, 50, 1), 1).unwrap();
    assert_eq!(events, vec![Event::OfferRegistered(OfferId(2))]);
    assert_eq!(exchange.reservations()[&1].offer_id, OfferId(1));
    assert_eq!(exchange.offers()[&2].state, OfferState::Available);
}

#[test]
fn submission_needs_maximum_cost_even_if_cheaper_offer_exists() {
    let mut exchange = Exchange::new();
    exchange.execute(fund_account(1, 10), 0).unwrap();
    exchange.execute(offer_by(1, 1, 50, 1), 0).unwrap();
    let before = exchange.clone();
    assert_eq!(
        exchange.execute(job_for(1, 1, 5, 3), 0),
        Err(ExchangeError::InsufficientFunds)
    );
    assert_eq!(exchange, before);
    exchange.execute(job_for(1, 1, 5, 2), 0).unwrap();
    assert_eq!(
        exchange.balance(AccountId(1)),
        Balance {
            available: 8,
            reserved: 2
        }
    );
}

#[test]
fn rejected_command_does_not_move_the_clock() {
    let mut exchange = Exchange::new();
    exchange.execute(fund_account(1, 10), 5).unwrap();
    assert_eq!(
        exchange.execute(fund_account(1, 0), 10),
        Err(ExchangeError::ZeroValue)
    );
    exchange.execute(fund_account(1, 1), 7).unwrap();
    exchange.execute(fund_account(1, 1), 7).unwrap();
    assert_eq!(
        exchange.execute(fund_account(1, 1), 6),
        Err(ExchangeError::TimeWentBackwards)
    );
}

#[test]
fn largest_affordable_hold_is_accepted() {
    let mut exchange = Exchange::new();
    exchange.execute(fund_account(1, u64::MAX), 0).unwrap();
    exchange.execute(job_for(1, 1, u64::MAX, 1), 0).unwrap();
    assert_eq!(
        exchange.balance(AccountId(1)),
        Balance {
            available: 0,
            reserved: u64::MAX
        }
    );
    exchange
        .execute(
            Command::CancelJob {
                id: JobId(1),
                buyer: AccountId(1),
            },
            0,
        )
        .unwrap();
    assert_eq!(exchange.balance(AccountId(1)).available, u64::MAX);
    assert_eq!(exchange.jobs()[&1].held_microcredits, 0);
}

#[test]
fn arrival_counter_is_shared_by_offers_and_jobs() {
    let mut exchange = Exchange::with_sequence(10);
    exchange.execute(fund_account(1, 100), 0).unwrap();
    exchange.execute(job_for(1, 1, 1, 1), 0).unwrap();
    exchange.execute(offer_by(1, 1, 2, 5), 0).unwrap();
    assert_eq!(exchange.jobs()[&1].arrival, 11);
    assert_eq!(exchange.offers()[&1].arrival, 12);
    assert_eq!(exchange.jobs()[&1].state, JobState::Queued);
}

#[test]
fn checked_arithmetic_reports_exact_results() {
    assert_eq!(positive(0), Err(ExchangeError::ZeroValue));
    assert_eq!(positive(3), Ok(()));
    assert_eq!(add(2, 3), Ok(5));
    assert_eq!(add(u64::MAX, 1), Err(ExchangeError::ArithmeticOverflow));
    assert_eq!(multiply(6, 7), Ok(42));
    assert_eq!(multiply(u64::MAX, 2), Err(ExchangeError::ArithmeticOverflow));
}

#[test]
fn capacity_class_is_demo_compute() {
    assert_eq!(CAPACITY_CLASS, "demo-compute");
}

#[test]
fn cancelling_a_queued_submission_restores_the_accounts() {
    let mut exchange = Exchange::new();
    exchange.execute(fund_account(1, 100), 0).unwrap();
    exchange.execute(offer_by(1, 1, 50, 9), 0).unwrap();
    let accounts = exchange.accounts().clone();
    let offers = exchange.offers().clone();
    let reservations = exchange.reservations().clone();
    let events = exchange.execute(job_for(1, 1, 4, 5), 1).unwrap();
    assert_eq!(events, vec![Event::JobQueued(JobId(1))]);
    assert_eq!(exchange.balance(AccountId(1)).reserved, 20);
    let events = exchange
        .execute(
            Command::CancelJob {
                id: JobId(1),
                buyer: AccountId(1),
            },
            2,
        )
        .unwrap();
    assert_eq!(events, vec![Event::JobCancelled(JobId(1))]);
    assert_eq!(exchange.accounts(), &accounts);
    assert_eq!(exchange.offers(), &offers);
    assert_eq!(exchange.reservations(), &reservations);
    assert_eq!(exchange.total_funded(), 100);
    assert_eq!(exchange.jobs()[&1].state, JobState::Cancelled);
    assert_eq!(exchange.jobs()[&1].held_microcredits, 0);
}

#[test]
fn accepted_commands_keep_earlier_records() {
    let mut exchange = Exchange::new();
    exchange.execute(fund_account(1, 1_000), 0).unwrap();
    exchange.execute(offer_by(1, 1, 50, 3), 0).unwrap();
    exchange.execute(job_for(1, 1, 5, 2), 0).unwrap();
    exchange.execute(job_for(2, 1, 1, 2), 0).unwrap();
    exchange
        .execute(
            Command::CancelJob {
                id: JobId(2),
                buyer: AccountId(1),
            },
            0,
        )
        .unwrap();
    let offers = exchange.offers().clone();
    let jobs = exchange.jobs().clone();
    let total = exchange.total_funded();
    exchange.execute(offer_by(2, 2, 51, 1), 1).unwrap();
    exchange.execute(job_for(3, 1, 2, 2), 2).unwrap();
    exchange.execute(fund_account(2, 5), 3).unwrap();
    assert_eq!(exchange.offers()[&1], offers[&1]);
    assert_eq!(exchange.jobs()[&1], jobs[&1]);
    assert_eq!(exchange.jobs()[&2], jobs[&2]);
    assert_eq!(exchange.reservations()[&3].offer_id, OfferId(2));
    assert!(exchange.total_funded() >= total);
    for offer in exchange.offers().values() {
        assert!(offer.price_per_second > 0);
        assert!(exchange.accounts().contains_key(&offer.provider.0));
    }
}
