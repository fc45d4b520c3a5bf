use prediction_market::state::AccountOwner;
use prediction_market::state::PredictionMarketState;
use prediction_market::Error;
use prediction_market::Operation;
use prediction_market::OperationOutput;

fn judge() -> AccountOwner {
    AccountOwner(1)
}

fn alice() -> AccountOwner {
    AccountOwner(2)
}

fn bob() -> AccountOwner {
    AccountOwner(3)
}

fn carol() -> AccountOwner {
    AccountOwner(4)
}

fn market_with_deadline(now: u64, end_time: u64) -> PredictionMarketState {
    let mut s = PredictionMarketState::new();
    let created = s.create_market(Some(judge()), now, String::from("rain tomorrow"), end_time);
    assert_eq!(created, Ok(0));
    s
}

#[test]
fn scenario_two_bettors_winner_takes_losing_pool() {
    let now: u64 = 5_000;
    let mut s = market_with_deadline(now, now + 1_000);
    assert_eq!(s.bet(Some(alice()), now + 1, 0, 0, 30), Ok(()));
    assert_eq!(s.bet(Some(bob()), now + 2, 0, 1, 10), Ok(()));
    assert_eq!(s.resolve(Some(judge()), 0, 0), Ok(()));
    // W = 30, T = 40, b = 30: floor(30 * 40 / 30) = 40.
    assert_eq!(s.claim(Some(alice()), 0), Ok(40));
    assert_eq!(s.claim(Some(bob()), 0), Err(Error::NothingToClaim { market_id: 0 }));
}

#[test]
fn market_ids_increase_by_one_from_zero() {
    let mut s = PredictionMarketState::new();
    let first = s.create_market(Some(judge()), 10, String::from("a"), 100);
    let second = s.create_market(Some(alice()), 10, String::from("b"), 200);
    let third = s.create_market(Some(judge()), 50, String::from("c"), 300);
    assert_eq!(first, Ok(0));
    assert_eq!(second, Ok(1));
    assert_eq!(third, Ok(2));
    assert_eq!(s.market_count(), 3);
}

#[test]
fn pools_are_conserved_across_bets() {
    let now: u64 = 100;
    let mut s = market_with_deadline(now, now + 500);
    assert_eq!(s.bet(Some(alice()), now, 0, 0, 7), Ok(()));
    assert_eq!(s.bet(Some(bob()), now, 0, 1, 11), Ok(()));
    assert_eq!(s.bet(Some(alice()), now, 0, 1, 5), Ok(()));
    assert_eq!(s.bet(Some(carol()), now, 0, 0, 13), Ok(()));
    let market = s.market(0).expect("market 0 exists");
    assert_eq!(market.total_pool, 36);
    assert_eq!(s.pool_total(0, 0), 20);
    assert_eq!(s.pool_total(0, 1), 16);
    // Each outcome pool is the sum of the individual stakes on it.
    assert_eq!(s.bet_of(0, alice(), 0) + s.bet_of(0, carol(), 0), s.pool_total(0, 0));
    assert_eq!(s.bet_of(0, alice(), 1) + s.bet_of(0, bob(), 1), s.pool_total(0, 1));
}

#[test]
fn repeated_bets_accumulate() {
    let now: u64 = 100;
    let mut s = market_with_deadline(now, now + 500);
    assert_eq!(s.bet(Some(alice()), now, 0, 0, 4), Ok(()));
    assert_eq!(s.bet(Some(alice()), now, 0, 0, 6), Ok(()));
    assert_eq!(s.bet(Some(alice()), now, 0, 1, 9), Ok(()));
    assert_eq!(s.bet_of(0, alice(), 0), 10);
    assert_eq!(s.bet_of(0, alice(), 1), 9);
}

#[test]
fn payouts_in_exact_two_to_one_ratio() {
    let now: u64 = 100;
    let mut s = market_with_deadline(now, now + 500);
    assert_eq!(s.bet(Some(alice()), now, 0, 0, 40), Ok(()));
    assert_eq!(s.bet(Some(bob()), now, 0, 0, 20), Ok(()));
    assert_eq!(s.bet(Some(carol()), now, 0, 1, 15), Ok(()));
    assert_eq!(s.resolve(Some(judge()), 0, 0), Ok(()));
    // W = 60, T = 75: Alice floor(40 * 75 / 60) = 50, Bob floor(20 * 75 / 60) = 25.
    assert_eq!(s.claim(Some(alice()), 0), Ok(50));
    assert_eq!(s.claim(Some(bob()), 0), Ok(25));
}

#[test]
fn payouts_truncate_by_at_most_one_unit() {
    let now: u64 = 100;
    let mut s = market_with_deadline(now, now + 500);
    assert_eq!(s.bet(Some(alice()), now, 0, 0, 2), Ok(()));
    assert_eq!(s.bet(Some(bob()), now, 0, 0, 1), Ok(()));
    assert_eq!(s.bet(Some(carol()), now, 0, 1, 1), Ok(()));
    assert_eq!(s.resolve(Some(judge()), 0, 0), Ok(()));
    // W = 3, T = 4: Alice floor(8 / 3) = 2, Bob floor(4 / 3) = 1.
    assert_eq!(s.claim(Some(alice()), 0), Ok(2));
    assert_eq!(s.claim(Some(bob()), 0), Ok(1));
}

#[test]
fn resolving_twice_fails_regardless_of_outcome() {
    let now: u64 = 100;
    let mut s = market_with_deadline(now, now + 500);
    assert_eq!(s.bet(Some(alice()), now, 0, 0, 3), Ok(()));
    assert_eq!(s.resolve(Some(judge()), 0, 1), Ok(()));
    assert_eq!(s.resolve(Some(judge()), 0, 0), Err(Error::AlreadyResolved { market_id: 0 }));
    assert_eq!(s.resolve(Some(judge()), 0, 1), Err(Error::AlreadyResolved { market_id: 0 }));
    // Even an out-of-range outcome reports the resolved state first.
    assert_eq!(s.resolve(Some(judge()), 0, 9), Err(Error::AlreadyResolved { market_id: 0 }));
}

#[test]
fn claiming_twice_finds_nothing() {
    let now: u64 = 100;
    let mut s = market_with_deadline(now, now + 500);
    assert_eq!(s.bet(Some(alice()), now, 0, 0, 8), Ok(()));
    assert_eq!(s.bet(Some(bob()), now, 0, 1, 4), Ok(()));
    assert_eq!(s.resolve(Some(judge()), 0, 0), Ok(()));
    assert_eq!(s.claim(Some(alice()), 0), Ok(12));
    assert_eq!(s.claim(Some(alice()), 0), Err(Error::NothingToClaim { market_id: 0 }));
    assert_eq!(s.bet_of(0, alice(), 0), 0);
}

#[test]
fn bets_at_or_after_the_deadline_are_rejected() {
    let now: u64 = 100;
    let end: u64 = now + 500;
    let mut s = market_with_deadline(now, end);
    assert_eq!(s.bet(Some(alice()), end, 0, 0, 5), Err(Error::MarketClosed { market_id: 0 }));
    assert_eq!(s.bet(Some(alice()), end + 99, 0, 0, 5), Err(Error::MarketClosed { market_id: 0 }));
    assert_eq!(s.bet(Some(alice()), end - 1, 0, 0, 5), Ok(()));
}

#[test]
fn creation_needs_a_future_deadline() {
    let mut s = PredictionMarketState::new();
    let now: u64 = 1_000;
    assert_eq!(
        s.create_market(Some(judge()), now, String::from("too late"), now),
        Err(Error::InvalidDeadline { end_time: now })
    );
    assert_eq!(
        s.create_market(Some(judge()), now, String::from("long gone"), now - 1),
        Err(Error::InvalidDeadline { end_time: now - 1 })
    );
    assert_eq!(s.market_count(), 0);
    assert_eq!(s.create_market(Some(judge()), now, String::from("fine"), now + 1), Ok(0));
}

#[test]
fn every_operation_requires_a_caller_identity() {
    let now: u64 = 100;
    let mut s = market_with_deadline(now, now + 500);
    assert_eq!(
        s.create_market(None, now, String::from("anonymous"), now + 9),
        Err(Error::Unauthenticated)
    );
    assert_eq!(s.bet(None, now, 0, 0, 5), Err(Error::Unauthenticated));
    assert_eq!(s.resolve(None, 0, 0), Err(Error::Unauthenticated));
    assert_eq!(s.claim(None, 0), Err(Error::Unauthenticated));
}

#[test]
fn operations_on_missing_markets_report_not_found() {
    let now: u64 = 100;
    let mut s = market_with_deadline(now, now + 500);
    assert_eq!(s.bet(Some(alice()), now, 7, 0, 5), Err(Error::NotFound { market_id: 7 }));
    assert_eq!(s.resolve(Some(judge()), 7, 0), Err(Error::NotFound { market_id: 7 }));
    assert_eq!(s.claim(Some(alice()), 7), Err(Error::NotFound { market_id: 7 }));
}

#[test]
fn bets_validate_outcome_and_amount() {
    let now: u64 = 100;
    let mut s = market_with_deadline(now, now + 500);
    assert_eq!(s.bet(Some(alice()), now, 0, 2, 5), Err(Error::InvalidOutcome { outcome: 2 }));
    assert_eq!(s.bet(Some(alice()), now, 0, 0, 0), Err(Error::ZeroAmount));
    // The outcome check comes before the market lookup.
    assert_eq!(s.bet(Some(alice()), now, 9, 5, 1), Err(Error::InvalidOutcome { outcome: 5 }));
}

#[test]
fn betting_on_a_resolved_market_fails() {
    let now: u64 = 100;
    let mut s = market_with_deadline(now, now + 500);
    assert_eq!(s.bet(Some(alice()), now, 0, 0, 5), Ok(()));
    assert_eq!(s.resolve(Some(judge()), 0, 0), Ok(()));
    assert_eq!(s.bet(Some(bob()), now, 0, 1, 5), Err(Error::AlreadyResolved { market_id: 0 }));
}

#[test]
fn only_the_judge_may_resolve() {
    let now: u64 = 100;
    let mut s = market_with_deadline(now, now + 500);
    assert_eq!(s.resolve(Some(alice()), 0, 0), Err(Error::NotAuthorized { market_id: 0 }));
    // The judge may resolve before the nominal end time.
    assert_eq!(s.resolve(Some(judge()), 0, 1), Ok(()));
}

#[test]
fn resolve_validates_the_outcome_index() {
    let now: u64 = 100;
    let mut s = market_with_deadline(now, now + 500);
    assert_eq!(s.resolve(Some(judge()), 0, 3), Err(Error::InvalidOutcome { outcome: 3 }));
    let market = s.market(0).expect("market 0 exists");
    assert!(!market.resolved);
}

#[test]
fn claims_need_a_resolved_market_and_a_winning_stake() {
    let now: u64 = 100;
    let mut s = market_with_deadline(now, now + 500);
    assert_eq!(s.bet(Some(alice()), now, 0, 0, 5), Ok(()));
    assert_eq!(s.claim(Some(alice()), 0), Err(Error::NotResolved { market_id: 0 }));
    assert_eq!(s.resolve(Some(judge()), 0, 1), Ok(()));
    // Alice staked only on the losing outcome; her stake is forfeited.
    assert_eq!(s.claim(Some(alice()), 0), Err(Error::NothingToClaim { market_id: 0 }));
    assert_eq!(s.claim(Some(bob()), 0), Err(Error::NothingToClaim { market_id: 0 }));
    assert_eq!(s.bet_of(0, alice(), 0), 5);
}

#[test]
fn query_surface_lists_markets_and_their_fields() {
    let now: u64 = 100;
    let mut s = PredictionMarketState::new();
    assert_eq!(s.create_market(Some(judge()), now, String::from("first"), now + 10), Ok(0));
    assert_eq!(s.create_market(Some(alice()), now, String::from("second"), now + 20), Ok(1));
    assert_eq!(s.markets().len(), 2);
    let first = s.market(0).expect("market 0 exists");
    assert_eq!(first.id, 0);
    assert_eq!(first.title, "first");
    assert_eq!(first.judge, judge());
    assert_eq!(first.end_time, now + 10);
    assert_eq!(first.total_pool, 0);
    assert!(!first.resolved);
    let second = s.market(1).expect("market 1 exists");
    assert_eq!(second.judge, alice());
    assert!(s.market(2).is_none());
}

#[test]
fn dispatcher_routes_operations_and_reports_outputs() {
    let now: u64 = 100;
    let mut s = PredictionMarketState::new();
    let created = s.execute_operation(
        Some(judge()),
        now,
        Operation::CreateMarket { title: String::from("via dispatch"), end_time: now + 50 },
    );
    assert_eq!(created, Ok(OperationOutput::MarketCreated { market_id: 0 }));
    let bet = s.execute_operation(
        Some(alice()),
        now,
        Operation::Bet { market_id: 0, outcome: 1, amount: 6 },
    );
    assert_eq!(bet, Ok(OperationOutput::BetPlaced));
    let resolved = s.execute_operation(
        Some(judge()),
        now,
        Operation::Resolve { market_id: 0, winning_outcome: 1 },
    );
    assert_eq!(resolved, Ok(OperationOutput::MarketResolved));
    let claimed = s.execute_operation(Some(alice()), now, Operation::Claim { market_id: 0 });
    assert_eq!(claimed, Ok(OperationOutput::PayoutComputed { amount: 6 }));
    let denied = s.execute_operation(Some(bob()), now, Operation::Claim { market_id: 0 });
    assert_eq!(denied, Err(Error::NothingToClaim { market_id: 0 }));
}
