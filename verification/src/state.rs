//! The entities of the ledger and the well-formedness invariant that every
//! operation preserves.

use vstd::prelude::*;

use crate::store::BetTable;
use crate::store::PoolTable;

verus! {

/// An authenticated caller identity: an opaque comparable value handed to
/// the ledger by the identity oracle. The ledger never inspects it beyond
/// equality.
#[derive(Clone, Copy, PartialEq, Eq, Structural, Debug)]
pub struct AccountOwner(pub u64);

/// One proposition open for betting. Created once with `resolved == false`
/// and `total_pool == 0`; its pool grows with each bet; `resolved` flips to
/// true exactly once, fixing `winning_outcome`; never deleted.
#[verifier::ext_equal]
pub struct Market {
    /// Sequential identifier, assigned from 0 upward.
    pub id: u64,
    /// Free-form description of the proposition.
    pub title: String,
    /// The only identity allowed to resolve this market.
    pub judge: AccountOwner,
    /// End of the betting window, a monotonic timestamp in microseconds.
    pub end_time: u64,
    /// Sum of all stakes ever placed on this market, over both outcomes.
    pub total_pool: u64,
    /// The declared outcome; a 0 sentinel until `resolved` is true.
    pub winning_outcome: u64,
    /// Whether the judge has declared the outcome.
    pub resolved: bool,
}

/// The ledger's entity store: the market registry, the per-outcome pool
/// accumulators, the per-bettor stake accumulators, and the identifier
/// counter. Markets are held in identifier order, so the market with
/// identifier `i` sits at index `i`.
pub struct PredictionMarketState {
    /// All markets ever created, indexed by identifier.
    pub markets: Vec<Market>,
    /// (market, outcome) -> accumulated stake on that outcome.
    pub pool: PoolTable,
    /// (market, bettor, outcome) -> that bettor's accumulated stake.
    pub bets: BetTable,
    /// The identifier the next created market will receive.
    pub next_market_id: u64,
}

impl PredictionMarketState {
    /// Whether a market with the given identifier exists.
    pub open spec fn has_market(self, market_id: u64) -> bool {
        market_id < self.markets@.len()
    }

    /// The market with the given identifier.
    pub open spec fn spec_market(self, market_id: u64) -> Market {
        self.markets@[market_id as int]
    }

    /// Well-formedness of the store. Every public operation requires and
    /// preserves it:
    /// - the identifier counter equals the number of markets, and market
    ///   `i` sits at index `i`;
    /// - both accumulator tables hold at most one entry per key;
    /// - pool conservation: each market's `total_pool` is the sum of its
    ///   two outcome pools;
    /// - each outcome pool is at least the sum of the individual stakes on
    ///   it, with equality while the market is unresolved (a successful
    ///   claim consumes a stake without shrinking the frozen pool);
    /// - no accumulator exists for a market that was never created.
    pub open spec fn wf(self) -> bool {
        &&& self.next_market_id == self.markets@.len()
        &&& forall|i: int|
            0 <= i < self.markets@.len() ==> #[trigger] self.markets@[i].id == i
        &&& self.pool.wf()
        &&& self.bets.wf()
        &&& forall|i: int|
            0 <= i < self.markets@.len() ==> #[trigger] self.markets@[i].total_pool
                == self.pool.spec_get(i as u64, 0) + self.pool.spec_get(i as u64, 1)
        &&& forall|i: int|
            0 <= i < self.markets@.len() && (#[trigger] self.markets@[i]).resolved
                ==> self.markets@[i].winning_outcome <= 1
        &&& forall|m: u64, o: u64|
            #![trigger self.bets.spec_sum(m, o)]
            #![trigger self.pool.spec_get(m, o)]
            self.bets.spec_sum(m, o) <= self.pool.spec_get(m, o)
        &&& forall|m: u64, o: u64|
            #![trigger self.bets.spec_sum(m, o)]
            #![trigger self.pool.spec_get(m, o)]
            m < self.markets@.len() && !self.markets@[m as int].resolved
                ==> self.bets.spec_sum(m, o) == self.pool.spec_get(m, o)
        &&& forall|m: u64, o: u64|
            m >= self.markets@.len() ==> #[trigger] self.pool.spec_get(m, o) == 0
        &&& forall|m: u64, o: u64|
            m >= self.markets@.len() ==> #[trigger] self.bets.spec_sum(m, o) == 0
    }

    /// A fresh, empty store: no markets, no stakes, and the identifier
    /// counter at 0, so the first created market receives identifier 0.
    pub fn new() -> (s: Self)
        ensures
            s.wf(),
            s.markets@.len() == 0,
            s.next_market_id == 0,
            forall|m: u64, w: AccountOwner, o: u64| #[trigger] s.bets.spec_get(m, w, o) == 0,
            forall|m: u64, o: u64| #[trigger] s.pool.spec_get(m, o) == 0,
    {
        let s = PredictionMarketState {
            markets: Vec::new(),
            pool: PoolTable::empty(),
            bets: BetTable::empty(),
            next_market_id: 0,
        };
        s
    }
}

} // verus!
