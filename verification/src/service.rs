//! The read-only query surface: enumerate markets, fetch one by
//! identifier, and read the accumulators. These never mutate the store.

use vstd::prelude::*;

use crate::state::AccountOwner;
use crate::state::Market;
use crate::state::PredictionMarketState;

verus! {

impl PredictionMarketState {
    /// All markets, in identifier order.
    pub fn markets(&self) -> (r: &Vec<Market>)
        ensures
            r@ == self.markets@,
    {
        &self.markets
    }

    /// How many markets exist; identifiers run from 0 up to this count,
    /// exclusively.
    pub fn market_count(&self) -> (r: u64)
        requires
            self.wf(),
        ensures
            r == self.markets@.len(),
    {
        self.next_market_id
    }

    /// The market with the given identifier, when one exists.
    pub fn market(&self, market_id: u64) -> (r: Option<&Market>)
        requires
            self.wf(),
        ensures
            match r {
                Some(m) => self.has_market(market_id) && *m == self.spec_market(market_id),
                None => !self.has_market(market_id),
            },
    {
        let n: usize = self.markets.len();
        if market_id < n as u64 {
            let idx: usize = market_id as usize;
            Some(&self.markets[idx])
        } else {
            None
        }
    }

    /// The accumulated stake on `outcome` of market `market_id`; 0 when no
    /// bet was ever placed there.
    pub fn pool_total(&self, market_id: u64, outcome: u64) -> (r: u64)
        requires
            self.wf(),
        ensures
            r == self.pool.spec_get(market_id, outcome),
    {
        self.pool.get(market_id, outcome)
    }

    /// `owner`'s accumulated stake on `outcome` of market `market_id`; 0
    /// when no such bet was ever placed, or after it was claimed.
    pub fn bet_of(&self, market_id: u64, owner: AccountOwner, outcome: u64) -> (r: u64)
        requires
            self.wf(),
        ensures
            r == self.bets.spec_get(market_id, owner, outcome),
    {
        self.bets.get(market_id, owner, outcome)
    }
}

} // verus!
