//! A pari-mutuel prediction-market ledger.
//!
//! Users place value-bearing bets on one of two outcomes of a proposition
//! with a deadline; the market's judge later declares the winning outcome;
//! winners then claim a share of the total pool proportional to their stake.
//! This crate is the accounting core alone: market creation, stake escrow,
//! resolution authorization, and proportional payout computation. Transport,
//! persistent storage, and the caller-identity and clock oracles are external
//! collaborators; every operation here takes the authenticated caller and the
//! current time as plain arguments and works on an in-memory entity store.

use vstd::prelude::*;

pub mod contract;
pub mod service;
pub mod state;
pub mod store;

verus! {

/// Marker type naming the ledger's external interface: operations of type
/// [`Operation`], each answered by an [`OperationOutput`] or an [`Error`].
pub struct PredictionMarketAbi;

/// An external operation submitted to the ledger. Every operation is
/// dispatched to exactly one component and executes atomically: either all
/// of its store mutations are applied, or none.
pub enum Operation {
    /// Create a new market with the given title whose betting window closes
    /// at `end_time` (a monotonic timestamp in microseconds). The caller
    /// becomes the market's judge.
    CreateMarket { title: String, end_time: u64 },
    /// Stake `amount` on `outcome` (0 or 1) of market `market_id`.
    Bet { market_id: u64, outcome: u64, amount: u64 },
    /// Declare `winning_outcome` (0 or 1) for market `market_id`.
    /// Only the market's judge may do this, and only once.
    Resolve { market_id: u64, winning_outcome: u64 },
    /// Convert the caller's stake on the winning outcome of market
    /// `market_id` into a payout entitlement and mark it consumed.
    Claim { market_id: u64 },
}

/// The declared result of a successful operation.
#[derive(Clone, Copy, PartialEq, Eq, Structural, Debug)]
pub enum OperationOutput {
    /// A market was created under the returned identifier.
    MarketCreated { market_id: u64 },
    /// A bet was recorded.
    BetPlaced,
    /// The market was resolved.
    MarketResolved,
    /// The caller's entitlement, in the same units as the stakes.
    /// The ledger computes the figure; actual value transfer is out of scope.
    PayoutComputed { amount: u64 },
}

/// Why an operation was rejected. Every failure aborts the whole operation
/// with no store mutation. All variants but `InvalidPoolState` are
/// caller-fault validation failures; `InvalidPoolState` reports an internal
/// invariant breach, and is proven unreachable from well-formed states.
#[derive(Clone, Copy, PartialEq, Eq, Structural, Debug)]
pub enum Error {
    /// No authenticated caller identity was available.
    Unauthenticated,
    /// The referenced market does not exist.
    NotFound { market_id: u64 },
    /// The outcome index is outside {0, 1}.
    InvalidOutcome { outcome: u64 },
    /// A bet of zero amount.
    ZeroAmount,
    /// A market's end time must lie strictly in the future at creation.
    InvalidDeadline { end_time: u64 },
    /// A bet after the market's end time.
    MarketClosed { market_id: u64 },
    /// A bet on, or a second resolution of, an already-resolved market.
    AlreadyResolved { market_id: u64 },
    /// A resolution attempt by an identity other than the market's judge.
    NotAuthorized { market_id: u64 },
    /// A claim on a market that has not been resolved.
    NotResolved { market_id: u64 },
    /// A claim with no stake on the winning outcome.
    NothingToClaim { market_id: u64 },
    /// The winning outcome's pool is zero although a positive stake on it
    /// exists: a ledger bug, not a caller fault.
    InvalidPoolState { market_id: u64 },
}

} // verus!
