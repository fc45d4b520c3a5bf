//! The ledger's operations. Each one takes the authenticated caller and the
//! current time as plain arguments, validates its preconditions, and either
//! applies all of its store mutations or none. What each operation does is
//! captured by a transition predicate relating the store before and after
//! the call; the proof functions at the bottom derive the ledger's laws from
//! those predicates alone.

use vstd::arithmetic::div_mod::lemma_div_is_ordered;
use vstd::arithmetic::div_mod::lemma_div_multiples_vanish;
use vstd::arithmetic::div_mod::lemma_fundamental_div_mod;
use vstd::arithmetic::div_mod::lemma_fundamental_div_mod_converse_div;
use vstd::arithmetic::div_mod::lemma_mod_bound;
use vstd::arithmetic::mul::lemma_mul_inequality;
use vstd::prelude::*;

use crate::state::AccountOwner;
use crate::state::Market;
use crate::state::PredictionMarketState;
use crate::store::lemma_bet_value_le_sum;
use crate::Error;
use crate::Operation;
use crate::OperationOutput;

verus! {

/// A claimant's entitlement: the floor of `user_bet * total_pool /
/// winning_pool`. The losing side's stakes fund the winning side's payouts.
pub open spec fn spec_payout(user_bet: u64, total_pool: u64, winning_pool: u64) -> int {
    (user_bet * total_pool) / (winning_pool as int)
}

/// When CreateMarket succeeds.
pub open spec fn create_market_allowed(caller: Option<AccountOwner>, current_time: u64, end_time: u64) -> bool {
    caller is Some && end_time > current_time
}

/// What CreateMarket does to the store: on success a fresh market under the
/// next identifier, the counter advanced by one, and nothing else touched;
/// on failure nothing, with the error determined by the first failing check.
pub open spec fn create_market_post(
    pre: PredictionMarketState,
    post: PredictionMarketState,
    caller: Option<AccountOwner>,
    current_time: u64,
    title: String,
    end_time: u64,
    r: Result<u64, Error>,
) -> bool {
    &&& (r is Ok <==> create_market_allowed(caller, current_time, end_time))
    &&& match r {
        Ok(market_id) => {
            &&& market_id == pre.next_market_id
            &&& post.next_market_id == pre.next_market_id + 1
            &&& post.markets@.len() == pre.markets@.len() + 1
            &&& forall|i: int|
                0 <= i < pre.markets@.len() ==> post.markets@[i] == #[trigger] pre.markets@[i]
            &&& post.spec_market(market_id) == (Market {
                id: market_id,
                title: title,
                judge: caller->Some_0,
                end_time: end_time,
                total_pool: 0,
                winning_outcome: 0,
                resolved: false,
            })
            &&& post.pool == pre.pool
            &&& post.bets == pre.bets
        },
        Err(e) => {
            &&& post == pre
            &&& e == (if caller is None {
                Error::Unauthenticated
            } else {
                Error::InvalidDeadline { end_time }
            })
        },
    }
}

/// When Bet succeeds.
pub open spec fn bet_allowed(
    pre: PredictionMarketState,
    caller: Option<AccountOwner>,
    current_time: u64,
    market_id: u64,
    outcome: u64,
    amount: u64,
) -> bool {
    &&& caller is Some
    &&& outcome <= 1
    &&& amount > 0
    &&& pre.has_market(market_id)
    &&& current_time < pre.spec_market(market_id).end_time
    &&& !pre.spec_market(market_id).resolved
}

/// The error Bet reports, determined by the first failing check.
pub open spec fn bet_error(
    pre: PredictionMarketState,
    caller: Option<AccountOwner>,
    current_time: u64,
    market_id: u64,
    outcome: u64,
    amount: u64,
) -> Error {
    if caller is None {
        Error::Unauthenticated
    } else if outcome > 1 {
        Error::InvalidOutcome { outcome }
    } else if amount == 0 {
        Error::ZeroAmount
    } else if !pre.has_market(market_id) {
        Error::NotFound { market_id }
    } else if current_time >= pre.spec_market(market_id).end_time {
        Error::MarketClosed { market_id }
    } else {
        Error::AlreadyResolved { market_id }
    }
}

/// What Bet does to the store: on success the caller's stake accumulator,
/// the outcome's pool accumulator, and the market's total pool all grow by
/// the same amount — the single atomic accounting update that preserves
/// pool conservation — and nothing else is touched; on failure nothing.
pub open spec fn bet_post(
    pre: PredictionMarketState,
    post: PredictionMarketState,
    caller: Option<AccountOwner>,
    current_time: u64,
    market_id: u64,
    outcome: u64,
    amount: u64,
    r: Result<(), Error>,
) -> bool {
    &&& (r is Ok <==> bet_allowed(pre, caller, current_time, market_id, outcome, amount))
    &&& match r {
        Ok(_) => {
            let bettor = caller->Some_0;
            &&& post.bets.spec_get(market_id, bettor, outcome) == pre.bets.spec_get(
                market_id,
                bettor,
                outcome,
            ) + amount
            &&& forall|m: u64, w: AccountOwner, o: u64|
                !(m == market_id && w == bettor && o == outcome)
                    ==> post.bets.spec_get(m, w, o) == #[trigger] pre.bets.spec_get(m, w, o)
            &&& post.pool.spec_get(market_id, outcome) == pre.pool.spec_get(market_id, outcome)
                + amount
            &&& forall|m: u64, o: u64|
                !(m == market_id && o == outcome)
                    ==> post.pool.spec_get(m, o) == #[trigger] pre.pool.spec_get(m, o)
            &&& post.markets@.len() == pre.markets@.len()
            &&& forall|i: int|
                0 <= i < pre.markets@.len() && i != market_id ==> post.markets@[i]
                    == #[trigger] pre.markets@[i]
            &&& post.spec_market(market_id) == (Market {
                total_pool: (pre.spec_market(market_id).total_pool + amount) as u64,
                ..pre.spec_market(market_id)
            })
            &&& post.next_market_id == pre.next_market_id
        },
        Err(e) => {
            &&& post == pre
            &&& e == bet_error(pre, caller, current_time, market_id, outcome, amount)
        },
    }
}

/// When Resolve succeeds.
pub open spec fn resolve_allowed(
    pre: PredictionMarketState,
    caller: Option<AccountOwner>,
    market_id: u64,
    winning_outcome: u64,
) -> bool {
    &&& caller is Some
    &&& pre.has_market(market_id)
    &&& caller->Some_0 == pre.spec_market(market_id).judge
    &&& !pre.spec_market(market_id).resolved
    &&& winning_outcome <= 1
}

/// The error Resolve reports, determined by the first failing check.
pub open spec fn resolve_error(
    pre: PredictionMarketState,
    caller: Option<AccountOwner>,
    market_id: u64,
    winning_outcome: u64,
) -> Error {
    if caller is None {
        Error::Unauthenticated
    } else if !pre.has_market(market_id) {
        Error::NotFound { market_id }
    } else if caller->Some_0 != pre.spec_market(market_id).judge {
        Error::NotAuthorized { market_id }
    } else if pre.spec_market(market_id).resolved {
        Error::AlreadyResolved { market_id }
    } else {
        Error::InvalidOutcome { outcome: winning_outcome }
    }
}

/// What Resolve does to the store: on success the one-time transition from
/// open to resolved, fixing the winning outcome and touching nothing else;
/// on failure nothing.
pub open spec fn resolve_post(
    pre: PredictionMarketState,
    post: PredictionMarketState,
    caller: Option<AccountOwner>,
    market_id: u64,
    winning_outcome: u64,
    r: Result<(), Error>,
) -> bool {
    &&& (r is Ok <==> resolve_allowed(pre, caller, market_id, winning_outcome))
    &&& match r {
        Ok(_) => {
            &&& post.markets@.len() == pre.markets@.len()
            &&& forall|i: int|
                0 <= i < pre.markets@.len() && i != market_id ==> post.markets@[i]
                    == #[trigger] pre.markets@[i]
            &&& post.spec_market(market_id) == (Market {
                winning_outcome: winning_outcome,
                resolved: true,
                ..pre.spec_market(market_id)
            })
            &&& post.pool == pre.pool
            &&& post.bets == pre.bets
            &&& post.next_market_id == pre.next_market_id
        },
        Err(e) => {
            &&& post == pre
            &&& e == resolve_error(pre, caller, market_id, winning_outcome)
        },
    }
}

/// When Claim succeeds: the market is resolved and the caller holds a
/// positive stake on its winning outcome.
pub open spec fn claim_allowed(
    pre: PredictionMarketState,
    caller: Option<AccountOwner>,
    market_id: u64,
) -> bool {
    &&& caller is Some
    &&& pre.has_market(market_id)
    &&& pre.spec_market(market_id).resolved
    &&& pre.bets.spec_get(
        market_id,
        caller->Some_0,
        pre.spec_market(market_id).winning_outcome,
    ) > 0
}

/// The error Claim reports, determined by the first failing check. A
/// zero winning pool beside a positive winning stake would be
/// `InvalidPoolState`, but that is proven unreachable from well-formed
/// stores, so it does not appear here.
pub open spec fn claim_error(
    pre: PredictionMarketState,
    caller: Option<AccountOwner>,
    market_id: u64,
) -> Error {
    if caller is None {
        Error::Unauthenticated
    } else if !pre.has_market(market_id) {
        Error::NotFound { market_id }
    } else if !pre.spec_market(market_id).resolved {
        Error::NotResolved { market_id }
    } else {
        Error::NothingToClaim { market_id }
    }
}

/// What Claim does to the store: on success it returns the proportional
/// payout, computed from the frozen pools at claim time, and zeroes the
/// caller's winning-outcome stake so a second claim finds nothing; on
/// failure nothing.
pub open spec fn claim_post(
    pre: PredictionMarketState,
    post: PredictionMarketState,
    caller: Option<AccountOwner>,
    market_id: u64,
    r: Result<u64, Error>,
) -> bool {
    &&& (r is Ok <==> claim_allowed(pre, caller, market_id))
    &&& match r {
        Ok(payout) => {
            let claimant = caller->Some_0;
            let winning = pre.spec_market(market_id).winning_outcome;
            &&& payout == spec_payout(
                pre.bets.spec_get(market_id, claimant, winning),
                pre.spec_market(market_id).total_pool,
                pre.pool.spec_get(market_id, winning),
            )
            &&& post.bets.spec_get(market_id, claimant, winning) == 0
            &&& forall|m: u64, w: AccountOwner, o: u64|
                !(m == market_id && w == claimant && o == winning)
                    ==> post.bets.spec_get(m, w, o) == #[trigger] pre.bets.spec_get(m, w, o)
            &&& post.markets@ == pre.markets@
            &&& post.pool == pre.pool
            &&& post.next_market_id == pre.next_market_id
        },
        Err(e) => {
            &&& post == pre
            &&& e == claim_error(pre, caller, market_id)
        },
    }
}

/// What the dispatcher guarantees for each operation: the operation's own
/// transition predicate, with the declared output carrying its result.
pub open spec fn operation_post(
    pre: PredictionMarketState,
    post: PredictionMarketState,
    caller: Option<AccountOwner>,
    current_time: u64,
    operation: Operation,
    r: Result<OperationOutput, Error>,
) -> bool {
    match operation {
        Operation::CreateMarket { title, end_time } => match r {
            Ok(OperationOutput::MarketCreated { market_id }) => create_market_post(
                pre,
                post,
                caller,
                current_time,
                title,
                end_time,
                Ok(market_id),
            ),
            Err(e) => create_market_post(pre, post, caller, current_time, title, end_time, Err(e)),
            Ok(_) => false,
        },
        Operation::Bet { market_id, outcome, amount } => match r {
            Ok(OperationOutput::BetPlaced) => bet_post(
                pre,
                post,
                caller,
                current_time,
                market_id,
                outcome,
                amount,
                Ok(()),
            ),
            Err(e) => bet_post(pre, post, caller, current_time, market_id, outcome, amount, Err(e)),
            Ok(_) => false,
        },
        Operation::Resolve { market_id, winning_outcome } => match r {
            Ok(OperationOutput::MarketResolved) => resolve_post(
                pre,
                post,
                caller,
                market_id,
                winning_outcome,
                Ok(()),
            ),
            Err(e) => resolve_post(pre, post, caller, market_id, winning_outcome, Err(e)),
            Ok(_) => false,
        },
        Operation::Claim { market_id } => match r {
            Ok(OperationOutput::PayoutComputed { amount }) => claim_post(
                pre,
                post,
                caller,
                market_id,
                Ok(amount),
            ),
            Err(e) => claim_post(pre, post, caller, market_id, Err(e)),
            Ok(_) => false,
        },
    }
}

impl PredictionMarketState {
    /// Create a market whose betting window closes at `end_time`; the
    /// caller becomes its judge. The new market takes the next sequential
    /// identifier, which is returned.
    pub fn create_market(
        &mut self,
        caller: Option<AccountOwner>,
        current_time: u64,
        title: String,
        end_time: u64,
    ) -> (r: Result<u64, Error>)
        requires
            old(self).wf(),
            old(self).markets@.len() < usize::MAX,
        ensures
            final(self).wf(),
            create_market_post(*old(self), *final(self), caller, current_time, title, end_time, r),
    {
        let judge = match caller {
            Some(c) => c,
            None => {
                return Err(Error::Unauthenticated);
            },
        };
        if end_time <= current_time {
            return Err(Error::InvalidDeadline { end_time });
        }
        let market_id = self.next_market_id;
        let market = Market {
            id: market_id,
            title,
            judge,
            end_time,
            total_pool: 0,
            winning_outcome: 0,
            resolved: false,
        };
        self.markets.push(market);
        self.next_market_id = market_id + 1;
        proof {
            let pre = *old(self);
            let n = pre.markets@.len() as int;
            assert(self.markets@ == pre.markets@.push(market));
            assert forall|i: int| 0 <= i < self.markets@.len() implies #[trigger] self.markets@[i].id
                == i by {
                if i < n {
                    assert(self.markets@[i] == pre.markets@[i]);
                }
            }
            assert forall|i: int| 0 <= i < self.markets@.len() implies #[trigger] self.markets@[i].total_pool
                == self.pool.spec_get(i as u64, 0) + self.pool.spec_get(i as u64, 1) by {
                if i < n {
                    assert(self.markets@[i] == pre.markets@[i]);
                } else {
                    assert(pre.pool.spec_get(i as u64, 0) == 0);
                    assert(pre.pool.spec_get(i as u64, 1) == 0);
                }
            }
            assert forall|i: int|
                0 <= i < self.markets@.len() && (#[trigger] self.markets@[i]).resolved implies self.markets@[i].winning_outcome
                <= 1 by {
                if i < n {
                    assert(self.markets@[i] == pre.markets@[i]);
                }
            }
            assert forall|m: u64, o: u64|
                m < self.markets@.len() && !self.markets@[m as int].resolved implies self.bets.spec_sum(
                m,
                o,
            ) == #[trigger] self.pool.spec_get(m, o) by {
                if m < n {
                    assert(self.markets@[m as int] == pre.markets@[m as int]);
                } else {
                    assert(pre.pool.spec_get(m, o) == 0);
                    assert(pre.bets.spec_sum(m, o) == 0);
                }
            }
        }
        Ok(market_id)
    }

    /// Stake `amount` on `outcome` of market `market_id`. The caller's
    /// stake accumulator, the outcome's pool, and the market's total pool
    /// all grow by `amount` together, keeping the pools conserved.
    ///
    /// Stakes are bounded only by the numeric range: the caller must not
    /// push the market's total pool past `u64::MAX`.
    pub fn bet(
        &mut self,
        caller: Option<AccountOwner>,
        current_time: u64,
        market_id: u64,
        outcome: u64,
        amount: u64,
    ) -> (r: Result<(), Error>)
        requires
            old(self).wf(),
            old(self).has_market(market_id) ==> old(self).spec_market(market_id).total_pool
                + amount <= u64::MAX,
        ensures
            final(self).wf(),
            bet_post(*old(self), *final(self), caller, current_time, market_id, outcome, amount, r),
    {
        let bettor = match caller {
            Some(c) => c,
            None => {
                return Err(Error::Unauthenticated);
            },
        };
        if outcome != 0 && outcome != 1 {
            return Err(Error::InvalidOutcome { outcome });
        }
        if amount == 0 {
            return Err(Error::ZeroAmount);
        }
        let n: usize = self.markets.len();
        if market_id >= n as u64 {
            return Err(Error::NotFound { market_id });
        }
        let idx: usize = market_id as usize;
        if current_time >= self.markets[idx].end_time {
            return Err(Error::MarketClosed { market_id });
        }
        if self.markets[idx].resolved {
            return Err(Error::AlreadyResolved { market_id });
        }
        proof {
            lemma_bet_value_le_sum(self.bets.entries@, market_id, bettor, outcome);
            assert(self.bets.spec_sum(market_id, outcome) <= self.pool.spec_get(market_id, outcome));
            assert(self.markets@[market_id as int].total_pool == self.pool.spec_get(market_id, 0)
                + self.pool.spec_get(market_id, 1));
        }
        self.bets.deposit(market_id, bettor, outcome, amount);
        self.pool.deposit(market_id, outcome, amount);
        let current = &self.markets[idx];
        let updated = Market {
            id: current.id,
            title: current.title.clone(),
            judge: current.judge,
            end_time: current.end_time,
            total_pool: current.total_pool + amount,
            winning_outcome: current.winning_outcome,
            resolved: current.resolved,
        };
        self.markets.set(idx, updated);
        proof {
            let pre = *old(self);
            let n_ = pre.markets@.len() as int;
            assert(self.markets@ == pre.markets@.update(market_id as int, updated));
            assert(self.spec_market(market_id) =~= (Market {
                total_pool: (pre.spec_market(market_id).total_pool + amount) as u64,
                ..pre.spec_market(market_id)
            }));
            assert forall|i: int| 0 <= i < self.markets@.len() implies #[trigger] self.markets@[i].id
                == i by {
                if i != market_id {
                    assert(self.markets@[i] == pre.markets@[i]);
                }
            }
            assert forall|i: int| 0 <= i < self.markets@.len() implies #[trigger] self.markets@[i].total_pool
                == self.pool.spec_get(i as u64, 0) + self.pool.spec_get(i as u64, 1) by {
                if i == market_id {
                    assert(self.pool.spec_get(market_id, outcome) == pre.pool.spec_get(
                        market_id,
                        outcome,
                    ) + amount);
                    if outcome == 0 {
                        assert(self.pool.spec_get(market_id, 1) == pre.pool.spec_get(market_id, 1));
                    } else {
                        assert(self.pool.spec_get(market_id, 0) == pre.pool.spec_get(market_id, 0));
                    }
                } else {
                    assert(self.markets@[i] == pre.markets@[i]);
                    assert(self.pool.spec_get(i as u64, 0) == pre.pool.spec_get(i as u64, 0));
                    assert(self.pool.spec_get(i as u64, 1) == pre.pool.spec_get(i as u64, 1));
                }
            }
            assert forall|i: int|
                0 <= i < self.markets@.len() && (#[trigger] self.markets@[i]).resolved implies self.markets@[i].winning_outcome
                <= 1 by {
                if i != market_id {
                    assert(self.markets@[i] == pre.markets@[i]);
                }
            }
            assert forall|m: u64, o: u64| self.bets.spec_sum(m, o) <= #[trigger] self.pool.spec_get(
                m,
                o,
            ) by {
                assert(pre.bets.spec_sum(m, o) <= pre.pool.spec_get(m, o));
                if m == market_id && o == outcome {
                    assert(self.bets.spec_sum(m, o) == pre.bets.spec_sum(m, o) + amount);
                    assert(self.pool.spec_get(m, o) == pre.pool.spec_get(m, o) + amount);
                } else {
                    assert(self.bets.spec_sum(m, o) == pre.bets.spec_sum(m, o));
                    assert(self.pool.spec_get(m, o) == pre.pool.spec_get(m, o));
                }
            }
            assert forall|m: u64, o: u64|
                m < self.markets@.len() && !self.markets@[m as int].resolved implies self.bets.spec_sum(
                m,
                o,
            ) == #[trigger] self.pool.spec_get(m, o) by {
                if m == market_id {
                    assert(!pre.spec_market(market_id).resolved);
                    assert(pre.bets.spec_sum(m, o) == pre.pool.spec_get(m, o));
                } else {
                    assert(self.markets@[m as int] == pre.markets@[m as int]);
                    assert(pre.bets.spec_sum(m, o) == pre.pool.spec_get(m, o));
                    assert(self.bets.spec_sum(m, o) == pre.bets.spec_sum(m, o));
                    assert(self.pool.spec_get(m, o) == pre.pool.spec_get(m, o));
                }
            }
            assert forall|m: u64, o: u64| m >= self.markets@.len() implies #[trigger] self.pool.spec_get(
                m,
                o,
            ) == 0 by {
                assert(pre.pool.spec_get(m, o) == 0);
                assert(self.pool.spec_get(m, o) == pre.pool.spec_get(m, o));
            }
            assert forall|m: u64, o: u64| m >= self.markets@.len() implies #[trigger] self.bets.spec_sum(
                m,
                o,
            ) == 0 by {
                assert(pre.bets.spec_sum(m, o) == 0);
                assert(self.bets.spec_sum(m, o) == pre.bets.spec_sum(m, o));
            }
        }
        Ok(())
    }

    /// Declare `winning_outcome` for market `market_id`: the one-time,
    /// irreversible transition from open to resolved. Only the market's
    /// judge may do this. The judge may resolve before the nominal end
    /// time; no time check is made here.
    pub fn resolve(
        &mut self,
        caller: Option<AccountOwner>,
        market_id: u64,
        winning_outcome: u64,
    ) -> (r: Result<(), Error>)
        requires
            old(self).wf(),
        ensures
            final(self).wf(),
            resolve_post(*old(self), *final(self), caller, market_id, winning_outcome, r),
    {
        let sender = match caller {
            Some(c) => c,
            None => {
                return Err(Error::Unauthenticated);
            },
        };
        let n: usize = self.markets.len();
        if market_id >= n as u64 {
            return Err(Error::NotFound { market_id });
        }
        let idx: usize = market_id as usize;
        if sender != self.markets[idx].judge {
            return Err(Error::NotAuthorized { market_id });
        }
        if self.markets[idx].resolved {
            return Err(Error::AlreadyResolved { market_id });
        }
        if winning_outcome != 0 && winning_outcome != 1 {
            return Err(Error::InvalidOutcome { outcome: winning_outcome });
        }
        let current = &self.markets[idx];
        let updated = Market {
            id: current.id,
            title: current.title.clone(),
            judge: current.judge,
            end_time: current.end_time,
            total_pool: current.total_pool,
            winning_outcome,
            resolved: true,
        };
        self.markets.set(idx, updated);
        proof {
            let pre = *old(self);
            assert(self.markets@ == pre.markets@.update(market_id as int, updated));
            assert(self.spec_market(market_id) =~= (Market {
                winning_outcome: winning_outcome,
                resolved: true,
                ..pre.spec_market(market_id)
            }));
            assert forall|i: int| 0 <= i < self.markets@.len() implies #[trigger] self.markets@[i].id
                == i by {
                if i != market_id {
                    assert(self.markets@[i] == pre.markets@[i]);
                }
            }
            assert forall|i: int| 0 <= i < self.markets@.len() implies #[trigger] self.markets@[i].total_pool
                == self.pool.spec_get(i as u64, 0) + self.pool.spec_get(i as u64, 1) by {
                if i != market_id {
                    assert(self.markets@[i] == pre.markets@[i]);
                }
            }
            assert forall|i: int|
                0 <= i < self.markets@.len() && (#[trigger] self.markets@[i]).resolved implies self.markets@[i].winning_outcome
                <= 1 by {
                if i != market_id {
                    assert(self.markets@[i] == pre.markets@[i]);
                }
            }
            assert forall|m: u64, o: u64|
                m < self.markets@.len() && !self.markets@[m as int].resolved implies self.bets.spec_sum(
                m,
                o,
            ) == #[trigger] self.pool.spec_get(m, o) by {
                if m != market_id {
                    assert(self.markets@[m as int] == pre.markets@[m as int]);
                }
            }
        }
        Ok(())
    }

    /// Convert the caller's stake on the winning outcome of a resolved
    /// market into its payout entitlement, and zero that stake so a second
    /// claim finds nothing. The payout is `floor(user_bet * total_pool /
    /// winning_pool)`, computed in 128-bit width so the product cannot
    /// overflow. The explicit zero-winning-pool guard in the body is proven
    /// unreachable from well-formed stores, so no `InvalidPoolState` error
    /// can actually be observed.
    pub fn claim(&mut self, caller: Option<AccountOwner>, market_id: u64) -> (r: Result<
        u64,
        Error,
    >)
        requires
            old(self).wf(),
        ensures
            final(self).wf(),
            claim_post(*old(self), *final(self), caller, market_id, r),
    {
        let sender = match caller {
            Some(c) => c,
            None => {
                return Err(Error::Unauthenticated);
            },
        };
        let n: usize = self.markets.len();
        if market_id >= n as u64 {
            return Err(Error::NotFound { market_id });
        }
        let idx: usize = market_id as usize;
        if !self.markets[idx].resolved {
            return Err(Error::NotResolved { market_id });
        }
        let winning = self.markets[idx].winning_outcome;
        let user_bet = self.bets.get(market_id, sender, winning);
        if user_bet == 0 {
            return Err(Error::NothingToClaim { market_id });
        }
        let winning_pool = self.pool.get(market_id, winning);
        if winning_pool == 0 {
            proof {
                lemma_bet_value_le_sum(self.bets.entries@, market_id, sender, winning);
                assert(self.bets.spec_sum(market_id, winning) <= self.pool.spec_get(
                    market_id,
                    winning,
                ));
                assert(false);
            }
            return Err(Error::InvalidPoolState { market_id });
        }
        let total = self.markets[idx].total_pool;
        proof {
            lemma_bet_value_le_sum(self.bets.entries@, market_id, sender, winning);
            assert(self.bets.spec_sum(market_id, winning) <= self.pool.spec_get(
                market_id,
                winning,
            ));
            assert(user_bet <= winning_pool);
            assert((user_bet as int) * (total as int) <= (u64::MAX as int) * (u64::MAX as int))
                by (nonlinear_arith)
                requires
                    user_bet <= u64::MAX,
                    total <= u64::MAX,
            ;
            assert((u64::MAX as int) * (u64::MAX as int) < u128::MAX as int) by (nonlinear_arith);
        }
        let product: u128 = (user_bet as u128) * (total as u128);
        let quotient: u128 = product / (winning_pool as u128);
        proof {
            lemma_mul_inequality(user_bet as int, winning_pool as int, total as int);
            lemma_div_is_ordered(
                (user_bet as int) * (total as int),
                (winning_pool as int) * (total as int),
                winning_pool as int,
            );
            lemma_div_multiples_vanish(total as int, winning_pool as int);
            assert(quotient <= total);
        }
        let payout: u64 = quotient as u64;
        self.bets.zero(market_id, sender, winning);
        proof {
            let pre = *old(self);
            assert forall|m: u64, o: u64| self.bets.spec_sum(m, o) <= #[trigger] self.pool.spec_get(
                m,
                o,
            ) by {
                assert(pre.bets.spec_sum(m, o) <= pre.pool.spec_get(m, o));
                if m == market_id && o == winning {
                    assert(self.bets.spec_sum(m, o) == pre.bets.spec_sum(m, o) - user_bet);
                } else {
                    assert(self.bets.spec_sum(m, o) == pre.bets.spec_sum(m, o));
                }
            }
            assert forall|m: u64, o: u64|
                m < self.markets@.len() && !self.markets@[m as int].resolved implies self.bets.spec_sum(
                m,
                o,
            ) == #[trigger] self.pool.spec_get(m, o) by {
                assert(self.markets@ == pre.markets@);
                if m == market_id {
                    assert(self.markets@[m as int].resolved);
                } else {
                    assert(self.bets.spec_sum(m, o) == pre.bets.spec_sum(m, o));
                    assert(pre.bets.spec_sum(m, o) == pre.pool.spec_get(m, o));
                }
            }
            assert forall|m: u64, o: u64| m >= self.markets@.len() implies #[trigger] self.bets.spec_sum(
                m,
                o,
            ) == 0 by {
                if m == market_id && o == winning {
                } else {
                    assert(self.bets.spec_sum(m, o) == pre.bets.spec_sum(m, o));
                    assert(pre.bets.spec_sum(m, o) == 0);
                }
            }
        }
        Ok(payout)
    }

    /// Dispatch one external operation to its component. Exactly one
    /// component runs; the operation either applies all of its mutations
    /// or none, and the result carries the operation's declared output.
    pub fn execute_operation(
        &mut self,
        caller: Option<AccountOwner>,
        current_time: u64,
        operation: Operation,
    ) -> (r: Result<OperationOutput, Error>)
        requires
            old(self).wf(),
            operation matches Operation::CreateMarket { .. } ==> old(self).markets@.len()
                < usize::MAX,
            operation matches Operation::Bet { market_id, amount, .. } ==> (old(self).has_market(
                market_id,
            ) ==> old(self).spec_market(market_id).total_pool + amount <= u64::MAX),
        ensures
            final(self).wf(),
            operation_post(*old(self), *final(self), caller, current_time, operation, r),
    {
        match operation {
            Operation::CreateMarket { title, end_time } => {
                match self.create_market(caller, current_time, title, end_time) {
                    Ok(market_id) => Ok(OperationOutput::MarketCreated { market_id }),
                    Err(e) => Err(e),
                }
            },
            Operation::Bet { market_id, outcome, amount } => {
                match self.bet(caller, current_time, market_id, outcome, amount) {
                    Ok(_) => Ok(OperationOutput::BetPlaced),
                    Err(e) => Err(e),
                }
            },
            Operation::Resolve { market_id, winning_outcome } => {
                match self.resolve(caller, market_id, winning_outcome) {
                    Ok(_) => Ok(OperationOutput::MarketResolved),
                    Err(e) => Err(e),
                }
            },
            Operation::Claim { market_id } => {
                match self.claim(caller, market_id) {
                    Ok(amount) => Ok(OperationOutput::PayoutComputed { amount }),
                    Err(e) => Err(e),
                }
            },
        }
    }
}

/// Pool conservation: in every well-formed store, a market's total pool is
/// exactly the sum of its two outcome pools, and each outcome pool bounds
/// the summed individual stakes on it — with equality while the market is
/// unresolved. After resolution a successful claim consumes a stake without
/// shrinking the frozen pool, so for resolved markets only the bound holds.
pub proof fn lemma_pool_conservation(s: PredictionMarketState, market_id: u64)
    requires
        s.wf(),
        s.has_market(market_id),
    ensures
        s.spec_market(market_id).total_pool == s.pool.spec_get(market_id, 0) + s.pool.spec_get(
            market_id,
            1,
        ),
        forall|o: u64| #[trigger] s.bets.spec_sum(market_id, o) <= s.pool.spec_get(market_id, o),
        !s.spec_market(market_id).resolved ==> forall|o: u64| #[trigger] s.bets.spec_sum(
            market_id,
            o,
        ) == s.pool.spec_get(market_id, o),
{
    assert(s.markets@[market_id as int].total_pool == s.pool.spec_get(market_id, 0)
        + s.pool.spec_get(market_id, 1));
}

/// Monotonic identifiers: two successive successful CreateMarket calls
/// hand out consecutive identifiers, the first being the store's counter —
/// 0 on a fresh store. Bet, Resolve and Claim never change the counter, so
/// identifiers assigned across any run of operations are strictly
/// increasing by 1 from 0.
pub proof fn lemma_monotonic_identifiers(
    s0: PredictionMarketState,
    s1: PredictionMarketState,
    s2: PredictionMarketState,
    caller1: Option<AccountOwner>,
    time1: u64,
    title1: String,
    end1: u64,
    id1: u64,
    caller2: Option<AccountOwner>,
    time2: u64,
    title2: String,
    end2: u64,
    id2: u64,
)
    requires
        create_market_post(s0, s1, caller1, time1, title1, end1, Ok(id1)),
        create_market_post(s1, s2, caller2, time2, title2, end2, Ok(id2)),
    ensures
        id1 == s0.next_market_id,
        id2 == id1 + 1,
{
}

/// One-time resolution: once a market is resolved, a second Resolve —
/// even by the judge, with any winning outcome — always fails with
/// `AlreadyResolved` and leaves the store untouched.
pub proof fn lemma_one_time_resolution(
    s: PredictionMarketState,
    post: PredictionMarketState,
    market_id: u64,
    winning_outcome: u64,
    r: Result<(), Error>,
)
    requires
        s.has_market(market_id),
        s.spec_market(market_id).resolved,
        resolve_post(s, post, Some(s.spec_market(market_id).judge), market_id, winning_outcome, r),
    ensures
        r == Result::<(), Error>::Err(Error::AlreadyResolved { market_id }),
        post == s,
{
}

/// No double claim: after a successful Claim, a second Claim by the same
/// identity on the same market always fails with `NothingToClaim` and
/// leaves the store untouched.
pub proof fn lemma_no_double_claim(
    s0: PredictionMarketState,
    s1: PredictionMarketState,
    s2: PredictionMarketState,
    claimant: AccountOwner,
    market_id: u64,
    payout: u64,
    r2: Result<u64, Error>,
)
    requires
        claim_post(s0, s1, Some(claimant), market_id, Ok(payout)),
        claim_post(s1, s2, Some(claimant), market_id, r2),
    ensures
        r2 == Result::<u64, Error>::Err(Error::NothingToClaim { market_id }),
        s2 == s1,
{
    assert(s1.spec_market(market_id) == s0.spec_market(market_id));
    assert(!claim_allowed(s1, Some(claimant), market_id));
}

/// Deadline enforcement for bets: an authenticated bet with valid outcome
/// and positive amount on an existing market still fails with
/// `MarketClosed` whenever the current time has reached the market's end
/// time.
pub proof fn lemma_bet_deadline_enforced(
    s: PredictionMarketState,
    post: PredictionMarketState,
    bettor: AccountOwner,
    current_time: u64,
    market_id: u64,
    outcome: u64,
    amount: u64,
    r: Result<(), Error>,
)
    requires
        bet_post(s, post, Some(bettor), current_time, market_id, outcome, amount, r),
        outcome <= 1,
        amount > 0,
        s.has_market(market_id),
        current_time >= s.spec_market(market_id).end_time,
    ensures
        r == Result::<(), Error>::Err(Error::MarketClosed { market_id }),
        post == s,
{
}

/// Deadline enforcement for creation: an authenticated CreateMarket whose
/// end time does not lie strictly in the future always fails with
/// `InvalidDeadline` and leaves the store untouched.
pub proof fn lemma_create_deadline_enforced(
    s: PredictionMarketState,
    post: PredictionMarketState,
    creator: AccountOwner,
    current_time: u64,
    title: String,
    end_time: u64,
    r: Result<u64, Error>,
)
    requires
        create_market_post(s, post, Some(creator), current_time, title, end_time, r),
        end_time <= current_time,
    ensures
        r == Result::<u64, Error>::Err(Error::InvalidDeadline { end_time }),
        post == s,
{
}

/// Doubling the floor's numerator at most doubles the floor, up to one
/// truncated unit: `(2a)/d` is `2(a/d)` or `2(a/d) + 1`.
proof fn lemma_floor_double(a: int, d: int)
    requires
        0 <= a,
        0 < d,
    ensures
        (2 * a) / d == 2 * (a / d) || (2 * a) / d == 2 * (a / d) + 1,
{
    let q = a / d;
    let rem = a % d;
    lemma_fundamental_div_mod(a, d);
    lemma_mod_bound(a, d);
    if 2 * rem < d {
        assert(2 * a == (2 * q) * d + 2 * rem) by (nonlinear_arith)
            requires
                a == d * q + rem,
        ;
        lemma_fundamental_div_mod_converse_div(2 * a, d, 2 * q, 2 * rem);
    } else {
        assert(2 * a == (2 * q + 1) * d + (2 * rem - d)) by (nonlinear_arith)
            requires
                a == d * q + rem,
        ;
        lemma_fundamental_div_mod_converse_div(2 * a, d, 2 * q + 1, 2 * rem - d);
    }
}

/// Payout proportionality: with the same frozen pools, a claimant staking
/// twice another's stake receives exactly twice the payout, up to one
/// truncated unit.
pub proof fn lemma_payout_ratio(stake: u64, doubled: u64, total_pool: u64, winning_pool: u64)
    requires
        winning_pool > 0,
        doubled == 2 * stake,
    ensures
        spec_payout(doubled, total_pool, winning_pool) == 2 * spec_payout(
            stake,
            total_pool,
            winning_pool,
        ) || spec_payout(doubled, total_pool, winning_pool) == 2 * spec_payout(
            stake,
            total_pool,
            winning_pool,
        ) + 1,
{
    let a = (stake as int) * (total_pool as int);
    assert((doubled as int) * (total_pool as int) == 2 * a) by (nonlinear_arith)
        requires
            doubled == 2 * stake,
            a == (stake as int) * (total_pool as int),
    ;
    assert(0 <= a) by (nonlinear_arith)
        requires
            a == (stake as int) * (total_pool as int),
            0 <= stake,
            0 <= total_pool,
    ;
    lemma_floor_double(a, winning_pool as int);
}

} // verus!
