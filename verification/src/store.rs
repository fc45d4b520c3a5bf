//! In-memory accumulator tables of the entity store: the per-outcome pool
//! totals and the per-bettor stake totals. Both are association lists with
//! unique keys; an absent key reads as 0, matching the lazily created
//! accumulators of the persisted layout.

use vstd::prelude::*;

use crate::state::AccountOwner;

verus! {

/// One pool accumulator: the total stake placed on `outcome` of market
/// `market_id`.
#[derive(Clone, Copy, PartialEq, Eq, Structural)]
pub struct PoolEntry {
    pub market_id: u64,
    pub outcome: u64,
    pub amount: u64,
}

/// Whether `e` is the accumulator keyed (`market_id`, `outcome`).
pub open spec fn pool_keyed(e: PoolEntry, market_id: u64, outcome: u64) -> bool {
    e.market_id == market_id && e.outcome == outcome
}

/// At most one accumulator per (market, outcome) key.
pub open spec fn pool_entries_unique(s: Seq<PoolEntry>) -> bool {
    forall|i: int, j: int| #![trigger s[i], s[j]]
        0 <= i < j < s.len() ==> !(s[i].market_id == s[j].market_id && s[i].outcome
            == s[j].outcome)
}

/// The value stored under (`market_id`, `outcome`), or 0 when absent.
/// With unique keys the latest matching entry is the only one.
pub open spec fn pool_value(s: Seq<PoolEntry>, market_id: u64, outcome: u64) -> u64
    decreases s.len(),
{
    if s.len() == 0 {
        0
    } else if pool_keyed(s.last(), market_id, outcome) {
        s.last().amount
    } else {
        pool_value(s.drop_last(), market_id, outcome)
    }
}

/// When no entry carries the key, the lookup reads 0.
proof fn lemma_pool_value_absent(s: Seq<PoolEntry>, market_id: u64, outcome: u64)
    requires
        forall|i: int| 0 <= i < s.len() ==> !pool_keyed(#[trigger] s[i], market_id, outcome),
    ensures
        pool_value(s, market_id, outcome) == 0,
    decreases s.len(),
{
    if s.len() > 0 {
        assert(!pool_keyed(s[s.len() - 1], market_id, outcome));
        assert(forall|i: int|
            0 <= i < s.drop_last().len() ==> !pool_keyed(#[trigger] s.drop_last()[i], market_id, outcome));
        lemma_pool_value_absent(s.drop_last(), market_id, outcome);
    }
}

/// With unique keys, the lookup reads the matching entry's amount.
proof fn lemma_pool_value_at(s: Seq<PoolEntry>, i: int, market_id: u64, outcome: u64)
    requires
        pool_entries_unique(s),
        0 <= i < s.len(),
        pool_keyed(s[i], market_id, outcome),
    ensures
        pool_value(s, market_id, outcome) == s[i].amount,
    decreases s.len(),
{
    if i == s.len() - 1 {
        assert(pool_keyed(s.last(), market_id, outcome));
    } else {
        assert(!pool_keyed(s.last(), market_id, outcome));
        assert(pool_entries_unique(s.drop_last()));
        assert(s.drop_last()[i] == s[i]);
        lemma_pool_value_at(s.drop_last(), i, market_id, outcome);
    }
}

/// Appending an entry changes only the lookup under its own key.
proof fn lemma_pool_value_push(s: Seq<PoolEntry>, e: PoolEntry, market_id: u64, outcome: u64)
    ensures
        pool_value(s.push(e), market_id, outcome) == (if pool_keyed(e, market_id, outcome) {
            e.amount
        } else {
            pool_value(s, market_id, outcome)
        }),
{
    assert(s.push(e).drop_last() =~= s);
    assert(s.push(e).last() == e);
}

/// Overwriting an entry with one of the same key changes only the lookup
/// under that key.
proof fn lemma_pool_value_update(
    s: Seq<PoolEntry>,
    i: int,
    e: PoolEntry,
    market_id: u64,
    outcome: u64,
)
    requires
        0 <= i < s.len(),
        e.market_id == s[i].market_id,
        e.outcome == s[i].outcome,
        pool_entries_unique(s),
    ensures
        pool_value(s.update(i, e), market_id, outcome) == (if pool_keyed(
            s[i],
            market_id,
            outcome,
        ) {
            e.amount
        } else {
            pool_value(s, market_id, outcome)
        }),
    decreases s.len(),
{
    let t = s.update(i, e);
    if i == s.len() - 1 {
        assert(t.last() == e);
        assert(t.drop_last() =~= s.drop_last());
    } else {
        assert(t.last() == s.last());
        assert(t.drop_last() =~= s.drop_last().update(i, e));
        assert(pool_entries_unique(s.drop_last()));
        assert(s.drop_last()[i] == s[i]);
        if pool_keyed(s.last(), market_id, outcome) {
            assert(!pool_keyed(s[i], market_id, outcome));
        } else {
            lemma_pool_value_update(s.drop_last(), i, e, market_id, outcome);
        }
    }
}

/// The (market, outcome) -> accumulated-stake table. An absent key reads
/// as 0; entries are created on first write and never removed.
pub struct PoolTable {
    pub entries: Vec<PoolEntry>,
}

impl PoolTable {
    /// Keys are unique, so each accumulator is a single entry.
    pub open spec fn wf(self) -> bool {
        pool_entries_unique(self.entries@)
    }

    /// The accumulated stake on `outcome` of `market_id`; 0 when absent.
    pub open spec fn spec_get(self, market_id: u64, outcome: u64) -> u64 {
        pool_value(self.entries@, market_id, outcome)
    }

    /// A table with no accumulators: every key reads 0.
    pub fn empty() -> (t: Self)
        ensures
            t.wf(),
            forall|m: u64, o: u64| #[trigger] t.spec_get(m, o) == 0,
            t.entries@.len() == 0,
    {
        PoolTable { entries: Vec::new() }
    }

    /// The index of the entry keyed (`market_id`, `outcome`), when present.
    fn find(&self, market_id: u64, outcome: u64) -> (r: Option<usize>)
        ensures
            match r {
                Some(i) => i < self.entries@.len() && pool_keyed(
                    self.entries@[i as int],
                    market_id,
                    outcome,
                ),
                None => forall|j: int|
                    0 <= j < self.entries@.len() ==> !pool_keyed(
                        #[trigger] self.entries@[j],
                        market_id,
                        outcome,
                    ),
            },
    {
        let n: usize = self.entries.len();
        let mut k: usize = 0;
        while k < n
            invariant
                n == self.entries@.len(),
                0 <= k <= n,
                forall|j: int|
                    0 <= j < k ==> !pool_keyed(#[trigger] self.entries@[j], market_id, outcome),
            decreases n - k,
        {
            let e = self.entries[k];
            if e.market_id == market_id && e.outcome == outcome {
                return Some(k);
            }
            k += 1;
        }
        None
    }

    /// The accumulated stake on `outcome` of `market_id`; 0 when no bet
    /// was ever placed there.
    pub fn get(&self, market_id: u64, outcome: u64) -> (r: u64)
        requires
            self.wf(),
        ensures
            r == self.spec_get(market_id, outcome),
    {
        match self.find(market_id, outcome) {
            Some(i) => {
                proof {
                    lemma_pool_value_at(self.entries@, i as int, market_id, outcome);
                }
                self.entries[i].amount
            },
            None => {
                proof {
                    lemma_pool_value_absent(self.entries@, market_id, outcome);
                }
                0
            },
        }
    }

    /// Grow the accumulator under (`market_id`, `outcome`) by `amount`,
    /// creating it at 0 first when absent. No other key changes.
    pub fn deposit(&mut self, market_id: u64, outcome: u64, amount: u64)
        requires
            old(self).wf(),
            old(self).spec_get(market_id, outcome) + amount <= u64::MAX,
        ensures
            final(self).wf(),
            final(self).spec_get(market_id, outcome) == old(self).spec_get(market_id, outcome)
                + amount,
            forall|m: u64, o: u64|
                !(m == market_id && o == outcome)
                    ==> final(self).spec_get(m, o) == #[trigger] old(self).spec_get(m, o),
    {
        match self.find(market_id, outcome) {
            Some(i) => {
                proof {
                    lemma_pool_value_at(self.entries@, i as int, market_id, outcome);
                }
                let e = self.entries[i];
                let updated = PoolEntry { market_id: e.market_id, outcome: e.outcome, amount: e.amount + amount };
                self.entries.set(i, updated);
                proof {
                    let s0 = old(self).entries@;
                    assert(self.entries@ == s0.update(i as int, updated));
                    assert forall|m: u64, o: u64| #[trigger] pool_value(self.entries@, m, o) == (
                        if m == market_id && o == outcome {
                            (old(self).spec_get(market_id, outcome) + amount) as u64
                        } else {
                            pool_value(s0, m, o)
                        }) by {
                        lemma_pool_value_update(s0, i as int, updated, m, o);
                    }
                    assert forall|a: int, b: int|
                        0 <= a < b < self.entries@.len() implies !(self.entries@[a].market_id
                        == self.entries@[b].market_id && self.entries@[a].outcome
                        == self.entries@[b].outcome) by {
                        assert(s0[a].market_id == self.entries@[a].market_id && s0[a].outcome
                            == self.entries@[a].outcome);
                        assert(s0[b].market_id == self.entries@[b].market_id && s0[b].outcome
                            == self.entries@[b].outcome);
                    }
                }
            },
            None => {
                proof {
                    lemma_pool_value_absent(self.entries@, market_id, outcome);
                }
                let fresh = PoolEntry { market_id, outcome, amount };
                self.entries.push(fresh);
                proof {
                    let s0 = old(self).entries@;
                    assert(self.entries@ == s0.push(fresh));
                    assert forall|m: u64, o: u64| #[trigger] pool_value(self.entries@, m, o) == (
                        if m == market_id && o == outcome {
                            amount
                        } else {
                            pool_value(s0, m, o)
                        }) by {
                        lemma_pool_value_push(s0, fresh, m, o);
                    }
                    assert forall|a: int, b: int|
                        0 <= a < b < self.entries@.len() implies !(self.entries@[a].market_id
                        == self.entries@[b].market_id && self.entries@[a].outcome
                        == self.entries@[b].outcome) by {
                        if b < s0.len() {
                        } else {
                            assert(self.entries@[b] == fresh);
                            assert(!pool_keyed(s0[a], market_id, outcome));
                        }
                    }
                }
            },
        }
    }
}

/// One stake accumulator: what `owner` has staked on `outcome` of market
/// `market_id`, accumulated across repeated bets.
#[derive(Clone, Copy, PartialEq, Eq, Structural)]
pub struct BetEntry {
    pub market_id: u64,
    pub owner: AccountOwner,
    pub outcome: u64,
    pub amount: u64,
}

/// Whether `e` is the accumulator keyed (`market_id`, `owner`, `outcome`).
pub open spec fn bet_keyed(e: BetEntry, market_id: u64, owner: AccountOwner, outcome: u64) -> bool {
    e.market_id == market_id && e.owner == owner && e.outcome == outcome
}

/// At most one accumulator per (market, bettor, outcome) key.
pub open spec fn bet_entries_unique(s: Seq<BetEntry>) -> bool {
    forall|i: int, j: int| #![trigger s[i], s[j]]
        0 <= i < j < s.len() ==> !(s[i].market_id == s[j].market_id && s[i].owner == s[j].owner
            && s[i].outcome == s[j].outcome)
}

/// The value stored under (`market_id`, `owner`, `outcome`), or 0 when
/// absent. With unique keys the latest matching entry is the only one.
pub open spec fn bet_value(s: Seq<BetEntry>, market_id: u64, owner: AccountOwner, outcome: u64) -> u64
    decreases s.len(),
{
    if s.len() == 0 {
        0
    } else if bet_keyed(s.last(), market_id, owner, outcome) {
        s.last().amount
    } else {
        bet_value(s.drop_last(), market_id, owner, outcome)
    }
}

/// What `e` contributes to the total staked on `outcome` of `market_id`.
pub open spec fn bet_contrib(e: BetEntry, market_id: u64, outcome: u64) -> int {
    if e.market_id == market_id && e.outcome == outcome {
        e.amount as int
    } else {
        0
    }
}

/// The sum of all bettors' stakes on `outcome` of `market_id`.
pub open spec fn bet_group_sum(s: Seq<BetEntry>, market_id: u64, outcome: u64) -> int
    decreases s.len(),
{
    if s.len() == 0 {
        0
    } else {
        bet_group_sum(s.drop_last(), market_id, outcome) + bet_contrib(
            s.last(),
            market_id,
            outcome,
        )
    }
}

/// A sum of stakes is never negative.
proof fn lemma_bet_sum_nonneg(s: Seq<BetEntry>, market_id: u64, outcome: u64)
    ensures
        0 <= bet_group_sum(s, market_id, outcome),
    decreases s.len(),
{
    if s.len() > 0 {
        lemma_bet_sum_nonneg(s.drop_last(), market_id, outcome);
    }
}

/// When no entry carries the key, the lookup reads 0.
proof fn lemma_bet_value_absent(s: Seq<BetEntry>, market_id: u64, owner: AccountOwner, outcome: u64)
    requires
        forall|i: int| 0 <= i < s.len() ==> !bet_keyed(#[trigger] s[i], market_id, owner, outcome),
    ensures
        bet_value(s, market_id, owner, outcome) == 0,
    decreases s.len(),
{
    if s.len() > 0 {
        assert(!bet_keyed(s[s.len() - 1], market_id, owner, outcome));
        assert(forall|i: int|
            0 <= i < s.drop_last().len() ==> !bet_keyed(
                #[trigger] s.drop_last()[i],
                market_id,
                owner,
                outcome,
            ));
        lemma_bet_value_absent(s.drop_last(), market_id, owner, outcome);
    }
}

/// With unique keys, the lookup reads the matching entry's amount.
proof fn lemma_bet_value_at(
    s: Seq<BetEntry>,
    i: int,
    market_id: u64,
    owner: AccountOwner,
    outcome: u64,
)
    requires
        bet_entries_unique(s),
        0 <= i < s.len(),
        bet_keyed(s[i], market_id, owner, outcome),
    ensures
        bet_value(s, market_id, owner, outcome) == s[i].amount,
    decreases s.len(),
{
    if i == s.len() - 1 {
        assert(bet_keyed(s.last(), market_id, owner, outcome));
    } else {
        assert(!bet_keyed(s.last(), market_id, owner, outcome));
        assert(bet_entries_unique(s.drop_last()));
        assert(s.drop_last()[i] == s[i]);
        lemma_bet_value_at(s.drop_last(), i, market_id, owner, outcome);
    }
}

/// Appending an entry changes only the lookup under its own key, and each
/// group sum by the entry's contribution.
proof fn lemma_bet_push(s: Seq<BetEntry>, e: BetEntry, market_id: u64, owner: AccountOwner, outcome: u64)
    ensures
        bet_value(s.push(e), market_id, owner, outcome) == (if bet_keyed(
            e,
            market_id,
            owner,
            outcome,
        ) {
            e.amount
        } else {
            bet_value(s, market_id, owner, outcome)
        }),
        bet_group_sum(s.push(e), market_id, outcome) == bet_group_sum(s, market_id, outcome)
            + bet_contrib(e, market_id, outcome),
{
    assert(s.push(e).drop_last() =~= s);
    assert(s.push(e).last() == e);
}

/// Overwriting an entry with one of the same key changes only the lookup
/// under that key, and each group sum by the difference of contributions.
proof fn lemma_bet_update(
    s: Seq<BetEntry>,
    i: int,
    e: BetEntry,
    market_id: u64,
    owner: AccountOwner,
    outcome: u64,
)
    requires
        0 <= i < s.len(),
        e.market_id == s[i].market_id,
        e.owner == s[i].owner,
        e.outcome == s[i].outcome,
        bet_entries_unique(s),
    ensures
        bet_value(s.update(i, e), market_id, owner, outcome) == (if bet_keyed(
            s[i],
            market_id,
            owner,
            outcome,
        ) {
            e.amount
        } else {
            bet_value(s, market_id, owner, outcome)
        }),
        bet_group_sum(s.update(i, e), market_id, outcome) == bet_group_sum(s, market_id, outcome)
            - bet_contrib(s[i], market_id, outcome) + bet_contrib(e, market_id, outcome),
    decreases s.len(),
{
    let t = s.update(i, e);
    if i == s.len() - 1 {
        assert(t.last() == e);
        assert(t.drop_last() =~= s.drop_last());
    } else {
        assert(t.last() == s.last());
        assert(t.drop_last() =~= s.drop_last().update(i, e));
        assert(bet_entries_unique(s.drop_last()));
        assert(s.drop_last()[i] == s[i]);
        if bet_keyed(s.last(), market_id, owner, outcome) {
            assert(!bet_keyed(s[i], market_id, owner, outcome));
        }
        lemma_bet_update(s.drop_last(), i, e, market_id, owner, outcome);
    }
}

/// One bettor's stake never exceeds the summed stake of its group.
pub proof fn lemma_bet_value_le_sum(
    s: Seq<BetEntry>,
    market_id: u64,
    owner: AccountOwner,
    outcome: u64,
)
    ensures
        bet_value(s, market_id, owner, outcome) <= bet_group_sum(s, market_id, outcome),
    decreases s.len(),
{
    if s.len() > 0 {
        lemma_bet_value_le_sum(s.drop_last(), market_id, owner, outcome);
        lemma_bet_sum_nonneg(s.drop_last(), market_id, outcome);
    }
}

/// The (market, bettor, outcome) -> accumulated-stake table. An absent key
/// reads as 0; entries are created on first write; a claim zeroes one
/// entry's amount but keeps the entry.
pub struct BetTable {
    pub entries: Vec<BetEntry>,
}

impl BetTable {
    /// Keys are unique, so each accumulator is a single entry.
    pub open spec fn wf(self) -> bool {
        bet_entries_unique(self.entries@)
    }

    /// `owner`'s accumulated stake on `outcome` of `market_id`; 0 when
    /// absent.
    pub open spec fn spec_get(self, market_id: u64, owner: AccountOwner, outcome: u64) -> u64 {
        bet_value(self.entries@, market_id, owner, outcome)
    }

    /// The sum of all bettors' stakes on `outcome` of `market_id`.
    pub open spec fn spec_sum(self, market_id: u64, outcome: u64) -> int {
        bet_group_sum(self.entries@, market_id, outcome)
    }

    /// A table with no accumulators: every key reads 0 and every group
    /// sums to 0.
    pub fn empty() -> (t: Self)
        ensures
            t.wf(),
            forall|m: u64, w: AccountOwner, o: u64| #[trigger] t.spec_get(m, w, o) == 0,
            forall|m: u64, o: u64| #[trigger] t.spec_sum(m, o) == 0,
            t.entries@.len() == 0,
    {
        BetTable { entries: Vec::new() }
    }

    /// The index of the entry keyed (`market_id`, `owner`, `outcome`),
    /// when present.
    fn find(&self, market_id: u64, owner: AccountOwner, outcome: u64) -> (r: Option<usize>)
        ensures
            match r {
                Some(i) => i < self.entries@.len() && bet_keyed(
                    self.entries@[i as int],
                    market_id,
                    owner,
                    outcome,
                ),
                None => forall|j: int|
                    0 <= j < self.entries@.len() ==> !bet_keyed(
                        #[trigger] self.entries@[j],
                        market_id,
                        owner,
                        outcome,
                    ),
            },
    {
        let n: usize = self.entries.len();
        let mut k: usize = 0;
        while k < n
            invariant
                n == self.entries@.len(),
                0 <= k <= n,
                forall|j: int|
                    0 <= j < k ==> !bet_keyed(#[trigger] self.entries@[j], market_id, owner, outcome),
            decreases n - k,
        {
            let e = self.entries[k];
            if e.market_id == market_id && e.owner == owner && e.outcome == outcome {
                return Some(k);
            }
            k += 1;
        }
        None
    }

    /// `owner`'s accumulated stake on `outcome` of `market_id`; 0 when no
    /// such bet was ever placed.
    pub fn get(&self, market_id: u64, owner: AccountOwner, outcome: u64) -> (r: u64)
        requires
            self.wf(),
        ensures
            r == self.spec_get(market_id, owner, outcome),
    {
        match self.find(market_id, owner, outcome) {
            Some(i) => {
                proof {
                    lemma_bet_value_at(self.entries@, i as int, market_id, owner, outcome);
                }
                self.entries[i].amount
            },
            None => {
                proof {
                    lemma_bet_value_absent(self.entries@, market_id, owner, outcome);
                }
                0
            },
        }
    }

    /// Grow the accumulator under (`market_id`, `owner`, `outcome`) by
    /// `amount`, creating it at 0 first when absent. No other key changes,
    /// and only the (`market_id`, `outcome`) group sum grows, by `amount`.
    pub fn deposit(&mut self, market_id: u64, owner: AccountOwner, outcome: u64, amount: u64)
        requires
            old(self).wf(),
            old(self).spec_get(market_id, owner, outcome) + amount <= u64::MAX,
        ensures
            final(self).wf(),
            final(self).spec_get(market_id, owner, outcome) == old(self).spec_get(
                market_id,
                owner,
                outcome,
            ) + amount,
            forall|m: u64, w: AccountOwner, o: u64|
                !(m == market_id && w == owner && o == outcome)
                    ==> final(self).spec_get(m, w, o) == #[trigger] old(self).spec_get(m, w, o),
            forall|m: u64, o: u64| final(self).spec_sum(m, o) == #[trigger] old(self).spec_sum(m, o)
                + (if m == market_id && o == outcome {
                    amount as int
                } else {
                    0
                }),
    {
        match self.find(market_id, owner, outcome) {
            Some(i) => {
                proof {
                    lemma_bet_value_at(self.entries@, i as int, market_id, owner, outcome);
                }
                let e = self.entries[i];
                let updated = BetEntry {
                    market_id: e.market_id,
                    owner: e.owner,
                    outcome: e.outcome,
                    amount: e.amount + amount,
                };
                self.entries.set(i, updated);
                proof {
                    let s0 = old(self).entries@;
                    assert(self.entries@ == s0.update(i as int, updated));
                    assert forall|m: u64, w: AccountOwner, o: u64| #[trigger] bet_value(
                        self.entries@,
                        m,
                        w,
                        o,
                    ) == (if m == market_id && w == owner && o == outcome {
                        (old(self).spec_get(market_id, owner, outcome) + amount) as u64
                    } else {
                        bet_value(s0, m, w, o)
                    }) by {
                        lemma_bet_update(s0, i as int, updated, m, w, o);
                    }
                    assert forall|m: u64, o: u64| #[trigger] bet_group_sum(self.entries@, m, o)
                        == bet_group_sum(s0, m, o) + (if m == market_id && o == outcome {
                        amount as int
                    } else {
                        0
                    }) by {
                        lemma_bet_update(s0, i as int, updated, m, owner, o);
                    }
                    assert forall|a: int, b: int|
                        0 <= a < b < self.entries@.len() implies !(self.entries@[a].market_id
                        == self.entries@[b].market_id && self.entries@[a].owner
                        == self.entries@[b].owner && self.entries@[a].outcome
                        == self.entries@[b].outcome) by {
                        assert(s0[a].market_id == self.entries@[a].market_id && s0[a].owner
                            == self.entries@[a].owner && s0[a].outcome == self.entries@[a].outcome);
                        assert(s0[b].market_id == self.entries@[b].market_id && s0[b].owner
                            == self.entries@[b].owner && s0[b].outcome == self.entries@[b].outcome);
                    }
                }
            },
            None => {
                proof {
                    lemma_bet_value_absent(self.entries@, market_id, owner, outcome);
                }
                let fresh = BetEntry { market_id, owner, outcome, amount };
                self.entries.push(fresh);
                proof {
                    let s0 = old(self).entries@;
                    assert(self.entries@ == s0.push(fresh));
                    assert forall|m: u64, w: AccountOwner, o: u64| #[trigger] bet_value(
                        self.entries@,
                        m,
                        w,
                        o,
                    ) == (if m == market_id && w == owner && o == outcome {
                        amount
                    } else {
                        bet_value(s0, m, w, o)
                    }) by {
                        lemma_bet_push(s0, fresh, m, w, o);
                    }
                    assert forall|m: u64, o: u64| #[trigger] bet_group_sum(self.entries@, m, o)
                        == bet_group_sum(s0, m, o) + (if m == market_id && o == outcome {
                        amount as int
                    } else {
                        0
                    }) by {
                        lemma_bet_push(s0, fresh, m, owner, o);
                    }
                    assert forall|a: int, b: int|
                        0 <= a < b < self.entries@.len() implies !(self.entries@[a].market_id
                        == self.entries@[b].market_id && self.entries@[a].owner
                        == self.entries@[b].owner && self.entries@[a].outcome
                        == self.entries@[b].outcome) by {
                        if b < s0.len() {
                        } else {
                            assert(self.entries@[b] == fresh);
                            assert(!bet_keyed(s0[a], market_id, owner, outcome));
                        }
                    }
                }
            },
        }
    }

    /// Consume the accumulator under (`market_id`, `owner`, `outcome`):
    /// its amount drops to 0 and the group sum shrinks by exactly that
    /// amount. No other key changes.
    pub fn zero(&mut self, market_id: u64, owner: AccountOwner, outcome: u64)
        requires
            old(self).wf(),
        ensures
            final(self).wf(),
            final(self).spec_get(market_id, owner, outcome) == 0,
            forall|m: u64, w: AccountOwner, o: u64|
                !(m == market_id && w == owner && o == outcome)
                    ==> final(self).spec_get(m, w, o) == #[trigger] old(self).spec_get(m, w, o),
            forall|m: u64, o: u64| final(self).spec_sum(m, o) == #[trigger] old(self).spec_sum(m, o)
                - (if m == market_id && o == outcome {
                    old(self).spec_get(market_id, owner, outcome) as int
                } else {
                    0
                }),
    {
        match self.find(market_id, owner, outcome) {
            Some(i) => {
                proof {
                    lemma_bet_value_at(self.entries@, i as int, market_id, owner, outcome);
                }
                let e = self.entries[i];
                let updated = BetEntry {
                    market_id: e.market_id,
                    owner: e.owner,
                    outcome: e.outcome,
                    amount: 0,
                };
                self.entries.set(i, updated);
                proof {
                    let s0 = old(self).entries@;
                    assert(self.entries@ == s0.update(i as int, updated));
                    assert forall|m: u64, w: AccountOwner, o: u64| #[trigger] bet_value(
                        self.entries@,
                        m,
                        w,
                        o,
                    ) == (if m == market_id && w == owner && o == outcome {
                        0u64
                    } else {
                        bet_value(s0, m, w, o)
                    }) by {
                        lemma_bet_update(s0, i as int, updated, m, w, o);
                    }
                    assert forall|m: u64, o: u64| #[trigger] bet_group_sum(self.entries@, m, o)
                        == bet_group_sum(s0, m, o) - (if m == market_id && o == outcome {
                        old(self).spec_get(market_id, owner, outcome) as int
                    } else {
                        0
                    }) by {
                        lemma_bet_update(s0, i as int, updated, m, owner, o);
                    }
                    assert forall|a: int, b: int|
                        0 <= a < b < self.entries@.len() implies !(self.entries@[a].market_id
                        == self.entries@[b].market_id && self.entries@[a].owner
                        == self.entries@[b].owner && self.entries@[a].outcome
                        == self.entries@[b].outcome) by {
                        assert(s0[a].market_id == self.entries@[a].market_id && s0[a].owner
                            == self.entries@[a].owner && s0[a].outcome == self.entries@[a].outcome);
                        assert(s0[b].market_id == self.entries@[b].market_id && s0[b].owner
                            == self.entries@[b].owner && s0[b].outcome == self.entries@[b].outcome);
                    }
                }
            },
            None => {
                proof {
                    lemma_bet_value_absent(self.entries@, market_id, owner, outcome);
                }
            },
        }
    }
}

} // verus!
