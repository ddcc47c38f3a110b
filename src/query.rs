//! Read-only queries over the ledger.
use crate::market::{Market, UserStake};
use crate::state::{AionState, StakeRecord};
use vstd::prelude::*;

verus! {

/// Platform-wide aggregates, taken from one snapshot of the ledger.
#[derive(Debug, Clone, Copy, PartialEq, Eq, Structural)]
pub struct PlatformStatistics {
    pub total_markets: usize,
    pub active_markets: usize,
    pub resolved_markets: usize,
    pub total_value_locked: u128,
    pub total_users: usize,
}

/// Markets of category `category`, in registry order.
pub open spec fn in_category(ms: Seq<Market>, category: Seq<char>) -> Seq<Market> {
    ms.filter(|m: Market| m.category@ == category)
}

/// Markets not yet resolved, in registry order.
pub open spec fn unresolved(ms: Seq<Market>) -> Seq<Market> {
    ms.filter(|m: Market| !m.resolved)
}

/// The (market id, amount) positions held by `user`, in stake-book order.
pub open spec fn positions_of(ss: Seq<StakeRecord>, user: Seq<char>) -> Seq<(String, u128)>
    decreases ss.len(),
{
    if ss.len() == 0 {
        Seq::empty()
    } else {
        let rest = positions_of(ss.drop_last(), user);
        if ss.last().user@ == user {
            rest.push((ss.last().market_id, ss.last().stake.amount))
        } else {
            rest
        }
    }
}

/// The users named in the records `ss`.
pub open spec fn users_of(ss: Seq<StakeRecord>) -> Set<Seq<char>> {
    ss.map_values(|r: StakeRecord| r.user@).to_set()
}

impl AionState {
    /// A copy of market `market_id`, if it exists.
    pub fn get_market(&self, market_id: &String) -> (r: Option<Market>)
        requires
            self.wf(),
        ensures
            r == if self.has_market(market_id@) {
                Some(self.market(market_id@))
            } else {
                None::<Market>
            },
    {
        match self.find_market(market_id) {
            Some(i) => Some(self.markets[i].snapshot()),
            None => None,
        }
    }

    /// The stake of `user` in market `market_id`, if any.
    pub fn get_user_stake(&self, market_id: &String, user: &String) -> (r: Option<UserStake>)
        requires
            self.wf(),
        ensures
            r == if self.has_stake(market_id@, user@) {
                Some(self.stake_of(market_id@, user@))
            } else {
                None::<UserStake>
            },
    {
        match self.find_stake(market_id, user) {
            Some(k) => Some(self.stakes[k].stake),
            None => None,
        }
    }

    /// Copies of all markets, in registry order.
    pub fn get_all_markets(&self) -> (r: Vec<Market>)
        ensures
            r@ == self.markets@,
    {
        let mut out: Vec<Market> = Vec::new();
        let mut i: usize = 0;
        while i < self.markets.len()
            invariant
                i <= self.markets@.len(),
                out@ == self.markets@.subrange(0, i as int),
            decreases self.markets@.len() - i,
        {
            out.push(self.markets[i].snapshot());
            i += 1;
            assert(out@ =~= self.markets@.subrange(0, i as int));
        }
        assert(out@ =~= self.markets@);
        out
    }

    /// Copies of the markets of category `category`, in registry order.
    pub fn get_markets_by_category(&self, category: &String) -> (r: Vec<Market>)
        ensures
            r@ == in_category(self.markets@, category@),
    {
        let mut out: Vec<Market> = Vec::new();
        let mut i: usize = 0;
        while i < self.markets.len()
            invariant
                i <= self.markets@.len(),
                out@ == in_category(self.markets@.subrange(0, i as int), category@),
            decreases self.markets@.len() - i,
        {
            proof {
                assert(self.markets@.subrange(0, i as int + 1) =~= self.markets@.subrange(
                    0,
                    i as int,
                ).push(self.markets@[i as int]));
                self.markets@.subrange(0, i as int).lemma_filter_push(
                    self.markets@[i as int],
                    |m: Market| m.category@ == category@,
                );
            }
            if self.markets[i].category == *category {
                out.push(self.markets[i].snapshot());
            }
            i += 1;
        }
        assert(self.markets@.subrange(0, self.markets@.len() as int) =~= self.markets@);
        out
    }

    /// The positions of `user` across all markets, as (market id, amount).
    pub fn get_user_stakes(&self, user: &String) -> (r: Vec<(String, u128)>)
        ensures
            r@ == positions_of(self.stakes@, user@),
    {
        let mut out: Vec<(String, u128)> = Vec::new();
        let mut k: usize = 0;
        while k < self.stakes.len()
            invariant
                k <= self.stakes@.len(),
                out@ == positions_of(self.stakes@.subrange(0, k as int), user@),
            decreases self.stakes@.len() - k,
        {
            proof {
                assert(self.stakes@.subrange(0, k as int + 1).drop_last() =~= self.stakes@.subrange(
                    0,
                    k as int,
                ));
            }
            if self.stakes[k].user == *user {
                out.push((self.stakes[k].market_id.clone(), self.stakes[k].stake.amount));
            }
            k += 1;
        }
        assert(self.stakes@.subrange(0, self.stakes@.len() as int) =~= self.stakes@);
        out
    }

    /// Counts of markets by state, the value locked, and how many distinct
    /// users hold a stake.
    pub open spec fn statistics_spec(&self) -> PlatformStatistics {
        PlatformStatistics {
            total_markets: self.markets@.len() as usize,
            active_markets: unresolved(self.markets@).len() as usize,
            resolved_markets: (self.markets@.len() - unresolved(self.markets@).len()) as usize,
            total_value_locked: self.total_value_locked,
            total_users: users_of(self.stakes@).len() as usize,
        }
    }

    /// Counts of markets by state, the value locked, and how many distinct
    /// users hold a stake.
    pub fn statistics(&self) -> (r: PlatformStatistics)
        ensures
            r == self.statistics_spec(),
    {
        let mut active: usize = 0;
        let mut i: usize = 0;
        while i < self.markets.len()
            invariant
                i <= self.markets@.len(),
                active == unresolved(self.markets@.subrange(0, i as int)).len(),
                active <= i,
            decreases self.markets@.len() - i,
        {
            proof {
                assert(self.markets@.subrange(0, i as int + 1) =~= self.markets@.subrange(
                    0,
                    i as int,
                ).push(self.markets@[i as int]));
                self.markets@.subrange(0, i as int).lemma_filter_push(
                    self.markets@[i as int],
                    |m: Market| !m.resolved,
                );
            }
            if !self.markets[i].resolved {
                active += 1;
            }
            i += 1;
        }
        assert(self.markets@.subrange(0, self.markets@.len() as int) =~= self.markets@);
        let users = self.distinct_users();
        PlatformStatistics {
            total_markets: self.markets.len(),
            active_markets: active,
            resolved_markets: self.markets.len() - active,
            total_value_locked: self.total_value_locked,
            total_users: users.len(),
        }
    }

    /// Each user holding a stake, once.
    fn distinct_users(&self) -> (r: Vec<String>)
        ensures
            r@.len() == users_of(self.stakes@).len(),
    {
        let mut seen: Vec<String> = Vec::new();
        let mut k: usize = 0;
        while k < self.stakes.len()
            invariant
                k <= self.stakes@.len(),
                seen@.map_values(|s: String| s@).no_duplicates(),
                seen@.map_values(|s: String| s@).to_set() == users_of(
                    self.stakes@.subrange(0, k as int),
                ),
            decreases self.stakes@.len() - k,
        {
            let ghost names = seen@.map_values(|s: String| s@);
            let ghost prefix = self.stakes@.subrange(0, k as int);
            let u = &self.stakes[k].user;
            let mut present = false;
            let mut j: usize = 0;
            while j < seen.len()
                invariant
                    j <= seen@.len(),
                    names == seen@.map_values(|s: String| s@),
                    present <==> exists|t: int| 0 <= t < j && names[t] == u@,
                decreases seen@.len() - j,
            {
                assert(names[j as int] == seen@[j as int]@);
                if seen[j] == *u {
                    present = true;
                }
                j += 1;
            }
            proof {
                assert(self.stakes@.subrange(0, k as int + 1) =~= prefix.push(self.stakes@[k as int]));
                assert(self.stakes@.subrange(0, k as int + 1).map_values(|r: StakeRecord| r.user@)
                    =~= prefix.map_values(|r: StakeRecord| r.user@).push(u@));
            }
            if !present {
                seen.push(u.clone());
                proof {
                    assert(seen@.map_values(|s: String| s@) =~= names.push(u@));
                    assert(!names.contains(u@));
                }
            }
            proof {
                let next = users_of(self.stakes@.subrange(0, k as int + 1));
                assert(next =~= users_of(prefix).insert(u@)) by {
                    prefix.map_values(|r: StakeRecord| r.user@).lemma_push_to_set_commute(u@);
                }
                if present {
                    let t = choose|t: int| 0 <= t < j && names[t] == u@;
                    assert(names.to_set().contains(names[t]));
                    assert(seen@.map_values(|s: String| s@).to_set() =~= next);
                } else {
                    names.lemma_push_to_set_commute(u@);
                }
            }
            k += 1;
        }
        proof {
            assert(self.stakes@.subrange(0, self.stakes@.len() as int) =~= self.stakes@);
            seen@.map_values(|s: String| s@).unique_seq_to_set();
        }
        seen
    }
}

} // verus!
