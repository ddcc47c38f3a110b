//! The ledger: market registry, stake book and the value locked in them.
use crate::error::AionError;
use crate::book::{
    lemma_contribution_le, lemma_market_map_push, lemma_market_map_update, lemma_stake_map_push,
    lemma_stake_map_update, lemma_staked_in_absent, lemma_staked_in_push, lemma_staked_in_update,
};
use crate::market::{compute_reward, reward_error, reward_value, Market, UserStake};
use vstd::prelude::*;

verus! {

/// One entry of the stake book: the position of `user` in market `market_id`.
#[derive(Debug, Clone)]
pub struct StakeRecord {
    pub market_id: String,
    pub user: String,
    pub stake: UserStake,
}

/// What record `r` adds to the staked total of market `id`.
pub open spec fn contribution(r: StakeRecord, id: Seq<char>) -> int {
    if r.market_id@ == id {
        r.stake.amount as int
    } else {
        0
    }
}

/// The sum of all amounts staked in market `id` over the records `ss`.
pub open spec fn staked_in(ss: Seq<StakeRecord>, id: Seq<char>) -> int
    decreases ss.len(),
{
    if ss.len() == 0 {
        0
    } else {
        staked_in(ss.drop_last(), id) + contribution(ss.last(), id)
    }
}

/// `m` with `amount` added to the pool of `side`.
pub open spec fn with_added_stake(m: Market, amount: u128, side: bool) -> Market {
    if side {
        Market { total_stake_yes: (m.total_stake_yes + amount) as u128, ..m }
    } else {
        Market { total_stake_no: (m.total_stake_no + amount) as u128, ..m }
    }
}

/// The ledger: every market, every stake, the value locked and the one
/// identity allowed to resolve markets.
#[derive(Debug)]
pub struct AionState {
    pub markets: Vec<Market>,
    pub stakes: Vec<StakeRecord>,
    pub total_value_locked: u128,
    pub admin: String,
}

impl AionState {
    pub open spec fn has_market(&self, id: Seq<char>) -> bool {
        exists|i: int| 0 <= i < self.markets@.len() && #[trigger] self.markets@[i].id@ == id
    }

    /// Position of market `id` in the registry (meaningful when it exists).
    pub open spec fn market_index(&self, id: Seq<char>) -> int {
        choose|i: int| 0 <= i < self.markets@.len() && #[trigger] self.markets@[i].id@ == id
    }

    pub open spec fn market(&self, id: Seq<char>) -> Market {
        self.markets@[self.market_index(id)]
    }

    pub open spec fn has_stake(&self, id: Seq<char>, user: Seq<char>) -> bool {
        exists|k: int|
            0 <= k < self.stakes@.len() && #[trigger] self.stakes@[k].market_id@ == id
                && self.stakes@[k].user@ == user
    }

    /// Position of the stake of `user` in market `id` (meaningful when it exists).
    pub open spec fn stake_index(&self, id: Seq<char>, user: Seq<char>) -> int {
        choose|k: int|
            0 <= k < self.stakes@.len() && #[trigger] self.stakes@[k].market_id@ == id
                && self.stakes@[k].user@ == user
    }

    pub open spec fn stake_of(&self, id: Seq<char>, user: Seq<char>) -> UserStake {
        self.stakes@[self.stake_index(id, user)].stake
    }

    pub open spec fn markets_unique(&self) -> bool {
        forall|i: int, j: int|
            0 <= i < self.markets@.len() && 0 <= j < self.markets@.len() && i != j
                ==> #[trigger] self.markets@[i].id@ != #[trigger] self.markets@[j].id@
    }

    pub open spec fn stakes_unique(&self) -> bool {
        forall|k: int, l: int|
            0 <= k < self.stakes@.len() && 0 <= l < self.stakes@.len() && k != l
                ==> #[trigger] self.stakes@[k].market_id@ != #[trigger] self.stakes@[l].market_id@
                || self.stakes@[k].user@ != self.stakes@[l].user@
    }

    /// The registry as a map from market id to market.
    pub open spec fn market_map(&self) -> Map<Seq<char>, Market> {
        Map::new(|id: Seq<char>| self.has_market(id), |id: Seq<char>| self.market(id))
    }

    /// The stake book as a map from (market id, user) to that user's stake.
    pub open spec fn stake_map(&self) -> Map<(Seq<char>, Seq<char>), UserStake> {
        Map::new(
            |p: (Seq<char>, Seq<char>)| self.has_stake(p.0, p.1),
            |p: (Seq<char>, Seq<char>)| self.stake_of(p.0, p.1),
        )
    }

    /// The ledger's invariant: ids and (market, user) pairs are unique, every
    /// market is well formed, every stake belongs to a market, a claimed stake
    /// belongs to a resolved market, and each market's two pools add up to the
    /// stakes placed in it.
    pub open spec fn wf(&self) -> bool {
        &&& self.markets_unique()
        &&& self.stakes_unique()
        &&& forall|i: int| 0 <= i < self.markets@.len() ==> (#[trigger] self.markets@[i]).wf()
        &&& forall|k: int|
            0 <= k < self.stakes@.len() ==> self.has_market(#[trigger] self.stakes@[k].market_id@)
        &&& forall|k: int|
            0 <= k < self.stakes@.len() && (#[trigger] self.stakes@[k]).stake.claimed ==> self.market(
                self.stakes@[k].market_id@,
            ).resolved
        &&& forall|i: int|
            0 <= i < self.markets@.len() ==> staked_in(self.stakes@, #[trigger] self.markets@[i].id@)
                == self.markets@[i].total_stake_yes + self.markets@[i].total_stake_no
    }

    /// An empty ledger administered by `admin`.
    pub fn new(admin: String) -> (r: Self)
        ensures
            r.wf(),
            r.markets@.len() == 0,
            r.stakes@.len() == 0,
            r.total_value_locked == 0,
            r.admin == admin,
    {
        AionState { markets: Vec::new(), stakes: Vec::new(), total_value_locked: 0, admin }
    }

    /// In a well-formed ledger the market at position `i` is the one its id names.
    pub proof fn lemma_market_at(&self, i: int)
        requires
            self.markets_unique(),
            0 <= i < self.markets@.len(),
        ensures
            self.has_market(self.markets@[i].id@),
            self.market_index(self.markets@[i].id@) == i,
    {
        let id = self.markets@[i].id@;
        assert(self.has_market(id));
        let j = self.market_index(id);
        assert(self.markets@[j].id@ == id);
    }

    /// In a well-formed ledger the record at position `k` is the one its pair names.
    pub proof fn lemma_stake_at(&self, k: int)
        requires
            self.stakes_unique(),
            0 <= k < self.stakes@.len(),
        ensures
            self.has_stake(self.stakes@[k].market_id@, self.stakes@[k].user@),
            self.stake_index(self.stakes@[k].market_id@, self.stakes@[k].user@) == k,
    {
        let id = self.stakes@[k].market_id@;
        let user = self.stakes@[k].user@;
        assert(self.has_stake(id, user));
        let l = self.stake_index(id, user);
        assert(self.stakes@[l].market_id@ == id);
    }

    /// Looks up the position of market `id`.
    pub(crate) fn find_market(&self, id: &String) -> (r: Option<usize>)
        requires
            self.wf(),
        ensures
            match r {
                Some(i) => i < self.markets@.len() && self.has_market(id@) && i as int
                    == self.market_index(id@),
                None => !self.has_market(id@),
            },
    {
        let mut i: usize = 0;
        while i < self.markets.len()
            invariant
                self.wf(),
                i <= self.markets@.len(),
                forall|j: int| 0 <= j < i ==> #[trigger] self.markets@[j].id@ != id@,
            decreases self.markets@.len() - i,
        {
            if self.markets[i].id == *id {
                proof {
                    self.lemma_market_at(i as int);
                }
                return Some(i);
            }
            i += 1;
        }
        None
    }

    /// Looks up the position of the stake of `user` in market `id`.
    pub(crate) fn find_stake(&self, id: &String, user: &String) -> (r: Option<usize>)
        requires
            self.wf(),
        ensures
            match r {
                Some(k) => k < self.stakes@.len() && self.has_stake(id@, user@) && k as int
                    == self.stake_index(id@, user@),
                None => !self.has_stake(id@, user@),
            },
    {
        let mut k: usize = 0;
        while k < self.stakes.len()
            invariant
                self.wf(),
                k <= self.stakes@.len(),
                forall|l: int|
                    0 <= l < k ==> #[trigger] self.stakes@[l].market_id@ != id@
                        || self.stakes@[l].user@ != user@,
            decreases self.stakes@.len() - k,
        {
            if self.stakes[k].market_id == *id && self.stakes[k].user == *user {
                proof {
                    self.lemma_stake_at(k as int);
                }
                return Some(k);
            }
            k += 1;
        }
        None
    }

    /// The position of `user` in market `id` after staking `amount` on
    /// `prediction`: amounts accumulate, the latest prediction wins.
    pub open spec fn stake_after(&self, id: Seq<char>, user: Seq<char>, amount: u128, prediction: bool) -> UserStake {
        if self.has_stake(id, user) {
            UserStake {
                amount: (self.stake_of(id, user).amount + amount) as u128,
                prediction,
                claimed: false,
            }
        } else {
            UserStake { amount, prediction, claimed: false }
        }
    }

    /// What placing a stake does: the error if one applies, and otherwise the
    /// pool, the user's position and the value locked all grow by `amount`.
    pub open spec fn stake_post(
        pre: AionState,
        id: Seq<char>,
        user: Seq<char>,
        amount: u128,
        prediction: bool,
        post: AionState,
        r: Result<(), AionError>,
    ) -> bool {
        if amount == 0 {
            r == Err::<(), AionError>(AionError::InvalidStakeAmount) && post == pre
        } else if !pre.has_market(id) {
            r == Err::<(), AionError>(AionError::MarketNotFound) && post == pre
        } else if pre.market(id).resolved {
            r == Err::<(), AionError>(AionError::MarketAlreadyResolved) && post == pre
        } else {
            &&& r == Ok::<(), AionError>(())
            &&& pre.market(id).total_stake_yes + pre.market(id).total_stake_no + amount <= u128::MAX
            &&& post.market_map() == pre.market_map().insert(
                id,
                with_added_stake(pre.market(id), amount, prediction),
            )
            &&& post.stake_map() == pre.stake_map().insert(
                (id, user),
                pre.stake_after(id, user, amount, prediction),
            )
            &&& post.total_value_locked == pre.total_value_locked + amount
            &&& post.admin == pre.admin
        }
    }

    /// Stakes `amount` of `user` on `prediction` in market `market_id`.
    pub fn place_stake(&mut self, market_id: String, user: String, amount: u128, prediction: bool) -> (r: Result<(), AionError>)
        requires
            old(self).wf(),
            old(self).total_value_locked + amount <= u128::MAX,
            old(self).has_market(market_id@) ==> old(self).market(market_id@).total_stake_yes
                + old(self).market(market_id@).total_stake_no + amount <= u128::MAX,
        ensures
            final(self).wf(),
            AionState::stake_post(*old(self), market_id@, user@, amount, prediction, *final(self), r),
    {
        if amount == 0 {
            return Err(AionError::InvalidStakeAmount);
        }
        let i = match self.find_market(&market_id) {
            Some(i) => i,
            None => return Err(AionError::MarketNotFound),
        };
        if self.markets[i].resolved {
            return Err(AionError::MarketAlreadyResolved);
        }
        let found = self.find_stake(&market_id, &user);
        let ghost pre = *self;
        let ghost id = market_id@;
        proof {
            pre.lemma_market_at(i as int);
        }
        if prediction {
            let v = self.markets[i].total_stake_yes + amount;
            self.markets[i].total_stake_yes = v;
        } else {
            let v = self.markets[i].total_stake_no + amount;
            self.markets[i].total_stake_no = v;
        }
        let ghost mid = *self;
        proof {
            lemma_market_map_update(&pre, &mid, i as int, with_added_stake(pre.market(id), amount, prediction));
        }
        let ghost st = pre.stake_after(id, user@, amount, prediction);
        proof {
            assert(mid.stakes@ == pre.stakes@);
            assert(mid.stake_map() =~= pre.stake_map());
        }
        match found {
            Some(k) => {
                proof {
                    pre.lemma_stake_at(k as int);
                    lemma_contribution_le(pre.stakes@, k as int, id);
                    lemma_staked_in_update(pre.stakes@, k as int, StakeRecord { stake: st, ..pre.stakes@[k as int] }, id);
                }
                let prev = self.stakes[k].stake.amount;
                self.stakes[k].stake = UserStake { amount: prev + amount, prediction, claimed: false };
                proof {
                    lemma_stake_map_update(&mid, self, k as int, st);
                    assert(self.stakes@ == pre.stakes@.update(k as int, StakeRecord { stake: st, ..pre.stakes@[k as int] }));
                    assert forall|id2: Seq<char>| id2 != id implies staked_in(self.stakes@, id2) == staked_in(pre.stakes@, id2) by {
                        lemma_staked_in_update(pre.stakes@, k as int, StakeRecord { stake: st, ..pre.stakes@[k as int] }, id2);
                    }
                }
            },
            None => {
                let rec = StakeRecord {
                    market_id,
                    user,
                    stake: UserStake { amount, prediction, claimed: false },
                };
                proof {
                    lemma_staked_in_push(pre.stakes@, rec, id);
                }
                self.stakes.push(rec);
                proof {
                    lemma_stake_map_push(&mid, self, rec);
                    assert forall|id2: Seq<char>| id2 != id implies staked_in(self.stakes@, id2) == staked_in(pre.stakes@, id2) by {
                        lemma_staked_in_push(pre.stakes@, rec, id2);
                    }
                }
            },
        }
        self.total_value_locked = self.total_value_locked + amount;
        proof {
            let post = *self;
            assert(post.markets@ == mid.markets@);
            assert(post.market_map() =~= mid.market_map());
            assert(forall|x: Seq<char>| #[trigger] post.has_market(x) == mid.has_market(x));
            assert(post.market_map().contains_key(id));
            assert(post.stake_map() == pre.stake_map().insert((id, user@), st));
            assert forall|j: int| 0 <= j < post.markets@.len() implies staked_in(post.stakes@, #[trigger] post.markets@[j].id@)
                == post.markets@[j].total_stake_yes + post.markets@[j].total_stake_no by {
                if j != i {
                    assert(post.markets@[j] == pre.markets@[j]);
                    assert(pre.markets@[j].id@ != id);
                }
            }
            assert forall|j: int| 0 <= j < post.markets@.len() implies (#[trigger] post.markets@[j]).wf() by {
                if j != i {
                    assert(post.markets@[j] == pre.markets@[j]);
                }
            }
            assert forall|k: int| 0 <= k < post.stakes@.len() implies post.has_market(#[trigger] post.stakes@[k].market_id@) by {
                if k < pre.stakes@.len() {
                    assert(post.stakes@[k].market_id@ == pre.stakes@[k].market_id@);
                    assert(pre.has_market(pre.stakes@[k].market_id@));
                } else {
                    assert(post.stakes@[k].market_id@ == id);
                }
            }
            assert forall|k: int| 0 <= k < post.stakes@.len() && (#[trigger] post.stakes@[k]).stake.claimed implies post.market(
                post.stakes@[k].market_id@).resolved by {
                let x = post.stakes@[k].market_id@;
                assert(k < pre.stakes@.len() && post.stakes@[k] == pre.stakes@[k]);
                assert(pre.has_market(x));
                assert(post.market_map()[x] == post.market(x));
                assert(pre.market_map()[x] == pre.market(x));
            }
        }
        Ok(())
    }

    /// What creating a market does: refuse a taken id or an empty title or
    /// description, otherwise register an unresolved market with empty pools.
    pub open spec fn create_post(
        pre: AionState,
        m: Market,
        post: AionState,
        r: Result<(), AionError>,
    ) -> bool {
        if pre.has_market(m.id@) {
            r == Err::<(), AionError>(AionError::DuplicateMarket) && post == pre
        } else if m.title@.len() == 0 || m.description@.len() == 0 {
            r == Err::<(), AionError>(AionError::InvalidMarketData) && post == pre
        } else {
            &&& r == Ok::<(), AionError>(())
            &&& post.market_map() == pre.market_map().insert(m.id@, m)
            &&& post.stake_map() == pre.stake_map()
            &&& post.total_value_locked == pre.total_value_locked
            &&& post.admin == pre.admin
        }
    }

    /// Registers market `market_id`, created by `creator` at time `now`.
    pub fn create_market(
        &mut self,
        market_id: String,
        title: String,
        description: String,
        category: String,
        event_date: u64,
        creator: String,
        now: u64,
    ) -> (r: Result<(), AionError>)
        requires
            old(self).wf(),
        ensures
            final(self).wf(),
            AionState::create_post(
                *old(self),
                (Market {
                    id: market_id,
                    title,
                    description,
                    category,
                    event_date,
                    creator,
                    total_stake_yes: 0,
                    total_stake_no: 0,
                    resolved: false,
                    outcome: None,
                    created_at: now,
                }),
                *final(self),
                r,
            ),
    {
        if self.find_market(&market_id).is_some() {
            return Err(AionError::DuplicateMarket);
        }
        if title.as_str().is_empty() || description.as_str().is_empty() {
            return Err(AionError::InvalidMarketData);
        }
        let m = Market {
            id: market_id,
            title,
            description,
            category,
            event_date,
            creator,
            total_stake_yes: 0,
            total_stake_no: 0,
            resolved: false,
            outcome: None,
            created_at: now,
        };
        let ghost pre = *self;
        let ghost id = m.id@;
        self.markets.push(m);
        proof {
            let post = *self;
            lemma_market_map_push(&pre, &post, m);
            assert(post.stakes@ == pre.stakes@);
            assert(post.stake_map() =~= pre.stake_map());
            assert forall|k: int| 0 <= k < pre.stakes@.len() implies (#[trigger] pre.stakes@[k]).market_id@ != id by {
                assert(pre.has_market(pre.stakes@[k].market_id@));
            }
            lemma_staked_in_absent(pre.stakes@, id);
            assert forall|k: int| 0 <= k < post.stakes@.len() && (#[trigger] post.stakes@[k]).stake.claimed implies post.market(
                post.stakes@[k].market_id@).resolved by {
                let x = post.stakes@[k].market_id@;
                assert(pre.has_market(x));
                assert(post.market_map()[x] == post.market(x));
                assert(pre.market_map()[x] == pre.market(x));
            }
            assert forall|j: int| 0 <= j < post.markets@.len() implies staked_in(post.stakes@, #[trigger] post.markets@[j].id@)
                == post.markets@[j].total_stake_yes + post.markets@[j].total_stake_no by {
                if j < pre.markets@.len() {
                    assert(post.markets@[j] == pre.markets@[j]);
                }
            }
            assert forall|j: int| 0 <= j < post.markets@.len() implies (#[trigger] post.markets@[j]).wf() by {
                if j < pre.markets@.len() {
                    assert(post.markets@[j] == pre.markets@[j]);
                }
            }
        }
        Ok(())
    }

    /// What resolving a market does: only the admin may, only once, and the
    /// market then holds the outcome for good.
    pub open spec fn resolve_post(
        pre: AionState,
        id: Seq<char>,
        outcome: bool,
        caller: Seq<char>,
        post: AionState,
        r: Result<(), AionError>,
    ) -> bool {
        if caller != pre.admin@ {
            r == Err::<(), AionError>(AionError::Unauthorized) && post == pre
        } else if !pre.has_market(id) {
            r == Err::<(), AionError>(AionError::MarketNotFound) && post == pre
        } else if pre.market(id).resolved {
            r == Err::<(), AionError>(AionError::MarketAlreadyResolved) && post == pre
        } else {
            &&& r == Ok::<(), AionError>(())
            &&& post.market_map() == pre.market_map().insert(
                id,
                Market { resolved: true, outcome: Some(outcome), ..pre.market(id) },
            )
            &&& post.stake_map() == pre.stake_map()
            &&& post.total_value_locked == pre.total_value_locked
            &&& post.admin == pre.admin
        }
    }

    /// Fixes the outcome of market `market_id`, on behalf of `caller`.
    pub fn resolve_market(&mut self, market_id: String, outcome: bool, caller: String) -> (r: Result<(), AionError>)
        requires
            old(self).wf(),
        ensures
            final(self).wf(),
            AionState::resolve_post(*old(self), market_id@, outcome, caller@, *final(self), r),
    {
        if caller != self.admin {
            return Err(AionError::Unauthorized);
        }
        let i = match self.find_market(&market_id) {
            Some(i) => i,
            None => return Err(AionError::MarketNotFound),
        };
        if self.markets[i].resolved {
            return Err(AionError::MarketAlreadyResolved);
        }
        let ghost pre = *self;
        let ghost id = market_id@;
        proof {
            pre.lemma_market_at(i as int);
        }
        self.markets[i].resolved = true;
        self.markets[i].outcome = Some(outcome);
        proof {
            let post = *self;
            assert(post.markets@ == pre.markets@.update(i as int, Market { resolved: true, outcome: Some(outcome), ..pre.market(id) }));
            lemma_market_map_update(&pre, &post, i as int, Market { resolved: true, outcome: Some(outcome), ..pre.market(id) });
            assert(post.stakes@ == pre.stakes@);
            assert(post.stake_map() =~= pre.stake_map());
            assert forall|k: int| 0 <= k < post.stakes@.len() && (#[trigger] post.stakes@[k]).stake.claimed implies post.market(
                post.stakes@[k].market_id@).resolved by {
                let x = post.stakes@[k].market_id@;
                assert(pre.has_market(x));
                assert(post.market_map()[x] == post.market(x));
                assert(pre.market_map()[x] == pre.market(x));
            }
            assert forall|j: int| 0 <= j < post.markets@.len() implies staked_in(post.stakes@, #[trigger] post.markets@[j].id@)
                == post.markets@[j].total_stake_yes + post.markets@[j].total_stake_no by {
                if j != i {
                    assert(post.markets@[j] == pre.markets@[j]);
                }
            }
            assert forall|j: int| 0 <= j < post.markets@.len() implies (#[trigger] post.markets@[j]).wf() by {
                if j != i {
                    assert(post.markets@[j] == pre.markets@[j]);
                }
            }
        }
        Ok(())
    }

    /// The reward `user` could claim now from market `id`, or why none.
    pub open spec fn reward_outcome(&self, id: Seq<char>, user: Seq<char>) -> Result<u128, AionError> {
        if !self.has_market(id) {
            Err(AionError::MarketNotFound)
        } else if !self.market(id).resolved {
            Err(AionError::MarketNotResolved)
        } else if !self.has_stake(id, user) {
            Err(AionError::NoRewardsToClaim)
        } else {
            match reward_error(self.market(id), self.stake_of(id, user)) {
                Some(e) => Err(e),
                None => Ok(reward_value(self.market(id), self.stake_of(id, user)) as u128),
            }
        }
    }

    /// Computes, without claiming it, the reward of `user` in market `market_id`.
    pub fn calculate_reward(&self, market_id: &String, user: &String) -> (r: Result<u128, AionError>)
        requires
            self.wf(),
        ensures
            r == self.reward_outcome(market_id@, user@),
    {
        let i = match self.find_market(market_id) {
            Some(i) => i,
            None => return Err(AionError::MarketNotFound),
        };
        if !self.markets[i].resolved {
            return Err(AionError::MarketNotResolved);
        }
        let k = match self.find_stake(market_id, user) {
            Some(k) => k,
            None => return Err(AionError::NoRewardsToClaim),
        };
        compute_reward(&self.markets[i], &self.stakes[k].stake)
    }

    /// What claiming does: a positive reward is paid once, the stake is
    /// marked claimed and the value locked shrinks by the reward, not below zero.
    pub open spec fn claim_post(
        pre: AionState,
        id: Seq<char>,
        user: Seq<char>,
        post: AionState,
        r: Result<u128, AionError>,
    ) -> bool {
        match pre.reward_outcome(id, user) {
            Err(e) => r == Err::<u128, AionError>(e) && post == pre,
            Ok(v) => if v == 0 {
                r == Err::<u128, AionError>(AionError::NoRewardsToClaim) && post == pre
            } else {
                &&& r == Ok::<u128, AionError>(v)
                &&& post.market_map() == pre.market_map()
                &&& post.stake_map() == pre.stake_map().insert(
                    (id, user),
                    UserStake { claimed: true, ..pre.stake_of(id, user) },
                )
                &&& post.total_value_locked == if pre.total_value_locked >= v {
                    (pre.total_value_locked - v) as u128
                } else {
                    0
                }
                &&& post.admin == pre.admin
            },
        }
    }

    /// Pays out the reward of `user` in market `market_id`, once.
    pub fn claim_rewards(&mut self, market_id: String, user: String) -> (r: Result<u128, AionError>)
        requires
            old(self).wf(),
        ensures
            final(self).wf(),
            AionState::claim_post(*old(self), market_id@, user@, *final(self), r),
    {
        let reward = match self.calculate_reward(&market_id, &user) {
            Ok(v) => v,
            Err(e) => return Err(e),
        };
        if reward == 0 {
            return Err(AionError::NoRewardsToClaim);
        }
        let k = match self.find_stake(&market_id, &user) {
            Some(k) => k,
            None => return Err(AionError::NoRewardsToClaim),
        };
        let ghost pre = *self;
        let ghost id = market_id@;
        proof {
            pre.lemma_stake_at(k as int);
        }
        self.stakes[k].stake.claimed = true;
        self.total_value_locked = self.total_value_locked.saturating_sub(reward);
        proof {
            let post = *self;
            let st = UserStake { claimed: true, ..pre.stake_of(id, user@) };
            lemma_stake_map_update(&pre, &post, k as int, st);
            assert(post.markets@ == pre.markets@);
            assert(post.market_map() =~= pre.market_map());
            assert(forall|x: Seq<char>| #[trigger] post.has_market(x) == pre.has_market(x));
            assert forall|x: Seq<char>| #[trigger] staked_in(post.stakes@, x) == staked_in(pre.stakes@, x) by {
                lemma_staked_in_update(pre.stakes@, k as int, post.stakes@[k as int], x);
                assert(post.stakes@ == pre.stakes@.update(k as int, post.stakes@[k as int]));
            }
            assert forall|j: int| 0 <= j < post.stakes@.len() implies post.has_market(#[trigger] post.stakes@[j].market_id@) by {
                assert(post.stakes@[j].market_id@ == pre.stakes@[j].market_id@);
                assert(pre.has_market(pre.stakes@[j].market_id@));
            }
            assert forall|j: int| 0 <= j < post.stakes@.len() && (#[trigger] post.stakes@[j]).stake.claimed implies post.market(
                post.stakes@[j].market_id@).resolved by {
                assert(post.stakes@[j].market_id@ == pre.stakes@[j].market_id@);
            }
        }
        Ok(reward)
    }
}

} // verus!
