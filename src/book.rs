//! Facts about the stake totals and the map views of the ledger under the
//! edits that its operations make.
use crate::market::{Market, UserStake};
use crate::state::{contribution, staked_in, AionState, StakeRecord};
use vstd::prelude::*;

verus! {

pub proof fn lemma_staked_in_push(ss: Seq<StakeRecord>, r: StakeRecord, id: Seq<char>)
    ensures
        staked_in(ss.push(r), id) == staked_in(ss, id) + contribution(r, id),
{
    assert(ss.push(r).drop_last() =~= ss);
}

pub proof fn lemma_staked_in_update(ss: Seq<StakeRecord>, k: int, r: StakeRecord, id: Seq<char>)
    requires
        0 <= k < ss.len(),
    ensures
        staked_in(ss.update(k, r), id) == staked_in(ss, id) - contribution(ss[k], id)
            + contribution(r, id),
    decreases ss.len(),
{
    if k == ss.len() - 1 {
        assert(ss.update(k, r).drop_last() =~= ss.drop_last());
    } else {
        lemma_staked_in_update(ss.drop_last(), k, r, id);
        assert(ss.update(k, r).drop_last() =~= ss.drop_last().update(k, r));
    }
}

pub proof fn lemma_staked_in_nonneg(ss: Seq<StakeRecord>, id: Seq<char>)
    ensures
        staked_in(ss, id) >= 0,
    decreases ss.len(),
{
    if ss.len() > 0 {
        lemma_staked_in_nonneg(ss.drop_last(), id);
    }
}

/// One record's part never exceeds the market's total.
pub proof fn lemma_contribution_le(ss: Seq<StakeRecord>, k: int, id: Seq<char>)
    requires
        0 <= k < ss.len(),
    ensures
        contribution(ss[k], id) <= staked_in(ss, id),
    decreases ss.len(),
{
    lemma_staked_in_nonneg(ss.drop_last(), id);
    if k < ss.len() - 1 {
        lemma_contribution_le(ss.drop_last(), k, id);
    }
}

/// A market that no record names has nothing staked in it.
pub proof fn lemma_staked_in_absent(ss: Seq<StakeRecord>, id: Seq<char>)
    requires
        forall|k: int| 0 <= k < ss.len() ==> (#[trigger] ss[k]).market_id@ != id,
    ensures
        staked_in(ss, id) == 0,
    decreases ss.len(),
{
    if ss.len() > 0 {
        lemma_staked_in_absent(ss.drop_last(), id);
    }
}

/// Replacing the stake of record `k`, keys kept, replaces one entry of the stake map.
pub proof fn lemma_stake_map_update(pre: &AionState, post: &AionState, k: int, st: UserStake)
    requires
        pre.stakes_unique(),
        0 <= k < pre.stakes@.len(),
        post.stakes@.len() == pre.stakes@.len(),
        forall|j: int| 0 <= j < pre.stakes@.len() && j != k ==> post.stakes@[j] == pre.stakes@[j],
        post.stakes@[k].market_id@ == pre.stakes@[k].market_id@,
        post.stakes@[k].user@ == pre.stakes@[k].user@,
        post.stakes@[k].stake == st,
    ensures
        post.stakes_unique(),
        post.stake_map() == pre.stake_map().insert(
            (pre.stakes@[k].market_id@, pre.stakes@[k].user@),
            st,
        ),
{
    let key = (pre.stakes@[k].market_id@, pre.stakes@[k].user@);
    assert(post.stakes_unique()) by {
        assert forall|a: int, b: int|
            0 <= a < post.stakes@.len() && 0 <= b < post.stakes@.len() && a != b implies #[trigger] post.stakes@[a].market_id@
            != #[trigger] post.stakes@[b].market_id@ || post.stakes@[a].user@ != post.stakes@[b].user@ by {
            assert(pre.stakes@[a].market_id@ == post.stakes@[a].market_id@);
            assert(pre.stakes@[b].market_id@ == post.stakes@[b].market_id@);
        }
    }
    post.lemma_stake_at(k);
    assert forall|p: (Seq<char>, Seq<char>)| #[trigger] post.has_stake(p.0, p.1) == pre.has_stake(p.0, p.1) by {
        if post.has_stake(p.0, p.1) {
            let j = post.stake_index(p.0, p.1);
            assert(pre.stakes@[j].market_id@ == p.0);
        }
        if pre.has_stake(p.0, p.1) {
            let j = pre.stake_index(p.0, p.1);
            assert(post.stakes@[j].market_id@ == p.0);
        }
    }
    assert forall|p: (Seq<char>, Seq<char>)| pre.has_stake(p.0, p.1) && p != key implies #[trigger] post.stake_of(p.0, p.1)
        == pre.stake_of(p.0, p.1) by {
        let j = pre.stake_index(p.0, p.1);
        pre.lemma_stake_at(j);
        assert(j != k);
        assert(post.stakes@[j] == pre.stakes@[j]);
        post.lemma_stake_at(j);
    }
    assert(post.stake_map() =~= pre.stake_map().insert(key, st));
}

/// Appending a record under a new pair adds one entry to the stake map.
pub proof fn lemma_stake_map_push(pre: &AionState, post: &AionState, r: StakeRecord)
    requires
        pre.stakes_unique(),
        !pre.has_stake(r.market_id@, r.user@),
        post.stakes@ == pre.stakes@.push(r),
    ensures
        post.stakes_unique(),
        post.stake_map() == pre.stake_map().insert((r.market_id@, r.user@), r.stake),
{
    let key = (r.market_id@, r.user@);
    let n = pre.stakes@.len() as int;
    assert(post.stakes_unique()) by {
        assert forall|a: int, b: int|
            0 <= a < post.stakes@.len() && 0 <= b < post.stakes@.len() && a != b implies #[trigger] post.stakes@[a].market_id@
            != #[trigger] post.stakes@[b].market_id@ || post.stakes@[a].user@ != post.stakes@[b].user@ by {
            if a == n {
                assert(pre.stakes@[b].market_id@ == post.stakes@[b].market_id@);
            } else if b == n {
                assert(pre.stakes@[a].market_id@ == post.stakes@[a].market_id@);
            } else {
                assert(pre.stakes@[a].market_id@ == post.stakes@[a].market_id@);
            }
        }
    }
    post.lemma_stake_at(n);
    assert forall|p: (Seq<char>, Seq<char>)| #[trigger] post.has_stake(p.0, p.1) == (pre.has_stake(p.0, p.1) || p == key) by {
        if post.has_stake(p.0, p.1) {
            let j = post.stake_index(p.0, p.1);
            if j < n {
                assert(pre.stakes@[j].market_id@ == p.0);
            }
        }
        if pre.has_stake(p.0, p.1) {
            let j = pre.stake_index(p.0, p.1);
            assert(post.stakes@[j].market_id@ == p.0);
        }
    }
    assert forall|p: (Seq<char>, Seq<char>)| pre.has_stake(p.0, p.1) && p != key implies #[trigger] post.stake_of(p.0, p.1)
        == pre.stake_of(p.0, p.1) by {
        let j = pre.stake_index(p.0, p.1);
        assert(pre.stakes@[j].market_id@ == p.0);
        assert(post.stakes@[j] == pre.stakes@[j]);
        post.lemma_stake_at(j);
    }
    assert(post.stake_map() =~= pre.stake_map().insert(key, r.stake));
}

/// Replacing market `i` by one with the same id replaces one entry of the registry map.
pub proof fn lemma_market_map_update(pre: &AionState, post: &AionState, i: int, m: Market)
    requires
        pre.markets_unique(),
        0 <= i < pre.markets@.len(),
        post.markets@ == pre.markets@.update(i, m),
        m.id@ == pre.markets@[i].id@,
    ensures
        post.markets_unique(),
        post.market_map() == pre.market_map().insert(m.id@, m),
        forall|id: Seq<char>| #[trigger] post.has_market(id) == pre.has_market(id),
{
    assert(post.markets_unique()) by {
        assert forall|a: int, b: int|
            0 <= a < post.markets@.len() && 0 <= b < post.markets@.len() && a != b implies #[trigger] post.markets@[a].id@
            != #[trigger] post.markets@[b].id@ by {
            assert(pre.markets@[a].id@ == post.markets@[a].id@);
            assert(pre.markets@[b].id@ == post.markets@[b].id@);
        }
    }
    post.lemma_market_at(i);
    assert forall|id: Seq<char>| #[trigger] post.has_market(id) == pre.has_market(id) by {
        if post.has_market(id) {
            let j = post.market_index(id);
            assert(pre.markets@[j].id@ == id);
        }
        if pre.has_market(id) {
            let j = pre.market_index(id);
            assert(post.markets@[j].id@ == id);
        }
    }
    assert forall|id: Seq<char>| pre.has_market(id) && id != m.id@ implies #[trigger] post.market(id)
        == pre.market(id) by {
        let j = pre.market_index(id);
        pre.lemma_market_at(j);
        post.lemma_market_at(j);
    }
    assert(post.market_map() =~= pre.market_map().insert(m.id@, m));
}

/// Appending a market under a new id adds one entry to the registry map.
pub proof fn lemma_market_map_push(pre: &AionState, post: &AionState, m: Market)
    requires
        pre.markets_unique(),
        !pre.has_market(m.id@),
        post.markets@ == pre.markets@.push(m),
    ensures
        post.markets_unique(),
        post.market_map() == pre.market_map().insert(m.id@, m),
        forall|id: Seq<char>| #[trigger] post.has_market(id) == (pre.has_market(id) || id == m.id@),
{
    let n = pre.markets@.len() as int;
    assert(post.markets_unique()) by {
        assert forall|a: int, b: int|
            0 <= a < post.markets@.len() && 0 <= b < post.markets@.len() && a != b implies #[trigger] post.markets@[a].id@
            != #[trigger] post.markets@[b].id@ by {
            if a == n {
                assert(pre.markets@[b].id@ == post.markets@[b].id@);
            } else if b == n {
                assert(pre.markets@[a].id@ == post.markets@[a].id@);
            }
        }
    }
    post.lemma_market_at(n);
    assert forall|id: Seq<char>| #[trigger] post.has_market(id) == (pre.has_market(id) || id == m.id@) by {
        if post.has_market(id) {
            let j = post.market_index(id);
            if j < n {
                assert(pre.markets@[j].id@ == id);
            }
        }
        if pre.has_market(id) {
            let j = pre.market_index(id);
            assert(post.markets@[j].id@ == id);
        }
    }
    assert forall|id: Seq<char>| pre.has_market(id) && id != m.id@ implies #[trigger] post.market(id)
        == pre.market(id) by {
        let j = pre.market_index(id);
        pre.lemma_market_at(j);
        assert(post.markets@[j] == pre.markets@[j]);
        post.lemma_market_at(j);
    }
    assert(post.market_map() =~= pre.market_map().insert(m.id@, m));
}

} // verus!
