//! Properties of the ledger that relate several operations or all inputs.
use crate::error::AionError;
use crate::market::{reward_error, reward_value, Market, UserStake};
use crate::state::{staked_in, AionState};
use vstd::prelude::*;

verus! {

/// Sum of a sequence of amounts.
pub open spec fn sum_amounts(xs: Seq<u128>) -> int
    decreases xs.len(),
{
    if xs.len() == 0 {
        0
    } else {
        sum_amounts(xs.drop_last()) + xs.last()
    }
}

/// Sum of the amounts of a sequence of stakes.
pub open spec fn stake_amounts(ws: Seq<UserStake>) -> int
    decreases ws.len(),
{
    if ws.len() == 0 {
        0
    } else {
        stake_amounts(ws.drop_last()) + ws.last().amount
    }
}

/// Sum of the rewards of a sequence of stakes in market `m`.
pub open spec fn reward_total(m: Market, ws: Seq<UserStake>) -> int
    decreases ws.len(),
{
    if ws.len() == 0 {
        0
    } else {
        reward_total(m, ws.drop_last()) + reward_value(m, ws.last())
    }
}

/// In a well-formed ledger the two pools of every market add up to the
/// amounts staked in it.
pub proof fn law_pools_match_stakes(s: AionState, id: Seq<char>)
    requires
        s.wf(),
        s.has_market(id),
    ensures
        s.market(id).total_stake_yes + s.market(id).total_stake_no == staked_in(s.stakes@, id),
{
    let i = s.market_index(id);
    assert(s.markets@[i].id@ == id);
}

/// Over any run of successful stakes on one market, its pools and the value
/// locked each grow by exactly the sum of the amounts staked.
pub proof fn law_stakes_accumulate(
    states: Seq<AionState>,
    id: Seq<char>,
    users: Seq<Seq<char>>,
    amounts: Seq<u128>,
    predictions: Seq<bool>,
)
    requires
        states.len() == amounts.len() + 1,
        users.len() == amounts.len(),
        predictions.len() == amounts.len(),
        states[0].has_market(id),
        forall|i: int|
            0 <= i < amounts.len() ==> AionState::stake_post(
                #[trigger] states[i],
                id,
                users[i],
                amounts[i],
                predictions[i],
                states[i + 1],
                Ok(()),
            ),
    ensures
        states.last().has_market(id),
        states.last().market(id).total_stake_yes + states.last().market(id).total_stake_no
            == states[0].market(id).total_stake_yes + states[0].market(id).total_stake_no
            + sum_amounts(amounts),
        states.last().total_value_locked == states[0].total_value_locked + sum_amounts(amounts),
    decreases amounts.len(),
{
    let n = amounts.len() as int;
    if n > 0 {
        let sp = states.drop_last();
        assert forall|i: int| 0 <= i < n - 1 implies AionState::stake_post(
            #[trigger] sp[i],
            id,
            users.drop_last()[i],
            amounts.drop_last()[i],
            predictions.drop_last()[i],
            sp[i + 1],
            Ok(()),
        ) by {
            assert(AionState::stake_post(states[i], id, users[i], amounts[i], predictions[i], states[i + 1], Ok(())));
        }
        law_stakes_accumulate(sp, id, users.drop_last(), amounts.drop_last(), predictions.drop_last());
        let pre = states[n - 1];
        let post = states[n];
        assert(AionState::stake_post(pre, id, users[n - 1], amounts[n - 1], predictions[n - 1], post, Ok(())));
        assert(post.market_map().contains_key(id));
        assert(post.market_map()[id] == post.market(id));
    }
}

/// Resolving a market a second time is refused and changes nothing.
pub proof fn law_resolve_once(
    s0: AionState,
    s1: AionState,
    s2: AionState,
    id: Seq<char>,
    first: bool,
    second: bool,
    caller: Seq<char>,
    r: Result<(), AionError>,
)
    requires
        AionState::resolve_post(s0, id, first, caller, s1, Ok(())),
        AionState::resolve_post(s1, id, second, caller, s2, r),
    ensures
        r == Err::<(), AionError>(AionError::MarketAlreadyResolved),
        s2 == s1,
{
    assert(s1.market_map().contains_key(id));
    assert(s1.market_map()[id] == s1.market(id));
}

/// Claiming a second time is refused with `AlreadyClaimed` and changes nothing.
pub proof fn law_claim_once(
    s0: AionState,
    s1: AionState,
    s2: AionState,
    id: Seq<char>,
    user: Seq<char>,
    v: u128,
    r: Result<u128, AionError>,
)
    requires
        AionState::claim_post(s0, id, user, s1, Ok(v)),
        AionState::claim_post(s1, id, user, s2, r),
    ensures
        r == Err::<u128, AionError>(AionError::AlreadyClaimed),
        s2 == s1,
{
    assert(s0.market_map().contains_key(id));
    assert(s1.market_map()[id] == s1.market(id));
    assert(s0.market_map()[id] == s0.market(id));
    assert(s1.stake_map().contains_key((id, user)));
    assert(s1.stake_map()[(id, user)] == s1.stake_of(id, user));
}

/// A stake of zero is always refused and changes nothing.
pub proof fn law_zero_stake_refused(
    pre: AionState,
    id: Seq<char>,
    user: Seq<char>,
    prediction: bool,
    post: AionState,
    r: Result<(), AionError>,
)
    requires
        AionState::stake_post(pre, id, user, 0, prediction, post, r),
    ensures
        r == Err::<(), AionError>(AionError::InvalidStakeAmount),
        post == pre,
{
}

/// Where nobody staked on the outcome, every stake is owed nothing.
pub proof fn law_empty_winning_pool(m: Market, s: UserStake)
    requires
        m.wf(),
        m.resolved,
        m.pool(m.outcome.unwrap()) == 0,
    ensures
        reward_value(m, s) == 0,
        !s.claimed ==> reward_error(m, s) == None::<AionError>,
{
}

/// Only the admin can resolve: anyone else is refused and nothing changes.
pub proof fn law_resolve_needs_admin(
    pre: AionState,
    id: Seq<char>,
    outcome: bool,
    caller: Seq<char>,
    post: AionState,
    r: Result<(), AionError>,
)
    requires
        caller != pre.admin@,
        AionState::resolve_post(pre, id, outcome, caller, post, r),
    ensures
        r == Err::<(), AionError>(AionError::Unauthorized),
        post == pre,
        post.has_market(id) ==> !post.market(id).resolved || pre.market(id).resolved,
{
}

/// Summed over winning stakes that make up the whole winning pool, rewards
/// pay back that pool plus the losing pool, short by less than one unit per
/// winner from rounding down.
pub proof fn law_rewards_conserve(m: Market, ws: Seq<UserStake>)
    requires
        m.wf(),
        m.resolved,
        m.pool(m.outcome.unwrap()) > 0,
        forall|i: int| 0 <= i < ws.len() ==> (#[trigger] ws[i]).prediction == m.outcome.unwrap(),
        stake_amounts(ws) == m.pool(m.outcome.unwrap()),
    ensures
        reward_total(m, ws) <= m.total_stake_yes + m.total_stake_no,
        reward_total(m, ws) + ws.len() > m.total_stake_yes + m.total_stake_no,
{
    let w = m.pool(m.outcome.unwrap()) as int;
    let l = m.pool(!m.outcome.unwrap()) as int;
    lemma_share_bounds(m, ws);
    assert(ws.len() > 0);
    assert(w * (reward_total(m, ws) - w) <= l * w);
    assert(w * (reward_total(m, ws) - w) > l * w - w * ws.len());
    assert(reward_total(m, ws) - w <= l) by (nonlinear_arith)
        requires
            w > 0,
            w * (reward_total(m, ws) - w) <= l * w,
    ;
    assert(reward_total(m, ws) - w > l - ws.len()) by (nonlinear_arith)
        requires
            w > 0,
            w * (reward_total(m, ws) - w) > l * w - w * ws.len(),
    ;
}

/// The rounded-down shares of the losing pool, scaled by the winning pool,
/// sit within one winning pool per stake below the exact shares.
proof fn lemma_share_bounds(m: Market, ws: Seq<UserStake>)
    requires
        m.wf(),
        m.resolved,
        m.pool(m.outcome.unwrap()) > 0,
        forall|i: int| 0 <= i < ws.len() ==> (#[trigger] ws[i]).prediction == m.outcome.unwrap(),
    ensures
        ({
            let w = m.pool(m.outcome.unwrap()) as int;
            let l = m.pool(!m.outcome.unwrap()) as int;
            let f = reward_total(m, ws) - stake_amounts(ws);
            &&& w * f <= l * stake_amounts(ws)
            &&& w * f >= l * stake_amounts(ws) - w * ws.len()
            &&& ws.len() > 0 ==> w * f > l * stake_amounts(ws) - w * ws.len()
        }),
    decreases ws.len(),
{
    if ws.len() > 0 {
        let w = m.pool(m.outcome.unwrap()) as int;
        let l = m.pool(!m.outcome.unwrap()) as int;
        let rest = ws.drop_last();
        assert forall|i: int| 0 <= i < rest.len() implies (#[trigger] rest[i]).prediction == m.outcome.unwrap() by {
            assert(rest[i] == ws[i]);
        }
        lemma_share_bounds(m, rest);
        let a = ws.last().amount as int;
        assert(ws.last() == ws[ws.len() - 1]);
        let q = (a * l) / w;
        assert(reward_value(m, ws.last()) == a + q);
        assert(w * q <= a * l && w * q > a * l - w) by (nonlinear_arith)
            requires
                w > 0,
                q == (a * l) / w,
        ;
        let f0 = reward_total(m, rest) - stake_amounts(rest);
        let f = reward_total(m, ws) - stake_amounts(ws);
        assert(f == f0 + q);
        assert(w * f == w * f0 + w * q) by (nonlinear_arith)
            requires
                f == f0 + q,
        ;
        assert(l * stake_amounts(ws) == l * stake_amounts(rest) + a * l) by (nonlinear_arith)
            requires
                stake_amounts(ws) == stake_amounts(rest) + a,
        ;
        assert(w * ws.len() == w * rest.len() + w) by (nonlinear_arith)
            requires
                ws.len() == rest.len() + 1,
        ;
    }
}

/// Over any run of successful stakes and claims in which no payout exceeds
/// the value locked at that moment, the value locked ends at its start plus
/// everything staked minus everything paid out. Step `i` is a claim of
/// `amounts[i]` when `claims[i]`, and a stake of `amounts[i]` otherwise.
pub proof fn law_value_locked_balance(
    states: Seq<AionState>,
    claims: Seq<bool>,
    ids: Seq<Seq<char>>,
    users: Seq<Seq<char>>,
    amounts: Seq<u128>,
    predictions: Seq<bool>,
)
    requires
        states.len() == amounts.len() + 1,
        claims.len() == amounts.len(),
        ids.len() == amounts.len(),
        users.len() == amounts.len(),
        predictions.len() == amounts.len(),
        forall|i: int|
            0 <= i < amounts.len() ==> if #[trigger] claims[i] {
                &&& AionState::claim_post(states[i], ids[i], users[i], states[i + 1], Ok(amounts[i]))
                &&& amounts[i] <= states[i].total_value_locked
            } else {
                AionState::stake_post(
                    states[i],
                    ids[i],
                    users[i],
                    amounts[i],
                    predictions[i],
                    states[i + 1],
                    Ok(()),
                )
            },
    ensures
        states.last().total_value_locked == states[0].total_value_locked + staked_total(claims, amounts)
            - paid_total(claims, amounts),
    decreases amounts.len(),
{
    let n = amounts.len() as int;
    if n > 0 {
        let sp = states.drop_last();
        assert forall|i: int| 0 <= i < n - 1 implies if #[trigger] claims.drop_last()[i] {
            &&& AionState::claim_post(sp[i], ids.drop_last()[i], users.drop_last()[i], sp[i + 1], Ok(amounts.drop_last()[i]))
            &&& amounts.drop_last()[i] <= sp[i].total_value_locked
        } else {
            AionState::stake_post(
                sp[i],
                ids.drop_last()[i],
                users.drop_last()[i],
                amounts.drop_last()[i],
                predictions.drop_last()[i],
                sp[i + 1],
                Ok(()),
            )
        } by {
            assert(claims[i] == claims.drop_last()[i]);
        }
        law_value_locked_balance(
            sp,
            claims.drop_last(),
            ids.drop_last(),
            users.drop_last(),
            amounts.drop_last(),
            predictions.drop_last(),
        );
        assert(claims[n - 1] == claims.last());
        if claims[n - 1] {
            let pre = states[n - 1];
            assert(AionState::claim_post(pre, ids[n - 1], users[n - 1], states[n], Ok(amounts[n - 1])));
            assert(pre.reward_outcome(ids[n - 1], users[n - 1]) == Ok::<u128, AionError>(amounts[n - 1]));
        }
    }
}

/// What the stakes among the steps add up to.
pub open spec fn staked_total(claims: Seq<bool>, amounts: Seq<u128>) -> int
    decreases amounts.len(),
{
    if amounts.len() == 0 || claims.len() != amounts.len() {
        0
    } else {
        staked_total(claims.drop_last(), amounts.drop_last()) + if claims.last() {
            0
        } else {
            amounts.last() as int
        }
    }
}

/// What the claims among the steps add up to.
pub open spec fn paid_total(claims: Seq<bool>, amounts: Seq<u128>) -> int
    decreases amounts.len(),
{
    if amounts.len() == 0 || claims.len() != amounts.len() {
        0
    } else {
        paid_total(claims.drop_last(), amounts.drop_last()) + if claims.last() {
            amounts.last() as int
        } else {
            0
        }
    }
}

} // verus!
