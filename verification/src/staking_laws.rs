//! What holds of stakes and rounds whatever the state of the registry.

use crate::assoc;
use crate::error::Error;
use crate::event::{EffectView, EventView};
use crate::round::{
    capped, drop_keys, exit_effects, lemma_drop_keys, payout, reward_due, rewards, snapshot_of,
    snapshots, stakers_of, total_bonded, without_round, LAND_UNITS_PER_ISSUED_BLOCK,
};
use crate::state::State;
use crate::types::{
    AccountId, Balance, BlockNumber, Bond, EstateId, EstateInfoView, MetaverseId, Origin, Range,
    RoundIndex, RoundInfo, SnapshotKey, StakeKey, StakeSnapshotView,
};
use vstd::prelude::*;

verus! {

/// A stake is nothing, or at least the minimum stake.
pub proof fn law_stake_floor(s: State, estate_id: EstateId, who: AccountId)
    requires
        s.inv(),
    ensures
        s.stake_of(estate_id, who) == 0 || s.stake_of(estate_id, who) >= s.config.minimum_stake,
{
    let key = StakeKey { estate_id, staker: who };
    if assoc::contains_key(s.estate_stake, key) {
        let i = assoc::index_of(s.estate_stake, key);
        assert(s.estate_stake[i].1 >= s.config.minimum_stake);
    }
}

/// Taking back so much of a stake that less than the minimum stake would
/// stay bonded is refused with `BelowMinimumStake`.
pub proof fn law_bond_less_keeps_floor(
    s: State,
    origin: Origin,
    estate_id: EstateId,
    less: Balance,
)
    requires
        s.staker(origin, estate_id) matches Ok(who) && less <= s.stake_of(estate_id, who)
            && s.stake_of(estate_id, who) - less < s.config.minimum_stake,
    ensures
        s.bond_less(origin, estate_id, less) == Err::<State, Error>(Error::BelowMinimumStake),
{
}

/// Bonding and taking back keep every stake at nothing or at least the
/// minimum stake.
pub proof fn law_bonding_keeps_floor(
    s: State,
    origin: Origin,
    estate_id: EstateId,
    amount: Balance,
    reserved: bool,
    any_estate: EstateId,
    any_account: AccountId,
)
    requires
        s.inv(),
    ensures
        s.bond_more(origin, estate_id, amount, reserved) matches Ok(next) ==> {
            ||| next.stake_of(any_estate, any_account) == 0
            ||| next.stake_of(any_estate, any_account) >= next.config.minimum_stake
        },
        s.bond_less(origin, estate_id, amount) matches Ok(next) ==> {
            ||| next.stake_of(any_estate, any_account) == 0
            ||| next.stake_of(any_estate, any_account) >= next.config.minimum_stake
        },
{
    law_stake_floor(s, any_estate, any_account);
    if s.staker(origin, estate_id) is Ok {
        let who = s.staker(origin, estate_id).unwrap();
        let key = StakeKey { estate_id, staker: who };
        assoc::lemma_insert(
            s.estate_stake,
            key,
            (s.stake_of(estate_id, who) + amount) as u128,
        );
        assoc::lemma_insert(
            s.estate_stake,
            key,
            (s.stake_of(estate_id, who) - amount) as u128,
        );
    }
}

/// A stake can leave exactly when its account asks, it does not wait to
/// leave already, and something is bonded; whether the estate still exists
/// and who owns it makes no difference. Leaving changes no stake and no
/// total and instructs the ledger of nothing: it puts the stake into the
/// exit queue, so that a second request is refused.
pub proof fn law_leave_staking(s: State, origin: Origin, estate_id: EstateId)
    requires
        s.inv(),
    ensures
        match origin.signer() {
            None => s.leave_staking(origin, estate_id) == Err::<State, Error>(Error::BadOrigin),
            Some(who) => {
                &&& s.leave_staking(origin, estate_id) is Ok <==> !s.is_leaving(estate_id, who)
                    && s.stake_of(estate_id, who) > 0
                &&& s.is_leaving(estate_id, who) ==> s.leave_staking(origin, estate_id) == Err::<
                    State,
                    Error,
                >(Error::EstateStakeAlreadyLeft)
                &&& !s.is_leaving(estate_id, who) && s.stake_of(estate_id, who) == 0
                    ==> s.leave_staking(origin, estate_id) == Err::<State, Error>(
                    Error::AccountHasNoStake,
                )
                &&& s.leave_staking(origin, estate_id) matches Ok(next) ==> {
                    &&& next.inv()
                    &&& next.estate_stake == s.estate_stake
                    &&& next.total_stake == s.total_stake
                    &&& next.estates == s.estates
                    &&& next.is_leaving(estate_id, who)
                    &&& next.effects == s.effects.push(
                        EffectView::Emit(EventView::EstateStakeLeft(who, estate_id)),
                    )
                    &&& next.leave_staking(origin, estate_id) == Err::<State, Error>(
                        Error::EstateStakeAlreadyLeft,
                    )
                }
            },
        },
{
    if origin.signer() is Some {
        let who = origin.signer().unwrap();
        assoc::lemma_insert(s.exit_queue, StakeKey { estate_id, staker: who }, ());
    }
}

/// A stake outlives its estate: once the estate is dissolved, what was
/// bonded on it is still bonded, and its account can still ask for it.
pub proof fn law_stake_outlives_estate(
    s: State,
    origin: Origin,
    estate_id: EstateId,
    metaverse_id: MetaverseId,
    in_auction: bool,
    staker: AccountId,
)
    requires
        s.inv(),
        s.dissolve_estate(origin, estate_id, metaverse_id, in_auction) is Ok,
    ensures
        ({
            let next = s.dissolve_estate(origin, estate_id, metaverse_id, in_auction).unwrap();
            &&& next.estate_stake == s.estate_stake
            &&& next.exit_queue == s.exit_queue
            &&& next.total_stake == s.total_stake
            &&& s.stake_of(estate_id, staker) > 0 && !s.is_leaving(estate_id, staker)
                ==> next.leave_staking(Origin::Signed(staker), estate_id) is Ok
        }),
{
}

/// When a round starts, the exit queue is emptied: every stake that waited
/// in it is released in full, by an instruction that the log has gained,
/// and its record is gone.
pub proof fn law_round_clears_exit_queue(
    s: State,
    now: BlockNumber,
    issuance: Range,
    estate_id: EstateId,
    who: AccountId,
)
    requires
        s.inv(),
        s.on_initialize(now, issuance) matches Ok((_, started)) && started,
    ensures
        ({
            let next = s.on_initialize(now, issuance).unwrap().0;
            &&& next.exit_queue.len() == 0
            &&& s.is_leaving(estate_id, who) ==> {
                &&& next.stake_of(estate_id, who) == 0
                &&& !assoc::contains_key(next.estate_stake, StakeKey { estate_id, staker: who })
                &&& exists|i: int|
                    s.effects.len() <= i < next.effects.len() && next.effects[i]
                        == EffectView::Unreserve(who, s.stake_of(estate_id, who))
            }
        }),
{
    let next = s.on_initialize(now, issuance).unwrap().0;
    let key = StakeKey { estate_id, staker: who };
    let round = (s.round.current + 1) as u32;
    let paid = s.pay_stakers(round);
    lemma_drop_keys(s.estate_stake, s.exit_queue);
    assert(next.estate_stake == drop_keys(s.estate_stake, s.exit_queue));
    if s.is_leaving(estate_id, who) {
        let j = assoc::index_of(s.exit_queue, key);
        assert(s.exit_queue[j].0 == key);
        assert(assoc::get(next.estate_stake, key) is None);
        let released = exit_effects(s.exit_queue, s.estate_stake);
        assert(released[j] == EffectView::Unreserve(who, s.stake_of(estate_id, who)));
        let at = paid.effects.len() + 1 + j;
        assert(next.effects[at] == released[j]);
        assert(s.effects.len() <= at < next.effects.len());
    }
}

/// The record of an estate lists exactly the stakes on that estate: an
/// account with the amount that it has bonded there.
pub proof fn law_recorded_stakers(stake: Seq<(StakeKey, Balance)>, estate_id: EstateId)
    requires
        assoc::distinct(stake),
    ensures
        forall|bond: Bond| #[trigger]
            stakers_of(stake, estate_id).contains(bond) <==> assoc::get(
                stake,
                StakeKey { estate_id, staker: bond.staker },
            ) == Some(bond.amount),
    decreases stake.len(),
{
    if stake.len() > 0 {
        let earlier = stake.drop_last();
        let last = stake.last();
        assoc::lemma_last_inserted(stake);
        assoc::lemma_insert(earlier, last.0, last.1);
        law_recorded_stakers(earlier, estate_id);
        let before = stakers_of(earlier, estate_id);
        let all = stakers_of(stake, estate_id);
        assert forall|bond: Bond| #[trigger] all.contains(bond) <==> assoc::get(
            stake,
            StakeKey { estate_id, staker: bond.staker },
        ) == Some(bond.amount) by {
            let key = StakeKey { estate_id, staker: bond.staker };
            let added = Bond { staker: last.0.staker, amount: last.1 };
            if last.0.estate_id == estate_id {
                assert(all == before.push(added));
                if all.contains(bond) {
                    let i = choose|i: int| 0 <= i < all.len() && all[i] == bond;
                    if i < before.len() {
                        assert(before[i] == bond);
                        assert(before.contains(bond));
                    }
                }
                if before.contains(bond) {
                    let i = choose|i: int| 0 <= i < before.len() && before[i] == bond;
                    assert(all[i] == bond);
                }
                if key == last.0 && bond.amount == last.1 {
                    assert(all[before.len() as int] == bond);
                }
            } else {
                assert(all == before);
            }
            if key != last.0 {
                assert(assoc::get(stake, key) == assoc::get(earlier, key));
            }
        }
    }
}

/// Taking the records of a round out leaves the records of every other
/// round as they were.
pub proof fn law_without_round(
    at_stake: Seq<(SnapshotKey, StakeSnapshotView)>,
    round: RoundIndex,
)
    requires
        assoc::distinct(at_stake),
    ensures
        assoc::distinct(without_round(at_stake, round)),
        forall|key: SnapshotKey| #[trigger]
            assoc::get(without_round(at_stake, round), key) == if key.round == round {
                None
            } else {
                assoc::get(at_stake, key)
            },
    decreases at_stake.len(),
{
    if at_stake.len() > 0 {
        let earlier = at_stake.drop_last();
        let last = at_stake.last();
        assoc::lemma_last_inserted(at_stake);
        assoc::lemma_insert(earlier, last.0, last.1);
        law_without_round(earlier, round);
        let kept = without_round(earlier, round);
        if last.0.round != round {
            assert(assoc::get(kept, last.0) == assoc::get(earlier, last.0));
            assert(!assoc::contains_key(kept, last.0));
            assert(kept.push(last) == assoc::insert(kept, last.0, last.1));
            assoc::lemma_insert(kept, last.0, last.1);
        }
        assert forall|key: SnapshotKey| #[trigger]
            assoc::get(without_round(at_stake, round), key) == if key.round == round {
                None
            } else {
                assoc::get(at_stake, key)
            } by {
            if key != last.0 {
                assert(assoc::get(at_stake, key) == assoc::get(earlier, key));
            }
        }
    } else {
        assert forall|key: SnapshotKey|
            assoc::get(without_round(at_stake, round), key) is None by {}
    }
}

/// `effect` is the reward of the `j`-th staker of the `i`-th record, which
/// is a record of `round`.
pub open spec fn rewards_staker(
    at_stake: Seq<(SnapshotKey, StakeSnapshotView)>,
    round: RoundIndex,
    pool: Balance,
    i: int,
    j: int,
    effect: EffectView,
) -> bool {
    &&& 0 <= i < at_stake.len()
    &&& at_stake[i].0.round == round
    &&& 0 <= j < at_stake[i].1.stakers.len()
    &&& effect == EffectView::Reward(
        at_stake[i].1.stakers[j].staker,
        reward_due(pool, at_stake[i].1.stakers[j]),
    )
}

/// `effect` is the reward of a staker of a record of `round`.
pub open spec fn rewards_someone(
    at_stake: Seq<(SnapshotKey, StakeSnapshotView)>,
    round: RoundIndex,
    pool: Balance,
    effect: EffectView,
) -> bool {
    exists|i: int, j: int| #[trigger] rewards_staker(at_stake, round, pool, i, j, effect)
}

/// The payout of a round instructs a reward for every staker of every
/// record of that round, and instructs nothing else.
pub proof fn law_payout(
    at_stake: Seq<(SnapshotKey, StakeSnapshotView)>,
    round: RoundIndex,
    pool: Balance,
)
    ensures
        forall|i: int, j: int, effect: EffectView| #[trigger]
            rewards_staker(at_stake, round, pool, i, j, effect) ==> payout(
                at_stake,
                round,
                pool,
            ).contains(effect),
        forall|p: int|
            0 <= p < payout(at_stake, round, pool).len() ==> rewards_someone(
                at_stake,
                round,
                pool,
                #[trigger] payout(at_stake, round, pool)[p],
            ),
    decreases at_stake.len(),
{
    if at_stake.len() > 0 {
        let earlier = at_stake.drop_last();
        let last = at_stake.last();
        let n = earlier.len() as int;
        law_payout(earlier, round, pool);
        let before = payout(earlier, round, pool);
        let all = payout(at_stake, round, pool);
        let paid = rewards(last.1.stakers, pool);
        assert forall|i: int, j: int, effect: EffectView| #[trigger]
            rewards_staker(at_stake, round, pool, i, j, effect) implies all.contains(effect) by {
            if i < n {
                assert(earlier[i] == at_stake[i]);
                assert(rewards_staker(earlier, round, pool, i, j, effect));
                assert(before.contains(effect));
                let p = choose|p: int| 0 <= p < before.len() && before[p] == effect;
                assert(all[p] == effect);
            } else {
                assert(all == before + paid);
                assert(paid[j] == effect);
                assert(all[before.len() + j] == effect);
            }
        }
        assert forall|p: int| 0 <= p < all.len() implies rewards_someone(
            at_stake,
            round,
            pool,
            #[trigger] all[p],
        ) by {
            if p < before.len() {
                assert(all[p] == before[p]);
                assert(rewards_someone(earlier, round, pool, before[p]));
                let (i, j) = choose|i: int, j: int| #[trigger]
                    rewards_staker(earlier, round, pool, i, j, before[p]);
                assert(at_stake[i] == earlier[i]);
                assert(rewards_staker(at_stake, round, pool, i, j, all[p]));
            } else {
                let j = p - before.len();
                assert(all == before + paid);
                assert(all[p] == paid[j]);
                assert(at_stake[n] == last);
                assert(rewards_staker(at_stake, round, pool, n, j, all[p]));
            }
        }
    }
}

/// Recording a round gives every estate that has a staker its record
/// under that round, and leaves every other record as it was.
pub proof fn law_snapshots(
    at_stake: Seq<(SnapshotKey, StakeSnapshotView)>,
    estates: Seq<(EstateId, EstateInfoView)>,
    stake: Seq<(StakeKey, Balance)>,
    round: RoundIndex,
)
    requires
        assoc::distinct(at_stake),
    ensures
        assoc::distinct(snapshots(at_stake, estates, stake, round)),
        forall|key: SnapshotKey| #[trigger]
            assoc::get(snapshots(at_stake, estates, stake, round), key) == if key.round == round
                && assoc::contains_key(estates, key.estate_id) && stakers_of(
                stake,
                key.estate_id,
            ).len() > 0 {
                Some(snapshot_of(stake, key.estate_id))
            } else {
                assoc::get(at_stake, key)
            },
    decreases estates.len(),
{
    if estates.len() > 0 {
        let earlier = estates.drop_last();
        let estate_id = estates.last().0;
        law_snapshots(at_stake, earlier, stake, round);
        let before = snapshots(at_stake, earlier, stake, round);
        let added = SnapshotKey { round, estate_id };
        assoc::lemma_insert(before, added, snapshot_of(stake, estate_id));
        assert forall|key: SnapshotKey| #[trigger]
            assoc::get(snapshots(at_stake, estates, stake, round), key) == if key.round == round
                && assoc::contains_key(estates, key.estate_id) && stakers_of(
                stake,
                key.estate_id,
            ).len() > 0 {
                Some(snapshot_of(stake, key.estate_id))
            } else {
                assoc::get(at_stake, key)
            } by {
            assert(estates[estates.len() - 1].0 == estate_id);
            if assoc::contains_key(earlier, key.estate_id) {
                let i = assoc::index_of(earlier, key.estate_id);
                assert(estates[i] == earlier[i]);
            }
            if assoc::contains_key(estates, key.estate_id) && key.estate_id != estate_id {
                let i = assoc::index_of(estates, key.estate_id);
                assert(earlier[i] == estates[i]);
            }
        }
    }
}

/// What a round that starts brings about: the round is the next one and
/// begins now; every stake that waited to leave is gone; every estate that
/// still has a staker has its record under the new round; the total stake
/// is what is bonded on the estates that exist, and is recorded for the
/// round; and the treasury has been issued the intended number of blocks.
pub proof fn law_started_round(s: State, now: BlockNumber, issuance: Range, estate_id: EstateId)
    requires
        s.inv(),
        s.on_initialize(now, issuance) matches Ok((_, started)) && started,
    ensures
        ({
            let next = s.on_initialize(now, issuance).unwrap().0;
            let round = (s.round.current + 1) as u32;
            let stake = drop_keys(s.estate_stake, s.exit_queue);
            &&& s.round.is_over(now)
            &&& next.round == (RoundInfo { current: round, first: now, length: s.round.length })
            &&& next.estate_stake == stake
            &&& next.estates == s.estates
            &&& next.total_stake == capped(total_bonded(s.estates, stake))
            &&& next.staked_in(round) == next.total_stake
            &&& assoc::contains_key(s.estates, estate_id) && stakers_of(stake, estate_id).len() > 0
                ==> next.snapshot(round, estate_id) == snapshot_of(stake, estate_id)
            &&& next.total_undeployed_land_unit == s.total_undeployed_land_unit + issuance.ideal
                * LAND_UNITS_PER_ISSUED_BLOCK
            &&& next.next_undeployed_land_block_id == s.next_undeployed_land_block_id
                + issuance.ideal
        }),
{
    let next = s.on_initialize(now, issuance).unwrap().0;
    let round = (s.round.current + 1) as u32;
    let paid = s.pay_stakers(round);
    let stake = drop_keys(s.estate_stake, s.exit_queue);
    law_without_round(s.at_stake, (round - s.config.reward_payment_delay) as u32);
    law_snapshots(paid.at_stake, s.estates, stake, round);
    assoc::lemma_insert(s.staked, round, next.total_stake);
    let key = SnapshotKey { round, estate_id };
    assert(assoc::get(next.at_stake, key) == assoc::get(
        snapshots(paid.at_stake, s.estates, stake, round),
        key,
    ));
}

} // verus!
