//! Rounds: the periodic settlement of the staking ledger.
//!
//! When a round is over the next one begins, and four things happen in this
//! order: the stakers recorded some rounds ago are paid, the stakes that wait
//! to leave are released, the stakes of the new round are recorded, and new
//! land is issued to the treasury.

use crate::assoc;
use crate::error::Error;
use crate::event::{log_view, Effect, EffectView, Event, EventView};
use crate::pallet::Pallet;
use crate::staking::{capped_sum, staked_amount};
use crate::state::State;
use crate::table::Table;
use crate::types::{
    AccountId, Balance, BlockNumber, Bond, EstateId, EstateInfo, EstateInfoView, Range,
    RoundIndex, RoundInfo, SnapshotKey, StakeKey, StakeSnapshot, StakeSnapshotView,
    UndeployedLandBlockType,
};
use vstd::prelude::*;

verus! {

/// The land units in each block that a round issues.
pub const LAND_UNITS_PER_ISSUED_BLOCK: u32 = 100;

/// The reward pool of a round in which `staked` was bonded in all.
pub open spec fn issuance_for(staked: Balance) -> Balance {
    capped_sum(staked, staked)
}

/// What one staker is due out of the pool: one unit, whatever the pool and
/// the bond.
pub open spec fn reward_due(pool: Balance, bond: Bond) -> Balance {
    1
}

/// The instructions that pay the stakers of one record.
pub open spec fn rewards(stakers: Seq<Bond>, pool: Balance) -> Seq<EffectView> {
    Seq::new(
        stakers.len(),
        |i: int| EffectView::Reward(stakers[i].staker, reward_due(pool, stakers[i])),
    )
}

/// The instructions that pay every staker recorded for `round`, record by
/// record.
pub open spec fn payout(
    at_stake: Seq<(SnapshotKey, StakeSnapshotView)>,
    round: RoundIndex,
    pool: Balance,
) -> Seq<EffectView>
    decreases at_stake.len(),
{
    if at_stake.len() == 0 {
        Seq::empty()
    } else {
        let earlier = payout(at_stake.drop_last(), round, pool);
        if at_stake.last().0.round == round {
            earlier + rewards(at_stake.last().1.stakers, pool)
        } else {
            earlier
        }
    }
}

/// The records of all rounds but `round`.
pub open spec fn without_round(
    at_stake: Seq<(SnapshotKey, StakeSnapshotView)>,
    round: RoundIndex,
) -> Seq<(SnapshotKey, StakeSnapshotView)>
    decreases at_stake.len(),
{
    if at_stake.len() == 0 {
        Seq::empty()
    } else {
        let earlier = without_round(at_stake.drop_last(), round);
        if at_stake.last().0.round == round {
            earlier
        } else {
            earlier.push(at_stake.last())
        }
    }
}

/// The instructions that release the whole stake of each pair in the queue.
pub open spec fn exit_effects(
    queue: Seq<(StakeKey, ())>,
    stake: Seq<(StakeKey, Balance)>,
) -> Seq<EffectView> {
    Seq::new(
        queue.len(),
        |i: int| EffectView::Unreserve(queue[i].0.staker, staked_amount(stake, queue[i].0)),
    )
}

/// The stakes without those of the pairs in the queue.
pub open spec fn drop_keys(stake: Seq<(StakeKey, Balance)>, queue: Seq<(StakeKey, ())>) -> Seq<
    (StakeKey, Balance),
>
    decreases queue.len(),
{
    if queue.len() == 0 {
        stake
    } else {
        assoc::remove(drop_keys(stake, queue.drop_last()), queue.last().0)
    }
}

/// The bonds on one estate, in the order of the stake records.
pub open spec fn stakers_of(stake: Seq<(StakeKey, Balance)>, estate_id: EstateId) -> Seq<Bond>
    decreases stake.len(),
{
    if stake.len() == 0 {
        Seq::empty()
    } else {
        let earlier = stakers_of(stake.drop_last(), estate_id);
        if stake.last().0.estate_id == estate_id {
            earlier.push(Bond { staker: stake.last().0.staker, amount: stake.last().1 })
        } else {
            earlier
        }
    }
}

/// The sum of the bonds.
pub open spec fn bonded(stakers: Seq<Bond>) -> nat
    decreases stakers.len(),
{
    if stakers.len() == 0 {
        0
    } else {
        (bonded(stakers.drop_last()) + stakers.last().amount) as nat
    }
}

/// An amount as a balance: the greatest balance where the amount is greater.
pub open spec fn capped(amount: nat) -> Balance {
    if amount > u128::MAX {
        u128::MAX
    } else {
        amount as u128
    }
}

/// The record of one estate: its bonds and their sum.
pub open spec fn snapshot_of(stake: Seq<(StakeKey, Balance)>, estate_id: EstateId)
    -> StakeSnapshotView {
    StakeSnapshotView {
        stakers: stakers_of(stake, estate_id),
        total_bond: capped(bonded(stakers_of(stake, estate_id))),
    }
}

/// The records with those of `round` added: one for each estate that has a
/// staker.
pub open spec fn snapshots(
    at_stake: Seq<(SnapshotKey, StakeSnapshotView)>,
    estates: Seq<(EstateId, EstateInfoView)>,
    stake: Seq<(StakeKey, Balance)>,
    round: RoundIndex,
) -> Seq<(SnapshotKey, StakeSnapshotView)>
    decreases estates.len(),
{
    if estates.len() == 0 {
        at_stake
    } else {
        let earlier = snapshots(at_stake, estates.drop_last(), stake, round);
        let estate_id = estates.last().0;
        if stakers_of(stake, estate_id).len() > 0 {
            assoc::insert(earlier, SnapshotKey { round, estate_id }, snapshot_of(stake, estate_id))
        } else {
            earlier
        }
    }
}

/// What is bonded on all the estates together.
pub open spec fn total_bonded(
    estates: Seq<(EstateId, EstateInfoView)>,
    stake: Seq<(StakeKey, Balance)>,
) -> nat
    decreases estates.len(),
{
    if estates.len() == 0 {
        0
    } else {
        total_bonded(estates.drop_last(), stake) + bonded(stakers_of(stake, estates.last().0))
    }
}

/// Dropping keys leaves the stake of every other key as it was, and takes
/// nothing in.
pub proof fn lemma_drop_keys(stake: Seq<(StakeKey, Balance)>, queue: Seq<(StakeKey, ())>)
    requires
        assoc::distinct(stake),
    ensures
        assoc::distinct(drop_keys(stake, queue)),
        forall|k: StakeKey|
            !assoc::contains_key(queue, k) ==> #[trigger] assoc::get(drop_keys(stake, queue), k)
                == assoc::get(stake, k),
        forall|k: StakeKey|
            assoc::contains_key(queue, k) ==> #[trigger] assoc::get(drop_keys(stake, queue), k)
                is None,
        forall|i: int|
            0 <= i < drop_keys(stake, queue).len() ==> stake.contains(
                #[trigger] drop_keys(stake, queue)[i],
            ),
    decreases queue.len(),
{
    if queue.len() > 0 {
        let earlier = queue.drop_last();
        let last = queue.last().0;
        let before = drop_keys(stake, earlier);
        lemma_drop_keys(stake, earlier);
        assoc::lemma_remove(before, last);
        let after = drop_keys(stake, queue);
        assert forall|k: StakeKey| !assoc::contains_key(queue, k) implies #[trigger] assoc::get(
            after,
            k,
        ) == assoc::get(stake, k) by {
            assert(queue[queue.len() - 1].0 == last);
            assert(k != last);
            if assoc::contains_key(earlier, k) {
                let i = assoc::index_of(earlier, k);
                assert(queue[i].0 == k);
            }
        }
        assert forall|k: StakeKey| assoc::contains_key(queue, k) implies #[trigger] assoc::get(
            after,
            k,
        ) is None by {
            if k != last {
                let i = assoc::index_of(queue, k);
                assert(earlier[i].0 == k);
            }
        }
        assert forall|i: int| 0 <= i < after.len() implies stake.contains(#[trigger] after[i]) by {
            assert(before.contains(after[i]));
            let j = choose|j: int| 0 <= j < before.len() && before[j] == after[i];
            assert(stake.contains(before[j]));
        }
    }
}

/// Capping can wait: the capped sum of two capped amounts is the cap of the
/// sum of the amounts.
pub proof fn lemma_capped_sum(a: nat, b: nat)
    ensures
        capped_sum(capped(a), capped(b)) == capped(a + b),
{
}

impl State {
    /// What was bonded in all when `round` began; nothing where no record
    /// was made.
    pub open spec fn staked_in(self, round: RoundIndex) -> Balance {
        match assoc::get(self.staked, round) {
            Some(amount) => amount,
            None => 0,
        }
    }

    /// The stakers recorded `reward_payment_delay` rounds before the round
    /// `next` are paid, and their records are used up. Nothing happens while
    /// `next` is not past the delay.
    pub open spec fn pay_stakers(self, next: RoundIndex) -> State {
        let delay = self.config.reward_payment_delay;
        if next <= delay {
            self
        } else {
            let round = (next - delay) as u32;
            let pool = issuance_for(self.staked_in(round));
            State {
                at_stake: without_round(self.at_stake, round),
                effects: self.effects + payout(self.at_stake, round, pool),
                ..self
            }
        }
    }

    /// Every stake that waits to leave is released in full and its record
    /// removed; the queue is empty afterwards.
    pub open spec fn clear_exit_queue(self) -> State {
        State {
            estate_stake: drop_keys(self.estate_stake, self.exit_queue),
            exit_queue: Seq::empty(),
            effects: self.effects + exit_effects(self.exit_queue, self.estate_stake),
            ..self
        }
    }

    /// The stakes on the estates that exist are recorded for the round
    /// `next`, and their sum becomes the total stake.
    pub open spec fn update_stake_snapshot(self, next: RoundIndex) -> State {
        State {
            at_stake: snapshots(self.at_stake, self.estates, self.estate_stake, next),
            total_stake: capped(total_bonded(self.estates, self.estate_stake)),
            ..self
        }
    }

    /// The block `now` begins. If the round is over, the next round starts
    /// with all that belongs to it; else nothing happens. The answer says
    /// whether a round started.
    pub open spec fn on_initialize(self, now: BlockNumber, issuance: Range) -> Result<
        (State, bool),
        Error,
    > {
        if !self.round.is_over(now) {
            Ok((self, false))
        } else if self.round.current + 1 > u32::MAX || issuance.ideal > u32::MAX {
            Err(Error::Overflow)
        } else {
            let next = (self.round.current + 1) as u32;
            let paid = self.pay_stakers(next).emit(EventView::StakersPaid(next));
            let cleared = paid.clear_exit_queue().emit(EventView::ExitQueueCleared(next));
            let recorded = cleared.update_stake_snapshot(next);
            let started = State {
                round: RoundInfo { current: next, first: now, length: self.round.length },
                staked: assoc::insert(recorded.staked, next, recorded.total_stake),
                ..recorded
            }.emit(EventView::StakeSnapshotUpdated(next, recorded.total_stake));
            match started.do_issue_undeployed_land_blocks(
                self.config.land_treasury,
                issuance.ideal as u32,
                LAND_UNITS_PER_ISSUED_BLOCK,
                UndeployedLandBlockType::Transferable,
            ) {
                Err(e) => Err(e),
                Ok((issued, _)) => Ok(
                    (issued.emit(EventView::NewRound(now, next, issuance.max)), true),
                ),
            }
        }
    }
}

/// Adds the instructions that pay the stakers of one record.
fn push_rewards(effects: &mut Vec<Effect>, stakers: &Vec<Bond>, pool: Balance)
    ensures
        log_view(final(effects)@) == log_view(old(effects)@) + rewards(stakers@, pool),
{
    let mut i: usize = 0;
    assert(log_view(effects@) =~= log_view(old(effects)@) + rewards(stakers@, pool).take(0));
    while i < stakers.len()
        invariant
            i <= stakers.len(),
            log_view(effects@) == log_view(old(effects)@) + rewards(stakers@, pool).take(i as int),
        decreases stakers.len() - i,
    {
        let bond: Bond = stakers[i];
        let ghost before = effects@;
        let effect = Effect::Reward(bond.staker, Pallet::reward_due(pool, bond));
        assert(effect@ == rewards(stakers@, pool)[i as int]);
        effects.push(effect);
        assert(log_view(effects@) =~= log_view(before).push(effect@));
        assert(log_view(effects@) =~= log_view(old(effects)@) + rewards(stakers@, pool).take(
            i + 1,
        ));
        i += 1;
    }
    assert(rewards(stakers@, pool).take(i as int) =~= rewards(stakers@, pool));
}

/// Takes the records of `round` out and adds the instructions that pay
/// their stakers.
fn drain_round(
    at_stake: &mut Table<SnapshotKey, StakeSnapshot>,
    effects: &mut Vec<Effect>,
    round: RoundIndex,
    pool: Balance,
)
    requires
        assoc::distinct(old(at_stake)@),
    ensures
        assoc::distinct(final(at_stake)@),
        final(at_stake)@ == without_round(old(at_stake)@, round),
        log_view(final(effects)@) == log_view(old(effects)@) + payout(old(at_stake)@, round, pool),
{
    let ghost all = at_stake@;
    let ghost mut done: int = 0;
    let mut i: usize = 0;
    proof {
        assert(all.take(0) =~= Seq::empty());
        assert(all.skip(0) =~= all);
        assert(at_stake@ =~= without_round(all.take(0), round) + all.skip(0));
        assert(log_view(effects@) =~= log_view(old(effects)@) + payout(all.take(0), round, pool));
    }
    while i < at_stake.len()
        invariant
            0 <= done <= all.len(),
            all == old(at_stake)@,
            assoc::distinct(at_stake@),
            i == without_round(all.take(done), round).len(),
            at_stake@ == without_round(all.take(done), round) + all.skip(done),
            log_view(effects@) == log_view(old(effects)@) + payout(all.take(done), round, pool),
        decreases all.len() - done,
    {
        let ghost kept = without_round(all.take(done), round);
        let ghost paid = payout(all.take(done), round, pool);
        proof {
            assert(at_stake@.len() == kept.len() + all.skip(done).len());
            assert(done < all.len());
            assert(at_stake@[i as int] == all.skip(done)[0]);
            assert(all.take(done + 1).drop_last() =~= all.take(done));
            assert(all.take(done + 1).last() == all[done]);
        }
        if at_stake.key(i).round == round {
            let (_, snapshot) = at_stake.remove_at(i);
            push_rewards(effects, &snapshot.stakers, pool);
            proof {
                assert(at_stake@ =~= kept + all.skip(done + 1));
                assert(log_view(effects@) =~= log_view(old(effects)@) + payout(
                    all.take(done + 1),
                    round,
                    pool,
                ));
            }
        } else {
            proof {
                assert(at_stake@ =~= kept.push(all[done]) + all.skip(done + 1));
            }
            i += 1;
        }
        proof {
            done = done + 1;
        }
    }
    proof {
        assert(done == all.len());
        assert(all.take(done) =~= all);
    }
}

/// Releases every stake in the queue and removes its record.
fn settle_exits(
    estate_stake: &mut Table<StakeKey, Balance>,
    exit_queue: &Table<StakeKey, ()>,
    effects: &mut Vec<Effect>,
)
    requires
        assoc::distinct(old(estate_stake)@),
        assoc::distinct(exit_queue@),
    ensures
        assoc::distinct(final(estate_stake)@),
        final(estate_stake)@ == drop_keys(old(estate_stake)@, exit_queue@),
        log_view(final(effects)@) == log_view(old(effects)@) + exit_effects(
            exit_queue@,
            old(estate_stake)@,
        ),
{
    let ghost stake = estate_stake@;
    let ghost queue = exit_queue@;
    let mut i: usize = 0;
    proof {
        assert(queue.take(0) =~= Seq::empty());
        assert(log_view(effects@) =~= log_view(old(effects)@) + exit_effects(queue, stake).take(0));
    }
    while i < exit_queue.len()
        invariant
            i <= queue.len(),
            queue == exit_queue@,
            stake == old(estate_stake)@,
            assoc::distinct(stake),
            assoc::distinct(queue),
            assoc::distinct(estate_stake@),
            estate_stake@ == drop_keys(stake, queue.take(i as int)),
            log_view(effects@) == log_view(old(effects)@) + exit_effects(queue, stake).take(
                i as int,
            ),
        decreases queue.len() - i,
    {
        let key = exit_queue.key(i);
        proof {
            lemma_drop_keys(stake, queue.take(i as int));
            assert(!assoc::contains_key(queue.take(i as int), key)) by {
                if assoc::contains_key(queue.take(i as int), key) {
                    let j = assoc::index_of(queue.take(i as int), key);
                    assert(queue[j].0 == queue[i as int].0);
                }
            }
            assert(queue.take(i + 1).drop_last() =~= queue.take(i as int));
            assert(queue.take(i + 1).last() == queue[i as int]);
        }
        let amount: Balance = match estate_stake.get(&key) {
            Some(amount) => *amount,
            None => 0,
        };
        let ghost before = effects@;
        let effect = Effect::Unreserve(key.staker, amount);
        proof {
            assert(assoc::get(drop_keys(stake, queue.take(i as int)), key) == assoc::get(
                stake,
                key,
            ));
            assert(effect@ == exit_effects(queue, stake)[i as int]);
        }
        effects.push(effect);
        let _ = estate_stake.remove(&key);
        proof {
            assert(log_view(effects@) =~= log_view(before).push(effect@));
            assert(log_view(effects@) =~= log_view(old(effects)@) + exit_effects(
                queue,
                stake,
            ).take(i + 1));
        }
        i += 1;
    }
    proof {
        assert(queue.take(i as int) =~= queue);
        assert(exit_effects(queue, stake).take(i as int) =~= exit_effects(queue, stake));
    }
}

/// The bonds on one estate and their sum.
fn stakers_of_estate(estate_stake: &Table<StakeKey, Balance>, estate_id: EstateId) -> (snapshot:
    StakeSnapshot)
    ensures
        snapshot@ == snapshot_of(estate_stake@, estate_id),
{
    let mut stakers: Vec<Bond> = Vec::new();
    let mut total_bond: Balance = 0;
    let mut i: usize = 0;
    let ghost stake = estate_stake@;
    proof {
        assert(stake.take(0) =~= Seq::empty());
    }
    while i < estate_stake.len()
        invariant
            i <= stake.len(),
            stake == estate_stake@,
            stakers@ == stakers_of(stake.take(i as int), estate_id),
            total_bond == capped(bonded(stakers@)),
        decreases stake.len() - i,
    {
        let key = estate_stake.key(i);
        proof {
            assert(stake.take(i + 1).drop_last() =~= stake.take(i as int));
            assert(stake.take(i + 1).last() == stake[i as int]);
        }
        if key.estate_id == estate_id {
            let amount: Balance = *estate_stake.value(i);
            let ghost earlier = stakers@;
            stakers.push(Bond { staker: key.staker, amount });
            proof {
                assert(stakers@.drop_last() =~= earlier);
                lemma_capped_sum(bonded(earlier), amount as nat);
            }
            total_bond = total_bond.saturating_add(amount);
        }
        i += 1;
    }
    proof {
        assert(stake.take(i as int) =~= stake);
    }
    StakeSnapshot { stakers, total_bond }
}

/// Records the stakes of the round `next` and gives their sum.
fn record_stakes(
    at_stake: &mut Table<SnapshotKey, StakeSnapshot>,
    estates: &Table<EstateId, EstateInfo>,
    estate_stake: &Table<StakeKey, Balance>,
    next: RoundIndex,
) -> (total: Balance)
    requires
        assoc::distinct(old(at_stake)@),
    ensures
        assoc::distinct(final(at_stake)@),
        final(at_stake)@ == snapshots(old(at_stake)@, estates@, estate_stake@, next),
        total == capped(total_bonded(estates@, estate_stake@)),
{
    let mut total: Balance = 0;
    let mut i: usize = 0;
    let ghost all = estates@;
    proof {
        assert(all.take(0) =~= Seq::empty());
    }
    while i < estates.len()
        invariant
            i <= all.len(),
            all == estates@,
            assoc::distinct(at_stake@),
            at_stake@ == snapshots(old(at_stake)@, all.take(i as int), estate_stake@, next),
            total == capped(total_bonded(all.take(i as int), estate_stake@)),
        decreases all.len() - i,
    {
        let estate_id = estates.key(i);
        proof {
            assert(all.take(i + 1).drop_last() =~= all.take(i as int));
            assert(all.take(i + 1).last() == all[i as int]);
            lemma_capped_sum(
                total_bonded(all.take(i as int), estate_stake@),
                bonded(stakers_of(estate_stake@, estate_id)),
            );
        }
        let snapshot = stakers_of_estate(estate_stake, estate_id);
        total = total.saturating_add(snapshot.total_bond);
        if snapshot.stakers.len() > 0 {
            at_stake.insert(SnapshotKey { round: next, estate_id }, snapshot);
        }
        i += 1;
    }
    proof {
        assert(all.take(i as int) =~= all);
    }
    total
}

impl Pallet {
    /// The reward pool of a round in which `staked` was bonded in all: twice
    /// that amount, as far as a balance can hold it.
    pub fn compute_issuance(staked: Balance) -> (pool: Balance)
        ensures
            pool == issuance_for(staked),
    {
        staked.saturating_add(staked)
    }

    /// What one staker is due out of a round's pool.
    pub fn reward_due(pool: Balance, bond: Bond) -> (amount: Balance)
        ensures
            amount == reward_due(pool, bond),
    {
        1
    }

    /// The notification that is due once the value ledger has answered an
    /// instruction to reward `staker`: `credited` is the amount that the
    /// ledger has credited, or nothing where it has refused. A refusal
    /// passes in silence.
    pub fn staking_rewarded(staker: AccountId, credited: Option<Balance>) -> (event: Option<Event>)
        ensures
            match credited {
                Some(amount) => event matches Some(told) && told@ == EventView::StakingRewarded(
                    staker,
                    amount,
                ),
                None => event is None,
            },
    {
        match credited {
            Some(amount) => Some(Event::StakingRewarded(staker, amount)),
            None => None,
        }
    }

    /// What was bonded in all when `round` began.
    pub fn staked(&self, round: RoundIndex) -> (amount: Balance)
        requires
            self.wf(),
        ensures
            amount == self@.staked_in(round),
    {
        match self.staked.get(&round) {
            Some(amount) => *amount,
            None => 0,
        }
    }

    /// Pays the stakers of the round that is due when the round `next`
    /// begins.
    pub(crate) fn pay_stakers(&mut self, next: RoundIndex)
        requires
            old(self).wf(),
        ensures
            final(self).wf(),
            final(self)@ == old(self)@.pay_stakers(next),
    {
        let duration = self.config.reward_payment_delay;
        if next <= duration {
            return ;
        }
        let round_to_payout = next - duration;
        let total_staked = self.staked(round_to_payout);
        let total_issuance = Self::compute_issuance(total_staked);
        drain_round(&mut self.at_stake, &mut self.effects, round_to_payout, total_issuance);
    }

    /// Releases the stakes that wait to leave.
    pub(crate) fn clear_exit_queue(&mut self)
        requires
            old(self).wf(),
        ensures
            final(self).wf(),
            final(self)@ == old(self)@.clear_exit_queue(),
    {
        proof {
            lemma_drop_keys(self@.estate_stake, self@.exit_queue);
        }
        settle_exits(&mut self.estate_stake, &self.exit_queue, &mut self.effects);
        self.exit_queue.clear();
    }

    /// Records the stakes of the round `next`; gives the total stake.
    pub(crate) fn update_stake_snapshot(&mut self, next: RoundIndex) -> (total: Balance)
        requires
            old(self).wf(),
        ensures
            final(self).wf(),
            final(self)@ == old(self)@.update_stake_snapshot(next),
            total == final(self)@.total_stake,
    {
        let total = record_stakes(&mut self.at_stake, &self.estates, &self.estate_stake, next);
        self.total_stake = total;
        total
    }

    /// The block `n` begins.
    ///
    /// While the round in progress is not over, nothing happens and the
    /// answer is `false`. Once at least `length` blocks have passed since the
    /// round began, the next round starts at `n`: the stakers recorded
    /// `reward_payment_delay` rounds earlier are paid, the stakes that wait
    /// to leave are released, the stakes on the estates that exist are
    /// recorded for the new round, and `round_issuance.ideal` blocks of
    /// land are issued to the treasury. The answer is then `true`.
    ///
    /// If the round index, the number of blocks or the issue itself would
    /// leave the range of a counter, the round does not start and nothing
    /// changes.
    pub fn on_initialize(&mut self, n: BlockNumber, round_issuance: Range) -> (r: Result<
        bool,
        Error,
    >)
        requires
            old(self).wf(),
        ensures
            final(self).wf(),
            match old(self)@.on_initialize(n, round_issuance) {
                Ok((next, started)) => r == Ok::<bool, Error>(started) && final(self)@ == next,
                Err(e) => r == Err::<bool, Error>(e) && final(self)@ == old(self)@,
            },
    {
        if !self.round.should_update(n) {
            return Ok(false);
        }
        let next = match self.round.current.checked_add(1) {
            Some(next) => next,
            None => {
                return Err(Error::Overflow);
            },
        };
        if round_issuance.ideal > 0xffff_ffff {
            return Err(Error::Overflow);
        }
        let blocks: u32 = round_issuance.ideal as u32;
        match self.check_issue(blocks, LAND_UNITS_PER_ISSUED_BLOCK) {
            Ok(_) => {},
            Err(e) => {
                return Err(e);
            },
        }
        let land_register_treasury = self.config.land_treasury;

        self.pay_stakers(next);
        self.push_effect(Effect::Emit(Event::StakersPaid(next)));

        self.clear_exit_queue();
        self.push_effect(Effect::Emit(Event::ExitQueueCleared(next)));

        let total = self.update_stake_snapshot(next);
        self.round = RoundInfo { current: next, first: n, length: self.round.length };
        self.staked.insert(next, total);
        self.push_effect(Effect::Emit(Event::StakeSnapshotUpdated(next, total)));

        match self.do_issue_undeployed_land_blocks(
            land_register_treasury,
            blocks,
            LAND_UNITS_PER_ISSUED_BLOCK,
            UndeployedLandBlockType::Transferable,
        ) {
            Ok(_) => {},
            Err(e) => {
                return Err(e);
            },
        }
        self.push_effect(Effect::Emit(Event::NewRound(n, next, round_issuance.max)));
        Ok(true)
    }
}

} // verus!
