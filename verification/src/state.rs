//! The registry as a mathematical object. Every operation of the library is
//! a function from one `State` to the next, or to the error that refuses it.

use crate::assoc::{distinct, get};
use crate::error::Error;
use crate::event::{EffectView, EventView};
use crate::types::{
    Balance, Config, EstateId, EstateInfoView, LandUnitKey, MetaverseId, Owner, Range, RoundIndex,
    RoundInfo, SnapshotKey, StakeKey, StakeSnapshotView, UndeployedLandBlock,
    UndeployedLandBlockId,
};
use vstd::prelude::*;

verus! {

pub struct State {
    pub config: Config,
    /// The bound of each region that has one.
    pub max_bounds: Seq<(MetaverseId, (i32, i32))>,
    /// Running total of the land units minted: as many as are registered.
    pub all_land_units_count: u64,
    /// Running total of the land units that wait in undeployed blocks.
    pub total_undeployed_land_unit: u64,
    /// The holder of each land unit: an account, or the estate that lists
    /// the unit.
    pub land_units: Seq<(LandUnitKey, Owner)>,
    pub next_estate_id: EstateId,
    /// Running total of the estates.
    pub all_estates_count: u64,
    pub estates: Seq<(EstateId, EstateInfoView)>,
    pub next_undeployed_land_block_id: UndeployedLandBlockId,
    pub undeployed_land_blocks: Seq<(UndeployedLandBlockId, UndeployedLandBlock)>,
    pub round: RoundInfo,
    /// What is bonded in all, as of the last change.
    pub total_stake: Balance,
    /// What was bonded in all when each round began.
    pub staked: Seq<(RoundIndex, Balance)>,
    /// The stakes that leave at the next round.
    pub exit_queue: Seq<(StakeKey, ())>,
    /// The record of each round, estate by estate.
    pub at_stake: Seq<(SnapshotKey, StakeSnapshotView)>,
    /// What each account has bonded on each estate.
    pub estate_stake: Seq<(StakeKey, Balance)>,
    /// What has been left for the outside world to do, oldest first.
    pub effects: Seq<EffectView>,
}

/// The land units that wait in the blocks, all together.
pub open spec fn units_in(blocks: Seq<(UndeployedLandBlockId, UndeployedLandBlock)>) -> nat
    decreases blocks.len(),
{
    if blocks.len() == 0 {
        0
    } else {
        (units_in(blocks.drop_last()) + blocks.last().1.number_land_units) as nat
    }
}

/// Replacing one block changes the units in the blocks by the difference
/// between the two.
pub proof fn lemma_units_update(
    blocks: Seq<(UndeployedLandBlockId, UndeployedLandBlock)>,
    i: int,
    entry: (UndeployedLandBlockId, UndeployedLandBlock),
)
    requires
        0 <= i < blocks.len(),
    ensures
        units_in(blocks.update(i, entry)) == units_in(blocks) - blocks[i].1.number_land_units
            + entry.1.number_land_units,
    decreases blocks.len(),
{
    let changed = blocks.update(i, entry);
    if i == blocks.len() - 1 {
        assert(changed.drop_last() =~= blocks.drop_last());
    } else {
        assert(changed.drop_last() =~= blocks.drop_last().update(i, entry));
        lemma_units_update(blocks.drop_last(), i, entry);
    }
}

/// Taking one block out takes its units out of the units in the blocks.
pub proof fn lemma_units_remove(
    blocks: Seq<(UndeployedLandBlockId, UndeployedLandBlock)>,
    i: int,
)
    requires
        0 <= i < blocks.len(),
    ensures
        units_in(blocks.remove(i)) == units_in(blocks) - blocks[i].1.number_land_units,
    decreases blocks.len(),
{
    let rest = blocks.remove(i);
    if i == blocks.len() - 1 {
        assert(rest =~= blocks.drop_last());
    } else {
        assert(rest.drop_last() =~= blocks.drop_last().remove(i));
        assert(rest.last() == blocks.last());
        lemma_units_remove(blocks.drop_last(), i);
    }
}

/// Every land unit that an estate lists is held by that estate, in the
/// region in which the estate lies.
pub open spec fn in_custody(
    land: Seq<(LandUnitKey, Owner)>,
    estates: Seq<(EstateId, EstateInfoView)>,
) -> bool {
    forall|i: int, j: int|
        0 <= i < estates.len() && 0 <= j < estates[i].1.coordinates.len() ==> get(
            land,
            LandUnitKey {
                metaverse_id: estates[i].1.metaverse_id,
                coordinate: #[trigger] estates[i].1.coordinates[j],
            },
        ) == Some(Owner::Estate(estates[i].0))
}

/// The estate `id` exists, lies in the region of the land unit `key` and
/// lists it.
pub open spec fn lists(estates: Seq<(EstateId, EstateInfoView)>, id: EstateId, key: LandUnitKey)
    -> bool {
    get(estates, id) matches Some(estate) && estate.metaverse_id == key.metaverse_id
        && estate.coordinates.contains(key.coordinate)
}

/// If an estate holds the land unit `key`, it lists it.
pub open spec fn listed_if_held(
    land: Seq<(LandUnitKey, Owner)>,
    estates: Seq<(EstateId, EstateInfoView)>,
    key: LandUnitKey,
) -> bool {
    match get(land, key) {
        Some(Owner::Estate(id)) => lists(estates, id, key),
        _ => true,
    }
}

/// Every land unit that an estate holds is listed by that estate.
pub open spec fn custody_is_listed(
    land: Seq<(LandUnitKey, Owner)>,
    estates: Seq<(EstateId, EstateInfoView)>,
) -> bool {
    forall|key: LandUnitKey| #[trigger] listed_if_held(land, estates, key)
}

/// A change of the land register that puts no unit into the custody of an
/// estate keeps every unit in custody listed.
pub proof fn lemma_listing_kept(
    land: Seq<(LandUnitKey, Owner)>,
    changed: Seq<(LandUnitKey, Owner)>,
    estates: Seq<(EstateId, EstateInfoView)>,
)
    requires
        custody_is_listed(land, estates),
        forall|key: LandUnitKey|
            (#[trigger] get(changed, key)) matches Some(Owner::Estate(_)) ==> get(changed, key)
                == get(land, key),
    ensures
        custody_is_listed(changed, estates),
{
    assert forall|key: LandUnitKey| #[trigger] listed_if_held(changed, estates, key) by {
        assert(listed_if_held(land, estates, key));
    }
}

/// A change of the land register that leaves every unit in the custody of
/// an estate as it was keeps the estates in custody of their units.
pub proof fn lemma_custody_kept(
    land: Seq<(LandUnitKey, Owner)>,
    changed: Seq<(LandUnitKey, Owner)>,
    estates: Seq<(EstateId, EstateInfoView)>,
)
    requires
        in_custody(land, estates),
        forall|key: LandUnitKey|
            (#[trigger] get(land, key)) matches Some(Owner::Estate(_)) ==> get(changed, key)
                == get(land, key),
    ensures
        in_custody(changed, estates),
{
    assert forall|i: int, j: int|
        0 <= i < estates.len() && 0 <= j < estates[i].1.coordinates.len() implies get(
        changed,
        LandUnitKey {
            metaverse_id: estates[i].1.metaverse_id,
            coordinate: #[trigger] estates[i].1.coordinates[j],
        },
    ) == Some(Owner::Estate(estates[i].0)) by {
        let key = LandUnitKey {
            metaverse_id: estates[i].1.metaverse_id,
            coordinate: estates[i].1.coordinates[j],
        };
        assert(get(land, key) == Some(Owner::Estate(estates[i].0)));
    }
}

impl State {
    /// What holds of the registry at all times.
    pub open spec fn inv(self) -> bool {
        &&& distinct(self.max_bounds)
        &&& distinct(self.land_units)
        &&& distinct(self.estates)
        &&& distinct(self.undeployed_land_blocks)
        &&& distinct(self.staked)
        &&& distinct(self.exit_queue)
        &&& distinct(self.at_stake)
        &&& distinct(self.estate_stake)
        &&& self.all_land_units_count == self.land_units.len()
        &&& self.all_estates_count == self.estates.len()
        &&& self.total_undeployed_land_unit == units_in(self.undeployed_land_blocks)
        &&& forall|i: int|
            0 <= i < self.estates.len() ==> {
                &&& (#[trigger] self.estates[i]).0 < self.next_estate_id
                &&& self.estates[i].1.coordinates.len() > 0
                &&& self.estates[i].1.coordinates.no_duplicates()
            }
        &&& in_custody(self.land_units, self.estates)
        &&& custody_is_listed(self.land_units, self.estates)
        &&& forall|i: int|
            0 <= i < self.undeployed_land_blocks.len() ==> {
                &&& (#[trigger] self.undeployed_land_blocks[i]).0
                    < self.next_undeployed_land_block_id
                &&& self.undeployed_land_blocks[i].1.id == self.undeployed_land_blocks[i].0
            }
        &&& forall|i: int|
            0 <= i < self.estate_stake.len() ==> (#[trigger] self.estate_stake[i]).1
                >= self.config.minimum_stake
    }

    /// The registry at its beginning: nothing is registered, the first round
    /// begins at block 0, and the log tells of it.
    pub open spec fn genesis(config: Config, round_issuance: Range) -> State {
        State {
            config,
            max_bounds: Seq::empty(),
            all_land_units_count: 0,
            total_undeployed_land_unit: 0,
            land_units: Seq::empty(),
            next_estate_id: 0,
            all_estates_count: 0,
            estates: Seq::empty(),
            next_undeployed_land_block_id: 0,
            undeployed_land_blocks: Seq::empty(),
            round: RoundInfo { current: 1, first: 0, length: config.min_blocks_per_round },
            total_stake: 0,
            staked: Seq::empty(),
            exit_queue: Seq::empty(),
            at_stake: Seq::empty(),
            estate_stake: Seq::empty(),
            effects: seq![EffectView::Emit(EventView::NewRound(0, 1, round_issuance.max))],
        }
    }

    /// The state with one more notification in its log.
    pub open spec fn emit(self, event: EventView) -> State {
        State { effects: self.effects.push(EffectView::Emit(event)), ..self }
    }

    /// The state with one more instruction in its log.
    pub open spec fn instruct(self, effect: EffectView) -> State {
        State { effects: self.effects.push(effect), ..self }
    }
}

/// An operation that answers `r` and leaves `after` has done what
/// `expected` says of the state `before`: on success the state is the
/// expected one and the answer the expected answer; on refusal the error is
/// the expected one and nothing has changed.
pub open spec fn follows<T>(
    expected: Result<(State, T), Error>,
    before: State,
    after: State,
    r: Result<T, Error>,
) -> bool {
    match expected {
        Ok((next, value)) => r == Ok::<T, Error>(value) && after == next,
        Err(e) => r == Err::<T, Error>(e) && after == before,
    }
}

/// `follows` for an operation whose answer on success is known beforehand.
pub open spec fn obeys_with<T>(
    expected: Result<State, Error>,
    value: T,
    before: State,
    after: State,
    r: Result<T, Error>,
) -> bool {
    match expected {
        Ok(next) => r == Ok::<T, Error>(value) && after == next,
        Err(e) => r == Err::<T, Error>(e) && after == before,
    }
}

/// `follows` for an operation that answers nothing.
pub open spec fn obeys(
    expected: Result<State, Error>,
    before: State,
    after: State,
    r: Result<(), Error>,
) -> bool {
    match expected {
        Ok(next) => r is Ok && after == next,
        Err(e) => r == Err::<(), Error>(e) && after == before,
    }
}

} // verus!
