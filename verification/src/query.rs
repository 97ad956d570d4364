//! Reading the registry.

use crate::assoc;
use crate::land::copy_coordinates;
use crate::pallet::Pallet;
use crate::state::State;
use crate::types::{
    AccountId, Balance, Config, Coordinate, EstateId, EstateInfoView, LandUnitKey, MetaverseId,
    Owner, RoundIndex, RoundInfo, SnapshotKey, StakeKey, StakeSnapshot, StakeSnapshotView,
    UndeployedLandBlock, UndeployedLandBlockId,
};
use vstd::prelude::*;

verus! {

/// The land units of a region that the account `who` holds itself, in the
/// order of the land register.
pub open spec fn direct_units(
    land: Seq<(LandUnitKey, Owner)>,
    who: AccountId,
    metaverse_id: MetaverseId,
) -> Seq<Coordinate>
    decreases land.len(),
{
    if land.len() == 0 {
        Seq::empty()
    } else {
        let earlier = direct_units(land.drop_last(), who, metaverse_id);
        if land.last().0.metaverse_id == metaverse_id && land.last().1 == Owner::Account(who) {
            earlier.push(land.last().0.coordinate)
        } else {
            earlier
        }
    }
}

/// The land units of all the estates that `who` owns in a region, estate
/// after estate.
pub open spec fn estate_units(
    estates: Seq<(EstateId, EstateInfoView)>,
    who: AccountId,
    metaverse_id: MetaverseId,
) -> Seq<Coordinate>
    decreases estates.len(),
{
    if estates.len() == 0 {
        Seq::empty()
    } else {
        let earlier = estate_units(estates.drop_last(), who, metaverse_id);
        if estates.last().1.owner == who && estates.last().1.metaverse_id == metaverse_id {
            earlier + estates.last().1.coordinates
        } else {
            earlier
        }
    }
}

impl State {
    /// The land units that `who` has in a region: those it holds itself,
    /// then those of its estates there.
    pub open spec fn user_land_units(self, who: AccountId, metaverse_id: MetaverseId) -> Seq<
        Coordinate,
    > {
        direct_units(self.land_units, who, metaverse_id) + estate_units(
            self.estates,
            who,
            metaverse_id,
        )
    }

    /// The record made of an estate when `round` began; an empty one where
    /// none was made.
    pub open spec fn snapshot(self, round: RoundIndex, estate_id: EstateId) -> StakeSnapshotView {
        match assoc::get(self.at_stake, SnapshotKey { round, estate_id }) {
            Some(snapshot) => snapshot,
            None => StakeSnapshotView { stakers: Seq::empty(), total_bond: 0 },
        }
    }
}

impl Pallet {
    /// The parameters that the registry was set up with.
    pub fn config(&self) -> (config: Config)
        ensures
            config == self@.config,
    {
        self.config
    }

    /// The bound of a region, if it has one.
    pub fn get_max_bounds(&self, metaverse_id: MetaverseId) -> (bound: Option<(i32, i32)>)
        requires
            self.wf(),
        ensures
            bound == assoc::get(self@.max_bounds, metaverse_id),
    {
        self.bound_of(metaverse_id)
    }

    /// How many land units have been minted.
    pub fn all_land_units_count(&self) -> (count: u64)
        ensures
            count == self@.all_land_units_count,
    {
        self.all_land_units_count
    }

    /// How many land units wait in undeployed blocks.
    pub fn all_undeployed_land_unit(&self) -> (count: u64)
        ensures
            count == self@.total_undeployed_land_unit,
    {
        self.total_undeployed_land_unit
    }

    /// The holder of a land unit, if the unit is registered.
    pub fn get_land_units(&self, metaverse_id: MetaverseId, coordinate: Coordinate) -> (owner:
        Option<Owner>)
        requires
            self.wf(),
        ensures
            owner == assoc::get(self@.land_units, LandUnitKey { metaverse_id, coordinate }),
    {
        match self.land_units.get(&LandUnitKey { metaverse_id, coordinate }) {
            Some(owner) => Some(*owner),
            None => None,
        }
    }

    /// The identifier that the next estate gets.
    pub fn next_estate_id(&self) -> (id: EstateId)
        ensures
            id == self@.next_estate_id,
    {
        self.next_estate_id
    }

    /// How many estates there are.
    pub fn all_estates_count(&self) -> (count: u64)
        ensures
            count == self@.all_estates_count,
    {
        self.all_estates_count
    }

    /// The land units of an estate, if the estate exists.
    pub fn get_estates(&self, estate_id: EstateId) -> (r: Option<Vec<Coordinate>>)
        requires
            self.wf(),
        ensures
            match assoc::get(self@.estates, estate_id) {
                Some(estate) => r matches Some(members) && members@ == estate.coordinates,
                None => r is None,
            },
    {
        match self.estates.get(&estate_id) {
            Some(estate) => Some(copy_coordinates(&estate.coordinates)),
            None => None,
        }
    }

    /// The region in which an estate lies, if the estate exists.
    pub fn get_estate_metaverse(&self, estate_id: EstateId) -> (r: Option<MetaverseId>)
        requires
            self.wf(),
        ensures
            match assoc::get(self@.estates, estate_id) {
                Some(estate) => r == Some(estate.metaverse_id),
                None => r is None,
            },
    {
        match self.estates.get(&estate_id) {
            Some(estate) => Some(estate.metaverse_id),
            None => None,
        }
    }

    /// Whether `who` owns the estate: `Some` if it does.
    pub fn get_estate_owner(&self, who: AccountId, estate_id: EstateId) -> (r: Option<()>)
        requires
            self.wf(),
        ensures
            r is Some <==> (assoc::get(self@.estates, estate_id) matches Some(estate)
                && estate.owner == who),
    {
        match self.estates.get(&estate_id) {
            Some(estate) => if estate.owner == who {
                Some(())
            } else {
                None
            },
            None => None,
        }
    }

    /// The identifier that the next undeployed land block gets.
    pub fn next_undeployed_land_block_id(&self) -> (id: UndeployedLandBlockId)
        ensures
            id == self@.next_undeployed_land_block_id,
    {
        self.next_undeployed_land_block_id
    }

    /// The undeployed land block under an identifier, if there is one.
    pub fn get_undeployed_land_block(&self, undeployed_land_block_id: UndeployedLandBlockId) -> (r:
        Option<UndeployedLandBlock>)
        requires
            self.wf(),
        ensures
            r == assoc::get(self@.undeployed_land_blocks, undeployed_land_block_id),
    {
        self.block(undeployed_land_block_id)
    }

    /// Whether `who` owns the undeployed land block: `Some` if it does.
    pub fn get_undeployed_land_block_owner(
        &self,
        who: AccountId,
        undeployed_land_block_id: UndeployedLandBlockId,
    ) -> (r: Option<()>)
        requires
            self.wf(),
        ensures
            r is Some <==> (assoc::get(
                self@.undeployed_land_blocks,
                undeployed_land_block_id,
            ) matches Some(block) && block.owner == who),
    {
        match self.block(undeployed_land_block_id) {
            Some(block) => if block.owner == who {
                Some(())
            } else {
                None
            },
            None => None,
        }
    }

    /// The round in progress.
    pub fn round(&self) -> (round: RoundInfo)
        ensures
            round == self@.round,
    {
        self.round
    }

    /// What is bonded in all.
    pub fn total_stake(&self) -> (amount: Balance)
        ensures
            amount == self@.total_stake,
    {
        self.total_stake
    }

    /// Whether the stake of `who` on an estate waits to leave: `Some` if it
    /// does.
    pub fn exit_queue(&self, who: AccountId, estate_id: EstateId) -> (r: Option<()>)
        ensures
            r is Some <==> self@.is_leaving(estate_id, who),
    {
        if self.exit_queue.contains_key(&StakeKey { estate_id, staker: who }) {
            Some(())
        } else {
            None
        }
    }

    /// The record made of an estate when `round` began; an empty one where
    /// none was made.
    pub fn at_stake(&self, round: RoundIndex, estate_id: EstateId) -> (snapshot: StakeSnapshot)
        requires
            self.wf(),
        ensures
            snapshot@ == self@.snapshot(round, estate_id),
    {
        match self.at_stake.get(&SnapshotKey { round, estate_id }) {
            Some(found) => {
                let mut stakers = Vec::new();
                let mut i: usize = 0;
                while i < found.stakers.len()
                    invariant
                        i <= found.stakers.len(),
                        stakers@ == found.stakers@.take(i as int),
                    decreases found.stakers.len() - i,
                {
                    let bond = found.stakers[i];
                    stakers.push(bond);
                    assert(stakers@ =~= found.stakers@.take(i + 1));
                    i += 1;
                }
                assert(found.stakers@.take(i as int) =~= found.stakers@);
                StakeSnapshot { stakers, total_bond: found.total_bond }
            },
            None => StakeSnapshot { stakers: Vec::new(), total_bond: 0 },
        }
    }

    /// The land units of a region that `who` holds itself.
    fn direct_land_units(&self, who: AccountId, metaverse_id: MetaverseId) -> (units: Vec<
        Coordinate,
    >)
        ensures
            units@ == direct_units(self@.land_units, who, metaverse_id),
    {
        let mut units: Vec<Coordinate> = Vec::new();
        let mut i: usize = 0;
        let ghost land = self@.land_units;
        proof {
            assert(land.take(0) =~= Seq::empty());
        }
        while i < self.land_units.len()
            invariant
                i <= land.len(),
                land == self@.land_units,
                units@ == direct_units(land.take(i as int), who, metaverse_id),
            decreases land.len() - i,
        {
            let key = self.land_units.key(i);
            proof {
                assert(land.take(i + 1).drop_last() =~= land.take(i as int));
                assert(land.take(i + 1).last() == land[i as int]);
            }
            let held = match self.land_units.value(i) {
                Owner::Account(owner) => *owner == who,
                _ => false,
            };
            if key.metaverse_id == metaverse_id && held {
                units.push(key.coordinate);
            }
            i += 1;
        }
        proof {
            assert(land.take(i as int) =~= land);
        }
        units
    }

    /// Adds the land units of all the estates that `who` owns in a region to
    /// `units`.
    fn add_estate_units(
        &self,
        units: &mut Vec<Coordinate>,
        who: AccountId,
        metaverse_id: MetaverseId,
    )
        ensures
            final(units)@ == old(units)@ + estate_units(self@.estates, who, metaverse_id),
    {
        let mut i: usize = 0;
        let ghost estates = self@.estates;
        proof {
            assert(estates.take(0) =~= Seq::empty());
            assert(units@ =~= old(units)@ + estate_units(estates.take(0), who, metaverse_id));
        }
        while i < self.estates.len()
            invariant
                i <= estates.len(),
                estates == self@.estates,
                units@ == old(units)@ + estate_units(estates.take(i as int), who, metaverse_id),
            decreases estates.len() - i,
        {
            proof {
                assert(estates.take(i + 1).drop_last() =~= estates.take(i as int));
                assert(estates.take(i + 1).last() == estates[i as int]);
            }
            let estate = self.estates.value(i);
            if estate.owner == who && estate.metaverse_id == metaverse_id {
                let mut coordinates = copy_coordinates(&estate.coordinates);
                units.append(&mut coordinates);
                assert(units@ =~= old(units)@ + estate_units(estates.take(i + 1), who, metaverse_id));
            }
            i += 1;
        }
        proof {
            assert(estates.take(i as int) =~= estates);
        }
    }

    /// The land units that `who` has in a region.
    pub(crate) fn user_land_units(&self, who: AccountId, metaverse_id: MetaverseId) -> (units: Vec<
        Coordinate,
    >)
        ensures
            units@ == self@.user_land_units(who, metaverse_id),
    {
        let mut units = self.direct_land_units(who, metaverse_id);
        self.add_estate_units(&mut units, who, metaverse_id);
        units
    }
}

} // verus!
