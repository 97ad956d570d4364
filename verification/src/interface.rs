//! The registry as other components see it: what the auction and the other
//! owners of land may ask of it and have it do. None of these operations
//! looks at the caller's authority.

use crate::assoc;
use crate::error::Error;
use crate::pallet::Pallet;
use crate::state::obeys_with;
use crate::types::{
    AccountId, Coordinate, EstateId, LandUnitKey, MetaverseId, UndeployedLandBlockId,
};
use vstd::prelude::*;

verus! {

impl Pallet {
    /// The land units that `who` has in a region: those it holds itself, in
    /// the order of the land register, then those of each estate it owns
    /// there.
    pub fn get_user_land_units(&self, who: &AccountId, metaverse_id: &MetaverseId) -> (units: Vec<
        Coordinate,
    >)
        ensures
            units@ == self@.user_land_units(*who, *metaverse_id),
    {
        self.user_land_units(*who, *metaverse_id)
    }

    /// Whether `who` has any land in a region.
    pub fn is_user_own_metaverse_land(&self, who: &AccountId, metaverse_id: &MetaverseId) -> (b:
        bool)
        ensures
            b == (self@.user_land_units(*who, *metaverse_id).len() > 0),
    {
        self.user_land_units(*who, *metaverse_id).len() > 0
    }

    /// An unfrozen, transferable block passes from its owner `who` to `to`.
    pub fn transfer_undeployed_land_block(
        &mut self,
        who: &AccountId,
        to: &AccountId,
        undeployed_land_block_id: UndeployedLandBlockId,
    ) -> (r: Result<UndeployedLandBlockId, Error>)
        requires
            old(self).wf(),
        ensures
            final(self).wf(),
            obeys_with(
                old(self)@.do_transfer_undeployed_land_block(*who, *to, undeployed_land_block_id),
                undeployed_land_block_id,
                old(self)@,
                final(self)@,
                r,
            ),
    {
        self.do_transfer_undeployed_land_block(*who, *to, undeployed_land_block_id)
    }

    /// Destroys a frozen block; its remaining units leave the count of
    /// undeployed units.
    pub fn burn_undeployed_land_block(
        &mut self,
        undeployed_land_block_id: UndeployedLandBlockId,
    ) -> (r: Result<UndeployedLandBlockId, Error>)
        requires
            old(self).wf(),
        ensures
            final(self).wf(),
            obeys_with(
                old(self)@.do_burn_undeployed_land_block(undeployed_land_block_id),
                undeployed_land_block_id,
                old(self)@,
                final(self)@,
                r,
            ),
    {
        self.do_burn_undeployed_land_block(undeployed_land_block_id)
    }

    /// Freezes an unfrozen block.
    pub fn freeze_undeployed_land_block(
        &mut self,
        undeployed_land_block_id: UndeployedLandBlockId,
    ) -> (r: Result<UndeployedLandBlockId, Error>)
        requires
            old(self).wf(),
        ensures
            final(self).wf(),
            obeys_with(
                old(self)@.do_freeze_undeployed_land_block(undeployed_land_block_id),
                undeployed_land_block_id,
                old(self)@,
                final(self)@,
                r,
            ),
    {
        self.do_freeze_undeployed_land_block(undeployed_land_block_id)
    }

    /// Hands an estate that the auction has sold to the buyer. `in_auction`
    /// is what the auction service says of the estate: one that is not up
    /// for auction stays where it is.
    pub fn transfer_auctioned_estate(
        &mut self,
        estate_id: EstateId,
        from: &AccountId,
        to: &AccountId,
        in_auction: bool,
    ) -> (r: Result<EstateId, Error>)
        requires
            old(self).wf(),
        ensures
            final(self).wf(),
            obeys_with(
                old(self)@.transfer_auctioned_estate(estate_id, *from, *to, in_auction),
                estate_id,
                old(self)@,
                final(self)@,
                r,
            ),
    {
        if !in_auction {
            return Err(Error::EstateNotInAuction);
        }
        self.do_transfer_estate(estate_id, *from, *to)
    }

    /// Hands a land unit that the auction has sold to the buyer `to.0` in
    /// the region `to.1`. `in_auction` is what the auction service says of
    /// the unit: one that is not up for auction stays where it is.
    pub fn transfer_landunit(
        &mut self,
        coordinate: Coordinate,
        from: &AccountId,
        to: &(AccountId, MetaverseId),
        in_auction: bool,
    ) -> (r: Result<Coordinate, Error>)
        requires
            old(self).wf(),
        ensures
            final(self).wf(),
            obeys_with(
                old(self)@.transfer_landunit(coordinate, *from, *to, in_auction),
                coordinate,
                old(self)@,
                final(self)@,
                r,
            ),
    {
        if !in_auction {
            return Err(Error::LandUnitNotInAuction);
        }
        self.do_transfer_landunit(coordinate, *from, to.0, to.1)
    }

    /// Whether the estate exists.
    pub fn check_estate(&self, estate_id: EstateId) -> (r: Result<bool, Error>)
        ensures
            r == Ok::<bool, Error>(assoc::contains_key(self@.estates, estate_id)),
    {
        Ok(self.estates.contains_key(&estate_id))
    }

    /// Whether the land unit is registered.
    pub fn check_landunit(&self, metaverse_id: MetaverseId, coordinate: Coordinate) -> (r: Result<
        bool,
        Error,
    >)
        ensures
            r == Ok::<bool, Error>(
                assoc::contains_key(self@.land_units, LandUnitKey { metaverse_id, coordinate }),
            ),
    {
        Ok(self.land_units.contains_key(&LandUnitKey { metaverse_id, coordinate }))
    }

    /// How many land units have been minted.
    pub fn get_total_land_units(&self) -> (count: u64)
        ensures
            count == self@.all_land_units_count,
    {
        self.all_land_units_count
    }

    /// How many land units wait in undeployed blocks.
    pub fn get_total_undeploy_land_units(&self) -> (count: u64)
        ensures
            count == self@.total_undeployed_land_unit,
    {
        self.total_undeployed_land_unit
    }
}

} // verus!
