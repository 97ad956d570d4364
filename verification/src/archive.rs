//! The registry laid out as plain values, as a host may store it and load
//! it again.

use crate::event::{log_view, Effect};
use crate::pallet::Pallet;
use crate::state::State;
use crate::table::{entries_view, Table};
use crate::types::{
    Balance, Config, EstateId, EstateInfo, LandUnitKey, MetaverseId, Owner, RoundIndex, RoundInfo,
    SnapshotKey, StakeKey, StakeSnapshot, UndeployedLandBlock, UndeployedLandBlockId,
};
use vstd::prelude::*;

verus! {

/// All that a registry holds: its parameters, its counters, the entries of
/// each of its tables in their order, and its log.
#[derive(Debug, PartialEq, Eq)]
pub struct Archive {
    pub config: Config,
    pub max_bounds: Vec<(MetaverseId, (i32, i32))>,
    pub all_land_units_count: u64,
    pub total_undeployed_land_unit: u64,
    pub land_units: Vec<(LandUnitKey, Owner)>,
    pub next_estate_id: EstateId,
    pub all_estates_count: u64,
    pub estates: Vec<(EstateId, EstateInfo)>,
    pub next_undeployed_land_block_id: UndeployedLandBlockId,
    pub undeployed_land_blocks: Vec<(UndeployedLandBlockId, UndeployedLandBlock)>,
    pub round: RoundInfo,
    pub total_stake: Balance,
    pub staked: Vec<(RoundIndex, Balance)>,
    pub exit_queue: Vec<(StakeKey, ())>,
    pub at_stake: Vec<(SnapshotKey, StakeSnapshot)>,
    pub estate_stake: Vec<(StakeKey, Balance)>,
    pub effects: Vec<Effect>,
}

impl View for Archive {
    type V = State;

    open spec fn view(&self) -> State {
        State {
            config: self.config,
            max_bounds: entries_view(self.max_bounds@),
            all_land_units_count: self.all_land_units_count,
            total_undeployed_land_unit: self.total_undeployed_land_unit,
            land_units: entries_view(self.land_units@),
            next_estate_id: self.next_estate_id,
            all_estates_count: self.all_estates_count,
            estates: entries_view(self.estates@),
            next_undeployed_land_block_id: self.next_undeployed_land_block_id,
            undeployed_land_blocks: entries_view(self.undeployed_land_blocks@),
            round: self.round,
            total_stake: self.total_stake,
            staked: entries_view(self.staked@),
            exit_queue: entries_view(self.exit_queue@),
            at_stake: entries_view(self.at_stake@),
            estate_stake: entries_view(self.estate_stake@),
            effects: log_view(self.effects@),
        }
    }
}

impl Pallet {
    /// Lays the registry out as plain values. Nothing is lost: the archive
    /// stands for the same state.
    pub fn into_archive(self) -> (archive: Archive)
        ensures
            archive@ == self@,
    {
        Archive {
            config: self.config,
            max_bounds: self.max_bounds.into_entries(),
            all_land_units_count: self.all_land_units_count,
            total_undeployed_land_unit: self.total_undeployed_land_unit,
            land_units: self.land_units.into_entries(),
            next_estate_id: self.next_estate_id,
            all_estates_count: self.all_estates_count,
            estates: self.estates.into_entries(),
            next_undeployed_land_block_id: self.next_undeployed_land_block_id,
            undeployed_land_blocks: self.undeployed_land_blocks.into_entries(),
            round: self.round,
            total_stake: self.total_stake,
            staked: self.staked.into_entries(),
            exit_queue: self.exit_queue.into_entries(),
            at_stake: self.at_stake.into_entries(),
            estate_stake: self.estate_stake.into_entries(),
            effects: self.effects,
        }
    }

    /// The registry that an archive stands for, if the archive is well
    /// formed; an archive that a registry was laid out as always is.
    pub fn restore(archive: Archive) -> (r: Option<Pallet>)
        ensures
            match r {
                Some(pallet) => pallet.wf() && pallet@ == archive@,
                None => !archive@.inv(),
            },
    {
        let pallet = Pallet {
            config: archive.config,
            max_bounds: Table::from_entries(archive.max_bounds),
            all_land_units_count: archive.all_land_units_count,
            total_undeployed_land_unit: archive.total_undeployed_land_unit,
            land_units: Table::from_entries(archive.land_units),
            next_estate_id: archive.next_estate_id,
            all_estates_count: archive.all_estates_count,
            estates: Table::from_entries(archive.estates),
            next_undeployed_land_block_id: archive.next_undeployed_land_block_id,
            undeployed_land_blocks: Table::from_entries(archive.undeployed_land_blocks),
            round: archive.round,
            total_stake: archive.total_stake,
            staked: Table::from_entries(archive.staked),
            exit_queue: Table::from_entries(archive.exit_queue),
            at_stake: Table::from_entries(archive.at_stake),
            estate_stake: Table::from_entries(archive.estate_stake),
            effects: archive.effects,
        };
        if pallet.is_well_formed() {
            Some(pallet)
        } else {
            None
        }
    }
}

} // verus!
