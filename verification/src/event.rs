//! What the registry tells the outside world: notifications of every change,
//! and the instructions it leaves for the value ledger.

use crate::types::{
    AccountId, Balance, BlockNumber, Coordinate, EstateId, MetaverseId, RoundIndex,
    UndeployedLandBlockId,
};
use vstd::prelude::*;

verus! {

/// A notification of a change that has been made.
#[derive(Debug, PartialEq, Eq)]
pub enum Event {
    /// Beneficiary, region, coordinates.
    NewLandsMinted(AccountId, MetaverseId, Vec<Coordinate>),
    /// Region, coordinate, former owner, new owner.
    TransferredLandUnit(MetaverseId, Coordinate, AccountId, AccountId),
    /// Estate, former owner, new owner.
    TransferredEstate(EstateId, AccountId, AccountId),
    /// Beneficiary, region, coordinate.
    NewLandUnitMinted(AccountId, MetaverseId, Coordinate),
    /// Estate, beneficiary, region, coordinates.
    NewEstateMinted(EstateId, AccountId, MetaverseId, Vec<Coordinate>),
    /// Region, least and greatest coordinate.
    MaxBoundSet(MetaverseId, (i32, i32)),
    /// Owner, region, block, coordinates.
    LandBlockDeployed(AccountId, MetaverseId, UndeployedLandBlockId, Vec<Coordinate>),
    /// Beneficiary, block.
    UndeployedLandBlockIssued(AccountId, UndeployedLandBlockId),
    /// Former owner, new owner, block.
    UndeployedLandBlockTransferred(AccountId, AccountId, UndeployedLandBlockId),
    /// Owner, delegate, block.
    UndeployedLandBlockApproved(AccountId, AccountId, UndeployedLandBlockId),
    /// Estate, owner.
    EstateDestroyed(EstateId, AccountId),
    /// Estate, owner, coordinates.
    EstateUpdated(EstateId, AccountId, Vec<Coordinate>),
    /// Estate, owner, coordinates.
    LandUnitAdded(EstateId, AccountId, Vec<Coordinate>),
    /// Estate, owner, coordinates.
    LandUnitsRemoved(EstateId, AccountId, Vec<Coordinate>),
    UndeployedLandBlockUnapproved(UndeployedLandBlockId),
    UndeployedLandBlockFreezed(UndeployedLandBlockId),
    UndeployedLandBlockUnfreezed(UndeployedLandBlockId),
    UndeployedLandBlockBurnt(UndeployedLandBlockId),
    /// First block, round, greatest issuance of the round.
    NewRound(BlockNumber, RoundIndex, u64),
    /// Round, total stake recorded.
    StakeSnapshotUpdated(RoundIndex, Balance),
    StakersPaid(RoundIndex),
    ExitQueueCleared(RoundIndex),
    /// Staker, estate, amount added.
    EstateStakeIncreased(AccountId, EstateId, Balance),
    /// Staker, estate, amount taken back.
    EstateStakeDecreased(AccountId, EstateId, Balance),
    /// Staker, estate.
    EstateStakeLeft(AccountId, EstateId),
    /// Staker, amount credited.
    StakingRewarded(AccountId, Balance),
}

/// An `Event` with its coordinate lists as sequences.
pub enum EventView {
    NewLandsMinted(AccountId, MetaverseId, Seq<Coordinate>),
    TransferredLandUnit(MetaverseId, Coordinate, AccountId, AccountId),
    TransferredEstate(EstateId, AccountId, AccountId),
    NewLandUnitMinted(AccountId, MetaverseId, Coordinate),
    NewEstateMinted(EstateId, AccountId, MetaverseId, Seq<Coordinate>),
    MaxBoundSet(MetaverseId, (i32, i32)),
    LandBlockDeployed(AccountId, MetaverseId, UndeployedLandBlockId, Seq<Coordinate>),
    UndeployedLandBlockIssued(AccountId, UndeployedLandBlockId),
    UndeployedLandBlockTransferred(AccountId, AccountId, UndeployedLandBlockId),
    UndeployedLandBlockApproved(AccountId, AccountId, UndeployedLandBlockId),
    EstateDestroyed(EstateId, AccountId),
    EstateUpdated(EstateId, AccountId, Seq<Coordinate>),
    LandUnitAdded(EstateId, AccountId, Seq<Coordinate>),
    LandUnitsRemoved(EstateId, AccountId, Seq<Coordinate>),
    UndeployedLandBlockUnapproved(UndeployedLandBlockId),
    UndeployedLandBlockFreezed(UndeployedLandBlockId),
    UndeployedLandBlockUnfreezed(UndeployedLandBlockId),
    UndeployedLandBlockBurnt(UndeployedLandBlockId),
    NewRound(BlockNumber, RoundIndex, u64),
    StakeSnapshotUpdated(RoundIndex, Balance),
    StakersPaid(RoundIndex),
    ExitQueueCleared(RoundIndex),
    EstateStakeIncreased(AccountId, EstateId, Balance),
    EstateStakeDecreased(AccountId, EstateId, Balance),
    EstateStakeLeft(AccountId, EstateId),
    StakingRewarded(AccountId, Balance),
}

impl View for Event {
    type V = EventView;

    open spec fn view(&self) -> EventView {
        match *self {
            Event::NewLandsMinted(a, m, c) => EventView::NewLandsMinted(a, m, c@),
            Event::TransferredLandUnit(m, c, a, b) => EventView::TransferredLandUnit(m, c, a, b),
            Event::TransferredEstate(e, a, b) => EventView::TransferredEstate(e, a, b),
            Event::NewLandUnitMinted(a, m, c) => EventView::NewLandUnitMinted(a, m, c),
            Event::NewEstateMinted(e, a, m, c) => EventView::NewEstateMinted(e, a, m, c@),
            Event::MaxBoundSet(m, b) => EventView::MaxBoundSet(m, b),
            Event::LandBlockDeployed(a, m, b, c) => EventView::LandBlockDeployed(a, m, b, c@),
            Event::UndeployedLandBlockIssued(a, b) => EventView::UndeployedLandBlockIssued(a, b),
            Event::UndeployedLandBlockTransferred(a, b, c) => {
                EventView::UndeployedLandBlockTransferred(a, b, c)
            },
            Event::UndeployedLandBlockApproved(a, b, c) => {
                EventView::UndeployedLandBlockApproved(a, b, c)
            },
            Event::EstateDestroyed(e, a) => EventView::EstateDestroyed(e, a),
            Event::EstateUpdated(e, a, c) => EventView::EstateUpdated(e, a, c@),
            Event::LandUnitAdded(e, a, c) => EventView::LandUnitAdded(e, a, c@),
            Event::LandUnitsRemoved(e, a, c) => EventView::LandUnitsRemoved(e, a, c@),
            Event::UndeployedLandBlockUnapproved(b) => EventView::UndeployedLandBlockUnapproved(b),
            Event::UndeployedLandBlockFreezed(b) => EventView::UndeployedLandBlockFreezed(b),
            Event::UndeployedLandBlockUnfreezed(b) => EventView::UndeployedLandBlockUnfreezed(b),
            Event::UndeployedLandBlockBurnt(b) => EventView::UndeployedLandBlockBurnt(b),
            Event::NewRound(n, r, x) => EventView::NewRound(n, r, x),
            Event::StakeSnapshotUpdated(r, t) => EventView::StakeSnapshotUpdated(r, t),
            Event::StakersPaid(r) => EventView::StakersPaid(r),
            Event::ExitQueueCleared(r) => EventView::ExitQueueCleared(r),
            Event::EstateStakeIncreased(a, e, x) => EventView::EstateStakeIncreased(a, e, x),
            Event::EstateStakeDecreased(a, e, x) => EventView::EstateStakeDecreased(a, e, x),
            Event::EstateStakeLeft(a, e) => EventView::EstateStakeLeft(a, e),
            Event::StakingRewarded(a, x) => EventView::StakingRewarded(a, x),
        }
    }
}

/// Something the outside world has to do after an operation: pass a
/// notification on, or move value in the ledger.
#[derive(Debug, PartialEq, Eq)]
pub enum Effect {
    /// Make the event known.
    Emit(Event),
    /// Release this much of the account's reserved balance.
    Unreserve(AccountId, Balance),
    /// Credit the account with this staking reward.
    Reward(AccountId, Balance),
}

pub enum EffectView {
    Emit(EventView),
    Unreserve(AccountId, Balance),
    Reward(AccountId, Balance),
}

impl View for Effect {
    type V = EffectView;

    open spec fn view(&self) -> EffectView {
        match *self {
            Effect::Emit(e) => EffectView::Emit(e@),
            Effect::Unreserve(a, x) => EffectView::Unreserve(a, x),
            Effect::Reward(a, x) => EffectView::Reward(a, x),
        }
    }
}

/// Each effect of a log by its view.
pub open spec fn log_view(log: Seq<Effect>) -> Seq<EffectView> {
    log.map_values(|e: Effect| e@)
}

} // verus!
