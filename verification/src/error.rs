//! Why an operation was refused.

use vstd::prelude::*;

verus! {

#[derive(Clone, Copy, Debug, PartialEq, Eq)]
pub enum Error {
    /// The caller's authority does not admit the operation.
    BadOrigin,
    /// The caller does not own what the operation touches.
    NoPermission,
    /// Every estate or land block identifier has been given out.
    NoAvailableEstateId,
    /// The value ledger could not reserve the amount.
    InsufficientFund,
    /// An estate is on record under the identifier already.
    EstateIdAlreadyExist,
    /// The land unit is registered where a new one is asked for; or, where
    /// an existing one is, it is missing or in the custody of an estate.
    LandUnitIsNotAvailable,
    LandUnitIsOutOfBound,
    /// The region has no bound yet.
    NoMaxBoundSet,
    UndeployedLandBlockNotFound,
    UndeployedLandBlockIsNotTransferable,
    UndeployedLandBlockDoesNotHaveEnoughLandUnits,
    /// The receiver of an undeployed land block owns it already.
    AlreadyOwnTheUndeployedLandBlock,
    /// The block is frozen and cannot be deployed.
    UndeployedLandBlockFreezed,
    /// The block is frozen where an unfrozen one is asked for.
    UndeployedLandBlockAlreadyFreezed,
    UndeployedLandBlockNotFrozen,
    AlreadyOwnTheEstate,
    AlreadyOwnTheLandUnit,
    EstateNotInAuction,
    LandUnitNotInAuction,
    EstateAlreadyInAuction,
    LandUnitAlreadyInAuction,
    /// There is no such estate, or none in the region that was named.
    EstateDoesNotExist,
    /// The caller does not hold the land unit, or the estate does not list
    /// it, or it is named twice.
    LandUnitDoesNotExist,
    /// An estate would be left without any land unit.
    EstateWithoutLandUnit,
    OnlyFrozenUndeployedLandBlockCanBeDestroyed,
    BelowMinimumStake,
    /// A counter or a balance would leave the range of its type.
    Overflow,
    EstateStakeAlreadyLeft,
    AccountHasNoStake,
}

} // verus!
