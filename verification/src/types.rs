//! Identifiers and plain records of the land registry.

use crate::table::Key;
use vstd::prelude::*;

verus! {

/// An account, as the identity service names it.
pub type AccountId = u64;

/// A region of land: a bounded coordinate space.
pub type MetaverseId = u64;

pub type EstateId = u64;

pub type UndeployedLandBlockId = u128;

pub type RoundIndex = u32;

pub type BlockNumber = u32;

pub type Balance = u128;

/// The position of a land unit inside its region.
pub type Coordinate = (i32, i32);

/// Who asks for an operation: the resolved identity of the caller together
/// with its authority.
#[derive(Clone, Copy, Debug, PartialEq, Eq)]
pub enum Origin {
    /// The administrator.
    Root,
    /// An ordinary account.
    Signed(AccountId),
    /// Nobody in particular.
    Unsigned,
}

impl Origin {
    pub open spec fn is_root(self) -> bool {
        self is Root
    }

    /// The account behind a signed origin.
    pub open spec fn signer(self) -> Option<AccountId> {
        match self {
            Origin::Signed(who) => Some(who),
            _ => None,
        }
    }
}

/// The holder of a land unit: an account, or an estate that keeps the unit
/// in custody for whoever owns the estate.
#[derive(Clone, Copy, Debug, PartialEq, Eq)]
pub enum Owner {
    Account(AccountId),
    Estate(EstateId),
}

impl View for Owner {
    type V = Owner;

    open spec fn view(&self) -> Owner {
        *self
    }
}

/// A land unit's identity: its region and its position there.
#[derive(Clone, Copy, Debug, PartialEq, Eq)]
pub struct LandUnitKey {
    pub metaverse_id: MetaverseId,
    pub coordinate: Coordinate,
}

impl Key for LandUnitKey {
    fn same(&self, other: &Self) -> (b: bool) {
        self.metaverse_id == other.metaverse_id && self.coordinate.0 == other.coordinate.0
            && self.coordinate.1 == other.coordinate.1
    }
}

/// A bonding relationship: an estate and the account that stakes on it.
#[derive(Clone, Copy, Debug, PartialEq, Eq)]
pub struct StakeKey {
    pub estate_id: EstateId,
    pub staker: AccountId,
}

impl Key for StakeKey {
    fn same(&self, other: &Self) -> (b: bool) {
        self.estate_id == other.estate_id && self.staker == other.staker
    }
}

/// An estate's place in the record of one round.
#[derive(Clone, Copy, Debug, PartialEq, Eq)]
pub struct SnapshotKey {
    pub round: RoundIndex,
    pub estate_id: EstateId,
}

impl Key for SnapshotKey {
    fn same(&self, other: &Self) -> (b: bool) {
        self.round == other.round && self.estate_id == other.estate_id
    }
}

/// A composite asset: land units of one region and one owner, held in the
/// estate's custody.
#[derive(Debug, PartialEq, Eq)]
pub struct EstateInfo {
    pub owner: AccountId,
    /// The region in which the estate lies.
    pub metaverse_id: MetaverseId,
    /// The land units of the estate, none of them twice.
    pub coordinates: Vec<Coordinate>,
}

pub struct EstateInfoView {
    pub owner: AccountId,
    pub metaverse_id: MetaverseId,
    pub coordinates: Seq<Coordinate>,
}

impl View for EstateInfo {
    type V = EstateInfoView;

    open spec fn view(&self) -> EstateInfoView {
        EstateInfoView {
            owner: self.owner,
            metaverse_id: self.metaverse_id,
            coordinates: self.coordinates@,
        }
    }
}

/// Whether an undeployed land block may change hands.
#[derive(Clone, Copy, Debug, PartialEq, Eq)]
pub enum UndeployedLandBlockType {
    BoundToAddress,
    Transferable,
}

/// Land that has been issued and not placed yet.
#[derive(Clone, Copy, Debug, PartialEq, Eq)]
pub struct UndeployedLandBlock {
    pub id: UndeployedLandBlockId,
    /// The land units that can still be deployed from this block.
    pub number_land_units: u32,
    pub undeployed_land_block_type: UndeployedLandBlockType,
    pub approved: Option<AccountId>,
    pub is_frozen: bool,
    pub owner: AccountId,
}

impl View for UndeployedLandBlock {
    type V = UndeployedLandBlock;

    open spec fn view(&self) -> UndeployedLandBlock {
        *self
    }
}

/// One staker's share in a round's record.
#[derive(Clone, Copy, Debug, PartialEq, Eq)]
pub struct Bond {
    pub staker: AccountId,
    pub amount: Balance,
}

/// What was bonded on one estate when a round began.
#[derive(Debug, PartialEq, Eq)]
pub struct StakeSnapshot {
    pub stakers: Vec<Bond>,
    pub total_bond: Balance,
}

pub struct StakeSnapshotView {
    pub stakers: Seq<Bond>,
    pub total_bond: Balance,
}

impl View for StakeSnapshot {
    type V = StakeSnapshotView;

    open spec fn view(&self) -> StakeSnapshotView {
        StakeSnapshotView { stakers: self.stakers@, total_bond: self.total_bond }
    }
}

/// The round in progress.
#[derive(Clone, Copy, Debug, PartialEq, Eq)]
pub struct RoundInfo {
    /// Index of the round.
    pub current: RoundIndex,
    /// The block at which the round began.
    pub first: BlockNumber,
    /// The least number of blocks a round lasts.
    pub length: u32,
}

impl RoundInfo {
    /// The round is over at block `now`: at least `length` blocks have passed
    /// since it began.
    pub open spec fn is_over(self, now: BlockNumber) -> bool {
        now - self.first >= self.length
    }

    pub fn new(current: RoundIndex, first: BlockNumber, length: u32) -> (round: RoundInfo)
        ensures
            round == (RoundInfo { current, first, length }),
    {
        RoundInfo { current, first, length }
    }

    pub fn should_update(&self, now: BlockNumber) -> (b: bool)
        ensures
            b == self.is_over(now),
    {
        now >= self.first && now - self.first >= self.length
    }
}

/// How much new land a round may bring: the least, the intended and the
/// greatest number of blocks.
#[derive(Clone, Copy, Debug, PartialEq, Eq)]
pub struct Range {
    pub min: u64,
    pub ideal: u64,
    pub max: u64,
}

/// The parameters that the registry is set up with.
#[derive(Clone, Copy, Debug, PartialEq, Eq)]
pub struct Config {
    /// The account that receives the land issued at each round.
    pub land_treasury: AccountId,
    /// The least number of blocks between two rounds.
    pub min_blocks_per_round: u32,
    /// The least amount that may stay bonded by one account on one estate.
    pub minimum_stake: Balance,
    /// How many rounds pass between a round's record and its payout.
    pub reward_payment_delay: u32,
}

} // verus!
