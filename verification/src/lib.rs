//! The bookkeeping of a virtual-land economy.
//!
//! Land units are cells of bounded regions; they are held by accounts or
//! gathered into estates. Land that has not been placed yet waits in
//! undeployed land blocks. Owners of estates bond value on them, and at
//! every round the stakes are settled and new land is issued.
//!
//! The registry keeps its books straight at all times: every land unit
//! that is registered is counted; an estate lies in one region and holds
//! exactly the land units that it lists, none of them twice; the undeployed
//! land blocks hold as many units as are counted; a stake is nothing or at
//! least the minimum.
//!
//! [`Pallet`] holds the whole registry. Its abstract value is a [`State`],
//! and every operation is specified as a function from one state to the
//! next, or to the [`Error`] that refuses it; a refused operation changes
//! nothing. The modules `laws` and `staking_laws` state what follows for
//! every state.
//!
//! The registry moves no value and sends no message itself. What an
//! operation leaves for the outside world to do, it appends to a log of
//! [`Effect`]s: notifications to pass on, and instructions for the value
//! ledger. What the outside world knows and the registry needs, its caller
//! hands in: who asks ([`Origin`]), whether an asset is up for auction,
//! whether the ledger has reserved an amount, how much land a round may
//! bring ([`Range`]).
//!
//! A registry can be laid out as an [`Archive`] of plain values and restored
//! from it, for a host that has to keep it.

pub mod archive;
pub mod assoc;
pub mod blocks;
pub mod error;
pub mod estate;
pub mod event;
pub mod interface;
pub mod land;
pub mod laws;
pub mod pallet;
pub mod query;
pub mod round;
pub mod staking;
pub mod staking_laws;
pub mod state;
mod table;
pub mod types;

pub use archive::Archive;
pub use error::Error;
pub use event::{Effect, Event};
pub use pallet::{GenesisConfig, Pallet};
pub use state::State;
pub use types::{
    AccountId, Balance, BlockNumber, Bond, Config, Coordinate, EstateId, EstateInfo, LandUnitKey,
    MetaverseId, Origin, Owner, Range, RoundIndex, RoundInfo, SnapshotKey, StakeKey,
    StakeSnapshot, UndeployedLandBlock, UndeployedLandBlockId, UndeployedLandBlockType,
};
