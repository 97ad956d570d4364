//! Undeployed land blocks: land that has been issued and waits to be placed.

use crate::assoc;
use crate::error::Error;
use crate::event::{Effect, EffectView, Event, EventView};
use crate::land::mint_units;
use crate::pallet::Pallet;
use crate::state::{lemma_units_remove, lemma_units_update, obeys, obeys_with, State};
use crate::types::{
    AccountId, Coordinate, MetaverseId, Origin, Owner, UndeployedLandBlock, UndeployedLandBlockId,
    UndeployedLandBlockType,
};
use vstd::prelude::*;

verus! {

/// A block as it is when issued: unfrozen, with no delegate.
pub open spec fn fresh_block(
    id: UndeployedLandBlockId,
    owner: AccountId,
    number_land_units: u32,
    undeployed_land_block_type: UndeployedLandBlockType,
) -> UndeployedLandBlock {
    UndeployedLandBlock {
        id,
        number_land_units,
        undeployed_land_block_type,
        approved: None,
        is_frozen: false,
        owner,
    }
}

impl State {
    /// The count of undeployed land units grows by `total`, or shrinks by
    /// it where `deduct` is set, as far as its range allows.
    pub open spec fn set_total_undeployed_land_unit(self, total: u64, deduct: bool) -> Result<
        State,
        Error,
    > {
        let count = if deduct {
            self.total_undeployed_land_unit - total
        } else {
            self.total_undeployed_land_unit + total
        };
        if 0 <= count <= u64::MAX {
            Ok(State { total_undeployed_land_unit: count as u64, ..self })
        } else {
            Err(Error::Overflow)
        }
    }

    /// The identifiers of `count` blocks issued now, in the order of issue.
    pub open spec fn issued_ids(self, count: nat) -> Seq<UndeployedLandBlockId> {
        Seq::new(count, |i: int| (self.next_undeployed_land_block_id + i) as u128)
    }

    /// The state after `count` blocks have been issued.
    pub open spec fn with_issued_blocks(
        self,
        beneficiary: AccountId,
        count: nat,
        number_land_units: u32,
        undeployed_land_block_type: UndeployedLandBlockType,
    ) -> State {
        let first = self.next_undeployed_land_block_id;
        State {
            next_undeployed_land_block_id: (first + count) as u128,
            total_undeployed_land_unit: (self.total_undeployed_land_unit + count
                * number_land_units) as u64,
            undeployed_land_blocks: self.undeployed_land_blocks + Seq::new(
                count,
                |i: int|
                    (
                        (first + i) as u128,
                        fresh_block(
                            (first + i) as u128,
                            beneficiary,
                            number_land_units,
                            undeployed_land_block_type,
                        ),
                    ),
            ),
            effects: self.effects + Seq::new(
                count,
                |i: int|
                    EffectView::Emit(
                        EventView::UndeployedLandBlockIssued(beneficiary, (first + i) as u128),
                    ),
            ),
            ..self
        }
    }

    /// Whether blocks can be issued: there must be identifiers left for all
    /// of them, and the count of undeployed units must be able to take their
    /// units.
    pub open spec fn issue_check(
        self,
        number_of_land_block: u32,
        number_land_units_per_land_block: u32,
    ) -> Result<(), Error> {
        if self.next_undeployed_land_block_id + number_of_land_block > u128::MAX {
            Err(Error::NoAvailableEstateId)
        } else if self.total_undeployed_land_unit + number_of_land_block
            * number_land_units_per_land_block > u64::MAX {
            Err(Error::Overflow)
        } else {
            Ok(())
        }
    }

    /// New blocks are issued to `beneficiary`, all of them or none: each with
    /// `number_land_units_per_land_block` units, unfrozen, with no delegate,
    /// under the next free identifiers. The count of undeployed units grows
    /// by the units of all the blocks together.
    pub open spec fn do_issue_undeployed_land_blocks(
        self,
        beneficiary: AccountId,
        number_of_land_block: u32,
        number_land_units_per_land_block: u32,
        undeployed_land_block_type: UndeployedLandBlockType,
    ) -> Result<(State, Seq<UndeployedLandBlockId>), Error> {
        match self.issue_check(number_of_land_block, number_land_units_per_land_block) {
            Err(e) => Err(e),
            Ok(_) => Ok(
                (
                    self.with_issued_blocks(
                        beneficiary,
                        number_of_land_block as nat,
                        number_land_units_per_land_block,
                        undeployed_land_block_type,
                    ),
                    self.issued_ids(number_of_land_block as nat),
                ),
            ),
        }
    }

    /// The administrator issues new blocks to `beneficiary`.
    pub open spec fn issue_undeployed_land_blocks(
        self,
        origin: Origin,
        beneficiary: AccountId,
        number_of_land_block: u32,
        number_land_units_per_land_block: u32,
        undeployed_land_block_type: UndeployedLandBlockType,
    ) -> Result<State, Error> {
        if !origin.is_root() {
            Err(Error::BadOrigin)
        } else {
            match self.do_issue_undeployed_land_blocks(
                beneficiary,
                number_of_land_block,
                number_land_units_per_land_block,
                undeployed_land_block_type,
            ) {
                Err(e) => Err(e),
                Ok((next, _)) => Ok(next),
            }
        }
    }

    /// The state with the record of one block replaced.
    pub open spec fn with_block(self, block: UndeployedLandBlock) -> State {
        State {
            undeployed_land_blocks: assoc::insert(self.undeployed_land_blocks, block.id, block),
            ..self
        }
    }

    /// An unfrozen block is frozen.
    pub open spec fn do_freeze_undeployed_land_block(
        self,
        undeployed_land_block_id: UndeployedLandBlockId,
    ) -> Result<State, Error> {
        match assoc::get(self.undeployed_land_blocks, undeployed_land_block_id) {
            None => Err(Error::UndeployedLandBlockNotFound),
            Some(block) => if block.is_frozen {
                Err(Error::UndeployedLandBlockAlreadyFreezed)
            } else {
                Ok(
                    self.with_block(
                        UndeployedLandBlock {
                            id: undeployed_land_block_id,
                            is_frozen: true,
                            ..block
                        },
                    ).emit(EventView::UndeployedLandBlockFreezed(undeployed_land_block_id)),
                )
            },
        }
    }

    /// The administrator freezes a block.
    pub open spec fn freeze_undeployed_land_blocks(
        self,
        origin: Origin,
        undeployed_land_block_id: UndeployedLandBlockId,
    ) -> Result<State, Error> {
        if !origin.is_root() {
            Err(Error::BadOrigin)
        } else {
            self.do_freeze_undeployed_land_block(undeployed_land_block_id)
        }
    }

    /// The administrator unfreezes a frozen block.
    pub open spec fn unfreeze_undeployed_land_blocks(
        self,
        origin: Origin,
        undeployed_land_block_id: UndeployedLandBlockId,
    ) -> Result<State, Error> {
        if !origin.is_root() {
            Err(Error::BadOrigin)
        } else {
            match assoc::get(self.undeployed_land_blocks, undeployed_land_block_id) {
                None => Err(Error::UndeployedLandBlockNotFound),
                Some(block) => if !block.is_frozen {
                    Err(Error::UndeployedLandBlockNotFrozen)
                } else {
                    Ok(
                        self.with_block(
                            UndeployedLandBlock {
                                id: undeployed_land_block_id,
                                is_frozen: false,
                                ..block
                            },
                        ).emit(EventView::UndeployedLandBlockUnfreezed(undeployed_land_block_id)),
                    )
                },
            }
        }
    }

    /// The block that `who` may dispose of: it exists, `who` owns it and it
    /// is not frozen. `frozen` is the error that a frozen block gives.
    pub open spec fn disposable_block(
        self,
        who: AccountId,
        undeployed_land_block_id: UndeployedLandBlockId,
        frozen: Error,
    ) -> Result<UndeployedLandBlock, Error> {
        match assoc::get(self.undeployed_land_blocks, undeployed_land_block_id) {
            None => Err(Error::UndeployedLandBlockNotFound),
            Some(block) => if block.owner != who {
                Err(Error::NoPermission)
            } else if block.is_frozen {
                Err(frozen)
            } else {
                Ok(block)
            },
        }
    }

    /// The owner of an unfrozen block names a delegate for it, or takes the
    /// delegate away.
    pub open spec fn set_approval(
        self,
        origin: Origin,
        undeployed_land_block_id: UndeployedLandBlockId,
        approved: Option<AccountId>,
    ) -> Result<State, Error> {
        match origin.signer() {
            None => Err(Error::BadOrigin),
            Some(who) => match self.disposable_block(
                who,
                undeployed_land_block_id,
                Error::UndeployedLandBlockAlreadyFreezed,
            ) {
                Err(e) => Err(e),
                Ok(block) => Ok(
                    self.with_block(
                        UndeployedLandBlock { id: undeployed_land_block_id, approved, ..block },
                    ).emit(
                        match approved {
                            Some(to) => EventView::UndeployedLandBlockApproved(
                                who,
                                to,
                                undeployed_land_block_id,
                            ),
                            None => EventView::UndeployedLandBlockUnapproved(
                                undeployed_land_block_id,
                            ),
                        },
                    ),
                ),
            },
        }
    }

    /// An unfrozen, transferable block passes from its owner `who` to `to`.
    pub open spec fn do_transfer_undeployed_land_block(
        self,
        who: AccountId,
        to: AccountId,
        undeployed_land_block_id: UndeployedLandBlockId,
    ) -> Result<State, Error> {
        match self.disposable_block(
            who,
            undeployed_land_block_id,
            Error::UndeployedLandBlockAlreadyFreezed,
        ) {
            Err(e) => Err(e),
            Ok(block) => if block.undeployed_land_block_type
                != UndeployedLandBlockType::Transferable {
                Err(Error::UndeployedLandBlockIsNotTransferable)
            } else {
                Ok(
                    self.with_block(
                        UndeployedLandBlock { id: undeployed_land_block_id, owner: to, ..block },
                    ).emit(
                        EventView::UndeployedLandBlockTransferred(
                            who,
                            to,
                            undeployed_land_block_id,
                        ),
                    ),
                )
            },
        }
    }

    /// The owner of a block hands it to another account.
    pub open spec fn transfer_undeployed_land_blocks(
        self,
        origin: Origin,
        to: AccountId,
        undeployed_land_block_id: UndeployedLandBlockId,
    ) -> Result<State, Error> {
        match origin.signer() {
            None => Err(Error::BadOrigin),
            Some(who) => self.do_transfer_undeployed_land_block(who, to, undeployed_land_block_id),
        }
    }

    /// A frozen block is destroyed, and its units leave the count of
    /// undeployed units.
    pub open spec fn do_burn_undeployed_land_block(
        self,
        undeployed_land_block_id: UndeployedLandBlockId,
    ) -> Result<State, Error> {
        match assoc::get(self.undeployed_land_blocks, undeployed_land_block_id) {
            None => Err(Error::UndeployedLandBlockNotFound),
            Some(block) => if !block.is_frozen {
                Err(Error::OnlyFrozenUndeployedLandBlockCanBeDestroyed)
            } else if self.total_undeployed_land_unit < block.number_land_units {
                Err(Error::Overflow)
            } else {
                Ok(
                    State {
                        total_undeployed_land_unit: (self.total_undeployed_land_unit
                            - block.number_land_units) as u64,
                        undeployed_land_blocks: assoc::remove(
                            self.undeployed_land_blocks,
                            undeployed_land_block_id,
                        ),
                        ..self
                    }.emit(EventView::UndeployedLandBlockBurnt(undeployed_land_block_id)),
                )
            },
        }
    }

    /// The administrator destroys a frozen block.
    pub open spec fn burn_undeployed_land_blocks(
        self,
        origin: Origin,
        undeployed_land_block_id: UndeployedLandBlockId,
    ) -> Result<State, Error> {
        if !origin.is_root() {
            Err(Error::BadOrigin)
        } else {
            self.do_burn_undeployed_land_block(undeployed_land_block_id)
        }
    }

    /// The owner of an unfrozen block turns units of it into land units of
    /// its own at `coordinates`. A block that is used up is destroyed.
    pub open spec fn deploy_land_block(
        self,
        origin: Origin,
        undeployed_land_block_id: UndeployedLandBlockId,
        metaverse_id: MetaverseId,
        coordinates: Seq<Coordinate>,
    ) -> Result<State, Error> {
        match origin.signer() {
            None => Err(Error::BadOrigin),
            Some(who) => match self.disposable_block(
                who,
                undeployed_land_block_id,
                Error::UndeployedLandBlockFreezed,
            ) {
                Err(e) => Err(e),
                Ok(block) => if block.number_land_units < coordinates.len() {
                    Err(Error::UndeployedLandBlockDoesNotHaveEnoughLandUnits)
                } else {
                    match mint_units(
                        self.land_units,
                        assoc::get(self.max_bounds, metaverse_id),
                        metaverse_id,
                        Owner::Account(who),
                        coordinates,
                        false,
                    ) {
                        Err(e) => Err(e),
                        Ok(land_units) => if self.all_land_units_count + coordinates.len()
                            > u64::MAX || self.total_undeployed_land_unit < coordinates.len() {
                            Err(Error::Overflow)
                        } else {
                            let counted = State {
                                land_units,
                                all_land_units_count: (self.all_land_units_count
                                    + coordinates.len()) as u64,
                                total_undeployed_land_unit: (self.total_undeployed_land_unit
                                    - coordinates.len()) as u64,
                                ..self
                            };
                            let placed = if block.number_land_units == coordinates.len() {
                                State {
                                    undeployed_land_blocks: assoc::remove(
                                        self.undeployed_land_blocks,
                                        undeployed_land_block_id,
                                    ),
                                    ..counted
                                }.emit(
                                    EventView::UndeployedLandBlockBurnt(undeployed_land_block_id),
                                )
                            } else {
                                counted.with_block(
                                    UndeployedLandBlock {
                                        id: undeployed_land_block_id,
                                        number_land_units: (block.number_land_units
                                            - coordinates.len()) as u32,
                                        ..block
                                    },
                                )
                            };
                            Ok(
                                placed.emit(
                                    EventView::LandBlockDeployed(
                                        who,
                                        metaverse_id,
                                        undeployed_land_block_id,
                                        coordinates,
                                    ),
                                ),
                            )
                        },
                    }
                },
            },
        }
    }
}

impl Pallet {
    /// Adds `total` to the count of undeployed land units, or takes it off
    /// where `deduct` is set. A count that would leave its range stays as it
    /// is.
    pub(crate) fn set_total_undeployed_land_unit(&mut self, total: u64, deduct: bool) -> (r:
        Result<(), Error>)
        ensures
            obeys(
                old(self)@.set_total_undeployed_land_unit(total, deduct),
                old(self)@,
                final(self)@,
                r,
            ),
    {
        let count = if deduct {
            self.total_undeployed_land_unit.checked_sub(total)
        } else {
            self.total_undeployed_land_unit.checked_add(total)
        };
        match count {
            Some(count) => {
                self.total_undeployed_land_unit = count;
                Ok(())
            },
            None => Err(Error::Overflow),
        }
    }

    /// The block under an identifier, if there is one.
    pub(crate) fn block(&self, undeployed_land_block_id: UndeployedLandBlockId) -> (r: Option<
        UndeployedLandBlock,
    >)
        requires
            self.wf(),
        ensures
            r == assoc::get(self@.undeployed_land_blocks, undeployed_land_block_id),
            r matches Some(block) ==> block.id == undeployed_land_block_id,
    {
        match self.undeployed_land_blocks.get(&undeployed_land_block_id) {
            Some(block) => {
                proof {
                    let s = self@.undeployed_land_blocks;
                    let i = assoc::index_of(s, undeployed_land_block_id);
                    assert(s[i].0 == undeployed_land_block_id);
                }
                Some(*block)
            },
            None => None,
        }
    }

    /// Puts the record of a block in place of the one it has, which holds
    /// as many land units.
    pub(crate) fn put_block(&mut self, block: UndeployedLandBlock)
        requires
            old(self).wf(),
            assoc::get(old(self)@.undeployed_land_blocks, block.id) matches Some(former)
                && former.number_land_units == block.number_land_units,
        ensures
            final(self).wf(),
            final(self)@ == old(self)@.with_block(block),
    {
        proof {
            let blocks = self@.undeployed_land_blocks;
            lemma_units_update(blocks, assoc::index_of(blocks, block.id), (block.id, block));
        }
        self.undeployed_land_blocks.insert(block.id, block);
    }

    /// The block that `who` may dispose of.
    pub(crate) fn disposable_block(
        &self,
        who: AccountId,
        undeployed_land_block_id: UndeployedLandBlockId,
        frozen: Error,
    ) -> (r: Result<UndeployedLandBlock, Error>)
        requires
            self.wf(),
        ensures
            r == self@.disposable_block(who, undeployed_land_block_id, frozen),
            r matches Ok(block) ==> block.id == undeployed_land_block_id && assoc::contains_key(
                self@.undeployed_land_blocks,
                undeployed_land_block_id,
            ),
    {
        match self.block(undeployed_land_block_id) {
            None => Err(Error::UndeployedLandBlockNotFound),
            Some(block) => {
                if block.owner != who {
                    Err(Error::NoPermission)
                } else if block.is_frozen {
                    Err(frozen)
                } else {
                    Ok(block)
                }
            },
        }
    }

    /// The identifier that the next block gets, if one is left.
    pub(crate) fn get_new_undeployed_land_block_id(&self) -> (r: Result<
        UndeployedLandBlockId,
        Error,
    >)
        ensures
            match r {
                Ok(id) => id == self@.next_undeployed_land_block_id && id < u128::MAX,
                Err(e) => e == Error::NoAvailableEstateId && self@.next_undeployed_land_block_id
                    == u128::MAX,
            },
    {
        if self.next_undeployed_land_block_id == u128::MAX {
            Err(Error::NoAvailableEstateId)
        } else {
            Ok(self.next_undeployed_land_block_id)
        }
    }

    /// An unfrozen block is frozen.
    pub(crate) fn do_freeze_undeployed_land_block(
        &mut self,
        undeployed_land_block_id: UndeployedLandBlockId,
    ) -> (r: Result<UndeployedLandBlockId, Error>)
        requires
            old(self).wf(),
        ensures
            final(self).wf(),
            obeys_with(
                old(self)@.do_freeze_undeployed_land_block(undeployed_land_block_id),
                undeployed_land_block_id,
                old(self)@,
                final(self)@,
                r,
            ),
    {
        let block = match self.block(undeployed_land_block_id) {
            Some(block) => block,
            None => {
                return Err(Error::UndeployedLandBlockNotFound);
            },
        };
        if block.is_frozen {
            return Err(Error::UndeployedLandBlockAlreadyFreezed);
        }
        self.put_block(
            UndeployedLandBlock {
                id: undeployed_land_block_id,
                number_land_units: block.number_land_units,
                undeployed_land_block_type: block.undeployed_land_block_type,
                approved: block.approved,
                is_frozen: true,
                owner: block.owner,
            },
        );
        self.push_effect(Effect::Emit(Event::UndeployedLandBlockFreezed(undeployed_land_block_id)));
        Ok(undeployed_land_block_id)
    }

    /// The administrator freezes a block, which keeps it from being handed
    /// on, delegated or deployed, and lets it be destroyed.
    ///
    /// Refused with `BadOrigin` unless the origin is the administrator; else
    /// with `UndeployedLandBlockNotFound`; else with
    /// `UndeployedLandBlockAlreadyFreezed` if the block is frozen.
    pub fn freeze_undeployed_land_blocks(
        &mut self,
        origin: Origin,
        undeployed_land_block_id: UndeployedLandBlockId,
    ) -> (r: Result<(), Error>)
        requires
            old(self).wf(),
        ensures
            final(self).wf(),
            obeys(
                old(self)@.freeze_undeployed_land_blocks(origin, undeployed_land_block_id),
                old(self)@,
                final(self)@,
                r,
            ),
    {
        match origin {
            Origin::Root => {},
            _ => {
                return Err(Error::BadOrigin);
            },
        }
        match self.do_freeze_undeployed_land_block(undeployed_land_block_id) {
            Ok(_) => Ok(()),
            Err(e) => Err(e),
        }
    }

    /// The administrator unfreezes a frozen block.
    ///
    /// Refused with `BadOrigin` unless the origin is the administrator; else
    /// with `UndeployedLandBlockNotFound`; else with
    /// `UndeployedLandBlockNotFrozen` if the block is not frozen.
    pub fn unfreeze_undeployed_land_blocks(
        &mut self,
        origin: Origin,
        undeployed_land_block_id: UndeployedLandBlockId,
    ) -> (r: Result<(), Error>)
        requires
            old(self).wf(),
        ensures
            final(self).wf(),
            obeys(
                old(self)@.unfreeze_undeployed_land_blocks(origin, undeployed_land_block_id),
                old(self)@,
                final(self)@,
                r,
            ),
    {
        match origin {
            Origin::Root => {},
            _ => {
                return Err(Error::BadOrigin);
            },
        }
        let block = match self.block(undeployed_land_block_id) {
            Some(block) => block,
            None => {
                return Err(Error::UndeployedLandBlockNotFound);
            },
        };
        if !block.is_frozen {
            return Err(Error::UndeployedLandBlockNotFrozen);
        }
        self.put_block(
            UndeployedLandBlock {
                id: undeployed_land_block_id,
                number_land_units: block.number_land_units,
                undeployed_land_block_type: block.undeployed_land_block_type,
                approved: block.approved,
                is_frozen: false,
                owner: block.owner,
            },
        );
        self.push_effect(
            Effect::Emit(Event::UndeployedLandBlockUnfreezed(undeployed_land_block_id)),
        );
        Ok(())
    }

    /// An unfrozen, transferable block passes from its owner `who` to `to`.
    pub(crate) fn do_transfer_undeployed_land_block(
        &mut self,
        who: AccountId,
        to: AccountId,
        undeployed_land_block_id: UndeployedLandBlockId,
    ) -> (r: Result<UndeployedLandBlockId, Error>)
        requires
            old(self).wf(),
        ensures
            final(self).wf(),
            obeys_with(
                old(self)@.do_transfer_undeployed_land_block(who, to, undeployed_land_block_id),
                undeployed_land_block_id,
                old(self)@,
                final(self)@,
                r,
            ),
    {
        let block = match self.disposable_block(
            who,
            undeployed_land_block_id,
            Error::UndeployedLandBlockAlreadyFreezed,
        ) {
            Ok(block) => block,
            Err(e) => {
                return Err(e);
            },
        };
        match block.undeployed_land_block_type {
            UndeployedLandBlockType::Transferable => {},
            _ => {
                return Err(Error::UndeployedLandBlockIsNotTransferable);
            },
        }
        self.put_block(
            UndeployedLandBlock {
                id: undeployed_land_block_id,
                number_land_units: block.number_land_units,
                undeployed_land_block_type: block.undeployed_land_block_type,
                approved: block.approved,
                is_frozen: block.is_frozen,
                owner: to,
            },
        );
        self.push_effect(
            Effect::Emit(
                Event::UndeployedLandBlockTransferred(who, to, undeployed_land_block_id),
            ),
        );
        Ok(undeployed_land_block_id)
    }

    /// The owner of an unfrozen, transferable block hands it to another
    /// account. The block keeps its delegate.
    ///
    /// Refused with `BadOrigin` unless the origin is an account; else with
    /// `UndeployedLandBlockNotFound`; else with `NoPermission` unless the
    /// caller owns the block; else with `UndeployedLandBlockAlreadyFreezed`
    /// if the block is frozen; else with
    /// `UndeployedLandBlockIsNotTransferable`.
    pub fn transfer_undeployed_land_blocks(
        &mut self,
        origin: Origin,
        to: AccountId,
        undeployed_land_block_id: UndeployedLandBlockId,
    ) -> (r: Result<(), Error>)
        requires
            old(self).wf(),
        ensures
            final(self).wf(),
            obeys(
                old(self)@.transfer_undeployed_land_blocks(origin, to, undeployed_land_block_id),
                old(self)@,
                final(self)@,
                r,
            ),
    {
        let who = match origin {
            Origin::Signed(who) => who,
            _ => {
                return Err(Error::BadOrigin);
            },
        };
        match self.do_transfer_undeployed_land_block(who, to, undeployed_land_block_id) {
            Ok(_) => Ok(()),
            Err(e) => Err(e),
        }
    }

    /// A frozen block is destroyed.
    pub(crate) fn do_burn_undeployed_land_block(
        &mut self,
        undeployed_land_block_id: UndeployedLandBlockId,
    ) -> (r: Result<UndeployedLandBlockId, Error>)
        requires
            old(self).wf(),
        ensures
            final(self).wf(),
            obeys_with(
                old(self)@.do_burn_undeployed_land_block(undeployed_land_block_id),
                undeployed_land_block_id,
                old(self)@,
                final(self)@,
                r,
            ),
    {
        let block = match self.block(undeployed_land_block_id) {
            Some(block) => block,
            None => {
                return Err(Error::UndeployedLandBlockNotFound);
            },
        };
        if !block.is_frozen {
            return Err(Error::OnlyFrozenUndeployedLandBlockCanBeDestroyed);
        }
        match self.set_total_undeployed_land_unit(block.number_land_units as u64, true) {
            Err(e) => {
                return Err(e);
            },
            Ok(_) => {},
        }
        proof {
            let blocks = self@.undeployed_land_blocks;
            lemma_units_remove(blocks, assoc::index_of(blocks, undeployed_land_block_id));
        }
        let _ = self.undeployed_land_blocks.remove(&undeployed_land_block_id);
        self.push_effect(Effect::Emit(Event::UndeployedLandBlockBurnt(undeployed_land_block_id)));
        Ok(undeployed_land_block_id)
    }

    /// The administrator destroys a frozen block; its remaining units leave
    /// the count of undeployed units.
    ///
    /// Refused with `BadOrigin` unless the origin is the administrator; else
    /// with `UndeployedLandBlockNotFound`; else with
    /// `OnlyFrozenUndeployedLandBlockCanBeDestroyed` if the block is not
    /// frozen.
    pub fn burn_undeployed_land_blocks(
        &mut self,
        origin: Origin,
        undeployed_land_block_id: UndeployedLandBlockId,
    ) -> (r: Result<(), Error>)
        requires
            old(self).wf(),
        ensures
            final(self).wf(),
            obeys(
                old(self)@.burn_undeployed_land_blocks(origin, undeployed_land_block_id),
                old(self)@,
                final(self)@,
                r,
            ),
    {
        match origin {
            Origin::Root => {},
            _ => {
                return Err(Error::BadOrigin);
            },
        }
        match self.do_burn_undeployed_land_block(undeployed_land_block_id) {
            Ok(_) => Ok(()),
            Err(e) => Err(e),
        }
    }

    /// Sets the delegate of a block, or takes it away.
    fn set_approval(
        &mut self,
        origin: Origin,
        undeployed_land_block_id: UndeployedLandBlockId,
        approved: Option<AccountId>,
    ) -> (r: Result<(), Error>)
        requires
            old(self).wf(),
        ensures
            final(self).wf(),
            obeys(
                old(self)@.set_approval(origin, undeployed_land_block_id, approved),
                old(self)@,
                final(self)@,
                r,
            ),
    {
        let who = match origin {
            Origin::Signed(who) => who,
            _ => {
                return Err(Error::BadOrigin);
            },
        };
        let block = match self.disposable_block(
            who,
            undeployed_land_block_id,
            Error::UndeployedLandBlockAlreadyFreezed,
        ) {
            Ok(block) => block,
            Err(e) => {
                return Err(e);
            },
        };
        self.put_block(
            UndeployedLandBlock {
                id: undeployed_land_block_id,
                number_land_units: block.number_land_units,
                undeployed_land_block_type: block.undeployed_land_block_type,
                approved,
                is_frozen: block.is_frozen,
                owner: block.owner,
            },
        );
        let event = match approved {
            Some(to) => Event::UndeployedLandBlockApproved(who, to, undeployed_land_block_id),
            None => Event::UndeployedLandBlockUnapproved(undeployed_land_block_id),
        };
        self.push_effect(Effect::Emit(event));
        Ok(())
    }

    /// The owner of an unfrozen block names `to` as its delegate.
    ///
    /// Refused with `BadOrigin` unless the origin is an account; else with
    /// `UndeployedLandBlockNotFound`; else with `NoPermission` unless the
    /// caller owns the block; else with `UndeployedLandBlockAlreadyFreezed`
    /// if the block is frozen.
    pub fn approve_undeployed_land_blocks(
        &mut self,
        origin: Origin,
        to: AccountId,
        undeployed_land_block_id: UndeployedLandBlockId,
    ) -> (r: Result<(), Error>)
        requires
            old(self).wf(),
        ensures
            final(self).wf(),
            obeys(
                old(self)@.set_approval(origin, undeployed_land_block_id, Some(to)),
                old(self)@,
                final(self)@,
                r,
            ),
    {
        self.set_approval(origin, undeployed_land_block_id, Some(to))
    }

    /// The owner of an unfrozen block takes its delegate away. Refused as
    /// `approve_undeployed_land_blocks` is.
    pub fn unapprove_undeployed_land_blocks(
        &mut self,
        origin: Origin,
        undeployed_land_block_id: UndeployedLandBlockId,
    ) -> (r: Result<(), Error>)
        requires
            old(self).wf(),
        ensures
            final(self).wf(),
            obeys(
                old(self)@.set_approval(origin, undeployed_land_block_id, None),
                old(self)@,
                final(self)@,
                r,
            ),
    {
        self.set_approval(origin, undeployed_land_block_id, None)
    }

    /// Whether blocks can be issued; if so, the count of undeployed units
    /// once they are.
    pub(crate) fn check_issue(
        &self,
        number_of_land_block: u32,
        number_land_units_per_land_block: u32,
    ) -> (r: Result<u64, Error>)
        ensures
            match self@.issue_check(number_of_land_block, number_land_units_per_land_block) {
                Ok(_) => r matches Ok(total) && total == self@.total_undeployed_land_unit
                    + number_of_land_block * number_land_units_per_land_block,
                Err(e) => r matches Err(x) && x == e,
            },
    {
        if u128::MAX - self.next_undeployed_land_block_id < number_of_land_block as u128 {
            return Err(Error::NoAvailableEstateId);
        }
        assert(number_of_land_block * number_land_units_per_land_block <= 0xffff_ffff
            * 0xffff_ffff) by (nonlinear_arith)
            requires
                0 <= number_of_land_block <= 0xffff_ffff,
                0 <= number_land_units_per_land_block <= 0xffff_ffff,
        ;
        let units: u64 = (number_of_land_block as u64) * (number_land_units_per_land_block as u64);
        match self.total_undeployed_land_unit.checked_add(units) {
            Some(total) => Ok(total),
            None => Err(Error::Overflow),
        }
    }

    /// New blocks are issued to `beneficiary`, all of them or none, and
    /// their identifiers are given back in the order of issue. Each block
    /// holds `number_land_units_per_land_block` units, is unfrozen and has
    /// no delegate; the count of undeployed units grows by the units of all
    /// the blocks together.
    ///
    /// Refused with `NoAvailableEstateId` if the identifiers do not suffice;
    /// else with `Overflow` if the count cannot take the units.
    pub fn do_issue_undeployed_land_blocks(
        &mut self,
        beneficiary: AccountId,
        number_of_land_block: u32,
        number_land_units_per_land_block: u32,
        undeployed_land_block_type: UndeployedLandBlockType,
    ) -> (r: Result<Vec<UndeployedLandBlockId>, Error>)
        requires
            old(self).wf(),
        ensures
            final(self).wf(),
            match old(self)@.do_issue_undeployed_land_blocks(
                beneficiary,
                number_of_land_block,
                number_land_units_per_land_block,
                undeployed_land_block_type,
            ) {
                Ok((next, ids)) => r matches Ok(issued) && issued@ == ids && final(self)@ == next,
                Err(e) => r matches Err(x) && x == e && final(self)@ == old(self)@,
            },
    {
        let first = self.next_undeployed_land_block_id;
        match self.check_issue(number_of_land_block, number_land_units_per_land_block) {
            Ok(_) => {},
            Err(e) => {
                return Err(e);
            },
        }
        let mut ids: Vec<UndeployedLandBlockId> = Vec::new();
        let mut i: u32 = 0;
        assert(self@ =~= old(self)@.with_issued_blocks(
            beneficiary,
            0,
            number_land_units_per_land_block,
            undeployed_land_block_type,
        )) by {
            let t = old(self)@.with_issued_blocks(
                beneficiary,
                0,
                number_land_units_per_land_block,
                undeployed_land_block_type,
            );
            assert(t.undeployed_land_blocks =~= self@.undeployed_land_blocks);
            assert(t.effects =~= self@.effects);
        }
        assert(ids@ =~= old(self)@.issued_ids(0));
        while i < number_of_land_block
            invariant
                i <= number_of_land_block,
                first == old(self)@.next_undeployed_land_block_id,
                first + number_of_land_block <= u128::MAX,
                old(self)@.total_undeployed_land_unit + number_of_land_block
                    * number_land_units_per_land_block <= u64::MAX,
                old(self).wf(),
                self.wf(),
                self@ == old(self)@.with_issued_blocks(
                    beneficiary,
                    i as nat,
                    number_land_units_per_land_block,
                    undeployed_land_block_type,
                ),
                ids@ == old(self)@.issued_ids(i as nat),
            decreases number_of_land_block - i,
        {
            let id = match self.get_new_undeployed_land_block_id() {
                Ok(id) => id,
                Err(e) => {
                    return Err(e);
                },
            };
            let ghost before = self@;
            let block = UndeployedLandBlock {
                id,
                number_land_units: number_land_units_per_land_block,
                undeployed_land_block_type,
                approved: None,
                is_frozen: false,
                owner: beneficiary,
            };
            assert(!assoc::contains_key(before.undeployed_land_blocks, id));
            proof {
                let units = number_land_units_per_land_block;
                assert((i + 1) * units == i * units + units) by (nonlinear_arith);
                assert((i + 1) * units <= number_of_land_block * units) by (nonlinear_arith)
                    requires
                        i + 1 <= number_of_land_block,
                        units >= 0,
                ;
                assert(i * units >= 0) by (nonlinear_arith)
                    requires
                        i >= 0,
                        units >= 0,
                ;
                assert(before.undeployed_land_blocks.push((id, block)).drop_last()
                    =~= before.undeployed_land_blocks);
            }
            self.undeployed_land_blocks.insert(id, block);
            match self.set_total_undeployed_land_unit(number_land_units_per_land_block as u64, false) {
                Ok(_) => {},
                Err(e) => {
                    return Err(e);
                },
            }
            self.next_undeployed_land_block_id = id + 1;
            self.push_effect(Effect::Emit(Event::UndeployedLandBlockIssued(beneficiary, id)));
            ids.push(id);
            proof {
                let t = old(self)@.with_issued_blocks(
                    beneficiary,
                    (i + 1) as nat,
                    number_land_units_per_land_block,
                    undeployed_land_block_type,
                );
                assert(t.undeployed_land_blocks =~= self@.undeployed_land_blocks);
                assert(t.effects =~= self@.effects);
                assert(ids@ =~= old(self)@.issued_ids((i + 1) as nat));
            }
            i += 1;
        }
        Ok(ids)
    }

    /// The administrator issues `number_of_land_block` new blocks to
    /// `beneficiary`, each with `number_land_units_per_land_block` units.
    ///
    /// Refused with `BadOrigin` unless the origin is the administrator; else
    /// as `do_issue_undeployed_land_blocks` is.
    pub fn issue_undeployed_land_blocks(
        &mut self,
        origin: Origin,
        beneficiary: AccountId,
        number_of_land_block: u32,
        number_land_units_per_land_block: u32,
        undeployed_land_block_type: UndeployedLandBlockType,
    ) -> (r: Result<(), Error>)
        requires
            old(self).wf(),
        ensures
            final(self).wf(),
            obeys(
                old(self)@.issue_undeployed_land_blocks(
                    origin,
                    beneficiary,
                    number_of_land_block,
                    number_land_units_per_land_block,
                    undeployed_land_block_type,
                ),
                old(self)@,
                final(self)@,
                r,
            ),
    {
        match origin {
            Origin::Root => {},
            _ => {
                return Err(Error::BadOrigin);
            },
        }
        match self.do_issue_undeployed_land_blocks(
            beneficiary,
            number_of_land_block,
            number_land_units_per_land_block,
            undeployed_land_block_type,
        ) {
            Ok(_) => Ok(()),
            Err(e) => Err(e),
        }
    }

    /// The owner of an unfrozen block turns units of it into land units of
    /// its own, one at each of `coordinates`.
    ///
    /// The block must hold at least as many units as there are coordinates.
    /// A block that is used up is destroyed; any other keeps what is left.
    /// The units are minted as new land, all of them or none; the count of
    /// land units grows by their number and the count of undeployed units
    /// shrinks by it.
    ///
    /// Refused with `BadOrigin` unless the origin is an account; else with
    /// `UndeployedLandBlockNotFound`; else with `NoPermission` unless the
    /// caller owns the block; else with `UndeployedLandBlockFreezed` if the
    /// block is frozen; else with
    /// `UndeployedLandBlockDoesNotHaveEnoughLandUnits`; else as `mint_lands`
    /// refuses the units; else with `Overflow` if the count of land units
    /// cannot grow.
    pub fn deploy_land_block(
        &mut self,
        origin: Origin,
        undeployed_land_block_id: UndeployedLandBlockId,
        metaverse_id: MetaverseId,
        coordinates: Vec<Coordinate>,
    ) -> (r: Result<(), Error>)
        requires
            old(self).wf(),
        ensures
            final(self).wf(),
            obeys(
                old(self)@.deploy_land_block(
                    origin,
                    undeployed_land_block_id,
                    metaverse_id,
                    coordinates@,
                ),
                old(self)@,
                final(self)@,
                r,
            ),
    {
        let who = match origin {
            Origin::Signed(who) => who,
            _ => {
                return Err(Error::BadOrigin);
            },
        };
        let block = match self.disposable_block(
            who,
            undeployed_land_block_id,
            Error::UndeployedLandBlockFreezed,
        ) {
            Ok(block) => block,
            Err(e) => {
                return Err(e);
            },
        };
        if (block.number_land_units as u64) < coordinates.len() as u64 {
            return Err(Error::UndeployedLandBlockDoesNotHaveEnoughLandUnits);
        }
        let land_units_to_mint: u32 = coordinates.len() as u32;
        let land = match self.mint_land_units(
            metaverse_id,
            Owner::Account(who),
            &coordinates,
            false,
        ) {
            Ok(land) => land,
            Err(e) => {
                return Err(e);
            },
        };
        if self.total_undeployed_land_unit < land_units_to_mint as u64 {
            return Err(Error::Overflow);
        }
        match self.set_total_land_unit(coordinates.len() as u64, false) {
            Err(e) => {
                return Err(e);
            },
            Ok(_) => {},
        }
        match self.set_total_undeployed_land_unit(land_units_to_mint as u64, true) {
            Err(e) => {
                return Err(e);
            },
            Ok(_) => {},
        }
        self.land_units = land;
        let ghost blocks = self@.undeployed_land_blocks;
        let ghost at = assoc::index_of(blocks, undeployed_land_block_id);
        if block.number_land_units == land_units_to_mint {
            proof {
                lemma_units_remove(blocks, at);
            }
            let _ = self.undeployed_land_blocks.remove(&undeployed_land_block_id);
            self.push_effect(
                Effect::Emit(Event::UndeployedLandBlockBurnt(undeployed_land_block_id)),
            );
        } else {
            let left = UndeployedLandBlock {
                id: undeployed_land_block_id,
                number_land_units: block.number_land_units - land_units_to_mint,
                undeployed_land_block_type: block.undeployed_land_block_type,
                approved: block.approved,
                is_frozen: block.is_frozen,
                owner: block.owner,
            };
            proof {
                lemma_units_update(blocks, at, (undeployed_land_block_id, left));
            }
            self.undeployed_land_blocks.insert(undeployed_land_block_id, left);
        }
        self.push_effect(
            Effect::Emit(
                Event::LandBlockDeployed(who, metaverse_id, undeployed_land_block_id, coordinates),
            ),
        );
        Ok(())
    }
}

} // verus!
