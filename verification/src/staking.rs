//! The staking ledger: what accounts have bonded on estates, and who is
//! waiting to leave.

use crate::assoc;
use crate::error::Error;
use crate::event::{Effect, EffectView, Event, EventView};
use crate::pallet::Pallet;
use crate::state::{obeys, State};
use crate::types::{AccountId, Balance, EstateId, Origin, StakeKey};
use vstd::prelude::*;

verus! {

/// The sum of two balances, or the greatest balance where the sum is
/// greater still.
pub open spec fn capped_sum(a: Balance, b: Balance) -> Balance {
    if a + b > u128::MAX {
        u128::MAX
    } else {
        (a + b) as u128
    }
}

/// `a` less `b`, or nothing where `b` is the greater.
pub open spec fn floored_difference(a: Balance, b: Balance) -> Balance {
    if a < b {
        0
    } else {
        (a - b) as u128
    }
}

/// What is bonded under `key`; nothing where no stake is recorded.
pub open spec fn staked_amount(stake: Seq<(StakeKey, Balance)>, key: StakeKey) -> Balance {
    match assoc::get(stake, key) {
        Some(amount) => amount,
        None => 0,
    }
}

impl State {
    /// What `who` has bonded on an estate; nothing where no stake is recorded.
    pub open spec fn stake_of(self, estate_id: EstateId, who: AccountId) -> Balance {
        staked_amount(self.estate_stake, StakeKey { estate_id, staker: who })
    }

    /// The stake of `who` on an estate waits to leave at the next round.
    pub open spec fn is_leaving(self, estate_id: EstateId, who: AccountId) -> bool {
        assoc::contains_key(self.exit_queue, StakeKey { estate_id, staker: who })
    }

    /// Who may change a stake on an estate: the signed caller, if the estate
    /// exists, the caller owns it and the caller's stake is not leaving.
    pub open spec fn staker(self, origin: Origin, estate_id: EstateId) -> Result<
        AccountId,
        Error,
    > {
        match origin.signer() {
            None => Err(Error::BadOrigin),
            Some(who) => match assoc::get(self.estates, estate_id) {
                None => Err(Error::EstateDoesNotExist),
                Some(estate) => if estate.owner != who {
                    Err(Error::NoPermission)
                } else if self.is_leaving(estate_id, who) {
                    Err(Error::EstateStakeAlreadyLeft)
                } else {
                    Ok(who)
                },
            },
        }
    }

    /// What the value ledger has to reserve, and for whom, before `more` is
    /// bonded on an estate; or why nothing can be bonded.
    pub open spec fn bond_more_reservation(
        self,
        origin: Origin,
        estate_id: EstateId,
        more: Balance,
    ) -> Result<(AccountId, Balance), Error> {
        match self.staker(origin, estate_id) {
            Err(e) => Err(e),
            Ok(who) => if self.stake_of(estate_id, who) + more > u128::MAX {
                Err(Error::Overflow)
            } else if self.stake_of(estate_id, who) + more < self.config.minimum_stake {
                Err(Error::BelowMinimumStake)
            } else {
                Ok((who, more))
            },
        }
    }

    /// The owner of an estate bonds `more` on it; `reserved` says whether
    /// the value ledger has reserved that amount.
    pub open spec fn bond_more(
        self,
        origin: Origin,
        estate_id: EstateId,
        more: Balance,
        reserved: bool,
    ) -> Result<State, Error> {
        match self.bond_more_reservation(origin, estate_id, more) {
            Err(e) => Err(e),
            Ok((who, _)) => if !reserved {
                Err(Error::InsufficientFund)
            } else {
                Ok(
                    State {
                        estate_stake: assoc::insert(
                            self.estate_stake,
                            StakeKey { estate_id, staker: who },
                            (self.stake_of(estate_id, who) + more) as u128,
                        ),
                        total_stake: capped_sum(self.total_stake, more),
                        ..self
                    }.emit(EventView::EstateStakeIncreased(who, estate_id, more)),
                )
            },
        }
    }

    /// The owner of an estate takes `less` of its stake back. What stays
    /// bonded is more than nothing and not less than the minimum stake.
    pub open spec fn bond_less(self, origin: Origin, estate_id: EstateId, less: Balance) -> Result<
        State,
        Error,
    > {
        match self.staker(origin, estate_id) {
            Err(e) => Err(e),
            Ok(who) => {
                let remaining = self.stake_of(estate_id, who) - less;
                if remaining < 0 {
                    Err(Error::Overflow)
                } else if remaining < self.config.minimum_stake || remaining == 0 {
                    Err(Error::BelowMinimumStake)
                } else {
                    Ok(
                        State {
                            estate_stake: assoc::insert(
                                self.estate_stake,
                                StakeKey { estate_id, staker: who },
                                remaining as u128,
                            ),
                            total_stake: floored_difference(self.total_stake, less),
                            ..self
                        }.instruct(EffectView::Unreserve(who, less)).emit(
                            EventView::EstateStakeDecreased(who, estate_id, less),
                        ),
                    )
                }
            },
        }
    }

    /// An account with a stake on an estate asks to have all of it back at
    /// the next round. Neither the ownership of the estate nor the estate
    /// itself is needed for that: a stake outlives both.
    pub open spec fn leave_staking(self, origin: Origin, estate_id: EstateId) -> Result<
        State,
        Error,
    > {
        match origin.signer() {
            None => Err(Error::BadOrigin),
            Some(who) => if self.is_leaving(estate_id, who) {
                Err(Error::EstateStakeAlreadyLeft)
            } else if self.stake_of(estate_id, who) == 0 {
                Err(Error::AccountHasNoStake)
            } else {
                Ok(
                    State {
                        exit_queue: assoc::insert(
                            self.exit_queue,
                            StakeKey { estate_id, staker: who },
                            (),
                        ),
                        ..self
                    }.emit(EventView::EstateStakeLeft(who, estate_id)),
                )
            },
        }
    }
}

impl Pallet {
    /// What `who` has bonded on an estate.
    pub fn estate_stake(&self, estate_id: EstateId, who: AccountId) -> (amount: Balance)
        requires
            self.wf(),
        ensures
            amount == self@.stake_of(estate_id, who),
            amount == 0 || amount >= self@.config.minimum_stake,
    {
        match self.estate_stake.get(&StakeKey { estate_id, staker: who }) {
            Some(amount) => {
                proof {
                    let s = self@.estate_stake;
                    let i = assoc::index_of(s, StakeKey { estate_id, staker: who });
                    assert(s[i].1 >= self@.config.minimum_stake);
                }
                *amount
            },
            None => 0,
        }
    }

    /// Who may change a stake on an estate.
    pub(crate) fn staker(&self, origin: Origin, estate_id: EstateId) -> (r: Result<
        AccountId,
        Error,
    >)
        requires
            self.wf(),
        ensures
            r == self@.staker(origin, estate_id),
    {
        let who = match origin {
            Origin::Signed(who) => who,
            _ => {
                return Err(Error::BadOrigin);
            },
        };
        match self.estates.get(&estate_id) {
            None => {
                return Err(Error::EstateDoesNotExist);
            },
            Some(estate) => {
                if estate.owner != who {
                    return Err(Error::NoPermission);
                }
            },
        }
        if self.exit_queue.contains_key(&StakeKey { estate_id, staker: who }) {
            return Err(Error::EstateStakeAlreadyLeft);
        }
        Ok(who)
    }

    /// What the value ledger has to reserve before `bond_more` can go
    /// through, and for whom; or why it cannot. Nothing changes.
    ///
    /// Refused with `BadOrigin` unless the origin is an account; else with
    /// `EstateDoesNotExist`; else with `NoPermission` unless the caller owns
    /// the estate; else with `EstateStakeAlreadyLeft` if the caller's stake
    /// waits to leave; else with `Overflow` if the stake cannot grow by
    /// `more`; else with `BelowMinimumStake` if the stake would be less than
    /// the minimum.
    pub fn bond_more_reservation(&self, origin: Origin, estate_id: EstateId, more: Balance) -> (r:
        Result<(AccountId, Balance), Error>)
        requires
            self.wf(),
        ensures
            r == self@.bond_more_reservation(origin, estate_id, more),
    {
        let who = match self.staker(origin, estate_id) {
            Ok(who) => who,
            Err(e) => {
                return Err(e);
            },
        };
        let total = match self.estate_stake(estate_id, who).checked_add(more) {
            Some(total) => total,
            None => {
                return Err(Error::Overflow);
            },
        };
        if total < self.config.minimum_stake {
            return Err(Error::BelowMinimumStake);
        }
        Ok((who, more))
    }

    /// The owner of an estate bonds `more` on it.
    ///
    /// The amount has to be reserved in the value ledger first:
    /// `bond_more_reservation` says for whom and how much, and `reserved`
    /// says whether the ledger has done so. Without the reservation nothing
    /// is bonded. The total stake grows by `more` as far as a balance goes.
    ///
    /// Refused as `bond_more_reservation` is; else with `InsufficientFund`
    /// if nothing has been reserved.
    pub fn bond_more(
        &mut self,
        origin: Origin,
        estate_id: EstateId,
        more: Balance,
        reserved: bool,
    ) -> (r: Result<(), Error>)
        requires
            old(self).wf(),
        ensures
            final(self).wf(),
            obeys(
                old(self)@.bond_more(origin, estate_id, more, reserved),
                old(self)@,
                final(self)@,
                r,
            ),
    {
        let who = match self.bond_more_reservation(origin, estate_id, more) {
            Ok((who, _)) => who,
            Err(e) => {
                return Err(e);
            },
        };
        if !reserved {
            return Err(Error::InsufficientFund);
        }
        let total = self.estate_stake(estate_id, who) + more;
        self.estate_stake.insert(StakeKey { estate_id, staker: who }, total);
        self.total_stake = self.total_stake.saturating_add(more);
        self.push_effect(Effect::Emit(Event::EstateStakeIncreased(who, estate_id, more)));
        Ok(())
    }

    /// The owner of an estate takes `less` of its stake back, and the value
    /// ledger is told to release that amount.
    ///
    /// What stays bonded must be more than nothing and not less than the
    /// minimum stake: to take everything back, leave the staking. The total
    /// stake shrinks by `less`, but not below nothing.
    ///
    /// Refused with `BadOrigin` unless the origin is an account; else with
    /// `EstateDoesNotExist`; else with `NoPermission` unless the caller owns
    /// the estate; else with `EstateStakeAlreadyLeft` if the caller's stake
    /// waits to leave; else with `Overflow` if `less` is more than the
    /// stake; else with `BelowMinimumStake`.
    pub fn bond_less(&mut self, origin: Origin, estate_id: EstateId, less: Balance) -> (r: Result<
        (),
        Error,
    >)
        requires
            old(self).wf(),
        ensures
            final(self).wf(),
            obeys(old(self)@.bond_less(origin, estate_id, less), old(self)@, final(self)@, r),
    {
        let who = match self.staker(origin, estate_id) {
            Ok(who) => who,
            Err(e) => {
                return Err(e);
            },
        };
        let remaining = match self.estate_stake(estate_id, who).checked_sub(less) {
            Some(remaining) => remaining,
            None => {
                return Err(Error::Overflow);
            },
        };
        if remaining < self.config.minimum_stake || remaining == 0 {
            return Err(Error::BelowMinimumStake);
        }
        self.estate_stake.insert(StakeKey { estate_id, staker: who }, remaining);
        self.total_stake = self.total_stake.saturating_sub(less);
        self.push_effect(Effect::Unreserve(who, less));
        self.push_effect(Effect::Emit(Event::EstateStakeDecreased(who, estate_id, less)));
        Ok(())
    }

    /// An account with a stake on an estate asks to have all of it back.
    /// The stake stays as it is until the next round begins, and cannot be
    /// changed until then. The caller need not own the estate any more, and
    /// the estate need not exist any more: a stake outlives both.
    ///
    /// Refused with `BadOrigin` unless the origin is an account; else with
    /// `EstateStakeAlreadyLeft` if the stake waits to leave already; else
    /// with `AccountHasNoStake` if nothing is bonded.
    pub fn leave_staking(&mut self, origin: Origin, estate_id: EstateId) -> (r: Result<(), Error>)
        requires
            old(self).wf(),
        ensures
            final(self).wf(),
            obeys(old(self)@.leave_staking(origin, estate_id), old(self)@, final(self)@, r),
    {
        let who = match origin {
            Origin::Signed(who) => who,
            _ => {
                return Err(Error::BadOrigin);
            },
        };
        let key = StakeKey { estate_id, staker: who };
        if self.exit_queue.contains_key(&key) {
            return Err(Error::EstateStakeAlreadyLeft);
        }
        if self.estate_stake(estate_id, who) == 0 {
            return Err(Error::AccountHasNoStake);
        }
        self.exit_queue.insert(key, ());
        self.push_effect(Effect::Emit(Event::EstateStakeLeft(who, estate_id)));
        Ok(())
    }
}

} // verus!
