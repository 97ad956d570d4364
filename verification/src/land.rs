//! Region bounds and the ownership of land units.

use crate::assoc;
use crate::error::Error;
use crate::event::{Effect, Event, EventView};
use crate::pallet::Pallet;
use crate::state::{
    custody_is_listed, in_custody, lemma_custody_kept, lemma_listing_kept, obeys, obeys_with,
    State,
};
use crate::table::Table;
use crate::types::{AccountId, Coordinate, LandUnitKey, MetaverseId, Origin, Owner};
use vstd::prelude::*;

verus! {

/// `coordinate` lies inside the square that `bound` spans: both of its
/// components are at least `bound.0` and at most `bound.1`.
pub open spec fn within(bound: (i32, i32), coordinate: Coordinate) -> bool {
    &&& bound.0 <= coordinate.0 <= bound.1
    &&& bound.0 <= coordinate.1 <= bound.1
}

/// Whether a land unit is there for the taking: where a new unit is asked
/// for, it must not be registered yet; where an existing one is, an account
/// must hold it itself. A unit in the custody of an estate is never
/// available.
pub open spec fn available(land: Seq<(LandUnitKey, Owner)>, key: LandUnitKey, existing: bool)
    -> bool {
    if existing {
        assoc::get(land, key) matches Some(Owner::Account(_))
    } else {
        !assoc::contains_key(land, key)
    }
}

/// Whether a land unit may be minted: its region must have a bound, the unit
/// must lie inside it, and it must be available.
pub open spec fn mint_check(
    land: Seq<(LandUnitKey, Owner)>,
    bound: Option<(i32, i32)>,
    key: LandUnitKey,
    existing: bool,
) -> Result<(), Error> {
    match bound {
        None => Err(Error::NoMaxBoundSet),
        Some(b) => if !within(b, key.coordinate) {
            Err(Error::LandUnitIsOutOfBound)
        } else if !available(land, key, existing) {
            Err(Error::LandUnitIsNotAvailable)
        } else {
            Ok(())
        },
    }
}

/// The land register after one unit has been minted to `owner`.
pub open spec fn mint_unit(
    land: Seq<(LandUnitKey, Owner)>,
    bound: Option<(i32, i32)>,
    key: LandUnitKey,
    owner: Owner,
    existing: bool,
) -> Result<Seq<(LandUnitKey, Owner)>, Error> {
    match mint_check(land, bound, key, existing) {
        Err(e) => Err(e),
        Ok(_) => Ok(assoc::insert(land, key, owner)),
    }
}

/// The land register after the units at `coordinates` have been minted to
/// `owner` one after the other; the first unit that cannot be minted refuses
/// the whole batch.
pub open spec fn mint_units(
    land: Seq<(LandUnitKey, Owner)>,
    bound: Option<(i32, i32)>,
    metaverse_id: MetaverseId,
    owner: Owner,
    coordinates: Seq<Coordinate>,
    existing: bool,
) -> Result<Seq<(LandUnitKey, Owner)>, Error>
    decreases coordinates.len(),
{
    if coordinates.len() == 0 {
        Ok(land)
    } else {
        let key = LandUnitKey { metaverse_id, coordinate: coordinates[0] };
        match mint_unit(land, bound, key, owner, existing) {
            Err(e) => Err(e),
            Ok(next) => mint_units(
                next,
                bound,
                metaverse_id,
                owner,
                coordinates.drop_first(),
                existing,
            ),
        }
    }
}

/// What a batch that has been minted leaves behind: every unit of the
/// batch is held by the new owner, and every other unit is held as before,
/// those in the custody of an estate among them. Each unit of the batch was
/// available, and none is named twice, unless existing units went to an
/// account.
pub proof fn lemma_minted_units(
    land: Seq<(LandUnitKey, Owner)>,
    bound: Option<(i32, i32)>,
    metaverse_id: MetaverseId,
    owner: Owner,
    coordinates: Seq<Coordinate>,
    existing: bool,
)
    requires
        assoc::distinct(land),
        mint_units(land, bound, metaverse_id, owner, coordinates, existing) is Ok,
    ensures
        ({
            let minted = mint_units(
                land,
                bound,
                metaverse_id,
                owner,
                coordinates,
                existing,
            ).unwrap();
            &&& assoc::distinct(minted)
            &&& forall|key: LandUnitKey| #[trigger]
                assoc::get(minted, key) == assoc::get(land, key) || assoc::get(minted, key)
                    == Some(owner)
            &&& forall|key: LandUnitKey|
                (#[trigger] assoc::get(land, key)) matches Some(Owner::Estate(_)) ==> assoc::get(
                    minted,
                    key,
                ) == assoc::get(land, key)
            &&& forall|i: int|
                0 <= i < coordinates.len() ==> assoc::get(
                    minted,
                    LandUnitKey { metaverse_id, coordinate: #[trigger] coordinates[i] },
                ) == Some(owner)
            &&& forall|i: int|
                0 <= i < coordinates.len() ==> available(
                    land,
                    LandUnitKey { metaverse_id, coordinate: #[trigger] coordinates[i] },
                    existing,
                )
            &&& !(existing && owner is Account) ==> coordinates.no_duplicates()
            &&& minted.len() == land.len() + if existing {
                0
            } else {
                coordinates.len() as int
            }
        }),
    decreases coordinates.len(),
{
    if coordinates.len() > 0 {
        let first = LandUnitKey { metaverse_id, coordinate: coordinates[0] };
        let next = assoc::insert(land, first, owner);
        let rest = coordinates.drop_first();
        assoc::lemma_insert(land, first, owner);
        lemma_minted_units(next, bound, metaverse_id, owner, rest, existing);
        let minted = mint_units(next, bound, metaverse_id, owner, rest, existing).unwrap();
        assert(available(land, first, existing));
        assert(next.len() == land.len() + if existing {
            0int
        } else {
            1int
        });
        assert forall|key: LandUnitKey| #[trigger]
            assoc::get(minted, key) == assoc::get(land, key) || assoc::get(minted, key) == Some(
                owner,
            ) by {
            if key != first {
                assert(assoc::get(next, key) == assoc::get(land, key));
            }
        }
        assert forall|key: LandUnitKey|
            (#[trigger] assoc::get(land, key)) matches Some(Owner::Estate(_)) implies assoc::get(
            minted,
            key,
        ) == assoc::get(land, key) by {
            assert(key != first);
            assert(assoc::get(next, key) == assoc::get(land, key));
        }
        assert forall|i: int| 0 <= i < coordinates.len() implies assoc::get(
            minted,
            LandUnitKey { metaverse_id, coordinate: #[trigger] coordinates[i] },
        ) == Some(owner) by {
            if i > 0 {
                assert(rest[i - 1] == coordinates[i]);
            } else {
                assert(assoc::get(next, first) == Some(owner));
            }
        }
        assert forall|i: int| 0 <= i < coordinates.len() implies available(
            land,
            LandUnitKey { metaverse_id, coordinate: #[trigger] coordinates[i] },
            existing,
        ) by {
            if i > 0 {
                let key = LandUnitKey { metaverse_id, coordinate: coordinates[i] };
                assert(rest[i - 1] == coordinates[i]);
                assert(available(next, key, existing));
                if key != first {
                    assert(assoc::get(next, key) == assoc::get(land, key));
                }
            }
        }
        if !(existing && owner is Account) {
            assert forall|i: int, j: int|
                0 <= i < coordinates.len() && 0 <= j < coordinates.len() && i != j implies coordinates[i]
                != coordinates[j] by {
                if i > 0 && j > 0 {
                    assert(rest[i - 1] == coordinates[i]);
                    assert(rest[j - 1] == coordinates[j]);
                } else {
                    let t = if i > 0 {
                        i
                    } else {
                        j
                    };
                    assert(rest[t - 1] == coordinates[t]);
                    assert(available(
                        next,
                        LandUnitKey { metaverse_id, coordinate: rest[t - 1] },
                        existing,
                    ));
                    assert(assoc::get(next, first) == Some(owner));
                }
            }
        }
    }
}

impl State {
    /// The count of land units grows by `total`, or shrinks by it where
    /// `deduct` is set, as far as its range allows.
    pub open spec fn set_total_land_unit(self, total: u64, deduct: bool) -> Result<State, Error> {
        let count = if deduct {
            self.all_land_units_count - total
        } else {
            self.all_land_units_count + total
        };
        if 0 <= count <= u64::MAX {
            Ok(State { all_land_units_count: count as u64, ..self })
        } else {
            Err(Error::Overflow)
        }
    }

    /// The administrator gives a region its bound, or a new one.
    pub open spec fn set_max_bounds(
        self,
        origin: Origin,
        metaverse_id: MetaverseId,
        new_bound: (i32, i32),
    ) -> Result<State, Error> {
        if !origin.is_root() {
            Err(Error::BadOrigin)
        } else {
            Ok(
                State {
                    max_bounds: assoc::insert(self.max_bounds, metaverse_id, new_bound),
                    ..self
                }.emit(EventView::MaxBoundSet(metaverse_id, new_bound)),
            )
        }
    }

    /// The administrator mints one new land unit to `beneficiary`.
    pub open spec fn mint_land(
        self,
        origin: Origin,
        beneficiary: AccountId,
        metaverse_id: MetaverseId,
        coordinate: Coordinate,
    ) -> Result<State, Error> {
        let key = LandUnitKey { metaverse_id, coordinate };
        if !origin.is_root() {
            Err(Error::BadOrigin)
        } else {
            match mint_unit(
                self.land_units,
                assoc::get(self.max_bounds, metaverse_id),
                key,
                Owner::Account(beneficiary),
                false,
            ) {
                Err(e) => Err(e),
                Ok(land_units) => if self.all_land_units_count + 1 > u64::MAX {
                    Err(Error::Overflow)
                } else {
                    Ok(
                        State {
                            land_units,
                            all_land_units_count: (self.all_land_units_count + 1) as u64,
                            ..self
                        }.emit(EventView::NewLandUnitMinted(beneficiary, metaverse_id, coordinate)),
                    )
                },
            }
        }
    }

    /// The administrator mints new land units to `beneficiary`, all of them
    /// or none.
    pub open spec fn mint_lands(
        self,
        origin: Origin,
        beneficiary: AccountId,
        metaverse_id: MetaverseId,
        coordinates: Seq<Coordinate>,
    ) -> Result<State, Error> {
        if !origin.is_root() {
            Err(Error::BadOrigin)
        } else {
            match mint_units(
                self.land_units,
                assoc::get(self.max_bounds, metaverse_id),
                metaverse_id,
                Owner::Account(beneficiary),
                coordinates,
                false,
            ) {
                Err(e) => Err(e),
                Ok(land_units) => if self.all_land_units_count + coordinates.len() > u64::MAX {
                    Err(Error::Overflow)
                } else {
                    Ok(
                        State {
                            land_units,
                            all_land_units_count: (self.all_land_units_count
                                + coordinates.len()) as u64,
                            ..self
                        }.emit(EventView::NewLandsMinted(beneficiary, metaverse_id, coordinates)),
                    )
                },
            }
        }
    }

    /// A land unit passes from the account `from` to the account `to`.
    pub open spec fn do_transfer_landunit(
        self,
        coordinate: Coordinate,
        from: AccountId,
        to: AccountId,
        metaverse_id: MetaverseId,
    ) -> Result<State, Error> {
        let key = LandUnitKey { metaverse_id, coordinate };
        if assoc::get(self.land_units, key) != Some(Owner::Account(from)) {
            Err(Error::NoPermission)
        } else if from == to {
            Err(Error::AlreadyOwnTheLandUnit)
        } else {
            Ok(
                State {
                    land_units: assoc::insert(self.land_units, key, Owner::Account(to)),
                    ..self
                }.emit(EventView::TransferredLandUnit(metaverse_id, coordinate, from, to)),
            )
        }
    }

    /// An account hands one of its land units to another account; a unit
    /// that is up for auction stays where it is.
    pub open spec fn transfer_land(
        self,
        origin: Origin,
        to: AccountId,
        metaverse_id: MetaverseId,
        coordinate: Coordinate,
        in_auction: bool,
    ) -> Result<State, Error> {
        match origin.signer() {
            None => Err(Error::BadOrigin),
            Some(who) => if in_auction {
                Err(Error::LandUnitAlreadyInAuction)
            } else {
                self.do_transfer_landunit(coordinate, who, to, metaverse_id)
            },
        }
    }

    /// The auction hands a land unit that it has sold to the buyer.
    pub open spec fn transfer_landunit(
        self,
        coordinate: Coordinate,
        from: AccountId,
        to: (AccountId, MetaverseId),
        in_auction: bool,
    ) -> Result<State, Error> {
        if !in_auction {
            Err(Error::LandUnitNotInAuction)
        } else {
            self.do_transfer_landunit(coordinate, from, to.0, to.1)
        }
    }
}

/// Whether `coordinate` lies inside `bound`.
pub fn is_within(bound: (i32, i32), coordinate: Coordinate) -> (b: bool)
    ensures
        b == within(bound, coordinate),
{
    coordinate.0 >= bound.0 && bound.1 >= coordinate.0 && coordinate.1 >= bound.0 && bound.1
        >= coordinate.1
}

/// A copy of a list of coordinates.
pub(crate) fn copy_coordinates(coordinates: &Vec<Coordinate>) -> (copy: Vec<Coordinate>)
    ensures
        copy@ == coordinates@,
{
    let mut copy: Vec<Coordinate> = Vec::new();
    let mut i: usize = 0;
    while i < coordinates.len()
        invariant
            i <= coordinates.len(),
            copy@ == coordinates@.take(i as int),
        decreases coordinates.len() - i,
    {
        let c: Coordinate = coordinates[i];
        copy.push(c);
        assert(copy@ =~= coordinates@.take(i + 1));
        i += 1;
    }
    assert(coordinates@.take(i as int) =~= coordinates@);
    copy
}

impl Pallet {
    /// The bound of a region, if it has one.
    pub(crate) fn bound_of(&self, metaverse_id: MetaverseId) -> (bound: Option<(i32, i32)>)
        requires
            self.wf(),
        ensures
            bound == assoc::get(self@.max_bounds, metaverse_id),
    {
        match self.max_bounds.get(&metaverse_id) {
            Some(b) => Some(*b),
            None => None,
        }
    }

    /// Whether a land unit may be minted into `land`.
    pub(crate) fn check_mint(
        land: &Table<LandUnitKey, Owner>,
        bound: Option<(i32, i32)>,
        key: LandUnitKey,
        existing: bool,
    ) -> (r: Result<(), Error>)
        requires
            assoc::distinct(land@),
        ensures
            r == mint_check(land@, bound, key, existing),
    {
        let b = match bound {
            Some(b) => b,
            None => {
                return Err(Error::NoMaxBoundSet);
            },
        };
        if !is_within(b, key.coordinate) {
            return Err(Error::LandUnitIsOutOfBound);
        }
        let there = if existing {
            match land.get(&key) {
                Some(Owner::Account(_)) => true,
                _ => false,
            }
        } else {
            !land.contains_key(&key)
        };
        if !there {
            return Err(Error::LandUnitIsNotAvailable);
        }
        Ok(())
    }

    /// Mints one land unit into `land`, or leaves `land` as it is.
    pub(crate) fn mint_land_unit(
        land: &mut Table<LandUnitKey, Owner>,
        bound: Option<(i32, i32)>,
        key: LandUnitKey,
        owner: Owner,
        existing: bool,
    ) -> (r: Result<(), Error>)
        requires
            assoc::distinct(old(land)@),
        ensures
            assoc::distinct(final(land)@),
            match mint_unit(old(land)@, bound, key, owner, existing) {
                Ok(next) => r is Ok && final(land)@ == next,
                Err(e) => r == Err::<(), Error>(e) && final(land)@ == old(land)@,
            },
    {
        match Self::check_mint(land, bound, key, existing) {
            Err(e) => {
                return Err(e);
            },
            Ok(_) => {},
        }
        land.insert(key, owner);
        Ok(())
    }

    /// The land register with the units at `coordinates` minted to `owner`.
    pub(crate) fn mint_land_units(
        &self,
        metaverse_id: MetaverseId,
        owner: Owner,
        coordinates: &Vec<Coordinate>,
        existing: bool,
    ) -> (r: Result<Table<LandUnitKey, Owner>, Error>)
        requires
            self.wf(),
        ensures
            match mint_units(
                self@.land_units,
                assoc::get(self@.max_bounds, metaverse_id),
                metaverse_id,
                owner,
                coordinates@,
                existing,
            ) {
                Ok(next) => {
                    &&& r matches Ok(land) && land@ == next
                    &&& assoc::distinct(next)
                    &&& in_custody(next, self@.estates)
                    &&& forall|i: int|
                        0 <= i < coordinates@.len() ==> assoc::get(
                            next,
                            LandUnitKey { metaverse_id, coordinate: #[trigger] coordinates@[i] },
                        ) == Some(owner)
                    &&& !(existing && owner is Account) ==> coordinates@.no_duplicates()
                    &&& next.len() == self@.land_units.len() + if existing {
                        0
                    } else {
                        coordinates@.len() as int
                    }
                    &&& owner is Account ==> custody_is_listed(next, self@.estates)
                },
                Err(e) => r matches Err(x) && x == e,
            },
    {
        let bound = self.bound_of(metaverse_id);
        let mut land = self.land_units.duplicate();
        let mut i: usize = 0;
        assert(coordinates@.skip(0) =~= coordinates@);
        while i < coordinates.len()
            invariant
                i <= coordinates.len(),
                assoc::distinct(land@),
                bound == assoc::get(self@.max_bounds, metaverse_id),
                mint_units(
                    self@.land_units,
                    bound,
                    metaverse_id,
                    owner,
                    coordinates@,
                    existing,
                ) == mint_units(
                    land@,
                    bound,
                    metaverse_id,
                    owner,
                    coordinates@.skip(i as int),
                    existing,
                ),
            decreases coordinates.len() - i,
        {
            let key = LandUnitKey { metaverse_id, coordinate: coordinates[i] };
            let ghost rest = coordinates@.skip(i as int);
            let ghost before = land@;
            assert(rest.len() > 0 && rest[0] == coordinates@[i as int]);
            assert(rest.drop_first() =~= coordinates@.skip(i + 1));
            assert(mint_units(before, bound, metaverse_id, owner, rest, existing) == match mint_unit(
                before,
                bound,
                key,
                owner,
                existing,
            ) {
                Err(e) => Err(e),
                Ok(next) => mint_units(
                    next,
                    bound,
                    metaverse_id,
                    owner,
                    rest.drop_first(),
                    existing,
                ),
            });
            match Self::mint_land_unit(&mut land, bound, key, owner, existing) {
                Err(e) => {
                    return Err(e);
                },
                Ok(_) => {},
            }
            i += 1;
        }
        proof {
            lemma_minted_units(
                self@.land_units,
                bound,
                metaverse_id,
                owner,
                coordinates@,
                existing,
            );
            lemma_custody_kept(self@.land_units, land@, self@.estates);
            if owner is Account {
                lemma_listing_kept(self@.land_units, land@, self@.estates);
            }
        }
        Ok(land)
    }

    /// The administrator gives a region its bound, or a new one. The bound
    /// is taken as it is: a least coordinate above the greatest leaves no
    /// room for any land.
    ///
    /// Refused with `BadOrigin` unless the origin is the administrator.
    pub fn set_max_bounds(
        &mut self,
        origin: Origin,
        metaverse_id: MetaverseId,
        new_bound: (i32, i32),
    ) -> (r: Result<(), Error>)
        requires
            old(self).wf(),
        ensures
            final(self).wf(),
            obeys(
                old(self)@.set_max_bounds(origin, metaverse_id, new_bound),
                old(self)@,
                final(self)@,
                r,
            ),
    {
        match origin {
            Origin::Root => {},
            _ => {
                return Err(Error::BadOrigin);
            },
        }
        self.max_bounds.insert(metaverse_id, new_bound);
        self.push_effect(Effect::Emit(Event::MaxBoundSet(metaverse_id, new_bound)));
        Ok(())
    }

    /// The administrator mints one new land unit to `beneficiary` and the
    /// count of land units grows by one.
    ///
    /// Refused with `BadOrigin` unless the origin is the administrator; else
    /// with `NoMaxBoundSet` if the region has no bound; else with
    /// `LandUnitIsOutOfBound` if the unit lies outside the bound; else with
    /// `LandUnitIsNotAvailable` if the unit is registered already; else with
    /// `Overflow` if the count cannot grow.
    pub fn mint_land(
        &mut self,
        origin: Origin,
        beneficiary: AccountId,
        metaverse_id: MetaverseId,
        coordinate: Coordinate,
    ) -> (r: Result<(), Error>)
        requires
            old(self).wf(),
        ensures
            final(self).wf(),
            obeys(
                old(self)@.mint_land(origin, beneficiary, metaverse_id, coordinate),
                old(self)@,
                final(self)@,
                r,
            ),
    {
        match origin {
            Origin::Root => {},
            _ => {
                return Err(Error::BadOrigin);
            },
        }
        let key = LandUnitKey { metaverse_id, coordinate };
        let bound = self.bound_of(metaverse_id);
        match Self::check_mint(&self.land_units, bound, key, false) {
            Err(e) => {
                return Err(e);
            },
            Ok(_) => {},
        }
        match self.set_total_land_unit(1, false) {
            Err(e) => {
                return Err(e);
            },
            Ok(_) => {},
        }
        proof {
            assoc::lemma_insert(self@.land_units, key, Owner::Account(beneficiary));
            lemma_custody_kept(
                self@.land_units,
                assoc::insert(self@.land_units, key, Owner::Account(beneficiary)),
                self@.estates,
            );
            lemma_listing_kept(
                self@.land_units,
                assoc::insert(self@.land_units, key, Owner::Account(beneficiary)),
                self@.estates,
            );
        }
        self.land_units.insert(key, Owner::Account(beneficiary));
        self.push_effect(
            Effect::Emit(Event::NewLandUnitMinted(beneficiary, metaverse_id, coordinate)),
        );
        Ok(())
    }

    /// The administrator mints new land units to `beneficiary`, all of them
    /// or none, and the count of land units grows by their number.
    ///
    /// The units are taken in the order of the list, and the first that
    /// cannot be minted refuses the batch with the error that `mint_land`
    /// gives for it. A coordinate that occurs twice refuses the batch, as
    /// its second minting finds the unit taken. Refused with `BadOrigin`
    /// before any of this, and with `Overflow` after it.
    pub fn mint_lands(
        &mut self,
        origin: Origin,
        beneficiary: AccountId,
        metaverse_id: MetaverseId,
        coordinates: Vec<Coordinate>,
    ) -> (r: Result<(), Error>)
        requires
            old(self).wf(),
        ensures
            final(self).wf(),
            obeys(
                old(self)@.mint_lands(origin, beneficiary, metaverse_id, coordinates@),
                old(self)@,
                final(self)@,
                r,
            ),
    {
        match origin {
            Origin::Root => {},
            _ => {
                return Err(Error::BadOrigin);
            },
        }
        let land = match self.mint_land_units(
            metaverse_id,
            Owner::Account(beneficiary),
            &coordinates,
            false,
        ) {
            Ok(land) => land,
            Err(e) => {
                return Err(e);
            },
        };
        match self.set_total_land_unit(coordinates.len() as u64, false) {
            Err(e) => {
                return Err(e);
            },
            Ok(_) => {},
        }
        self.land_units = land;
        self.push_effect(Effect::Emit(Event::NewLandsMinted(beneficiary, metaverse_id, coordinates)));
        Ok(())
    }

    /// Adds `total` to the count of land units, or takes it off where
    /// `deduct` is set. A count that would leave its range stays as it is.
    pub(crate) fn set_total_land_unit(&mut self, total: u64, deduct: bool) -> (r: Result<
        (),
        Error,
    >)
        ensures
            obeys(old(self)@.set_total_land_unit(total, deduct), old(self)@, final(self)@, r),
    {
        let count = if deduct {
            self.all_land_units_count.checked_sub(total)
        } else {
            self.all_land_units_count.checked_add(total)
        };
        match count {
            Some(count) => {
                self.all_land_units_count = count;
                Ok(())
            },
            None => Err(Error::Overflow),
        }
    }

    /// A land unit passes from the account `from` to the account `to`.
    pub(crate) fn do_transfer_landunit(
        &mut self,
        coordinate: Coordinate,
        from: AccountId,
        to: AccountId,
        metaverse_id: MetaverseId,
    ) -> (r: Result<Coordinate, Error>)
        requires
            old(self).wf(),
        ensures
            final(self).wf(),
            obeys_with(
                old(self)@.do_transfer_landunit(coordinate, from, to, metaverse_id),
                coordinate,
                old(self)@,
                final(self)@,
                r,
            ),
    {
        let key = LandUnitKey { metaverse_id, coordinate };
        let owned = match self.land_units.get(&key) {
            Some(Owner::Account(owner)) => *owner == from,
            _ => false,
        };
        if !owned {
            return Err(Error::NoPermission);
        }
        if from == to {
            return Err(Error::AlreadyOwnTheLandUnit);
        }
        proof {
            let changed = assoc::insert(self@.land_units, key, Owner::Account(to));
            assoc::lemma_insert(self@.land_units, key, Owner::Account(to));
            lemma_custody_kept(self@.land_units, changed, self@.estates);
            lemma_listing_kept(self@.land_units, changed, self@.estates);
        }
        self.land_units.insert(key, Owner::Account(to));
        self.push_effect(
            Effect::Emit(Event::TransferredLandUnit(metaverse_id, coordinate, from, to)),
        );
        Ok(coordinate)
    }

    /// An account hands one of its land units to another account.
    ///
    /// `in_auction` says whether the auction service reports the unit as up
    /// for auction; such a unit stays where it is.
    ///
    /// Refused with `BadOrigin` unless the origin is an account; else with
    /// `LandUnitAlreadyInAuction`; else with `NoPermission` unless the
    /// caller itself holds the unit; else with `AlreadyOwnTheLandUnit` if
    /// the caller is the receiver.
    pub fn transfer_land(
        &mut self,
        origin: Origin,
        to: AccountId,
        metaverse_id: MetaverseId,
        coordinate: Coordinate,
        in_auction: bool,
    ) -> (r: Result<(), Error>)
        requires
            old(self).wf(),
        ensures
            final(self).wf(),
            obeys(
                old(self)@.transfer_land(origin, to, metaverse_id, coordinate, in_auction),
                old(self)@,
                final(self)@,
                r,
            ),
    {
        let who = match origin {
            Origin::Signed(who) => who,
            _ => {
                return Err(Error::BadOrigin);
            },
        };
        if in_auction {
            return Err(Error::LandUnitAlreadyInAuction);
        }
        match self.do_transfer_landunit(coordinate, who, to, metaverse_id) {
            Ok(_) => Ok(()),
            Err(e) => Err(e),
        }
    }
}

} // verus!
