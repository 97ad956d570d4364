//! Estates: land units of one owner gathered under one identifier.

use crate::assoc;
use crate::error::Error;
use crate::event::{Effect, Event, EventView};
use crate::land::{copy_coordinates, mint_units};
use crate::pallet::Pallet;
use crate::state::{
    custody_is_listed, follows, in_custody, listed_if_held, obeys, obeys_with, State,
};
use crate::table::Table;
use crate::types::{
    AccountId, Coordinate, EstateId, EstateInfo, EstateInfoView, LandUnitKey, MetaverseId, Origin,
    Owner,
};
use vstd::prelude::*;

verus! {

/// The land register after each unit at `coordinates` has been given to
/// `owner`, whoever held it before.
pub open spec fn assign_units(
    land: Seq<(LandUnitKey, Owner)>,
    metaverse_id: MetaverseId,
    owner: Owner,
    coordinates: Seq<Coordinate>,
) -> Seq<(LandUnitKey, Owner)>
    decreases coordinates.len(),
{
    if coordinates.len() == 0 {
        land
    } else {
        assign_units(
            assoc::insert(land, LandUnitKey { metaverse_id, coordinate: coordinates[0] }, owner),
            metaverse_id,
            owner,
            coordinates.drop_first(),
        )
    }
}

/// Every unit at `coordinates` is held by the account `who` itself.
pub open spec fn owns_all(
    land: Seq<(LandUnitKey, Owner)>,
    metaverse_id: MetaverseId,
    who: AccountId,
    coordinates: Seq<Coordinate>,
) -> bool {
    forall|i: int|
        0 <= i < coordinates.len() ==> assoc::get(
            land,
            LandUnitKey { metaverse_id, coordinate: #[trigger] coordinates[i] },
        ) == Some(Owner::Account(who))
}

/// `members` after the units of `leaving` have been taken out one after the
/// other, each at its first occurrence; nothing if one of them is not there
/// when its turn comes.
pub open spec fn remove_each(members: Seq<Coordinate>, leaving: Seq<Coordinate>) -> Option<
    Seq<Coordinate>,
>
    decreases leaving.len(),
{
    if leaving.len() == 0 {
        Some(members)
    } else {
        match members.index_of_first(leaving[0]) {
            None => None,
            Some(i) => remove_each(members.remove(i), leaving.drop_first()),
        }
    }
}

impl State {
    /// The administrator forms an estate for `beneficiary`: out of new land
    /// units, or out of units that are registered already.
    pub open spec fn form_estate(
        self,
        origin: Origin,
        beneficiary: AccountId,
        metaverse_id: MetaverseId,
        coordinates: Seq<Coordinate>,
        existing: bool,
    ) -> Result<(State, EstateId), Error> {
        let id = self.next_estate_id;
        let minted: nat = if existing {
            0
        } else {
            coordinates.len()
        };
        if !origin.is_root() {
            Err(Error::BadOrigin)
        } else if coordinates.len() == 0 {
            Err(Error::EstateWithoutLandUnit)
        } else if id + 1 > u64::MAX {
            Err(Error::NoAvailableEstateId)
        } else {
            match mint_units(
                self.land_units,
                assoc::get(self.max_bounds, metaverse_id),
                metaverse_id,
                Owner::Estate(id),
                coordinates,
                existing,
            ) {
                Err(e) => Err(e),
                Ok(land_units) => if self.all_land_units_count + minted > u64::MAX
                    || self.all_estates_count + 1 > u64::MAX {
                    Err(Error::Overflow)
                } else {
                    Ok(
                        (
                            State {
                                next_estate_id: (id + 1) as u64,
                                land_units,
                                all_land_units_count: (self.all_land_units_count + minted) as u64,
                                all_estates_count: (self.all_estates_count + 1) as u64,
                                estates: assoc::insert(
                                    self.estates,
                                    id,
                                    EstateInfoView { owner: beneficiary, metaverse_id, coordinates },
                                ),
                                ..self
                            }.emit(
                                EventView::NewEstateMinted(
                                    id,
                                    beneficiary,
                                    metaverse_id,
                                    coordinates,
                                ),
                            ),
                            id,
                        ),
                    )
                },
            }
        }
    }

    /// An estate passes from the account `from` to the account `to`.
    pub open spec fn do_transfer_estate(
        self,
        estate_id: EstateId,
        from: AccountId,
        to: AccountId,
    ) -> Result<State, Error> {
        match assoc::get(self.estates, estate_id) {
            None => Err(Error::NoPermission),
            Some(estate) => if estate.owner != from {
                Err(Error::NoPermission)
            } else if from == to {
                Err(Error::AlreadyOwnTheEstate)
            } else {
                Ok(
                    State {
                        estates: assoc::insert(
                            self.estates,
                            estate_id,
                            EstateInfoView { owner: to, ..estate },
                        ),
                        ..self
                    }.emit(EventView::TransferredEstate(estate_id, from, to)),
                )
            },
        }
    }

    /// An account hands its estate to another account; an estate that is up
    /// for auction stays where it is.
    pub open spec fn transfer_estate(
        self,
        origin: Origin,
        to: AccountId,
        estate_id: EstateId,
        in_auction: bool,
    ) -> Result<State, Error> {
        match origin.signer() {
            None => Err(Error::BadOrigin),
            Some(who) => if in_auction {
                Err(Error::EstateAlreadyInAuction)
            } else {
                self.do_transfer_estate(estate_id, who, to)
            },
        }
    }

    /// The auction hands an estate that it has sold to the buyer.
    pub open spec fn transfer_auctioned_estate(
        self,
        estate_id: EstateId,
        from: AccountId,
        to: AccountId,
        in_auction: bool,
    ) -> Result<State, Error> {
        if !in_auction {
            Err(Error::EstateNotInAuction)
        } else {
            self.do_transfer_estate(estate_id, from, to)
        }
    }

    /// What an operation on an estate and its land needs before anything
    /// else: a signed caller, an estate that is not up for auction and lies
    /// in the region that the caller names, and the caller as its owner.
    /// Gives the caller and the estate.
    pub open spec fn estate_of_caller(
        self,
        origin: Origin,
        estate_id: EstateId,
        metaverse_id: MetaverseId,
        in_auction: bool,
    ) -> Result<(AccountId, EstateInfoView), Error> {
        match origin.signer() {
            None => Err(Error::BadOrigin),
            Some(who) => if in_auction {
                Err(Error::EstateAlreadyInAuction)
            } else {
                match assoc::get(self.estates, estate_id) {
                    None => Err(Error::EstateDoesNotExist),
                    Some(estate) => if estate.metaverse_id != metaverse_id {
                        Err(Error::EstateDoesNotExist)
                    } else if estate.owner != who {
                        Err(Error::NoPermission)
                    } else {
                        Ok((who, estate))
                    },
                }
            },
        }
    }

    /// The owner of an estate dissolves it: the estate is gone and each of
    /// its land units, which were in its custody, is held by the owner
    /// directly. No land unit comes into being and none is lost.
    pub open spec fn dissolve_estate(
        self,
        origin: Origin,
        estate_id: EstateId,
        metaverse_id: MetaverseId,
        in_auction: bool,
    ) -> Result<State, Error> {
        match self.estate_of_caller(origin, estate_id, metaverse_id, in_auction) {
            Err(e) => Err(e),
            Ok((who, estate)) => if self.all_estates_count < 1 {
                Err(Error::Overflow)
            } else {
                Ok(
                    State {
                        estates: assoc::remove(self.estates, estate_id),
                        all_estates_count: (self.all_estates_count - 1) as u64,
                        land_units: assign_units(
                            self.land_units,
                            metaverse_id,
                            Owner::Account(who),
                            estate.coordinates,
                        ),
                        ..self
                    }.emit(EventView::EstateDestroyed(estate_id, who)),
                )
            },
        }
    }

    /// The owner of an estate adds land units of its own to it: units of the
    /// estate's region that the owner holds itself, none of them named
    /// twice.
    pub open spec fn add_land_unit_to_estate(
        self,
        origin: Origin,
        estate_id: EstateId,
        metaverse_id: MetaverseId,
        land_units: Seq<Coordinate>,
        in_auction: bool,
    ) -> Result<State, Error> {
        match self.estate_of_caller(origin, estate_id, metaverse_id, in_auction) {
            Err(e) => Err(e),
            Ok((who, estate)) => if !owns_all(self.land_units, metaverse_id, who, land_units)
                || !land_units.no_duplicates() {
                Err(Error::LandUnitDoesNotExist)
            } else {
                Ok(
                    State {
                        estates: assoc::insert(
                            self.estates,
                            estate_id,
                            EstateInfoView {
                                coordinates: estate.coordinates + land_units,
                                ..estate
                            },
                        ),
                        land_units: assign_units(
                            self.land_units,
                            metaverse_id,
                            Owner::Estate(estate_id),
                            land_units,
                        ),
                        ..self
                    }.emit(EventView::LandUnitAdded(estate_id, who, land_units)),
                )
            },
        }
    }

    /// The owner of an estate takes land units out of it, all of them or
    /// none; the estate keeps at least one unit.
    pub open spec fn remove_land_unit_from_estate(
        self,
        origin: Origin,
        estate_id: EstateId,
        metaverse_id: MetaverseId,
        land_units: Seq<Coordinate>,
        in_auction: bool,
    ) -> Result<State, Error> {
        match self.estate_of_caller(origin, estate_id, metaverse_id, in_auction) {
            Err(e) => Err(e),
            Ok((who, estate)) => match remove_each(estate.coordinates, land_units) {
                None => Err(Error::LandUnitDoesNotExist),
                Some(rest) => if rest.len() == 0 {
                    Err(Error::EstateWithoutLandUnit)
                } else {
                    Ok(
                        State {
                            estates: assoc::insert(
                                self.estates,
                                estate_id,
                                EstateInfoView { coordinates: rest, ..estate },
                            ),
                            land_units: assign_units(
                                self.land_units,
                                metaverse_id,
                                Owner::Account(who),
                                land_units,
                            ),
                            ..self
                        }.emit(EventView::LandUnitsRemoved(estate_id, who, land_units)),
                    )
                },
            },
        }
    }
}

/// Units that leave a list without repetitions were all in it, and what
/// stays is the list without them, again without repetitions.
pub proof fn lemma_remove_each(members: Seq<Coordinate>, leaving: Seq<Coordinate>)
    requires
        members.no_duplicates(),
        remove_each(members, leaving) is Some,
    ensures
        remove_each(members, leaving).unwrap().no_duplicates(),
        forall|c: Coordinate| #[trigger]
            remove_each(members, leaving).unwrap().contains(c) <==> members.contains(c)
                && !leaving.contains(c),
        forall|k: int| 0 <= k < leaving.len() ==> members.contains(#[trigger] leaving[k]),
    decreases leaving.len(),
{
    if leaving.len() > 0 {
        let first = leaving[0];
        let later = leaving.drop_first();
        members.index_of_first_ensures(first);
        let at = members.index_of_first(first).unwrap();
        let kept = members.remove(at);
        assert forall|i: int| 0 <= i < kept.len() implies #[trigger] kept[i] == members[if i
            < at {
            i
        } else {
            i + 1
        }] by {}
        assert(kept.no_duplicates()) by {
            assert forall|i: int, j: int|
                0 <= i < kept.len() && 0 <= j < kept.len() && i != j implies kept[i] != kept[j] by {
                let a = if i < at {
                    i
                } else {
                    i + 1
                };
                let b = if j < at {
                    j
                } else {
                    j + 1
                };
                assert(kept[i] == members[a] && kept[j] == members[b]);
            }
        }
        assert forall|c: Coordinate| #[trigger] kept.contains(c) <==> members.contains(c) && c
            != first by {
            if kept.contains(c) {
                let i = choose|i: int| 0 <= i < kept.len() && kept[i] == c;
                let a = if i < at {
                    i
                } else {
                    i + 1
                };
                assert(kept[i] == members[a]);
                assert(members[a] != members[at]);
            }
            if members.contains(c) && c != first {
                let a = choose|a: int| 0 <= a < members.len() && members[a] == c;
                let i = if a < at {
                    a
                } else {
                    a - 1
                };
                assert(kept[i] == members[a]);
            }
        }
        lemma_remove_each(kept, later);
        let rest = remove_each(kept, later).unwrap();
        assert forall|c: Coordinate| #[trigger] rest.contains(c) <==> members.contains(c)
            && !leaving.contains(c) by {
            if later.contains(c) {
                let k = choose|k: int| 0 <= k < later.len() && later[k] == c;
                assert(leaving[k + 1] == c);
            }
            if leaving.contains(c) && c != first {
                let k = choose|k: int| 0 <= k < leaving.len() && leaving[k] == c;
                assert(later[k - 1] == c);
            }
            if c == first {
                assert(leaving[0] == c);
            }
        }
        assert forall|k: int| 0 <= k < leaving.len() implies members.contains(
            #[trigger] leaving[k],
        ) by {
            if k > 0 {
                assert(later[k - 1] == leaving[k]);
                assert(kept.contains(later[k - 1]));
            }
        }
    }
}

/// The estates keep the custody of their units through a change that
/// spares the units of every estate but one, if that one, as far as it is
/// still there, holds what it lists afterwards.
proof fn lemma_custody_after(
    land: Seq<(LandUnitKey, Owner)>,
    changed: Seq<(LandUnitKey, Owner)>,
    estates: Seq<(EstateId, EstateInfoView)>,
    after: Seq<(EstateId, EstateInfoView)>,
    id: EstateId,
    region: MetaverseId,
    members: Seq<Coordinate>,
)
    requires
        in_custody(land, estates),
        forall|key: LandUnitKey|
            (#[trigger] assoc::get(land, key)) matches Some(Owner::Estate(x)) && x != id
                ==> assoc::get(changed, key) == assoc::get(land, key),
        forall|i: int|
            0 <= i < after.len() ==> {
                ||| (#[trigger] after[i]).0 == id && after[i].1.metaverse_id == region
                    && after[i].1.coordinates == members
                ||| after[i].0 != id && estates.contains(after[i])
            },
        forall|j: int|
            0 <= j < members.len() ==> assoc::get(
                changed,
                LandUnitKey { metaverse_id: region, coordinate: #[trigger] members[j] },
            ) == Some(Owner::Estate(id)),
    ensures
        in_custody(changed, after),
{
    assert forall|i: int, j: int|
        0 <= i < after.len() && 0 <= j < after[i].1.coordinates.len() implies assoc::get(
        changed,
        LandUnitKey {
            metaverse_id: after[i].1.metaverse_id,
            coordinate: #[trigger] after[i].1.coordinates[j],
        },
    ) == Some(Owner::Estate(after[i].0)) by {
        if after[i].0 == id {
            assert(after[i].1.coordinates[j] == members[j]);
        } else {
            let p = choose|p: int| 0 <= p < estates.len() && estates[p] == after[i];
            let key = LandUnitKey {
                metaverse_id: estates[p].1.metaverse_id,
                coordinate: estates[p].1.coordinates[j],
            };
            assert(assoc::get(land, key) == Some(Owner::Estate(estates[p].0)));
        }
    }
}

/// What an estate lists is in its custody, in its region.
pub proof fn lemma_listed_is_held(s: State, estate_id: EstateId, c: Coordinate)
    requires
        s.inv(),
        assoc::get(s.estates, estate_id) matches Some(estate) && estate.coordinates.contains(c),
    ensures
        assoc::get(
            s.land_units,
            LandUnitKey {
                metaverse_id: assoc::get(s.estates, estate_id).unwrap().metaverse_id,
                coordinate: c,
            },
        ) == Some(Owner::Estate(estate_id)),
{
    let at = assoc::index_of(s.estates, estate_id);
    let estate = s.estates[at].1;
    let j = choose|j: int| 0 <= j < estate.coordinates.len() && estate.coordinates[j] == c;
    assert(s.estates[at].1.coordinates[j] == c);
}

/// A new estate lists what it holds, and so does every other estate.
proof fn lemma_form_keeps_listing(
    s: State,
    origin: Origin,
    beneficiary: AccountId,
    metaverse_id: MetaverseId,
    coordinates: Seq<Coordinate>,
    existing: bool,
)
    requires
        s.inv(),
        s.form_estate(origin, beneficiary, metaverse_id, coordinates, existing) is Ok,
    ensures
        ({
            let next = s.form_estate(
                origin,
                beneficiary,
                metaverse_id,
                coordinates,
                existing,
            ).unwrap().0;
            custody_is_listed(next.land_units, next.estates)
        }),
{
    let next = s.form_estate(origin, beneficiary, metaverse_id, coordinates, existing).unwrap().0;
    let id = s.next_estate_id;
    let info = EstateInfoView { owner: beneficiary, metaverse_id, coordinates };
    crate::laws::law_batch_mint(
        s.land_units,
        assoc::get(s.max_bounds, metaverse_id),
        metaverse_id,
        Owner::Estate(id),
        coordinates,
        existing,
    );
    crate::laws::law_assign_units(s.land_units, metaverse_id, Owner::Estate(id), coordinates);
    assoc::lemma_insert(s.estates, id, info);
    assert forall|key: LandUnitKey| #[trigger]
        listed_if_held(next.land_units, next.estates, key) by {
        assert(listed_if_held(s.land_units, s.estates, key));
        match assoc::get(s.land_units, key) {
            Some(Owner::Estate(x)) => {
                let p = assoc::index_of(s.estates, x);
                assert(s.estates[p].0 < s.next_estate_id);
            },
            _ => {},
        }
    }
}

/// An estate that changes hands lists what it listed.
proof fn lemma_transfer_keeps_listing(s: State, estate_id: EstateId, from: AccountId, to: AccountId)
    requires
        s.inv(),
        s.do_transfer_estate(estate_id, from, to) is Ok,
    ensures
        ({
            let next = s.do_transfer_estate(estate_id, from, to).unwrap();
            custody_is_listed(next.land_units, next.estates)
        }),
{
    let next = s.do_transfer_estate(estate_id, from, to).unwrap();
    let estate = assoc::get(s.estates, estate_id).unwrap();
    assoc::lemma_insert(s.estates, estate_id, EstateInfoView { owner: to, ..estate });
    assert forall|key: LandUnitKey| #[trigger]
        listed_if_held(next.land_units, next.estates, key) by {
        assert(listed_if_held(s.land_units, s.estates, key));
    }
}

/// Dissolving an estate keeps the registry well formed.
pub proof fn lemma_dissolve_keeps_inv(
    s: State,
    origin: Origin,
    estate_id: EstateId,
    metaverse_id: MetaverseId,
    in_auction: bool,
)
    requires
        s.inv(),
        s.dissolve_estate(origin, estate_id, metaverse_id, in_auction) is Ok,
    ensures
        s.dissolve_estate(origin, estate_id, metaverse_id, in_auction).unwrap().inv(),
{
    let next = s.dissolve_estate(origin, estate_id, metaverse_id, in_auction).unwrap();
    let (who, estate) = s.estate_of_caller(origin, estate_id, metaverse_id, in_auction).unwrap();
    crate::laws::law_assign_units(
        s.land_units,
        metaverse_id,
        Owner::Account(who),
        estate.coordinates,
    );
    assoc::lemma_remove(s.estates, estate_id);
    assert forall|key: LandUnitKey|
        (#[trigger] assoc::get(s.land_units, key)) matches Some(Owner::Estate(x)) && x
            != estate_id implies assoc::get(next.land_units, key) == assoc::get(
        s.land_units,
        key,
    ) by {
        if key.metaverse_id == metaverse_id && estate.coordinates.contains(key.coordinate) {
            lemma_listed_is_held(s, estate_id, key.coordinate);
        }
    }
    assert forall|i: int| 0 <= i < next.estates.len() implies (#[trigger] next.estates[i]).0
        != estate_id && s.estates.contains(next.estates[i]) by {
        assert(s.estates.contains(next.estates[i]));
        if next.estates[i].0 == estate_id {
            assert(assoc::contains_key(next.estates, estate_id));
        }
    }
    lemma_custody_after(
        s.land_units,
        next.land_units,
        s.estates,
        next.estates,
        estate_id,
        metaverse_id,
        Seq::empty(),
    );
    assert forall|key: LandUnitKey| #[trigger]
        listed_if_held(next.land_units, next.estates, key) by {
        assert(listed_if_held(s.land_units, s.estates, key));
    }
    let at = assoc::index_of(s.estates, estate_id);
    assert(next.estates == s.estates.remove(at));
    assert forall|i: int| 0 <= i < next.estates.len() implies {
        &&& (#[trigger] next.estates[i]).0 < next.next_estate_id
        &&& next.estates[i].1.coordinates.len() > 0
        &&& next.estates[i].1.coordinates.no_duplicates()
    } by {
        let p = if i < at {
            i
        } else {
            i + 1
        };
        assert(next.estates[i] == s.estates[p]);
    }
}

/// Adding land units to an estate keeps the registry well formed.
pub proof fn lemma_add_keeps_inv(
    s: State,
    origin: Origin,
    estate_id: EstateId,
    metaverse_id: MetaverseId,
    land_units: Seq<Coordinate>,
    in_auction: bool,
)
    requires
        s.inv(),
        s.add_land_unit_to_estate(origin, estate_id, metaverse_id, land_units, in_auction) is Ok,
    ensures
        s.add_land_unit_to_estate(
            origin,
            estate_id,
            metaverse_id,
            land_units,
            in_auction,
        ).unwrap().inv(),
{
    let next = s.add_land_unit_to_estate(
        origin,
        estate_id,
        metaverse_id,
        land_units,
        in_auction,
    ).unwrap();
    let (who, estate) = s.estate_of_caller(origin, estate_id, metaverse_id, in_auction).unwrap();
    let members = estate.coordinates + land_units;
    let info = EstateInfoView { coordinates: members, ..estate };
    crate::laws::law_assign_units(
        s.land_units,
        metaverse_id,
        Owner::Estate(estate_id),
        land_units,
    );
    assoc::lemma_insert(s.estates, estate_id, info);
    let at = assoc::index_of(s.estates, estate_id);
    assert(next.estates == s.estates.update(at, (estate_id, info)));
    assert forall|key: LandUnitKey|
        (#[trigger] assoc::get(s.land_units, key)) matches Some(Owner::Estate(x)) && x
            != estate_id implies assoc::get(next.land_units, key) == assoc::get(
        s.land_units,
        key,
    ) by {
        if key.metaverse_id == metaverse_id && land_units.contains(key.coordinate) {
            let k = choose|k: int| 0 <= k < land_units.len() && land_units[k] == key.coordinate;
            assert(land_units[k] == key.coordinate);
        }
    }
    assert forall|i: int| 0 <= i < next.estates.len() implies {
        ||| (#[trigger] next.estates[i]).0 == estate_id && next.estates[i].1.metaverse_id
            == metaverse_id && next.estates[i].1.coordinates == members
        ||| next.estates[i].0 != estate_id && s.estates.contains(next.estates[i])
    } by {
        if i != at {
            assert(next.estates[i] == s.estates[i]);
            assert(s.estates[i].0 != s.estates[at].0);
        }
    }
    assert forall|j: int| 0 <= j < members.len() implies assoc::get(
        next.land_units,
        LandUnitKey { metaverse_id, coordinate: #[trigger] members[j] },
    ) == Some(Owner::Estate(estate_id)) by {
        if j < estate.coordinates.len() {
            assert(estate.coordinates.contains(members[j])) by {
                assert(estate.coordinates[j] == members[j]);
            }
            lemma_listed_is_held(s, estate_id, members[j]);
        } else {
            assert(land_units[j - estate.coordinates.len()] == members[j]);
            assert(land_units.contains(members[j]));
        }
    }
    lemma_custody_after(
        s.land_units,
        next.land_units,
        s.estates,
        next.estates,
        estate_id,
        metaverse_id,
        members,
    );
    assert forall|key: LandUnitKey| #[trigger]
        listed_if_held(next.land_units, next.estates, key) by {
        assert(listed_if_held(s.land_units, s.estates, key));
        if key.metaverse_id == metaverse_id && land_units.contains(key.coordinate) {
            let k = choose|k: int| 0 <= k < land_units.len() && land_units[k] == key.coordinate;
            assert(members[estate.coordinates.len() + k] == key.coordinate);
        } else if estate.coordinates.contains(key.coordinate) {
            let j = choose|j: int|
                0 <= j < estate.coordinates.len() && estate.coordinates[j] == key.coordinate;
            assert(members[j] == key.coordinate);
        }
    }
    assert(members.no_duplicates()) by {
        assert forall|i: int, j: int|
            0 <= i < members.len() && 0 <= j < members.len() && i != j implies members[i]
            != members[j] by {
            let n = estate.coordinates.len() as int;
            if i < n && j < n {
                assert(estate.coordinates[i] != estate.coordinates[j]);
            } else if i >= n && j >= n {
                assert(land_units[i - n] != land_units[j - n]);
            } else {
                let a = if i < n {
                    i
                } else {
                    j
                };
                let b = if i < n {
                    j
                } else {
                    i
                };
                assert(estate.coordinates[a] == members[a]);
                assert(estate.coordinates.contains(members[a]));
                lemma_listed_is_held(s, estate_id, members[a]);
                assert(land_units[b - n] == members[b]);
            }
        }
    }
    assert forall|i: int| 0 <= i < next.estates.len() implies {
        &&& (#[trigger] next.estates[i]).0 < next.next_estate_id
        &&& next.estates[i].1.coordinates.len() > 0
        &&& next.estates[i].1.coordinates.no_duplicates()
    } by {
        if i != at {
            assert(next.estates[i] == s.estates[i]);
        }
    }
}

/// Taking land units out of an estate keeps the registry well formed.
pub proof fn lemma_remove_keeps_inv(
    s: State,
    origin: Origin,
    estate_id: EstateId,
    metaverse_id: MetaverseId,
    land_units: Seq<Coordinate>,
    in_auction: bool,
)
    requires
        s.inv(),
        s.remove_land_unit_from_estate(origin, estate_id, metaverse_id, land_units, in_auction)
            is Ok,
    ensures
        s.remove_land_unit_from_estate(
            origin,
            estate_id,
            metaverse_id,
            land_units,
            in_auction,
        ).unwrap().inv(),
{
    let next = s.remove_land_unit_from_estate(
        origin,
        estate_id,
        metaverse_id,
        land_units,
        in_auction,
    ).unwrap();
    let (who, estate) = s.estate_of_caller(origin, estate_id, metaverse_id, in_auction).unwrap();
    let at = assoc::index_of(s.estates, estate_id);
    assert(s.estates[at].1 == estate);
    let members = remove_each(estate.coordinates, land_units).unwrap();
    let info = EstateInfoView { coordinates: members, ..estate };
    lemma_remove_each(estate.coordinates, land_units);
    crate::laws::law_assign_units(s.land_units, metaverse_id, Owner::Account(who), land_units);
    assoc::lemma_insert(s.estates, estate_id, info);
    assert(next.estates == s.estates.update(at, (estate_id, info)));
    assert forall|key: LandUnitKey|
        (#[trigger] assoc::get(s.land_units, key)) matches Some(Owner::Estate(x)) && x
            != estate_id implies assoc::get(next.land_units, key) == assoc::get(
        s.land_units,
        key,
    ) by {
        if key.metaverse_id == metaverse_id && land_units.contains(key.coordinate) {
            let k = choose|k: int| 0 <= k < land_units.len() && land_units[k] == key.coordinate;
            assert(estate.coordinates.contains(land_units[k]));
            lemma_listed_is_held(s, estate_id, key.coordinate);
        }
    }
    assert forall|i: int| 0 <= i < next.estates.len() implies {
        ||| (#[trigger] next.estates[i]).0 == estate_id && next.estates[i].1.metaverse_id
            == metaverse_id && next.estates[i].1.coordinates == members
        ||| next.estates[i].0 != estate_id && s.estates.contains(next.estates[i])
    } by {
        if i != at {
            assert(next.estates[i] == s.estates[i]);
            assert(s.estates[i].0 != s.estates[at].0);
        }
    }
    assert forall|j: int| 0 <= j < members.len() implies assoc::get(
        next.land_units,
        LandUnitKey { metaverse_id, coordinate: #[trigger] members[j] },
    ) == Some(Owner::Estate(estate_id)) by {
        assert(members.contains(members[j]));
        lemma_listed_is_held(s, estate_id, members[j]);
    }
    assert forall|key: LandUnitKey| #[trigger]
        listed_if_held(next.land_units, next.estates, key) by {
        assert(listed_if_held(s.land_units, s.estates, key));
        if estate.coordinates.contains(key.coordinate) && !land_units.contains(key.coordinate) {
            assert(members.contains(key.coordinate));
        }
    }
    lemma_custody_after(
        s.land_units,
        next.land_units,
        s.estates,
        next.estates,
        estate_id,
        metaverse_id,
        members,
    );
    assert forall|i: int| 0 <= i < next.estates.len() implies {
        &&& (#[trigger] next.estates[i]).0 < next.next_estate_id
        &&& next.estates[i].1.coordinates.len() > 0
        &&& next.estates[i].1.coordinates.no_duplicates()
    } by {
        if i != at {
            assert(next.estates[i] == s.estates[i]);
        }
    }
}

/// Where `coordinate` first occurs in `list`.
pub(crate) fn find_coordinate(list: &Vec<Coordinate>, coordinate: Coordinate) -> (r: Option<usize>)
    ensures
        match r {
            Some(i) => list@.index_of_first(coordinate) == Some(i as int),
            None => list@.index_of_first(coordinate) is None,
        },
{
    let mut i: usize = 0;
    while i < list.len()
        invariant
            i <= list.len(),
            forall|j: int| 0 <= j < i ==> list@[j] != coordinate,
        decreases list.len() - i,
    {
        if list[i].0 == coordinate.0 && list[i].1 == coordinate.1 {
            proof {
                list@.index_of_first_ensures(coordinate);
                assert(list@[i as int] == coordinate);
                let first = list@.index_of_first(coordinate).unwrap();
                assert(list@[first] == coordinate);
            }
            return Some(i);
        }
        i += 1;
    }
    proof {
        list@.index_of_first_ensures(coordinate);
    }
    None
}

/// Whether no coordinate occurs twice in `list`.
pub(crate) fn all_different(list: &Vec<Coordinate>) -> (b: bool)
    ensures
        b == list@.no_duplicates(),
{
    let mut j: usize = 0;
    while j < list.len()
        invariant
            j <= list.len(),
            forall|a: int, b: int| 0 <= a < b < j ==> list@[a] != list@[b],
        decreases list.len() - j,
    {
        let mut i: usize = 0;
        while i < j
            invariant
                i <= j < list.len(),
                forall|a: int| 0 <= a < i ==> list@[a] != list@[j as int],
            decreases j - i,
        {
            if list[i].0 == list[j].0 && list[i].1 == list[j].1 {
                assert(list@[i as int] == list@[j as int]);
                return false;
            }
            i += 1;
        }
        j += 1;
    }
    assert forall|a: int, b: int| 0 <= a < list@.len() && 0 <= b < list@.len() && a != b implies list@[a]
        != list@[b] by {
        if a < b {
            assert(list@[a] != list@[b]);
        } else {
            assert(list@[b] != list@[a]);
        }
    }
    true
}

/// Takes the units of `leaving` out of `members`, one after the other.
pub(crate) fn take_coordinates(members: Vec<Coordinate>, leaving: &Vec<Coordinate>) -> (r: Option<
    Vec<Coordinate>,
>)
    ensures
        match remove_each(members@, leaving@) {
            Some(rest) => r matches Some(left) && left@ == rest,
            None => r is None,
        },
{
    let mut left = members;
    let mut i: usize = 0;
    assert(leaving@.skip(0) =~= leaving@);
    while i < leaving.len()
        invariant
            i <= leaving.len(),
            remove_each(members@, leaving@) == remove_each(left@, leaving@.skip(i as int)),
        decreases leaving.len() - i,
    {
        let ghost rest = leaving@.skip(i as int);
        assert(rest.len() > 0 && rest[0] == leaving@[i as int]);
        assert(rest.drop_first() =~= leaving@.skip(i + 1));
        match find_coordinate(&left, leaving[i]) {
            None => {
                return None;
            },
            Some(at) => {
                proof {
                    left@.index_of_first_ensures(leaving@[i as int]);
                }
                let _ = left.remove(at);
            },
        }
        i += 1;
    }
    Some(left)
}

impl Pallet {
    /// Gives each unit at `coordinates` to `owner`.
    pub(crate) fn assign_land_units(
        land: &mut Table<LandUnitKey, Owner>,
        metaverse_id: MetaverseId,
        owner: Owner,
        coordinates: &Vec<Coordinate>,
    )
        requires
            assoc::distinct(old(land)@),
        ensures
            assoc::distinct(final(land)@),
            final(land)@ == assign_units(old(land)@, metaverse_id, owner, coordinates@),
    {
        let mut i: usize = 0;
        assert(coordinates@.skip(0) =~= coordinates@);
        while i < coordinates.len()
            invariant
                i <= coordinates.len(),
                assoc::distinct(land@),
                assign_units(old(land)@, metaverse_id, owner, coordinates@) == assign_units(
                    land@,
                    metaverse_id,
                    owner,
                    coordinates@.skip(i as int),
                ),
            decreases coordinates.len() - i,
        {
            let key = LandUnitKey { metaverse_id, coordinate: coordinates[i] };
            let ghost rest = coordinates@.skip(i as int);
            assert(rest.len() > 0 && rest[0] == coordinates@[i as int]);
            assert(rest.drop_first() =~= coordinates@.skip(i + 1));
            land.insert(key, owner);
            i += 1;
        }
    }

    /// Whether the account `who` itself holds every unit at `coordinates`.
    pub(crate) fn owns_all_units(
        &self,
        metaverse_id: MetaverseId,
        who: AccountId,
        coordinates: &Vec<Coordinate>,
    ) -> (b: bool)
        requires
            self.wf(),
        ensures
            b == owns_all(self@.land_units, metaverse_id, who, coordinates@),
    {
        let mut i: usize = 0;
        while i < coordinates.len()
            invariant
                i <= coordinates.len(),
                self.wf(),
                owns_all(self@.land_units, metaverse_id, who, coordinates@.take(i as int)),
            decreases coordinates.len() - i,
        {
            let key = LandUnitKey { metaverse_id, coordinate: coordinates[i] };
            let owned = match self.land_units.get(&key) {
                Some(Owner::Account(owner)) => *owner == who,
                _ => false,
            };
            if !owned {
                return false;
            }
            assert forall|j: int| 0 <= j < i + 1 implies assoc::get(
                self@.land_units,
                LandUnitKey {
                    metaverse_id,
                    coordinate: #[trigger] coordinates@.take(i + 1)[j],
                },
            ) == Some(Owner::Account(who)) by {
                if j < i {
                    assert(coordinates@.take(i as int)[j] == coordinates@[j]);
                }
            }
            i += 1;
        }
        assert(coordinates@.take(i as int) =~= coordinates@);
        true
    }

    /// The identifier that the next estate gets, if one is left.
    pub(crate) fn get_new_estate_id(&self) -> (r: Result<EstateId, Error>)
        ensures
            match r {
                Ok(id) => id == self@.next_estate_id && id < u64::MAX,
                Err(e) => e == Error::NoAvailableEstateId && self@.next_estate_id == u64::MAX,
            },
    {
        if self.next_estate_id == u64::MAX {
            Err(Error::NoAvailableEstateId)
        } else {
            Ok(self.next_estate_id)
        }
    }

    /// Forms an estate out of new land units, or out of units that are
    /// registered already where `existing` is set.
    fn form_estate(
        &mut self,
        origin: Origin,
        beneficiary: AccountId,
        metaverse_id: MetaverseId,
        coordinates: Vec<Coordinate>,
        existing: bool,
    ) -> (r: Result<EstateId, Error>)
        requires
            old(self).wf(),
        ensures
            final(self).wf(),
            follows(
                old(self)@.form_estate(origin, beneficiary, metaverse_id, coordinates@, existing),
                old(self)@,
                final(self)@,
                r,
            ),
    {
        match origin {
            Origin::Root => {},
            _ => {
                return Err(Error::BadOrigin);
            },
        }
        if coordinates.len() == 0 {
            return Err(Error::EstateWithoutLandUnit);
        }
        let id = match self.get_new_estate_id() {
            Ok(id) => id,
            Err(e) => {
                return Err(e);
            },
        };
        let land = match self.mint_land_units(
            metaverse_id,
            Owner::Estate(id),
            &coordinates,
            existing,
        ) {
            Ok(land) => land,
            Err(e) => {
                return Err(e);
            },
        };
        let minted: usize = if existing {
            0
        } else {
            coordinates.len()
        };
        proof {
            if self@.form_estate(origin, beneficiary, metaverse_id, coordinates@, existing) is Ok {
                lemma_form_keeps_listing(
                    self@,
                    origin,
                    beneficiary,
                    metaverse_id,
                    coordinates@,
                    existing,
                );
            }
        }
        let estate_count = match self.all_estates_count.checked_add(1) {
            Some(c) => c,
            None => {
                return Err(Error::Overflow);
            },
        };
        match self.set_total_land_unit(minted as u64, false) {
            Err(e) => {
                return Err(e);
            },
            Ok(_) => {},
        }
        self.next_estate_id = id + 1;
        self.land_units = land;
        self.update_estate_information(id, metaverse_id, beneficiary, coordinates, estate_count);
        Ok(id)
    }

    /// Records a new estate with its owner and tells of it.
    fn update_estate_information(
        &mut self,
        new_estate_id: EstateId,
        metaverse_id: MetaverseId,
        beneficiary: AccountId,
        coordinates: Vec<Coordinate>,
        estate_count: u64,
    )
        requires
            assoc::distinct(old(self)@.estates),
        ensures
            final(self)@ == (State {
                all_estates_count: estate_count,
                estates: assoc::insert(
                    old(self)@.estates,
                    new_estate_id,
                    EstateInfoView { owner: beneficiary, metaverse_id, coordinates: coordinates@ },
                ),
                ..old(self)@
            }).emit(
                EventView::NewEstateMinted(new_estate_id, beneficiary, metaverse_id, coordinates@),
            ),
    {
        self.all_estates_count = estate_count;
        let members = copy_coordinates(&coordinates);
        self.estates.insert(
            new_estate_id,
            EstateInfo { owner: beneficiary, metaverse_id, coordinates: members },
        );
        self.push_effect(
            Effect::Emit(
                Event::NewEstateMinted(new_estate_id, beneficiary, metaverse_id, coordinates),
            ),
        );
    }

    /// The administrator forms an estate for `beneficiary` out of new land
    /// units, and gets the estate's identifier. The units are minted into
    /// the custody of the estate and counted.
    ///
    /// Refused with `BadOrigin` unless the origin is the administrator; else
    /// with `EstateWithoutLandUnit` if the list is empty; else with
    /// `NoAvailableEstateId` if no identifier is left; else as `mint_lands`
    /// refuses the units; else with `Overflow` if a count cannot grow. A
    /// refusal uses no identifier up.
    pub fn mint_estate(
        &mut self,
        origin: Origin,
        beneficiary: AccountId,
        metaverse_id: MetaverseId,
        coordinates: Vec<Coordinate>,
    ) -> (r: Result<EstateId, Error>)
        requires
            old(self).wf(),
        ensures
            final(self).wf(),
            follows(
                old(self)@.form_estate(origin, beneficiary, metaverse_id, coordinates@, false),
                old(self)@,
                final(self)@,
                r,
            ),
    {
        self.form_estate(origin, beneficiary, metaverse_id, coordinates, false)
    }

    /// The administrator forms an estate for `beneficiary` out of land units
    /// that are registered already, and gets the estate's identifier. The
    /// units pass from the accounts that hold them into the custody of the
    /// estate; no land is made.
    ///
    /// Refused as `mint_estate` is, but that a unit is not available here
    /// unless it is registered and an account holds it itself: a unit of
    /// another estate stays with that estate, and no unit is taken twice.
    pub fn create_estate(
        &mut self,
        origin: Origin,
        beneficiary: AccountId,
        metaverse_id: MetaverseId,
        coordinates: Vec<Coordinate>,
    ) -> (r: Result<EstateId, Error>)
        requires
            old(self).wf(),
        ensures
            final(self).wf(),
            follows(
                old(self)@.form_estate(origin, beneficiary, metaverse_id, coordinates@, true),
                old(self)@,
                final(self)@,
                r,
            ),
    {
        self.form_estate(origin, beneficiary, metaverse_id, coordinates, true)
    }

    /// An estate passes from the account `from` to the account `to`.
    pub(crate) fn do_transfer_estate(
        &mut self,
        estate_id: EstateId,
        from: AccountId,
        to: AccountId,
    ) -> (r: Result<EstateId, Error>)
        requires
            old(self).wf(),
        ensures
            final(self).wf(),
            obeys_with(
                old(self)@.do_transfer_estate(estate_id, from, to),
                estate_id,
                old(self)@,
                final(self)@,
                r,
            ),
    {
        let (metaverse_id, members) = match self.estates.get(&estate_id) {
            None => {
                return Err(Error::NoPermission);
            },
            Some(estate) => {
                if estate.owner != from {
                    return Err(Error::NoPermission);
                }
                (estate.metaverse_id, copy_coordinates(&estate.coordinates))
            },
        };
        if from == to {
            return Err(Error::AlreadyOwnTheEstate);
        }
        proof {
            lemma_transfer_keeps_listing(self@, estate_id, from, to);
        }
        self.estates.insert(estate_id, EstateInfo { owner: to, metaverse_id, coordinates: members });
        self.push_effect(Effect::Emit(Event::TransferredEstate(estate_id, from, to)));
        Ok(estate_id)
    }

    /// An account hands its estate to another account. The land units stay
    /// in the custody of the estate.
    ///
    /// `in_auction` says whether the auction service reports the estate as
    /// up for auction; such an estate stays where it is.
    ///
    /// Refused with `BadOrigin` unless the origin is an account; else with
    /// `EstateAlreadyInAuction`; else with `NoPermission` unless the estate
    /// exists and the caller owns it; else with `AlreadyOwnTheEstate` if the
    /// caller is the receiver.
    pub fn transfer_estate(
        &mut self,
        origin: Origin,
        to: AccountId,
        estate_id: EstateId,
        in_auction: bool,
    ) -> (r: Result<(), Error>)
        requires
            old(self).wf(),
        ensures
            final(self).wf(),
            obeys(
                old(self)@.transfer_estate(origin, to, estate_id, in_auction),
                old(self)@,
                final(self)@,
                r,
            ),
    {
        let who = match origin {
            Origin::Signed(who) => who,
            _ => {
                return Err(Error::BadOrigin);
            },
        };
        if in_auction {
            return Err(Error::EstateAlreadyInAuction);
        }
        match self.do_transfer_estate(estate_id, who, to) {
            Ok(_) => Ok(()),
            Err(e) => Err(e),
        }
    }

    /// The caller of an operation on an estate, and the estate's land units.
    pub(crate) fn estate_of_caller(
        &self,
        origin: Origin,
        estate_id: EstateId,
        metaverse_id: MetaverseId,
        in_auction: bool,
    ) -> (r: Result<(AccountId, Vec<Coordinate>), Error>)
        requires
            self.wf(),
        ensures
            match self@.estate_of_caller(origin, estate_id, metaverse_id, in_auction) {
                Ok((who, estate)) => r matches Ok((caller, members)) && caller == who
                    && estate.owner == who && members@ == estate.coordinates,
                Err(e) => r matches Err(x) && x == e,
            },
    {
        let who = match origin {
            Origin::Signed(who) => who,
            _ => {
                return Err(Error::BadOrigin);
            },
        };
        if in_auction {
            return Err(Error::EstateAlreadyInAuction);
        }
        match self.estates.get(&estate_id) {
            None => Err(Error::EstateDoesNotExist),
            Some(estate) => {
                if estate.metaverse_id != metaverse_id {
                    return Err(Error::EstateDoesNotExist);
                }
                if estate.owner != who {
                    return Err(Error::NoPermission);
                }
                Ok((who, copy_coordinates(&estate.coordinates)))
            },
        }
    }

    /// The owner of an estate dissolves it: the estate is gone, and each of
    /// its land units, all of which were in its custody, is held by the
    /// owner directly. No land is made and none is lost: the register holds
    /// the same units as before.
    ///
    /// Refused with `BadOrigin` unless the origin is an account; else with
    /// `EstateAlreadyInAuction`; else with `EstateDoesNotExist` unless the
    /// estate exists and lies in the region `metaverse_id`; else with
    /// `NoPermission` unless the caller owns the estate.
    pub fn dissolve_estate(
        &mut self,
        origin: Origin,
        estate_id: EstateId,
        metaverse_id: MetaverseId,
        in_auction: bool,
    ) -> (r: Result<(), Error>)
        requires
            old(self).wf(),
        ensures
            final(self).wf(),
            obeys(
                old(self)@.dissolve_estate(origin, estate_id, metaverse_id, in_auction),
                old(self)@,
                final(self)@,
                r,
            ),
    {
        let (who, members) = match self.estate_of_caller(
            origin,
            estate_id,
            metaverse_id,
            in_auction,
        ) {
            Ok(found) => found,
            Err(e) => {
                return Err(e);
            },
        };
        let count = match self.all_estates_count.checked_sub(1) {
            Some(c) => c,
            None => {
                return Err(Error::Overflow);
            },
        };
        proof {
            lemma_dissolve_keeps_inv(self@, origin, estate_id, metaverse_id, in_auction);
        }
        let _ = self.estates.remove(&estate_id);
        self.all_estates_count = count;
        Self::assign_land_units(&mut self.land_units, metaverse_id, Owner::Account(who), &members);
        self.push_effect(Effect::Emit(Event::EstateDestroyed(estate_id, who)));
        Ok(())
    }

    /// The owner of an estate adds land units of the estate's region to it;
    /// the caller must hold each of them directly. The units go to the end
    /// of the estate's list, in the order given, and into the custody of
    /// the estate.
    ///
    /// Refused with `BadOrigin` unless the origin is an account; else with
    /// `EstateAlreadyInAuction`; else with `EstateDoesNotExist` unless the
    /// estate exists and lies in the region `metaverse_id`; else with
    /// `NoPermission` unless the caller owns the estate; else with
    /// `LandUnitDoesNotExist` if the caller does not hold one of the units,
    /// or if a unit is named twice.
    pub fn add_land_unit_to_estate(
        &mut self,
        origin: Origin,
        estate_id: EstateId,
        metaverse_id: MetaverseId,
        land_units: Vec<Coordinate>,
        in_auction: bool,
    ) -> (r: Result<(), Error>)
        requires
            old(self).wf(),
        ensures
            final(self).wf(),
            obeys(
                old(self)@.add_land_unit_to_estate(
                    origin,
                    estate_id,
                    metaverse_id,
                    land_units@,
                    in_auction,
                ),
                old(self)@,
                final(self)@,
                r,
            ),
    {
        let (who, members) = match self.estate_of_caller(
            origin,
            estate_id,
            metaverse_id,
            in_auction,
        ) {
            Ok(found) => found,
            Err(e) => {
                return Err(e);
            },
        };
        if !self.owns_all_units(metaverse_id, who, &land_units) || !all_different(&land_units) {
            return Err(Error::LandUnitDoesNotExist);
        }
        proof {
            lemma_add_keeps_inv(self@, origin, estate_id, metaverse_id, land_units@, in_auction);
        }
        let mut members = members;
        let mut added = copy_coordinates(&land_units);
        members.append(&mut added);
        self.estates.insert(
            estate_id,
            EstateInfo { owner: who, metaverse_id, coordinates: members },
        );
        Self::assign_land_units(
            &mut self.land_units,
            metaverse_id,
            Owner::Estate(estate_id),
            &land_units,
        );
        self.push_effect(Effect::Emit(Event::LandUnitAdded(estate_id, who, land_units)));
        Ok(())
    }

    /// The owner of an estate takes land units out of it and holds them
    /// directly from then on. The units were in the custody of the estate;
    /// no land is made.
    ///
    /// The units leave one after the other, each at its first occurrence in
    /// the estate's list. If one of them is not in the list when its turn
    /// comes, or if the estate would be left without a unit, nothing changes.
    ///
    /// Refused with `BadOrigin` unless the origin is an account; else with
    /// `EstateAlreadyInAuction`; else with `EstateDoesNotExist` unless the
    /// estate exists and lies in the region `metaverse_id`; else with
    /// `NoPermission` unless the caller owns the estate; else with
    /// `LandUnitDoesNotExist` if a unit is not in the list; else with
    /// `EstateWithoutLandUnit` if no unit would be left.
    pub fn remove_land_unit_from_estate(
        &mut self,
        origin: Origin,
        estate_id: EstateId,
        metaverse_id: MetaverseId,
        land_units: Vec<Coordinate>,
        in_auction: bool,
    ) -> (r: Result<(), Error>)
        requires
            old(self).wf(),
        ensures
            final(self).wf(),
            obeys(
                old(self)@.remove_land_unit_from_estate(
                    origin,
                    estate_id,
                    metaverse_id,
                    land_units@,
                    in_auction,
                ),
                old(self)@,
                final(self)@,
                r,
            ),
    {
        let (who, members) = match self.estate_of_caller(
            origin,
            estate_id,
            metaverse_id,
            in_auction,
        ) {
            Ok(found) => found,
            Err(e) => {
                return Err(e);
            },
        };
        let members = match take_coordinates(members, &land_units) {
            Some(rest) => rest,
            None => {
                return Err(Error::LandUnitDoesNotExist);
            },
        };
        if members.len() == 0 {
            return Err(Error::EstateWithoutLandUnit);
        }
        proof {
            lemma_remove_keeps_inv(
                self@,
                origin,
                estate_id,
                metaverse_id,
                land_units@,
                in_auction,
            );
        }
        self.estates.insert(
            estate_id,
            EstateInfo { owner: who, metaverse_id, coordinates: members },
        );
        Self::assign_land_units(
            &mut self.land_units,
            metaverse_id,
            Owner::Account(who),
            &land_units,
        );
        self.push_effect(Effect::Emit(Event::LandUnitsRemoved(estate_id, who, land_units)));
        Ok(())
    }
}

} // verus!
