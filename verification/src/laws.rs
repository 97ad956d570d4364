//! What holds of land, estates and undeployed land blocks whatever the
//! state of the registry.

use crate::assoc;
use crate::error::Error;
use crate::land::{
    available, lemma_minted_units, mint_check, mint_unit, mint_units, within,
};
use crate::state::{lemma_units_remove, listed_if_held, lists, State};
use crate::blocks::fresh_block;
use crate::estate::{
    assign_units, lemma_add_keeps_inv, lemma_dissolve_keeps_inv, lemma_listed_is_held,
    lemma_remove_each, lemma_remove_keeps_inv, remove_each,
};
use crate::query::{direct_units, estate_units};
use crate::types::{
    AccountId, Coordinate, EstateId, EstateInfoView, LandUnitKey, MetaverseId, Origin, Owner,
    UndeployedLandBlock, UndeployedLandBlockId, UndeployedLandBlockType,
};
use vstd::prelude::*;

verus! {

/// A land unit outside the bound of its region is never minted: whatever
/// the register holds, whoever is to own the unit and whether a new or an
/// existing unit is asked for, the answer is `LandUnitIsOutOfBound`.
pub proof fn law_out_of_bound_is_refused(
    land: Seq<(LandUnitKey, Owner)>,
    bound: (i32, i32),
    key: LandUnitKey,
    owner: Owner,
    existing: bool,
)
    requires
        !within(bound, key.coordinate),
    ensures
        mint_check(land, Some(bound), key, existing) == Err::<(), Error>(
            Error::LandUnitIsOutOfBound,
        ),
        mint_unit(land, Some(bound), key, owner, existing) is Err,
{
}

/// The administrator cannot mint a land unit outside the bound of its
/// region: `mint_land` answers `LandUnitIsOutOfBound`.
pub proof fn law_mint_land_out_of_bound(
    s: State,
    origin: Origin,
    beneficiary: AccountId,
    metaverse_id: MetaverseId,
    coordinate: Coordinate,
)
    requires
        origin.is_root(),
        assoc::get(s.max_bounds, metaverse_id) matches Some(bound) && !within(bound, coordinate),
    ensures
        s.mint_land(origin, beneficiary, metaverse_id, coordinate) == Err::<State, Error>(
            Error::LandUnitIsOutOfBound,
        ),
{
}

/// A batch of land units with one unit outside the bound of the region is
/// refused as a whole.
pub proof fn law_batch_out_of_bound(
    land: Seq<(LandUnitKey, Owner)>,
    bound: (i32, i32),
    metaverse_id: MetaverseId,
    owner: Owner,
    coordinates: Seq<Coordinate>,
    existing: bool,
    i: int,
)
    requires
        0 <= i < coordinates.len(),
        !within(bound, coordinates[i]),
    ensures
        mint_units(land, Some(bound), metaverse_id, owner, coordinates, existing) is Err,
    decreases coordinates.len(),
{
    let key = LandUnitKey { metaverse_id, coordinate: coordinates[0] };
    if i > 0 {
        match mint_unit(land, Some(bound), key, owner, existing) {
            Err(_) => {},
            Ok(next) => {
                assert(coordinates.drop_first()[i - 1] == coordinates[i]);
                law_batch_out_of_bound(
                    next,
                    bound,
                    metaverse_id,
                    owner,
                    coordinates.drop_first(),
                    existing,
                    i - 1,
                );
            },
        }
    }
}

/// What a batch of land units needs to be minted: nothing if it is empty;
/// else a bound on the region, every unit inside it, every unit available,
/// and no unit named twice. Only where existing units go to an account may
/// a unit be named twice.
pub open spec fn mintable(
    land: Seq<(LandUnitKey, Owner)>,
    bound: Option<(i32, i32)>,
    metaverse_id: MetaverseId,
    owner: Owner,
    coordinates: Seq<Coordinate>,
    existing: bool,
) -> bool {
    coordinates.len() == 0 || {
        &&& bound matches Some(b) && forall|i: int|
            0 <= i < coordinates.len() ==> within(b, #[trigger] coordinates[i])
        &&& forall|i: int|
            0 <= i < coordinates.len() ==> available(
                land,
                LandUnitKey { metaverse_id, coordinate: #[trigger] coordinates[i] },
                existing,
            )
        &&& (existing && owner is Account) || coordinates.no_duplicates()
    }
}

/// A batch of land units is minted exactly when it is mintable, and then
/// each of its units is held by the new owner while every other unit is
/// held as before.
pub proof fn law_batch_mint(
    land: Seq<(LandUnitKey, Owner)>,
    bound: Option<(i32, i32)>,
    metaverse_id: MetaverseId,
    owner: Owner,
    coordinates: Seq<Coordinate>,
    existing: bool,
)
    requires
        assoc::distinct(land),
    ensures
        mint_units(land, bound, metaverse_id, owner, coordinates, existing) is Ok <==> mintable(
            land,
            bound,
            metaverse_id,
            owner,
            coordinates,
            existing,
        ),
        mint_units(land, bound, metaverse_id, owner, coordinates, existing) matches Ok(minted)
            ==> minted == assign_units(land, metaverse_id, owner, coordinates),
    decreases coordinates.len(),
{
    if coordinates.len() > 0 {
        let first = LandUnitKey { metaverse_id, coordinate: coordinates[0] };
        let rest = coordinates.drop_first();
        let strict = !(existing && owner is Account);
        assert forall|i: int| 0 <= i < rest.len() implies #[trigger] rest[i] == coordinates[i
            + 1] by {}
        match mint_unit(land, bound, first, owner, existing) {
            Err(_) => {
                if bound is Some {
                    assert(!within(bound.unwrap(), coordinates[0]) || !available(
                        land,
                        LandUnitKey { metaverse_id, coordinate: coordinates[0] },
                        existing,
                    ));
                }
                assert(!mintable(land, bound, metaverse_id, owner, coordinates, existing));
            },
            Ok(next) => {
                assoc::lemma_insert(land, first, owner);
                law_batch_mint(next, bound, metaverse_id, owner, rest, existing);
                let b = bound.unwrap();
                assert(available(land, first, existing));
                assert(assoc::get(next, first) == Some(owner));
                if mintable(next, bound, metaverse_id, owner, rest, existing) {
                    assert forall|i: int| 0 <= i < coordinates.len() implies within(
                        b,
                        #[trigger] coordinates[i],
                    ) by {
                        if i > 0 {
                            assert(rest[i - 1] == coordinates[i]);
                        }
                    }
                    assert forall|i: int| 0 <= i < coordinates.len() implies available(
                        land,
                        LandUnitKey { metaverse_id, coordinate: #[trigger] coordinates[i] },
                        existing,
                    ) by {
                        if i > 0 {
                            assert(rest[i - 1] == coordinates[i]);
                            let key = LandUnitKey { metaverse_id, coordinate: rest[i - 1] };
                            assert(available(next, key, existing));
                            if key != first {
                                assert(assoc::get(next, key) == assoc::get(land, key));
                            }
                        }
                    }
                    if strict {
                        assert forall|i: int, j: int|
                            0 <= i < coordinates.len() && 0 <= j < coordinates.len()
                                && i != j implies coordinates[i] != coordinates[j] by {
                            if i > 0 && j > 0 {
                                assert(rest[i - 1] != rest[j - 1]);
                            } else {
                                let t = if i > 0 {
                                    i
                                } else {
                                    j
                                };
                                let key = LandUnitKey { metaverse_id, coordinate: rest[t - 1] };
                                assert(available(next, key, existing));
                            }
                        }
                    }
                    assert(mintable(land, bound, metaverse_id, owner, coordinates, existing));
                }
                if mintable(land, bound, metaverse_id, owner, coordinates, existing) {
                    assert forall|i: int| 0 <= i < rest.len() implies within(
                        b,
                        #[trigger] rest[i],
                    ) by {
                        assert(rest[i] == coordinates[i + 1]);
                    }
                    assert forall|i: int| 0 <= i < rest.len() implies available(
                        next,
                        LandUnitKey { metaverse_id, coordinate: #[trigger] rest[i] },
                        existing,
                    ) by {
                        assert(rest[i] == coordinates[i + 1]);
                        let key = LandUnitKey { metaverse_id, coordinate: coordinates[i + 1] };
                        assert(available(land, key, existing));
                        if strict {
                            assert(coordinates[i + 1] != coordinates[0]);
                        }
                        if key != first {
                            assert(assoc::get(next, key) == assoc::get(land, key));
                        }
                    }
                    if strict {
                        assert forall|i: int, j: int|
                            0 <= i < rest.len() && 0 <= j < rest.len() && i != j implies rest[i]
                            != rest[j] by {
                            assert(coordinates[i + 1] != coordinates[j + 1]);
                        }
                    }
                    assert(mintable(next, bound, metaverse_id, owner, rest, existing));
                }
            },
        }
    }
}

/// A transfer of a land unit that goes through makes the receiver the
/// holder of the unit and changes the holder of no other unit.
pub proof fn law_transfer_changes_one_holder(
    s: State,
    coordinate: Coordinate,
    from: AccountId,
    to: AccountId,
    metaverse_id: MetaverseId,
    other: LandUnitKey,
)
    requires
        s.inv(),
        s.do_transfer_landunit(coordinate, from, to, metaverse_id) is Ok,
        other != (LandUnitKey { metaverse_id, coordinate }),
    ensures
        ({
            let next = s.do_transfer_landunit(coordinate, from, to, metaverse_id).unwrap();
            &&& assoc::get(next.land_units, LandUnitKey { metaverse_id, coordinate }) == Some(
                Owner::Account(to),
            )
            &&& assoc::get(next.land_units, other) == assoc::get(s.land_units, other)
            &&& next.all_land_units_count == s.all_land_units_count
        }),
{
    assoc::lemma_insert(
        s.land_units,
        LandUnitKey { metaverse_id, coordinate },
        Owner::Account(to),
    );
}

/// A land unit cannot be minted twice: once `mint_land` has gone through,
/// the unit is registered, and `mint_land` for the same unit is refused,
/// whoever asks and for whomever. The administrator is told that the unit is
/// not available.
pub proof fn law_no_second_mint(
    s: State,
    origin: Origin,
    beneficiary: AccountId,
    metaverse_id: MetaverseId,
    coordinate: Coordinate,
    again: Origin,
    other: AccountId,
)
    requires
        s.inv(),
        s.mint_land(origin, beneficiary, metaverse_id, coordinate) is Ok,
    ensures
        ({
            let minted = s.mint_land(origin, beneficiary, metaverse_id, coordinate).unwrap();
            &&& assoc::get(minted.land_units, LandUnitKey { metaverse_id, coordinate }) == Some(
                Owner::Account(beneficiary),
            )
            &&& minted.mint_land(again, other, metaverse_id, coordinate) is Err
            &&& again.is_root() ==> minted.mint_land(again, other, metaverse_id, coordinate)
                == Err::<State, Error>(Error::LandUnitIsNotAvailable)
        }),
{
    let key = LandUnitKey { metaverse_id, coordinate };
    assoc::lemma_insert(s.land_units, key, Owner::Account(beneficiary));
}

/// The counts of estates and of undeployed land units never fall below
/// nothing: dissolving an estate and destroying a block are never refused
/// for the sake of a count, and deploying a block only where the count of
/// land units cannot take the new units.
pub proof fn law_counts_never_underflow(
    s: State,
    origin: Origin,
    estate_id: EstateId,
    metaverse_id: MetaverseId,
    in_auction: bool,
    undeployed_land_block_id: UndeployedLandBlockId,
    coordinates: Seq<Coordinate>,
)
    requires
        s.inv(),
    ensures
        s.dissolve_estate(origin, estate_id, metaverse_id, in_auction) != Err::<State, Error>(
            Error::Overflow,
        ),
        s.do_burn_undeployed_land_block(undeployed_land_block_id) != Err::<State, Error>(
            Error::Overflow,
        ),
        s.deploy_land_block(origin, undeployed_land_block_id, metaverse_id, coordinates) == Err::<
            State,
            Error,
        >(Error::Overflow) ==> s.all_land_units_count + coordinates.len() > u64::MAX,
{
    if assoc::contains_key(s.estates, estate_id) {
        let i = assoc::index_of(s.estates, estate_id);
        assert(s.estates.len() > 0);
    }
    let blocks = s.undeployed_land_blocks;
    if assoc::contains_key(blocks, undeployed_land_block_id) {
        let i = assoc::index_of(blocks, undeployed_land_block_id);
        lemma_units_remove(blocks, i);
    }
    if s.deploy_land_block(origin, undeployed_land_block_id, metaverse_id, coordinates) == Err::<
        State,
        Error,
    >(Error::Overflow) {
        law_mint_never_overflows(
            s.land_units,
            assoc::get(s.max_bounds, metaverse_id),
            metaverse_id,
            Owner::Account(origin.signer().unwrap()),
            coordinates,
            false,
        );
    }
}

/// Minting land units is never refused for the sake of a count.
pub proof fn law_mint_never_overflows(
    land: Seq<(LandUnitKey, Owner)>,
    bound: Option<(i32, i32)>,
    metaverse_id: MetaverseId,
    owner: Owner,
    coordinates: Seq<Coordinate>,
    existing: bool,
)
    ensures
        mint_units(land, bound, metaverse_id, owner, coordinates, existing) != Err::<
            Seq<(LandUnitKey, Owner)>,
            Error,
        >(Error::Overflow),
    decreases coordinates.len(),
{
    if coordinates.len() > 0 {
        let key = LandUnitKey { metaverse_id, coordinate: coordinates[0] };
        match mint_unit(land, bound, key, owner, existing) {
            Err(_) => {},
            Ok(next) => {
                law_mint_never_overflows(
                    next,
                    bound,
                    metaverse_id,
                    owner,
                    coordinates.drop_first(),
                    existing,
                );
            },
        }
    }
}

/// A block is frozen and then destroyed.
pub open spec fn freeze_and_burn(s: State, id: UndeployedLandBlockId) -> Result<State, Error> {
    match s.do_freeze_undeployed_land_block(id) {
        Err(e) => Err(e),
        Ok(frozen) => frozen.do_burn_undeployed_land_block(id),
    }
}

/// Blocks are frozen and destroyed one after the other.
pub open spec fn freeze_and_burn_each(s: State, ids: Seq<UndeployedLandBlockId>) -> Result<
    State,
    Error,
>
    decreases ids.len(),
{
    if ids.len() == 0 {
        Ok(s)
    } else {
        match freeze_and_burn(s, ids[0]) {
            Err(e) => Err(e),
            Ok(next) => freeze_and_burn_each(next, ids.drop_first()),
        }
    }
}

/// The blocks that an issue adds to the table, in the order of issue.
spec fn issued_blocks(
    first: UndeployedLandBlockId,
    beneficiary: AccountId,
    count: nat,
    units: u32,
    kind: UndeployedLandBlockType,
) -> Seq<(UndeployedLandBlockId, UndeployedLandBlock)> {
    Seq::new(
        count,
        |i: int| ((first + i) as u128, fresh_block((first + i) as u128, beneficiary, units, kind)),
    )
}

proof fn lemma_burn_issued(
    s: State,
    t: State,
    beneficiary: AccountId,
    count: u32,
    units: u32,
    kind: UndeployedLandBlockType,
    k: int,
)
    requires
        s.inv(),
        0 <= k <= count,
        s.next_undeployed_land_block_id + count <= u128::MAX,
        s.total_undeployed_land_unit + count * units <= u64::MAX,
        t.undeployed_land_blocks == s.undeployed_land_blocks + issued_blocks(
            s.next_undeployed_land_block_id,
            beneficiary,
            count as nat,
            units,
            kind,
        ).skip(k),
        t.total_undeployed_land_unit == s.total_undeployed_land_unit + (count - k) * units,
    ensures
        freeze_and_burn_each(t, s.issued_ids(count as nat).skip(k)) matches Ok(burnt)
            && burnt.undeployed_land_blocks == s.undeployed_land_blocks
            && burnt.total_undeployed_land_unit == s.total_undeployed_land_unit,
    decreases count - k,
{
    let first = s.next_undeployed_land_block_id;
    let added = issued_blocks(first, beneficiary, count as nat, units, kind);
    let ids = s.issued_ids(count as nat).skip(k);
    if k == count {
        assert(added.skip(k) =~= Seq::empty());
        assert(t.undeployed_land_blocks =~= s.undeployed_land_blocks);
        assert((count - k) * units == 0) by (nonlinear_arith)
            requires
                count - k == 0,
        ;
    } else {
        let id = (first + k) as u128;
        let blocks = t.undeployed_land_blocks;
        let at = s.undeployed_land_blocks.len() as int;
        let block = fresh_block(id, beneficiary, units, kind);
        assert(ids[0] == id);
        assert(blocks[at] == added.skip(k)[0]);
        assert(blocks[at] == (id, block));
        assert(assoc::distinct(blocks)) by {
            assert forall|i: int, j: int| 0 <= i < j < blocks.len() implies (
            #[trigger] blocks[i]).0 != (#[trigger] blocks[j]).0 by {
                if j < at {
                    assert(blocks[i] == s.undeployed_land_blocks[i]);
                    assert(blocks[j] == s.undeployed_land_blocks[j]);
                } else if i < at {
                    assert(blocks[i] == s.undeployed_land_blocks[i]);
                    assert(blocks[j] == added[j - at + k]);
                } else {
                    assert(blocks[i] == added[i - at + k]);
                    assert(blocks[j] == added[j - at + k]);
                }
            }
        }
        assoc::lemma_found(blocks, id, at);
        let frozen_block = UndeployedLandBlock { id, is_frozen: true, ..block };
        let frozen = t.do_freeze_undeployed_land_block(id).unwrap();
        assert(frozen.undeployed_land_blocks == blocks.update(at, (id, frozen_block)));
        assoc::lemma_insert(blocks, id, frozen_block);
        assoc::lemma_found(frozen.undeployed_land_blocks, id, at);
        assert((count - k) * units == (count - k - 1) * units + units) by (nonlinear_arith);
        assert((count - k - 1) * units >= 0) by (nonlinear_arith)
            requires
                count - k - 1 >= 0,
                units >= 0,
        ;
        let burnt = frozen.do_burn_undeployed_land_block(id).unwrap();
        assert(burnt.undeployed_land_blocks =~= s.undeployed_land_blocks + added.skip(k + 1));
        assert(ids.drop_first() =~= s.issued_ids(count as nat).skip(k + 1));
        lemma_burn_issued(s, burnt, beneficiary, count, units, kind, k + 1);
    }
}

/// Issuing blocks and then freezing and destroying each of them brings the
/// count of undeployed land units back to what it was, and the table of
/// blocks too.
pub proof fn law_issue_then_burn_restores_count(
    s: State,
    beneficiary: AccountId,
    number_of_land_block: u32,
    number_land_units_per_land_block: u32,
    undeployed_land_block_type: UndeployedLandBlockType,
)
    requires
        s.inv(),
        s.do_issue_undeployed_land_blocks(
            beneficiary,
            number_of_land_block,
            number_land_units_per_land_block,
            undeployed_land_block_type,
        ) is Ok,
    ensures
        ({
            let (issued, ids) = s.do_issue_undeployed_land_blocks(
                beneficiary,
                number_of_land_block,
                number_land_units_per_land_block,
                undeployed_land_block_type,
            ).unwrap();
            &&& issued.total_undeployed_land_unit == s.total_undeployed_land_unit
                + number_of_land_block * number_land_units_per_land_block
            &&& freeze_and_burn_each(issued, ids) matches Ok(burnt)
                && burnt.total_undeployed_land_unit == s.total_undeployed_land_unit
                && burnt.undeployed_land_blocks == s.undeployed_land_blocks
        }),
{
    let (issued, ids) = s.do_issue_undeployed_land_blocks(
        beneficiary,
        number_of_land_block,
        number_land_units_per_land_block,
        undeployed_land_block_type,
    ).unwrap();
    let added = issued_blocks(
        s.next_undeployed_land_block_id,
        beneficiary,
        number_of_land_block as nat,
        number_land_units_per_land_block,
        undeployed_land_block_type,
    );
    assert(added.skip(0) =~= added);
    assert(ids.skip(0) =~= ids);
    assert(issued.undeployed_land_blocks =~= s.undeployed_land_blocks + added.skip(0));
    lemma_burn_issued(
        s,
        issued,
        beneficiary,
        number_of_land_block,
        number_land_units_per_land_block,
        undeployed_land_block_type,
        0,
    );
}

/// An account holds a unit of a region itself exactly when the land
/// register names the account as the unit's holder.
pub proof fn law_direct_units(
    land: Seq<(LandUnitKey, Owner)>,
    who: AccountId,
    metaverse_id: MetaverseId,
)
    requires
        assoc::distinct(land),
    ensures
        forall|c: Coordinate| #[trigger]
            direct_units(land, who, metaverse_id).contains(c) <==> assoc::get(
                land,
                LandUnitKey { metaverse_id, coordinate: c },
            ) == Some(Owner::Account(who)),
    decreases land.len(),
{
    if land.len() > 0 {
        let earlier = land.drop_last();
        let last = land.last();
        assoc::lemma_last_inserted(land);
        assoc::lemma_insert(earlier, last.0, last.1);
        law_direct_units(earlier, who, metaverse_id);
        let before = direct_units(earlier, who, metaverse_id);
        let all = direct_units(land, who, metaverse_id);
        assert forall|c: Coordinate| #[trigger] all.contains(c) <==> assoc::get(
            land,
            LandUnitKey { metaverse_id, coordinate: c },
        ) == Some(Owner::Account(who)) by {
            let key = LandUnitKey { metaverse_id, coordinate: c };
            if last.0.metaverse_id == metaverse_id && last.1 == Owner::Account(who) {
                assert(all == before.push(last.0.coordinate));
                if all.contains(c) {
                    let i = choose|i: int| 0 <= i < all.len() && all[i] == c;
                    if i < before.len() {
                        assert(before[i] == c);
                        assert(before.contains(c));
                    }
                }
                if before.contains(c) {
                    let i = choose|i: int| 0 <= i < before.len() && before[i] == c;
                    assert(all[i] == c);
                }
                if key == last.0 {
                    assert(all[before.len() as int] == c);
                }
            } else {
                assert(all == before);
            }
            if key != last.0 {
                assert(assoc::get(land, key) == assoc::get(earlier, key));
            }
        }
    }
}

/// A unit belongs to the estates of an account in a region exactly when
/// one of the estates that the account owns there lists it.
pub proof fn law_estate_units(
    estates: Seq<(EstateId, EstateInfoView)>,
    who: AccountId,
    metaverse_id: MetaverseId,
)
    ensures
        forall|c: Coordinate| #[trigger]
            estate_units(estates, who, metaverse_id).contains(c) <==> exists|i: int|
                0 <= i < estates.len() && (#[trigger] estates[i]).1.owner == who && estates[i].1.metaverse_id
                    == metaverse_id
                    && estates[i].1.coordinates.contains(c),
    decreases estates.len(),
{
    if estates.len() > 0 {
        let earlier = estates.drop_last();
        let last = estates.last();
        law_estate_units(earlier, who, metaverse_id);
        let before = estate_units(earlier, who, metaverse_id);
        let all = estate_units(estates, who, metaverse_id);
        assert forall|c: Coordinate| #[trigger] all.contains(c) <==> exists|i: int|
            0 <= i < estates.len() && (#[trigger] estates[i]).1.owner == who && estates[i].1.metaverse_id
                    == metaverse_id
                && estates[i].1.coordinates.contains(c) by {
            if all.contains(c) {
                let p = choose|p: int| 0 <= p < all.len() && all[p] == c;
                if last.1.owner == who && last.1.metaverse_id == metaverse_id && p >= before.len() {
                    assert(last.1.coordinates[p - before.len()] == c);
                    assert(estates[estates.len() - 1] == last);
                } else {
                    assert(before[p] == c);
                    assert(before.contains(c));
                    let i = choose|i: int|
                        0 <= i < earlier.len() && (#[trigger] earlier[i]).1.owner == who && earlier[i].1.metaverse_id
                            == metaverse_id
                            && earlier[i].1.coordinates.contains(c);
                    assert(estates[i] == earlier[i]);
                }
            }
            if exists|i: int|
                0 <= i < estates.len() && (#[trigger] estates[i]).1.owner == who && estates[i].1.metaverse_id
                    == metaverse_id
                    && estates[i].1.coordinates.contains(c) {
                let i = choose|i: int|
                    0 <= i < estates.len() && (#[trigger] estates[i]).1.owner == who && estates[i].1.metaverse_id
                    == metaverse_id
                        && estates[i].1.coordinates.contains(c);
                if i < earlier.len() {
                    assert(earlier[i] == estates[i]);
                    assert(before.contains(c));
                    let p = choose|p: int| 0 <= p < before.len() && before[p] == c;
                    assert(all[p] == c);
                } else {
                    let q = choose|q: int|
                        0 <= q < last.1.coordinates.len() && last.1.coordinates[q] == c;
                    assert(all[before.len() + q] == c);
                }
            }
        }
    }
}

/// Giving units to an owner changes the holder of exactly those units.
pub proof fn law_assign_units(
    land: Seq<(LandUnitKey, Owner)>,
    metaverse_id: MetaverseId,
    owner: Owner,
    coordinates: Seq<Coordinate>,
)
    requires
        assoc::distinct(land),
    ensures
        assoc::distinct(assign_units(land, metaverse_id, owner, coordinates)),
        forall|key: LandUnitKey| #[trigger]
            assoc::get(assign_units(land, metaverse_id, owner, coordinates), key) == if key.metaverse_id
                == metaverse_id && coordinates.contains(key.coordinate) {
                Some(owner)
            } else {
                assoc::get(land, key)
            },
        (forall|i: int|
            0 <= i < coordinates.len() ==> assoc::contains_key(
                land,
                LandUnitKey { metaverse_id, coordinate: #[trigger] coordinates[i] },
            )) ==> assign_units(land, metaverse_id, owner, coordinates).len() == land.len(),
    decreases coordinates.len(),
{
    if coordinates.len() > 0 {
        let first = LandUnitKey { metaverse_id, coordinate: coordinates[0] };
        let next = assoc::insert(land, first, owner);
        let rest = coordinates.drop_first();
        assoc::lemma_insert(land, first, owner);
        law_assign_units(next, metaverse_id, owner, rest);
        if forall|i: int|
            0 <= i < coordinates.len() ==> assoc::contains_key(
                land,
                LandUnitKey { metaverse_id, coordinate: #[trigger] coordinates[i] },
            ) {
            assert(assoc::contains_key(
                land,
                LandUnitKey { metaverse_id, coordinate: coordinates[0] },
            ));
            assert(next.len() == land.len());
            assert forall|i: int| 0 <= i < rest.len() implies assoc::contains_key(
                next,
                LandUnitKey { metaverse_id, coordinate: #[trigger] rest[i] },
            ) by {
                assert(rest[i] == coordinates[i + 1]);
                assert(assoc::contains_key(
                    land,
                    LandUnitKey { metaverse_id, coordinate: coordinates[i + 1] },
                ));
            }
        }
        assert forall|key: LandUnitKey| #[trigger]
            assoc::get(assign_units(land, metaverse_id, owner, coordinates), key) == if key.metaverse_id
                == metaverse_id && coordinates.contains(key.coordinate) {
                Some(owner)
            } else {
                assoc::get(land, key)
            } by {
            if rest.contains(key.coordinate) {
                let i = choose|i: int| 0 <= i < rest.len() && rest[i] == key.coordinate;
                assert(coordinates[i + 1] == key.coordinate);
            }
            if coordinates.contains(key.coordinate) {
                let i = choose|i: int|
                    0 <= i < coordinates.len() && coordinates[i] == key.coordinate;
                if i > 0 {
                    assert(rest[i - 1] == key.coordinate);
                }
            }
        }
    }
}

/// Every land unit that is registered is counted, and nothing else is.
pub proof fn law_land_is_counted(s: State)
    requires
        s.inv(),
    ensures
        s.all_land_units_count == s.land_units.len(),
        s.all_estates_count == s.estates.len(),
{
}

/// An estate holds a land unit exactly when it lists it: the estate
/// exists, lies in the unit's region and has the unit among its land.
pub proof fn law_custody_is_listing(s: State, estate_id: EstateId, key: LandUnitKey)
    requires
        s.inv(),
    ensures
        assoc::get(s.land_units, key) == Some(Owner::Estate(estate_id)) <==> lists(
            s.estates,
            estate_id,
            key,
        ),
{
    assert(listed_if_held(s.land_units, s.estates, key));
    if lists(s.estates, estate_id, key) {
        lemma_listed_is_held(s, estate_id, key.coordinate);
    }
}

/// An estate is dissolved only in the region in which it lies.
pub proof fn law_dissolve_elsewhere_is_refused(
    s: State,
    origin: Origin,
    estate_id: EstateId,
    metaverse_id: MetaverseId,
    in_auction: bool,
)
    requires
        assoc::get(s.estates, estate_id) matches Some(estate) && estate.metaverse_id
            != metaverse_id,
    ensures
        s.dissolve_estate(origin, estate_id, metaverse_id, in_auction) is Err,
        origin.signer() is Some && !in_auction ==> s.dissolve_estate(
            origin,
            estate_id,
            metaverse_id,
            in_auction,
        ) == Err::<State, Error>(Error::EstateDoesNotExist),
{
}

/// Dissolving an estate returns its land and makes none. The estate is
/// gone. Every land unit that it listed was in its custody and is then held
/// by the owner itself; every other unit is held as before. The register
/// has the same units as before, and their count is the same.
pub proof fn law_dissolve_returns_land(
    s: State,
    origin: Origin,
    estate_id: EstateId,
    metaverse_id: MetaverseId,
    in_auction: bool,
    key: LandUnitKey,
)
    requires
        s.inv(),
        s.dissolve_estate(origin, estate_id, metaverse_id, in_auction) is Ok,
    ensures
        ({
            let next = s.dissolve_estate(origin, estate_id, metaverse_id, in_auction).unwrap();
            let (who, estate) = s.estate_of_caller(
                origin,
                estate_id,
                metaverse_id,
                in_auction,
            ).unwrap();
            &&& next.inv()
            &&& estate.metaverse_id == metaverse_id
            &&& !assoc::contains_key(next.estates, estate_id)
            &&& assoc::get(next.land_units, key) != Some(Owner::Estate(estate_id))
            &&& next.all_land_units_count == s.all_land_units_count
            &&& next.land_units.len() == s.land_units.len()
            &&& assoc::contains_key(next.land_units, key) == assoc::contains_key(
                s.land_units,
                key,
            )
            &&& if key.metaverse_id == metaverse_id && estate.coordinates.contains(
                key.coordinate,
            ) {
                &&& assoc::get(s.land_units, key) == Some(Owner::Estate(estate_id))
                &&& assoc::get(next.land_units, key) == Some(Owner::Account(who))
            } else {
                assoc::get(next.land_units, key) == assoc::get(s.land_units, key)
            }
        }),
{
    let (who, estate) = s.estate_of_caller(origin, estate_id, metaverse_id, in_auction).unwrap();
    let next = s.dissolve_estate(origin, estate_id, metaverse_id, in_auction).unwrap();
    lemma_dissolve_keeps_inv(s, origin, estate_id, metaverse_id, in_auction);
    assoc::lemma_remove(s.estates, estate_id);
    assert(listed_if_held(next.land_units, next.estates, key));
    law_assign_units(s.land_units, metaverse_id, Owner::Account(who), estate.coordinates);
    if key.metaverse_id == metaverse_id && estate.coordinates.contains(key.coordinate) {
        let at = assoc::index_of(s.estates, estate_id);
        let j = choose|j: int|
            0 <= j < estate.coordinates.len() && estate.coordinates[j] == key.coordinate;
        assert(s.estates[at].1.coordinates[j] == key.coordinate);
    }
}

/// Dissolving an estate leaves its owner with the same land in the region
/// as before, as a set. An owner that had no other land in the region has
/// exactly the units of the estate.
pub proof fn law_dissolve_keeps_land(
    s: State,
    origin: Origin,
    estate_id: EstateId,
    metaverse_id: MetaverseId,
    in_auction: bool,
)
    requires
        s.inv(),
        s.dissolve_estate(origin, estate_id, metaverse_id, in_auction) is Ok,
    ensures
        ({
            let next = s.dissolve_estate(origin, estate_id, metaverse_id, in_auction).unwrap();
            let (who, estate) = s.estate_of_caller(
                origin,
                estate_id,
                metaverse_id,
                in_auction,
            ).unwrap();
            &&& next.user_land_units(who, metaverse_id).to_set() == s.user_land_units(
                who,
                metaverse_id,
            ).to_set()
            &&& s.user_land_units(who, metaverse_id).to_set() == estate.coordinates.to_set()
                ==> next.user_land_units(who, metaverse_id).to_set()
                == estate.coordinates.to_set()
        }),
{
    let next = s.dissolve_estate(origin, estate_id, metaverse_id, in_auction).unwrap();
    let (who, estate) = s.estate_of_caller(origin, estate_id, metaverse_id, in_auction).unwrap();
    let at = assoc::index_of(s.estates, estate_id);
    assert(0 <= at < s.estates.len() && s.estates[at].0 == estate_id);
    assoc::lemma_found(s.estates, estate_id, at);
    assoc::lemma_remove(s.estates, estate_id);
    law_assign_units(s.land_units, metaverse_id, Owner::Account(who), estate.coordinates);
    law_direct_units(s.land_units, who, metaverse_id);
    law_direct_units(next.land_units, who, metaverse_id);
    law_estate_units(s.estates, who, metaverse_id);
    law_estate_units(next.estates, who, metaverse_id);
    assert(next.estates == s.estates.remove(at));
    let before = s.user_land_units(who, metaverse_id);
    let after = next.user_land_units(who, metaverse_id);
    let held = direct_units(s.land_units, who, metaverse_id);
    let held_after = direct_units(next.land_units, who, metaverse_id);
    let kept = estate_units(s.estates, who, metaverse_id);
    let kept_after = estate_units(next.estates, who, metaverse_id);
    assert forall|c: Coordinate| before.contains(c) <==> after.contains(c) by {
        let key = LandUnitKey { metaverse_id, coordinate: c };
        lemma_concat_contains(held, kept, c);
        lemma_concat_contains(held_after, kept_after, c);
        if kept.contains(c) {
            let i = choose|i: int|
                0 <= i < s.estates.len() && (#[trigger] s.estates[i]).1.owner == who
                    && s.estates[i].1.metaverse_id == metaverse_id
                    && s.estates[i].1.coordinates.contains(c);
            if i < at {
                assert(next.estates[i] == s.estates[i]);
            } else if i > at {
                assert(next.estates[i - 1] == s.estates[i]);
            } else {
                assert(assoc::get(next.land_units, key) == Some(Owner::Account(who)));
                assert(held_after.contains(c));
            }
        }
        if kept_after.contains(c) {
            let i = choose|i: int|
                0 <= i < next.estates.len() && (#[trigger] next.estates[i]).1.owner == who
                    && next.estates[i].1.metaverse_id == metaverse_id
                    && next.estates[i].1.coordinates.contains(c);
            if i < at {
                assert(next.estates[i] == s.estates[i]);
            } else {
                assert(next.estates[i] == s.estates[i + 1]);
            }
            assert(kept.contains(c));
        }
        if held.contains(c) {
            assert(held_after.contains(c));
        }
        if held_after.contains(c) {
            if estate.coordinates.contains(c) {
                assert(s.estates[at].1.coordinates.contains(c));
                assert(kept.contains(c));
            } else {
                assert(held.contains(c));
            }
        }
    }
    assert(before.to_set() =~= after.to_set());
}

/// Taking land units out of an estate returns them and makes none. Every
/// unit that leaves was in the custody of the estate and is then held by
/// the owner itself; every other unit is held as before. The register has
/// the same units as before, and their count is the same.
pub proof fn law_remove_returns_land(
    s: State,
    origin: Origin,
    estate_id: EstateId,
    metaverse_id: MetaverseId,
    land_units: Seq<Coordinate>,
    in_auction: bool,
    key: LandUnitKey,
)
    requires
        s.inv(),
        s.remove_land_unit_from_estate(origin, estate_id, metaverse_id, land_units, in_auction)
            is Ok,
    ensures
        ({
            let next = s.remove_land_unit_from_estate(
                origin,
                estate_id,
                metaverse_id,
                land_units,
                in_auction,
            ).unwrap();
            let (who, estate) = s.estate_of_caller(
                origin,
                estate_id,
                metaverse_id,
                in_auction,
            ).unwrap();
            &&& next.inv()
            &&& estate.metaverse_id == metaverse_id
            &&& next.all_land_units_count == s.all_land_units_count
            &&& assoc::contains_key(next.land_units, key) == assoc::contains_key(
                s.land_units,
                key,
            )
            &&& if key.metaverse_id == metaverse_id && land_units.contains(key.coordinate) {
                &&& assoc::get(s.land_units, key) == Some(Owner::Estate(estate_id))
                &&& assoc::get(next.land_units, key) == Some(Owner::Account(who))
            } else {
                assoc::get(next.land_units, key) == assoc::get(s.land_units, key)
            }
        }),
{
    let (who, estate) = s.estate_of_caller(origin, estate_id, metaverse_id, in_auction).unwrap();
    lemma_remove_keeps_inv(s, origin, estate_id, metaverse_id, land_units, in_auction);
    lemma_remove_each(estate.coordinates, land_units);
    law_assign_units(s.land_units, metaverse_id, Owner::Account(who), land_units);
    if key.metaverse_id == metaverse_id && land_units.contains(key.coordinate) {
        let at = assoc::index_of(s.estates, estate_id);
        let k = choose|k: int| 0 <= k < land_units.len() && land_units[k] == key.coordinate;
        assert(estate.coordinates.contains(land_units[k]));
        let j = choose|j: int|
            0 <= j < estate.coordinates.len() && estate.coordinates[j] == key.coordinate;
        assert(s.estates[at].1.coordinates[j] == key.coordinate);
    }
}

/// Adding land units to an estate takes them from the owner and makes
/// none. Every unit that is added was held by the owner itself and is then
/// in the custody of the estate; every other unit is held as before.
pub proof fn law_add_takes_land(
    s: State,
    origin: Origin,
    estate_id: EstateId,
    metaverse_id: MetaverseId,
    land_units: Seq<Coordinate>,
    in_auction: bool,
    key: LandUnitKey,
)
    requires
        s.inv(),
        s.add_land_unit_to_estate(origin, estate_id, metaverse_id, land_units, in_auction) is Ok,
    ensures
        ({
            let next = s.add_land_unit_to_estate(
                origin,
                estate_id,
                metaverse_id,
                land_units,
                in_auction,
            ).unwrap();
            let (who, estate) = s.estate_of_caller(
                origin,
                estate_id,
                metaverse_id,
                in_auction,
            ).unwrap();
            &&& next.inv()
            &&& estate.metaverse_id == metaverse_id
            &&& next.all_land_units_count == s.all_land_units_count
            &&& assoc::contains_key(next.land_units, key) == assoc::contains_key(
                s.land_units,
                key,
            )
            &&& if key.metaverse_id == metaverse_id && land_units.contains(key.coordinate) {
                &&& assoc::get(s.land_units, key) == Some(Owner::Account(who))
                &&& assoc::get(next.land_units, key) == Some(Owner::Estate(estate_id))
            } else {
                assoc::get(next.land_units, key) == assoc::get(s.land_units, key)
            }
        }),
{
    lemma_add_keeps_inv(s, origin, estate_id, metaverse_id, land_units, in_auction);
    law_assign_units(s.land_units, metaverse_id, Owner::Estate(estate_id), land_units);
    if key.metaverse_id == metaverse_id && land_units.contains(key.coordinate) {
        let k = choose|k: int| 0 <= k < land_units.len() && land_units[k] == key.coordinate;
        assert(land_units[k] == key.coordinate);
    }
}

/// Forming an estate keeps the registry well formed, and puts each unit of
/// the estate into its custody. An estate formed out of registered units
/// takes them from accounts only, and makes no land.
pub proof fn law_formed_estate(
    s: State,
    origin: Origin,
    beneficiary: AccountId,
    metaverse_id: MetaverseId,
    coordinates: Seq<Coordinate>,
    existing: bool,
    i: int,
)
    requires
        s.inv(),
        s.form_estate(origin, beneficiary, metaverse_id, coordinates, existing) is Ok,
        0 <= i < coordinates.len(),
    ensures
        ({
            let (next, id) = s.form_estate(
                origin,
                beneficiary,
                metaverse_id,
                coordinates,
                existing,
            ).unwrap();
            let key = LandUnitKey { metaverse_id, coordinate: coordinates[i] };
            &&& id == s.next_estate_id
            &&& !assoc::contains_key(s.estates, id)
            &&& assoc::get(next.estates, id) == Some(
                EstateInfoView { owner: beneficiary, metaverse_id, coordinates },
            )
            &&& coordinates.no_duplicates()
            &&& assoc::get(next.land_units, key) == Some(Owner::Estate(id))
            &&& available(s.land_units, key, existing)
            &&& existing ==> next.all_land_units_count == s.all_land_units_count
            &&& !existing ==> next.all_land_units_count == s.all_land_units_count
                + coordinates.len()
        }),
{
    let id = s.next_estate_id;
    lemma_minted_units(
        s.land_units,
        assoc::get(s.max_bounds, metaverse_id),
        metaverse_id,
        Owner::Estate(id),
        coordinates,
        existing,
    );
    assoc::lemma_insert(
        s.estates,
        id,
        EstateInfoView { owner: beneficiary, metaverse_id, coordinates },
    );
    if assoc::contains_key(s.estates, id) {
        let p = assoc::index_of(s.estates, id);
        assert(s.estates[p].0 < s.next_estate_id);
    }
}

/// Units leave an estate exactly when the estate lists each of them as
/// often as it is to leave, and the estate then lists each unit as often
/// as before less the times it has left. The order in which the units are
/// named makes no difference to that.
pub proof fn law_removed_units(members: Seq<Coordinate>, leaving: Seq<Coordinate>)
    ensures
        remove_each(members, leaving) is Some <==> leaving.to_multiset().subset_of(
            members.to_multiset(),
        ),
        remove_each(members, leaving) matches Some(rest) ==> forall|c: Coordinate|
            #[trigger] rest.to_multiset().count(c) == members.to_multiset().count(c)
                - leaving.to_multiset().count(c),
    decreases leaving.len(),
{
    broadcast use vstd::multiset::group_multiset_axioms;

    let all = members.to_multiset();
    let out = leaving.to_multiset();
    leaving.to_multiset_ensures();
    members.to_multiset_ensures();
    if leaving.len() == 0 {
        assert(out.len() == 0);
        assert forall|c: Coordinate| out.count(c) == 0 by {
            if out.count(c) > 0 {
                assert(leaving.contains(c));
            }
        }
    } else {
        let first = leaving[0];
        let later = leaving.drop_first();
        assert(leaving =~= seq![first] + later);
        vstd::seq_lib::lemma_multiset_commutative(seq![first], later);
        seq![first].to_multiset_ensures();
        Seq::<Coordinate>::empty().to_multiset_ensures();
        assert(seq![first] =~= Seq::<Coordinate>::empty().push(first));
        assert forall|c: Coordinate| #[trigger] out.count(c) == later.to_multiset().count(c) + (
        if c == first {
            1nat
        } else {
            0nat
        }) by {
            assert(Seq::<Coordinate>::empty().to_multiset().len() == 0);
            assert(Seq::<Coordinate>::empty().to_multiset().count(c) == 0) by {
                if Seq::<Coordinate>::empty().to_multiset().count(c) > 0 {
                    assert(Seq::<Coordinate>::empty().contains(c));
                }
            }
        }
        members.index_of_first_ensures(first);
        match members.index_of_first(first) {
            None => {
                assert(all.count(first) == 0);
                assert(out.count(first) >= 1);
                assert(!out.subset_of(all));
            },
            Some(i) => {
                let kept = members.remove(i);
                vstd::seq_lib::to_multiset_remove(members, i);
                assert(all.count(first) > 0);
                assert forall|c: Coordinate| #[trigger] kept.to_multiset().count(c) == all.count(c)
                    - (if c == first {
                    1nat
                } else {
                    0nat
                }) by {}
                law_removed_units(kept, later);
                if later.to_multiset().subset_of(kept.to_multiset()) {
                    assert forall|c: Coordinate| out.count(c) <= all.count(c) by {
                        assert(later.to_multiset().count(c) <= kept.to_multiset().count(c));
                    }
                }
                if out.subset_of(all) {
                    assert forall|c: Coordinate|
                        later.to_multiset().count(c) <= kept.to_multiset().count(c) by {
                        assert(out.count(c) <= all.count(c));
                    }
                }
                if remove_each(members, leaving) is Some {
                    let rest = remove_each(members, leaving).unwrap();
                    assert forall|c: Coordinate| #[trigger]
                        rest.to_multiset().count(c) == all.count(c) - out.count(c) by {
                        assert(rest.to_multiset().count(c) == kept.to_multiset().count(c)
                            - later.to_multiset().count(c));
                    }
                }
            },
        }
    }
}

/// A unit is in the concatenation of two lists exactly when it is in one
/// of them.
proof fn lemma_concat_contains(a: Seq<Coordinate>, b: Seq<Coordinate>, c: Coordinate)
    ensures
        (a + b).contains(c) <==> a.contains(c) || b.contains(c),
{
    if (a + b).contains(c) {
        let i = choose|i: int| 0 <= i < (a + b).len() && (a + b)[i] == c;
        if i < a.len() {
            assert(a[i] == c);
        } else {
            assert(b[i - a.len()] == c);
        }
    }
    if a.contains(c) {
        let i = choose|i: int| 0 <= i < a.len() && a[i] == c;
        assert((a + b)[i] == c);
    }
    if b.contains(c) {
        let i = choose|i: int| 0 <= i < b.len() && b[i] == c;
        assert((a + b)[a.len() + i] == c);
    }
}

} // verus!
