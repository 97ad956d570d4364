use pallet_estate::{Config, Effect, Error, Event, Origin, Owner, Pallet, Range};

const ALICE: u64 = 1;
const BOB: u64 = 2;
const METAVERSE: u64 = 7;
const OTHER_METAVERSE: u64 = 8;

fn registry_with_bound() -> Pallet {
    let mut pallet = Pallet::new(
        Config {
            land_treasury: 1000,
            min_blocks_per_round: 20,
            minimum_stake: 10,
            reward_payment_delay: 2,
        },
        Range { min: 1, ideal: 2, max: 3 },
    );
    assert_eq!(pallet.set_max_bounds(Origin::Root, METAVERSE, (0, 10)), Ok(()));
    pallet.take_effects();
    pallet
}

#[test]
fn mint_estate_mints_its_units_into_the_custody_of_the_estate() {
    let mut pallet = registry_with_bound();
    assert_eq!(pallet.mint_estate(Origin::Root, ALICE, METAVERSE, vec![(0, 0), (0, 1)]), Ok(0));
    assert_eq!(pallet.get_estates(0), Some(vec![(0, 0), (0, 1)]));
    assert_eq!(pallet.get_estate_metaverse(0), Some(METAVERSE));
    assert_eq!(pallet.get_estate_metaverse(1), None);
    assert_eq!(pallet.get_estate_owner(ALICE, 0), Some(()));
    assert_eq!(pallet.get_estate_owner(BOB, 0), None);
    assert_eq!(pallet.get_land_units(METAVERSE, (0, 0)), Some(Owner::Estate(0)));
    assert_eq!(pallet.get_land_units(METAVERSE, (0, 1)), Some(Owner::Estate(0)));
    assert_eq!(pallet.all_land_units_count(), 2);
    assert_eq!(pallet.all_estates_count(), 1);
    assert_eq!(pallet.next_estate_id(), 1);
    assert_eq!(pallet.check_estate(0), Ok(true));
    assert_eq!(pallet.check_estate(1), Ok(false));
    assert_eq!(
        pallet.effects(),
        &vec![Effect::Emit(Event::NewEstateMinted(0, ALICE, METAVERSE, vec![(0, 0), (0, 1)]))]
    );
}

#[test]
fn estates_get_identifiers_in_the_order_of_their_making() {
    let mut pallet = registry_with_bound();
    assert_eq!(pallet.mint_estate(Origin::Root, ALICE, METAVERSE, vec![(0, 0)]), Ok(0));
    assert_eq!(pallet.mint_estate(Origin::Root, BOB, METAVERSE, vec![(1, 1)]), Ok(1));
    assert_eq!(pallet.mint_estate(Origin::Root, ALICE, METAVERSE, vec![(2, 2)]), Ok(2));
    assert_eq!(pallet.all_estates_count(), 3);
    assert_eq!(pallet.get_land_units(METAVERSE, (1, 1)), Some(Owner::Estate(1)));
    assert_eq!(pallet.get_estate_owner(BOB, 1), Some(()));
}

#[test]
fn a_refused_estate_uses_no_identifier_and_mints_nothing() {
    let mut pallet = registry_with_bound();
    assert_eq!(pallet.mint_land(Origin::Root, BOB, METAVERSE, (0, 1)), Ok(()));
    pallet.take_effects();
    assert_eq!(
        pallet.mint_estate(Origin::Root, ALICE, METAVERSE, vec![(0, 0), (0, 1)]),
        Err(Error::LandUnitIsNotAvailable)
    );
    assert_eq!(
        pallet.mint_estate(Origin::Root, ALICE, METAVERSE, vec![(0, 0), (0, 11)]),
        Err(Error::LandUnitIsOutOfBound)
    );
    assert_eq!(
        pallet.mint_estate(Origin::Root, ALICE, OTHER_METAVERSE, vec![(0, 0)]),
        Err(Error::NoMaxBoundSet)
    );
    assert_eq!(
        pallet.mint_estate(Origin::Signed(ALICE), ALICE, METAVERSE, vec![(0, 0)]),
        Err(Error::BadOrigin)
    );
    assert_eq!(pallet.next_estate_id(), 0);
    assert_eq!(pallet.all_estates_count(), 0);
    assert_eq!(pallet.all_land_units_count(), 1);
    assert_eq!(pallet.get_land_units(METAVERSE, (0, 0)), None);
    assert!(pallet.effects().is_empty());
    assert_eq!(pallet.mint_estate(Origin::Root, ALICE, METAVERSE, vec![(0, 0)]), Ok(0));
}

#[test]
fn an_estate_has_at_least_one_unit() {
    let mut pallet = registry_with_bound();
    assert_eq!(
        pallet.mint_estate(Origin::Root, ALICE, METAVERSE, vec![]),
        Err(Error::EstateWithoutLandUnit)
    );
    assert_eq!(
        pallet.create_estate(Origin::Root, ALICE, METAVERSE, vec![]),
        Err(Error::EstateWithoutLandUnit)
    );
    assert_eq!(pallet.all_estates_count(), 0);
    assert_eq!(pallet.next_estate_id(), 0);
}

#[test]
fn create_estate_takes_units_that_are_registered() {
    let mut pallet = registry_with_bound();
    assert_eq!(pallet.mint_lands(Origin::Root, ALICE, METAVERSE, vec![(0, 0), (0, 1)]), Ok(()));
    pallet.take_effects();
    assert_eq!(pallet.create_estate(Origin::Root, ALICE, METAVERSE, vec![(0, 1), (0, 0)]), Ok(0));
    assert_eq!(pallet.get_estates(0), Some(vec![(0, 1), (0, 0)]));
    assert_eq!(pallet.get_land_units(METAVERSE, (0, 0)), Some(Owner::Estate(0)));
    assert_eq!(pallet.get_land_units(METAVERSE, (0, 1)), Some(Owner::Estate(0)));
    assert_eq!(pallet.all_land_units_count(), 2);
    assert_eq!(pallet.all_estates_count(), 1);
    assert_eq!(
        pallet.effects(),
        &vec![Effect::Emit(Event::NewEstateMinted(0, ALICE, METAVERSE, vec![(0, 1), (0, 0)]))]
    );
}

#[test]
fn create_estate_refuses_a_unit_that_is_not_registered() {
    let mut pallet = registry_with_bound();
    assert_eq!(pallet.mint_land(Origin::Root, ALICE, METAVERSE, (0, 0)), Ok(()));
    assert_eq!(
        pallet.create_estate(Origin::Root, ALICE, METAVERSE, vec![(0, 0), (0, 1)]),
        Err(Error::LandUnitIsNotAvailable)
    );
    assert_eq!(pallet.get_land_units(METAVERSE, (0, 0)), Some(Owner::Account(ALICE)));
    assert_eq!(pallet.all_estates_count(), 0);
    assert_eq!(
        pallet.create_estate(Origin::Signed(ALICE), ALICE, METAVERSE, vec![(0, 0)]),
        Err(Error::BadOrigin)
    );
}

#[test]
fn transfer_estate_moves_the_ownership_and_leaves_the_units_in_custody() {
    let mut pallet = registry_with_bound();
    assert_eq!(pallet.mint_estate(Origin::Root, ALICE, METAVERSE, vec![(0, 0), (0, 1)]), Ok(0));
    pallet.take_effects();
    assert_eq!(pallet.transfer_estate(Origin::Signed(ALICE), BOB, 0, false), Ok(()));
    assert_eq!(pallet.get_estate_owner(ALICE, 0), None);
    assert_eq!(pallet.get_estate_owner(BOB, 0), Some(()));
    assert_eq!(pallet.get_estates(0), Some(vec![(0, 0), (0, 1)]));
    assert_eq!(pallet.get_land_units(METAVERSE, (0, 0)), Some(Owner::Estate(0)));
    assert_eq!(pallet.effects(), &vec![Effect::Emit(Event::TransferredEstate(0, ALICE, BOB))]);
}

#[test]
fn transfer_estate_is_refused_without_the_owner_or_to_the_owner() {
    let mut pallet = registry_with_bound();
    assert_eq!(pallet.mint_estate(Origin::Root, ALICE, METAVERSE, vec![(0, 0)]), Ok(0));
    assert_eq!(pallet.transfer_estate(Origin::Root, BOB, 0, false), Err(Error::BadOrigin));
    assert_eq!(
        pallet.transfer_estate(Origin::Signed(ALICE), BOB, 0, true),
        Err(Error::EstateAlreadyInAuction)
    );
    assert_eq!(
        pallet.transfer_estate(Origin::Signed(BOB), ALICE, 0, false),
        Err(Error::NoPermission)
    );
    assert_eq!(
        pallet.transfer_estate(Origin::Signed(ALICE), BOB, 1, false),
        Err(Error::NoPermission)
    );
    assert_eq!(
        pallet.transfer_estate(Origin::Signed(ALICE), ALICE, 0, false),
        Err(Error::AlreadyOwnTheEstate)
    );
    assert_eq!(pallet.get_estate_owner(ALICE, 0), Some(()));
}

#[test]
fn the_auction_hands_a_sold_estate_to_the_buyer() {
    let mut pallet = registry_with_bound();
    assert_eq!(pallet.mint_estate(Origin::Root, ALICE, METAVERSE, vec![(0, 0)]), Ok(0));
    assert_eq!(
        pallet.transfer_auctioned_estate(0, &ALICE, &BOB, false),
        Err(Error::EstateNotInAuction)
    );
    assert_eq!(pallet.get_estate_owner(ALICE, 0), Some(()));
    assert_eq!(pallet.transfer_auctioned_estate(0, &ALICE, &BOB, true), Ok(0));
    assert_eq!(pallet.get_estate_owner(BOB, 0), Some(()));
    assert_eq!(
        pallet.transfer_auctioned_estate(0, &ALICE, &BOB, true),
        Err(Error::NoPermission)
    );
    assert_eq!(
        pallet.transfer_auctioned_estate(0, &BOB, &BOB, true),
        Err(Error::AlreadyOwnTheEstate)
    );
}

#[test]
fn dissolve_estate_gives_the_units_back_to_the_owner() {
    let mut pallet = registry_with_bound();
    assert_eq!(pallet.mint_estate(Origin::Root, ALICE, METAVERSE, vec![(0, 0), (0, 1)]), Ok(0));
    assert_eq!(pallet.get_user_land_units(&ALICE, &METAVERSE), vec![(0, 0), (0, 1)]);
    pallet.take_effects();
    assert_eq!(pallet.dissolve_estate(Origin::Signed(ALICE), 0, METAVERSE, false), Ok(()));
    assert_eq!(pallet.check_estate(0), Ok(false));
    assert_eq!(pallet.get_estates(0), None);
    assert_eq!(pallet.get_estate_owner(ALICE, 0), None);
    assert_eq!(pallet.all_estates_count(), 0);
    assert_eq!(pallet.all_land_units_count(), 2);
    assert_eq!(pallet.get_land_units(METAVERSE, (0, 0)), Some(Owner::Account(ALICE)));
    assert_eq!(pallet.get_land_units(METAVERSE, (0, 1)), Some(Owner::Account(ALICE)));
    assert_eq!(pallet.get_user_land_units(&ALICE, &METAVERSE), vec![(0, 0), (0, 1)]);
    assert_eq!(pallet.effects(), &vec![Effect::Emit(Event::EstateDestroyed(0, ALICE))]);
}

#[test]
fn dissolving_keeps_the_land_of_an_owner_who_has_more() {
    let mut pallet = registry_with_bound();
    assert_eq!(pallet.mint_land(Origin::Root, ALICE, METAVERSE, (9, 9)), Ok(()));
    assert_eq!(pallet.mint_estate(Origin::Root, ALICE, METAVERSE, vec![(0, 0), (0, 1)]), Ok(0));
    assert_eq!(pallet.mint_estate(Origin::Root, ALICE, METAVERSE, vec![(5, 5)]), Ok(1));
    assert_eq!(
        pallet.get_user_land_units(&ALICE, &METAVERSE),
        vec![(9, 9), (0, 0), (0, 1), (5, 5)]
    );
    assert_eq!(pallet.dissolve_estate(Origin::Signed(ALICE), 0, METAVERSE, false), Ok(()));
    let mut after = pallet.get_user_land_units(&ALICE, &METAVERSE);
    after.sort();
    assert_eq!(after, vec![(0, 0), (0, 1), (5, 5), (9, 9)]);
    assert_eq!(pallet.all_estates_count(), 1);
    assert_eq!(pallet.check_estate(1), Ok(true));
}

#[test]
fn a_dissolved_estate_is_gone_for_good() {
    let mut pallet = registry_with_bound();
    assert_eq!(pallet.mint_estate(Origin::Root, ALICE, METAVERSE, vec![(0, 0)]), Ok(0));
    assert_eq!(pallet.dissolve_estate(Origin::Signed(ALICE), 0, METAVERSE, false), Ok(()));
    assert_eq!(
        pallet.dissolve_estate(Origin::Signed(ALICE), 0, METAVERSE, false),
        Err(Error::EstateDoesNotExist)
    );
    assert_eq!(pallet.mint_estate(Origin::Root, ALICE, METAVERSE, vec![(1, 1)]), Ok(1));
    assert_eq!(pallet.check_estate(0), Ok(false));
}

#[test]
fn dissolve_estate_is_refused_without_the_owner() {
    let mut pallet = registry_with_bound();
    assert_eq!(pallet.mint_estate(Origin::Root, ALICE, METAVERSE, vec![(0, 0)]), Ok(0));
    pallet.take_effects();
    assert_eq!(pallet.dissolve_estate(Origin::Root, 0, METAVERSE, false), Err(Error::BadOrigin));
    assert_eq!(
        pallet.dissolve_estate(Origin::Signed(ALICE), 0, METAVERSE, true),
        Err(Error::EstateAlreadyInAuction)
    );
    assert_eq!(
        pallet.dissolve_estate(Origin::Signed(ALICE), 3, METAVERSE, false),
        Err(Error::EstateDoesNotExist)
    );
    assert_eq!(
        pallet.dissolve_estate(Origin::Signed(BOB), 0, METAVERSE, false),
        Err(Error::NoPermission)
    );
    assert_eq!(pallet.check_estate(0), Ok(true));
    assert_eq!(pallet.get_land_units(METAVERSE, (0, 0)), Some(Owner::Estate(0)));
    assert!(pallet.effects().is_empty());
}

#[test]
fn add_land_unit_to_estate_appends_units_of_the_owner() {
    let mut pallet = registry_with_bound();
    assert_eq!(pallet.mint_estate(Origin::Root, ALICE, METAVERSE, vec![(0, 0)]), Ok(0));
    assert_eq!(pallet.mint_lands(Origin::Root, ALICE, METAVERSE, vec![(1, 1), (2, 2)]), Ok(()));
    pallet.take_effects();
    assert_eq!(
        pallet.add_land_unit_to_estate(
            Origin::Signed(ALICE),
            0,
            METAVERSE,
            vec![(2, 2), (1, 1)],
            false
        ),
        Ok(())
    );
    assert_eq!(pallet.get_estates(0), Some(vec![(0, 0), (2, 2), (1, 1)]));
    assert_eq!(pallet.get_land_units(METAVERSE, (1, 1)), Some(Owner::Estate(0)));
    assert_eq!(pallet.get_land_units(METAVERSE, (2, 2)), Some(Owner::Estate(0)));
    assert_eq!(pallet.all_land_units_count(), 3);
    assert_eq!(
        pallet.effects(),
        &vec![Effect::Emit(Event::LandUnitAdded(0, ALICE, vec![(2, 2), (1, 1)]))]
    );
}

#[test]
fn add_land_unit_to_estate_refuses_units_that_the_caller_does_not_hold() {
    let mut pallet = registry_with_bound();
    assert_eq!(pallet.mint_estate(Origin::Root, ALICE, METAVERSE, vec![(0, 0)]), Ok(0));
    assert_eq!(pallet.mint_estate(Origin::Root, ALICE, METAVERSE, vec![(3, 3)]), Ok(1));
    assert_eq!(pallet.mint_land(Origin::Root, ALICE, METAVERSE, (1, 1)), Ok(()));
    assert_eq!(pallet.mint_land(Origin::Root, BOB, METAVERSE, (2, 2)), Ok(()));
    pallet.take_effects();
    let cases = vec![vec![(1, 1), (2, 2)], vec![(1, 1), (4, 4)], vec![(3, 3)], vec![(0, 0)]];
    for units in cases {
        assert_eq!(
            pallet.add_land_unit_to_estate(Origin::Signed(ALICE), 0, METAVERSE, units, false),
            Err(Error::LandUnitDoesNotExist)
        );
    }
    assert_eq!(pallet.get_estates(0), Some(vec![(0, 0)]));
    assert_eq!(pallet.get_land_units(METAVERSE, (1, 1)), Some(Owner::Account(ALICE)));
    assert!(pallet.effects().is_empty());
}

#[test]
fn add_land_unit_to_estate_is_refused_without_the_owner() {
    let mut pallet = registry_with_bound();
    assert_eq!(pallet.mint_estate(Origin::Root, ALICE, METAVERSE, vec![(0, 0)]), Ok(0));
    assert_eq!(pallet.mint_land(Origin::Root, BOB, METAVERSE, (2, 2)), Ok(()));
    assert_eq!(
        pallet.add_land_unit_to_estate(Origin::Unsigned, 0, METAVERSE, vec![(2, 2)], false),
        Err(Error::BadOrigin)
    );
    assert_eq!(
        pallet.add_land_unit_to_estate(Origin::Signed(ALICE), 0, METAVERSE, vec![], true),
        Err(Error::EstateAlreadyInAuction)
    );
    assert_eq!(
        pallet.add_land_unit_to_estate(Origin::Signed(BOB), 5, METAVERSE, vec![(2, 2)], false),
        Err(Error::EstateDoesNotExist)
    );
    assert_eq!(
        pallet.add_land_unit_to_estate(Origin::Signed(BOB), 0, METAVERSE, vec![(2, 2)], false),
        Err(Error::NoPermission)
    );
}

#[test]
fn remove_land_unit_from_estate_hands_units_to_the_owner() {
    let mut pallet = registry_with_bound();
    assert_eq!(
        pallet.mint_estate(Origin::Root, ALICE, METAVERSE, vec![(0, 0), (0, 1), (0, 2)]),
        Ok(0)
    );
    pallet.take_effects();
    assert_eq!(
        pallet.remove_land_unit_from_estate(
            Origin::Signed(ALICE),
            0,
            METAVERSE,
            vec![(0, 2), (0, 0)],
            false
        ),
        Ok(())
    );
    assert_eq!(pallet.get_estates(0), Some(vec![(0, 1)]));
    assert_eq!(pallet.get_land_units(METAVERSE, (0, 0)), Some(Owner::Account(ALICE)));
    assert_eq!(pallet.get_land_units(METAVERSE, (0, 1)), Some(Owner::Estate(0)));
    assert_eq!(pallet.get_land_units(METAVERSE, (0, 2)), Some(Owner::Account(ALICE)));
    assert_eq!(pallet.all_land_units_count(), 3);
    assert_eq!(
        pallet.effects(),
        &vec![Effect::Emit(Event::LandUnitsRemoved(0, ALICE, vec![(0, 2), (0, 0)]))]
    );
}

#[test]
fn removing_a_unit_that_is_not_in_the_estate_changes_nothing() {
    let mut pallet = registry_with_bound();
    assert_eq!(pallet.mint_estate(Origin::Root, ALICE, METAVERSE, vec![(0, 0), (0, 1)]), Ok(0));
    pallet.take_effects();
    assert_eq!(
        pallet.remove_land_unit_from_estate(
            Origin::Signed(ALICE),
            0,
            METAVERSE,
            vec![(0, 0), (5, 5)],
            false
        ),
        Err(Error::LandUnitDoesNotExist)
    );
    assert_eq!(
        pallet.remove_land_unit_from_estate(
            Origin::Signed(ALICE),
            0,
            METAVERSE,
            vec![(0, 0), (0, 0)],
            false
        ),
        Err(Error::LandUnitDoesNotExist)
    );
    assert_eq!(pallet.get_estates(0), Some(vec![(0, 0), (0, 1)]));
    assert_eq!(pallet.get_land_units(METAVERSE, (0, 0)), Some(Owner::Estate(0)));
    assert!(pallet.effects().is_empty());
}

#[test]
fn the_last_unit_of_an_estate_cannot_be_removed() {
    let mut pallet = registry_with_bound();
    assert_eq!(pallet.mint_estate(Origin::Root, ALICE, METAVERSE, vec![(0, 0), (0, 1)]), Ok(0));
    assert_eq!(
        pallet.remove_land_unit_from_estate(
            Origin::Signed(ALICE),
            0,
            METAVERSE,
            vec![(0, 1), (0, 0)],
            false
        ),
        Err(Error::EstateWithoutLandUnit)
    );
    assert_eq!(pallet.get_estates(0), Some(vec![(0, 0), (0, 1)]));
    assert_eq!(pallet.get_land_units(METAVERSE, (0, 1)), Some(Owner::Estate(0)));
}

#[test]
fn remove_land_unit_from_estate_is_refused_without_the_owner() {
    let mut pallet = registry_with_bound();
    assert_eq!(pallet.mint_estate(Origin::Root, ALICE, METAVERSE, vec![(0, 0), (0, 1)]), Ok(0));
    assert_eq!(
        pallet.remove_land_unit_from_estate(Origin::Root, 0, METAVERSE, vec![(0, 0)], false),
        Err(Error::BadOrigin)
    );
    assert_eq!(
        pallet.remove_land_unit_from_estate(
            Origin::Signed(ALICE),
            0,
            METAVERSE,
            vec![(0, 0)],
            true
        ),
        Err(Error::EstateAlreadyInAuction)
    );
    assert_eq!(
        pallet.remove_land_unit_from_estate(
            Origin::Signed(ALICE),
            9,
            METAVERSE,
            vec![(0, 0)],
            false
        ),
        Err(Error::EstateDoesNotExist)
    );
    assert_eq!(
        pallet.remove_land_unit_from_estate(
            Origin::Signed(BOB),
            0,
            METAVERSE,
            vec![(0, 0)],
            false
        ),
        Err(Error::NoPermission)
    );
}

#[test]
fn the_land_of_a_user_holds_the_units_of_its_estates() {
    let mut pallet = registry_with_bound();
    assert_eq!(pallet.mint_estate(Origin::Root, ALICE, METAVERSE, vec![(0, 0), (0, 1)]), Ok(0));
    assert_eq!(pallet.mint_estate(Origin::Root, BOB, METAVERSE, vec![(7, 7)]), Ok(1));
    assert_eq!(pallet.mint_land(Origin::Root, ALICE, METAVERSE, (3, 3)), Ok(()));
    assert_eq!(pallet.get_user_land_units(&ALICE, &METAVERSE), vec![(3, 3), (0, 0), (0, 1)]);
    assert_eq!(pallet.get_user_land_units(&BOB, &METAVERSE), vec![(7, 7)]);
    assert_eq!(pallet.transfer_estate(Origin::Signed(ALICE), BOB, 0, false), Ok(()));
    assert_eq!(pallet.get_user_land_units(&ALICE, &METAVERSE), vec![(3, 3)]);
    assert_eq!(pallet.get_user_land_units(&BOB, &METAVERSE), vec![(0, 0), (0, 1), (7, 7)]);
    assert!(pallet.is_user_own_metaverse_land(&BOB, &METAVERSE));
}

#[test]
fn a_unit_named_twice_is_not_added() {
    let mut pallet = registry_with_bound();
    assert_eq!(pallet.mint_estate(Origin::Root, ALICE, METAVERSE, vec![(0, 0)]), Ok(0));
    assert_eq!(pallet.mint_land(Origin::Root, ALICE, METAVERSE, (1, 1)), Ok(()));
    pallet.take_effects();
    assert_eq!(
        pallet.add_land_unit_to_estate(
            Origin::Signed(ALICE),
            0,
            METAVERSE,
            vec![(1, 1), (1, 1)],
            false
        ),
        Err(Error::LandUnitDoesNotExist)
    );
    assert_eq!(pallet.get_estates(0), Some(vec![(0, 0)]));
    assert_eq!(pallet.get_land_units(METAVERSE, (1, 1)), Some(Owner::Account(ALICE)));
    assert!(pallet.effects().is_empty());
    assert_eq!(
        pallet.add_land_unit_to_estate(Origin::Signed(ALICE), 0, METAVERSE, vec![(1, 1)], false),
        Ok(())
    );
    assert_eq!(
        pallet.add_land_unit_to_estate(Origin::Signed(ALICE), 0, METAVERSE, vec![(1, 1)], false),
        Err(Error::LandUnitDoesNotExist)
    );
    assert_eq!(pallet.get_estates(0), Some(vec![(0, 0), (1, 1)]));
    assert!(pallet.is_well_formed());
}

#[test]
fn a_unit_that_has_left_an_estate_and_changed_hands_is_not_taken_back() {
    let mut pallet = registry_with_bound();
    assert_eq!(pallet.mint_estate(Origin::Root, ALICE, METAVERSE, vec![(0, 0), (1, 1)]), Ok(0));
    assert_eq!(
        pallet.remove_land_unit_from_estate(
            Origin::Signed(ALICE),
            0,
            METAVERSE,
            vec![(1, 1)],
            false
        ),
        Ok(())
    );
    assert_eq!(pallet.transfer_land(Origin::Signed(ALICE), BOB, METAVERSE, (1, 1), false), Ok(()));
    assert_eq!(pallet.dissolve_estate(Origin::Signed(ALICE), 0, METAVERSE, false), Ok(()));
    assert_eq!(pallet.get_land_units(METAVERSE, (1, 1)), Some(Owner::Account(BOB)));
    assert_eq!(pallet.get_land_units(METAVERSE, (0, 0)), Some(Owner::Account(ALICE)));
    assert_eq!(pallet.get_user_land_units(&ALICE, &METAVERSE), vec![(0, 0)]);
    assert_eq!(pallet.get_user_land_units(&BOB, &METAVERSE), vec![(1, 1)]);
    assert!(pallet.is_well_formed());
}

#[test]
fn an_estate_is_dissolved_only_in_its_own_region() {
    let mut pallet = registry_with_bound();
    assert_eq!(pallet.set_max_bounds(Origin::Root, OTHER_METAVERSE, (0, 10)), Ok(()));
    assert_eq!(pallet.mint_estate(Origin::Root, ALICE, METAVERSE, vec![(0, 0), (0, 1)]), Ok(0));
    pallet.take_effects();
    assert_eq!(
        pallet.dissolve_estate(Origin::Signed(ALICE), 0, OTHER_METAVERSE, false),
        Err(Error::EstateDoesNotExist)
    );
    assert_eq!(pallet.check_estate(0), Ok(true));
    assert_eq!(pallet.get_estate_owner(ALICE, 0), Some(()));
    assert_eq!(pallet.check_landunit(OTHER_METAVERSE, (0, 0)), Ok(false));
    assert_eq!(pallet.check_landunit(OTHER_METAVERSE, (0, 1)), Ok(false));
    assert_eq!(pallet.get_land_units(METAVERSE, (0, 0)), Some(Owner::Estate(0)));
    assert_eq!(pallet.get_land_units(METAVERSE, (0, 1)), Some(Owner::Estate(0)));
    assert_eq!(pallet.all_land_units_count(), 2);
    assert_eq!(pallet.all_estates_count(), 1);
    assert!(pallet.effects().is_empty());

    assert_eq!(pallet.dissolve_estate(Origin::Signed(ALICE), 0, METAVERSE, false), Ok(()));
    assert_eq!(pallet.check_landunit(OTHER_METAVERSE, (0, 0)), Ok(false));
    assert_eq!(pallet.get_land_units(METAVERSE, (0, 0)), Some(Owner::Account(ALICE)));
    assert_eq!(pallet.get_land_units(METAVERSE, (0, 1)), Some(Owner::Account(ALICE)));
    assert_eq!(pallet.all_land_units_count(), 2);
    assert!(pallet.is_well_formed());
}

#[test]
fn dissolving_makes_no_land_and_loses_none() {
    let mut pallet = registry_with_bound();
    assert_eq!(pallet.mint_land(Origin::Root, BOB, METAVERSE, (9, 9)), Ok(()));
    assert_eq!(pallet.mint_estate(Origin::Root, BOB, METAVERSE, vec![(5, 5)]), Ok(0));
    assert_eq!(pallet.mint_estate(Origin::Root, ALICE, METAVERSE, vec![(0, 0), (0, 1)]), Ok(1));
    let before = pallet.into_archive();
    let keys: Vec<_> = before.land_units.iter().map(|unit| unit.0).collect();
    let count = before.all_land_units_count;
    let mut pallet = Pallet::restore(before).unwrap();
    assert_eq!(pallet.dissolve_estate(Origin::Signed(ALICE), 1, METAVERSE, false), Ok(()));
    let after = pallet.into_archive();
    let keys_after: Vec<_> = after.land_units.iter().map(|unit| unit.0).collect();
    assert_eq!(keys_after, keys);
    assert_eq!(after.all_land_units_count, count);
    let owners: Vec<Owner> = after.land_units.iter().map(|unit| unit.1).collect();
    assert_eq!(
        owners,
        vec![
            Owner::Account(BOB),
            Owner::Estate(0),
            Owner::Account(ALICE),
            Owner::Account(ALICE),
        ]
    );
}

#[test]
fn units_are_added_and_removed_only_in_the_region_of_the_estate() {
    let mut pallet = registry_with_bound();
    assert_eq!(pallet.set_max_bounds(Origin::Root, OTHER_METAVERSE, (0, 10)), Ok(()));
    assert_eq!(pallet.mint_estate(Origin::Root, ALICE, METAVERSE, vec![(0, 0), (0, 1)]), Ok(0));
    assert_eq!(pallet.mint_land(Origin::Root, ALICE, OTHER_METAVERSE, (3, 3)), Ok(()));
    pallet.take_effects();
    assert_eq!(
        pallet.add_land_unit_to_estate(
            Origin::Signed(ALICE),
            0,
            OTHER_METAVERSE,
            vec![(3, 3)],
            false
        ),
        Err(Error::EstateDoesNotExist)
    );
    assert_eq!(
        pallet.remove_land_unit_from_estate(
            Origin::Signed(ALICE),
            0,
            OTHER_METAVERSE,
            vec![(0, 0)],
            false
        ),
        Err(Error::EstateDoesNotExist)
    );
    assert_eq!(pallet.get_estates(0), Some(vec![(0, 0), (0, 1)]));
    assert_eq!(pallet.get_land_units(OTHER_METAVERSE, (3, 3)), Some(Owner::Account(ALICE)));
    assert_eq!(pallet.check_landunit(OTHER_METAVERSE, (0, 0)), Ok(false));
    assert_eq!(pallet.get_land_units(METAVERSE, (0, 0)), Some(Owner::Estate(0)));
    assert_eq!(pallet.all_land_units_count(), 3);
    assert!(pallet.effects().is_empty());
    assert!(pallet.is_well_formed());
}

#[test]
fn removing_units_makes_no_land() {
    let mut pallet = registry_with_bound();
    assert_eq!(
        pallet.mint_estate(Origin::Root, ALICE, METAVERSE, vec![(0, 0), (0, 1), (0, 2)]),
        Ok(0)
    );
    assert_eq!(
        pallet.remove_land_unit_from_estate(
            Origin::Signed(ALICE),
            0,
            METAVERSE,
            vec![(0, 1)],
            false
        ),
        Ok(())
    );
    let archive = pallet.into_archive();
    assert_eq!(archive.land_units.len(), 3);
    assert_eq!(archive.all_land_units_count, 3);
    assert_eq!(archive.land_units[1].1, Owner::Account(ALICE));
    assert_eq!(archive.land_units[0].1, Owner::Estate(0));
    assert_eq!(archive.land_units[2].1, Owner::Estate(0));
    assert_eq!(archive.estates[0].1.coordinates, vec![(0, 0), (0, 2)]);
    assert_eq!(archive.estates[0].1.metaverse_id, METAVERSE);
}

#[test]
fn create_estate_leaves_the_units_of_another_estate_alone() {
    let mut pallet = registry_with_bound();
    assert_eq!(pallet.mint_estate(Origin::Root, ALICE, METAVERSE, vec![(0, 0)]), Ok(0));
    assert_eq!(pallet.mint_land(Origin::Root, BOB, METAVERSE, (1, 1)), Ok(()));
    pallet.take_effects();
    assert_eq!(
        pallet.create_estate(Origin::Root, BOB, METAVERSE, vec![(1, 1), (0, 0)]),
        Err(Error::LandUnitIsNotAvailable)
    );
    assert_eq!(pallet.get_land_units(METAVERSE, (0, 0)), Some(Owner::Estate(0)));
    assert_eq!(pallet.get_land_units(METAVERSE, (1, 1)), Some(Owner::Account(BOB)));
    assert_eq!(pallet.all_estates_count(), 1);
    assert_eq!(pallet.next_estate_id(), 1);
    assert!(pallet.effects().is_empty());
}

#[test]
fn create_estate_takes_no_unit_twice() {
    let mut pallet = registry_with_bound();
    assert_eq!(pallet.mint_land(Origin::Root, BOB, METAVERSE, (1, 1)), Ok(()));
    assert_eq!(
        pallet.create_estate(Origin::Root, BOB, METAVERSE, vec![(1, 1), (1, 1)]),
        Err(Error::LandUnitIsNotAvailable)
    );
    assert_eq!(pallet.get_land_units(METAVERSE, (1, 1)), Some(Owner::Account(BOB)));
    assert_eq!(pallet.create_estate(Origin::Root, ALICE, METAVERSE, vec![(1, 1)]), Ok(0));
    assert_eq!(pallet.get_land_units(METAVERSE, (1, 1)), Some(Owner::Estate(0)));
    assert_eq!(pallet.all_land_units_count(), 1);
    assert!(pallet.is_well_formed());
}

#[test]
fn the_land_of_a_user_in_a_region_leaves_out_its_estates_elsewhere() {
    let mut pallet = registry_with_bound();
    assert_eq!(pallet.set_max_bounds(Origin::Root, OTHER_METAVERSE, (0, 10)), Ok(()));
    assert_eq!(pallet.mint_estate(Origin::Root, ALICE, METAVERSE, vec![(0, 0), (0, 1)]), Ok(0));
    assert_eq!(pallet.mint_estate(Origin::Root, ALICE, OTHER_METAVERSE, vec![(7, 7)]), Ok(1));
    assert_eq!(pallet.mint_land(Origin::Root, ALICE, OTHER_METAVERSE, (3, 3)), Ok(()));
    assert_eq!(pallet.get_user_land_units(&ALICE, &METAVERSE), vec![(0, 0), (0, 1)]);
    assert_eq!(pallet.get_user_land_units(&ALICE, &OTHER_METAVERSE), vec![(3, 3), (7, 7)]);
    assert!(!pallet.is_user_own_metaverse_land(&ALICE, &9));
    assert_eq!(pallet.dissolve_estate(Origin::Signed(ALICE), 1, OTHER_METAVERSE, false), Ok(()));
    assert_eq!(pallet.get_user_land_units(&ALICE, &OTHER_METAVERSE), vec![(7, 7), (3, 3)]);
    assert_eq!(pallet.get_user_land_units(&ALICE, &METAVERSE), vec![(0, 0), (0, 1)]);
}

#[test]
fn the_order_in_which_units_leave_makes_no_difference() {
    let mut one = registry_with_bound();
    let mut other = registry_with_bound();
    for pallet in [&mut one, &mut other] {
        assert_eq!(
            pallet.mint_estate(
                Origin::Root,
                ALICE,
                METAVERSE,
                vec![(0, 0), (0, 1), (0, 2), (0, 3)]
            ),
            Ok(0)
        );
    }
    assert_eq!(
        one.remove_land_unit_from_estate(
            Origin::Signed(ALICE),
            0,
            METAVERSE,
            vec![(0, 3), (0, 1)],
            false
        ),
        Ok(())
    );
    assert_eq!(
        other.remove_land_unit_from_estate(
            Origin::Signed(ALICE),
            0,
            METAVERSE,
            vec![(0, 1), (0, 3)],
            false
        ),
        Ok(())
    );
    assert_eq!(one.get_estates(0), Some(vec![(0, 0), (0, 2)]));
    assert_eq!(one.get_estates(0), other.get_estates(0));
    assert_eq!(one.get_land_units(METAVERSE, (0, 1)), Some(Owner::Account(ALICE)));
    assert_eq!(other.get_land_units(METAVERSE, (0, 3)), Some(Owner::Account(ALICE)));
}
