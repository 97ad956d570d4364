use pallet_estate::{Config, Effect, Error, Event, Origin, Pallet, Range};

const ALICE: u64 = 1;
const BOB: u64 = 2;
const METAVERSE: u64 = 7;
const ISSUANCE: Range = Range { min: 1, ideal: 2, max: 3 };

fn registry_with(minimum_stake: u128) -> Pallet {
    let mut pallet = Pallet::new(
        Config {
            land_treasury: 1000,
            min_blocks_per_round: 20,
            minimum_stake,
            reward_payment_delay: 2,
        },
        ISSUANCE,
    );
    assert_eq!(pallet.set_max_bounds(Origin::Root, METAVERSE, (0, 10)), Ok(()));
    assert_eq!(pallet.mint_estate(Origin::Root, ALICE, METAVERSE, vec![(0, 0), (0, 1)]), Ok(0));
    assert_eq!(pallet.mint_estate(Origin::Root, BOB, METAVERSE, vec![(5, 5)]), Ok(1));
    pallet.take_effects();
    pallet
}

fn registry() -> Pallet {
    registry_with(10)
}

#[test]
fn bond_leave_and_get_the_stake_back_at_the_next_round() {
    let mut pallet = registry();
    assert_eq!(pallet.bond_more(Origin::Signed(ALICE), 0, 50, true), Ok(()));
    assert_eq!(pallet.total_stake(), 50);
    assert_eq!(pallet.estate_stake(0, ALICE), 50);
    assert_eq!(pallet.leave_staking(Origin::Signed(ALICE), 0), Ok(()));
    assert_eq!(pallet.exit_queue(ALICE, 0), Some(()));
    assert_eq!(pallet.estate_stake(0, ALICE), 50);
    pallet.take_effects();

    assert_eq!(pallet.on_initialize(20, ISSUANCE), Ok(true));
    assert_eq!(pallet.estate_stake(0, ALICE), 0);
    assert_eq!(pallet.exit_queue(ALICE, 0), None);
    assert_eq!(pallet.total_stake(), 0);
    assert_eq!(
        pallet.effects(),
        &vec![
            Effect::Emit(Event::StakersPaid(2)),
            Effect::Unreserve(ALICE, 50),
            Effect::Emit(Event::ExitQueueCleared(2)),
            Effect::Emit(Event::StakeSnapshotUpdated(2, 0)),
            Effect::Emit(Event::UndeployedLandBlockIssued(1000, 0)),
            Effect::Emit(Event::UndeployedLandBlockIssued(1000, 1)),
            Effect::Emit(Event::NewRound(20, 2, 3)),
        ]
    );
}

#[test]
fn bond_more_says_what_has_to_be_reserved() {
    let pallet = registry();
    assert_eq!(pallet.bond_more_reservation(Origin::Signed(ALICE), 0, 50), Ok((ALICE, 50)));
    assert_eq!(pallet.bond_more_reservation(Origin::Signed(BOB), 1, 10), Ok((BOB, 10)));
    assert_eq!(
        pallet.bond_more_reservation(Origin::Signed(ALICE), 0, 9),
        Err(Error::BelowMinimumStake)
    );
    assert_eq!(
        pallet.bond_more_reservation(Origin::Signed(BOB), 0, 50),
        Err(Error::NoPermission)
    );
    assert_eq!(pallet.bond_more_reservation(Origin::Root, 0, 50), Err(Error::BadOrigin));
    assert_eq!(pallet.estate_stake(0, ALICE), 0);
    assert_eq!(pallet.total_stake(), 0);
}

#[test]
fn bond_more_adds_to_the_stake_and_to_the_total() {
    let mut pallet = registry();
    assert_eq!(pallet.bond_more(Origin::Signed(ALICE), 0, 10, true), Ok(()));
    assert_eq!(pallet.bond_more(Origin::Signed(ALICE), 0, 5, true), Ok(()));
    assert_eq!(pallet.bond_more(Origin::Signed(BOB), 1, 30, true), Ok(()));
    assert_eq!(pallet.estate_stake(0, ALICE), 15);
    assert_eq!(pallet.estate_stake(1, BOB), 30);
    assert_eq!(pallet.estate_stake(1, ALICE), 0);
    assert_eq!(pallet.total_stake(), 45);
    assert_eq!(
        pallet.effects(),
        &vec![
            Effect::Emit(Event::EstateStakeIncreased(ALICE, 0, 10)),
            Effect::Emit(Event::EstateStakeIncreased(ALICE, 0, 5)),
            Effect::Emit(Event::EstateStakeIncreased(BOB, 1, 30)),
        ]
    );
}

#[test]
fn bond_more_without_the_reservation_bonds_nothing() {
    let mut pallet = registry();
    assert_eq!(
        pallet.bond_more(Origin::Signed(ALICE), 0, 50, false),
        Err(Error::InsufficientFund)
    );
    assert_eq!(pallet.estate_stake(0, ALICE), 0);
    assert_eq!(pallet.total_stake(), 0);
    assert!(pallet.effects().is_empty());
}

#[test]
fn bond_more_is_refused_below_the_minimum_stake() {
    let mut pallet = registry();
    assert_eq!(
        pallet.bond_more(Origin::Signed(ALICE), 0, 9, true),
        Err(Error::BelowMinimumStake)
    );
    assert_eq!(
        pallet.bond_more(Origin::Signed(ALICE), 0, 0, true),
        Err(Error::BelowMinimumStake)
    );
    assert_eq!(pallet.bond_more(Origin::Signed(ALICE), 0, 10, true), Ok(()));
    assert_eq!(pallet.bond_more(Origin::Signed(ALICE), 0, 0, true), Ok(()));
    assert_eq!(pallet.estate_stake(0, ALICE), 10);
}

#[test]
fn bond_more_needs_the_owner_of_an_estate_that_exists() {
    let mut pallet = registry();
    assert_eq!(pallet.bond_more(Origin::Root, 0, 50, true), Err(Error::BadOrigin));
    assert_eq!(pallet.bond_more(Origin::Unsigned, 0, 50, true), Err(Error::BadOrigin));
    assert_eq!(
        pallet.bond_more(Origin::Signed(ALICE), 9, 50, true),
        Err(Error::EstateDoesNotExist)
    );
    assert_eq!(pallet.bond_more(Origin::Signed(BOB), 0, 50, true), Err(Error::NoPermission));
    assert_eq!(pallet.total_stake(), 0);
}

#[test]
fn a_stake_cannot_leave_the_range_of_a_balance() {
    let mut pallet = registry();
    assert_eq!(pallet.bond_more(Origin::Signed(ALICE), 0, u128::MAX, true), Ok(()));
    assert_eq!(pallet.bond_more(Origin::Signed(ALICE), 0, 1, true), Err(Error::Overflow));
    assert_eq!(pallet.estate_stake(0, ALICE), u128::MAX);
    assert_eq!(pallet.total_stake(), u128::MAX);
}

#[test]
fn the_total_stake_stops_at_the_greatest_balance() {
    let mut pallet = registry();
    assert_eq!(pallet.bond_more(Origin::Signed(ALICE), 0, u128::MAX - 5, true), Ok(()));
    assert_eq!(pallet.bond_more(Origin::Signed(BOB), 1, 30, true), Ok(()));
    assert_eq!(pallet.total_stake(), u128::MAX);
    assert_eq!(pallet.bond_less(Origin::Signed(BOB), 1, 10), Ok(()));
    assert_eq!(pallet.total_stake(), u128::MAX - 10);
}

#[test]
fn bond_less_takes_back_and_tells_the_ledger_to_release() {
    let mut pallet = registry();
    assert_eq!(pallet.bond_more(Origin::Signed(ALICE), 0, 50, true), Ok(()));
    pallet.take_effects();
    assert_eq!(pallet.bond_less(Origin::Signed(ALICE), 0, 40), Ok(()));
    assert_eq!(pallet.estate_stake(0, ALICE), 10);
    assert_eq!(pallet.total_stake(), 10);
    assert_eq!(
        pallet.effects(),
        &vec![
            Effect::Unreserve(ALICE, 40),
            Effect::Emit(Event::EstateStakeDecreased(ALICE, 0, 40)),
        ]
    );
}

#[test]
fn bond_less_keeps_the_minimum_stake() {
    let mut pallet = registry();
    assert_eq!(pallet.bond_more(Origin::Signed(ALICE), 0, 50, true), Ok(()));
    pallet.take_effects();
    assert_eq!(pallet.bond_less(Origin::Signed(ALICE), 0, 41), Err(Error::BelowMinimumStake));
    assert_eq!(pallet.bond_less(Origin::Signed(ALICE), 0, 50), Err(Error::BelowMinimumStake));
    assert_eq!(pallet.bond_less(Origin::Signed(ALICE), 0, 51), Err(Error::Overflow));
    assert_eq!(pallet.estate_stake(0, ALICE), 50);
    assert_eq!(pallet.total_stake(), 50);
    assert!(pallet.effects().is_empty());
}

#[test]
fn bond_less_never_takes_everything_back() {
    let mut pallet = registry_with(0);
    assert_eq!(pallet.bond_more(Origin::Signed(ALICE), 0, 5, true), Ok(()));
    assert_eq!(pallet.bond_less(Origin::Signed(ALICE), 0, 5), Err(Error::BelowMinimumStake));
    assert_eq!(pallet.bond_less(Origin::Signed(ALICE), 0, 4), Ok(()));
    assert_eq!(pallet.estate_stake(0, ALICE), 1);
    assert_eq!(pallet.bond_less(Origin::Signed(BOB), 1, 0), Err(Error::BelowMinimumStake));
}

#[test]
fn bond_less_needs_the_owner_of_an_estate_that_exists() {
    let mut pallet = registry();
    assert_eq!(pallet.bond_more(Origin::Signed(ALICE), 0, 50, true), Ok(()));
    assert_eq!(pallet.bond_less(Origin::Root, 0, 10), Err(Error::BadOrigin));
    assert_eq!(pallet.bond_less(Origin::Signed(ALICE), 9, 10), Err(Error::EstateDoesNotExist));
    assert_eq!(pallet.bond_less(Origin::Signed(BOB), 0, 10), Err(Error::NoPermission));
    assert_eq!(pallet.estate_stake(0, ALICE), 50);
}

#[test]
fn leave_staking_marks_the_stake_and_blocks_bonding() {
    let mut pallet = registry();
    assert_eq!(pallet.bond_more(Origin::Signed(ALICE), 0, 50, true), Ok(()));
    pallet.take_effects();
    assert_eq!(pallet.leave_staking(Origin::Signed(ALICE), 0), Ok(()));
    assert_eq!(pallet.effects(), &vec![Effect::Emit(Event::EstateStakeLeft(ALICE, 0))]);
    assert_eq!(pallet.exit_queue(ALICE, 0), Some(()));
    assert_eq!(pallet.exit_queue(ALICE, 1), None);
    assert_eq!(pallet.exit_queue(BOB, 0), None);
    assert_eq!(
        pallet.leave_staking(Origin::Signed(ALICE), 0),
        Err(Error::EstateStakeAlreadyLeft)
    );
    assert_eq!(
        pallet.bond_more(Origin::Signed(ALICE), 0, 10, true),
        Err(Error::EstateStakeAlreadyLeft)
    );
    assert_eq!(
        pallet.bond_more_reservation(Origin::Signed(ALICE), 0, 10),
        Err(Error::EstateStakeAlreadyLeft)
    );
    assert_eq!(
        pallet.bond_less(Origin::Signed(ALICE), 0, 10),
        Err(Error::EstateStakeAlreadyLeft)
    );
    assert_eq!(pallet.estate_stake(0, ALICE), 50);
    assert_eq!(pallet.total_stake(), 50);
}

#[test]
fn leave_staking_needs_a_signed_caller_with_a_stake() {
    let mut pallet = registry();
    assert_eq!(pallet.leave_staking(Origin::Root, 0), Err(Error::BadOrigin));
    assert_eq!(pallet.leave_staking(Origin::Unsigned, 0), Err(Error::BadOrigin));
    assert_eq!(pallet.leave_staking(Origin::Signed(ALICE), 9), Err(Error::AccountHasNoStake));
    assert_eq!(pallet.leave_staking(Origin::Signed(ALICE), 0), Err(Error::AccountHasNoStake));
    assert_eq!(pallet.leave_staking(Origin::Signed(BOB), 0), Err(Error::AccountHasNoStake));
    assert_eq!(pallet.exit_queue(ALICE, 0), None);
    assert!(pallet.effects().is_empty());
}

#[test]
fn a_stake_on_a_dissolved_estate_can_still_leave() {
    let mut pallet = registry();
    assert_eq!(pallet.bond_more(Origin::Signed(ALICE), 0, 50, true), Ok(()));
    assert_eq!(pallet.dissolve_estate(Origin::Signed(ALICE), 0, METAVERSE, false), Ok(()));
    assert_eq!(pallet.check_estate(0), Ok(false));
    assert_eq!(pallet.estate_stake(0, ALICE), 50);
    assert_eq!(pallet.total_stake(), 50);
    assert_eq!(
        pallet.bond_less(Origin::Signed(ALICE), 0, 10),
        Err(Error::EstateDoesNotExist)
    );
    pallet.take_effects();

    assert_eq!(pallet.leave_staking(Origin::Signed(ALICE), 0), Ok(()));
    assert_eq!(pallet.effects(), &vec![Effect::Emit(Event::EstateStakeLeft(ALICE, 0))]);
    assert_eq!(pallet.exit_queue(ALICE, 0), Some(()));
    assert_eq!(pallet.estate_stake(0, ALICE), 50);
    assert_eq!(pallet.total_stake(), 50);
    assert_eq!(
        pallet.leave_staking(Origin::Signed(ALICE), 0),
        Err(Error::EstateStakeAlreadyLeft)
    );
    pallet.take_effects();

    assert_eq!(pallet.on_initialize(20, ISSUANCE), Ok(true));
    assert_eq!(pallet.effects()[1], Effect::Unreserve(ALICE, 50));
    assert_eq!(pallet.estate_stake(0, ALICE), 0);
    assert_eq!(pallet.exit_queue(ALICE, 0), None);
    assert!(pallet.is_well_formed());
}

#[test]
fn a_stake_outlives_the_ownership_of_the_estate() {
    let mut pallet = registry();
    assert_eq!(pallet.bond_more(Origin::Signed(ALICE), 0, 50, true), Ok(()));
    assert_eq!(pallet.transfer_estate(Origin::Signed(ALICE), BOB, 0, false), Ok(()));
    assert_eq!(pallet.estate_stake(0, ALICE), 50);
    assert_eq!(pallet.bond_less(Origin::Signed(ALICE), 0, 10), Err(Error::NoPermission));
    assert_eq!(pallet.leave_staking(Origin::Signed(ALICE), 0), Ok(()));
    assert_eq!(pallet.on_initialize(20, ISSUANCE), Ok(true));
    assert_eq!(pallet.estate_stake(0, ALICE), 0);
    assert!(pallet.effects().contains(&Effect::Unreserve(ALICE, 50)));
}

#[test]
fn every_stake_is_nothing_or_at_least_the_minimum() {
    let mut pallet = registry();
    let amounts: Vec<u128> = vec![0, 1, 9, 10, 11, 25];
    for amount in amounts {
        let _ = pallet.bond_more(Origin::Signed(ALICE), 0, amount, true);
        let stake = pallet.estate_stake(0, ALICE);
        assert!(stake == 0 || stake >= 10);
        let _ = pallet.bond_less(Origin::Signed(ALICE), 0, amount);
        let stake = pallet.estate_stake(0, ALICE);
        assert!(stake == 0 || stake >= 10);
    }
    assert_eq!(pallet.estate_stake(0, ALICE), 10);
}
