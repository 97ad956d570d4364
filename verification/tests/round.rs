use pallet_estate::{
    Bond, Config, Effect, Error, Event, Origin, Pallet, Range, StakeSnapshot,
    UndeployedLandBlockType,
};

const ALICE: u64 = 1;
const BOB: u64 = 2;
const TREASURY: u64 = 1000;
const METAVERSE: u64 = 7;
const ISSUANCE: Range = Range { min: 1, ideal: 2, max: 3 };

fn registry() -> Pallet {
    let mut pallet = Pallet::new(
        Config {
            land_treasury: TREASURY,
            min_blocks_per_round: 20,
            minimum_stake: 10,
            reward_payment_delay: 2,
        },
        ISSUANCE,
    );
    assert_eq!(pallet.set_max_bounds(Origin::Root, METAVERSE, (0, 10)), Ok(()));
    assert_eq!(pallet.mint_estate(Origin::Root, ALICE, METAVERSE, vec![(0, 0), (0, 1)]), Ok(0));
    assert_eq!(pallet.mint_estate(Origin::Root, BOB, METAVERSE, vec![(5, 5)]), Ok(1));
    pallet.take_effects();
    pallet
}

#[test]
fn nothing_happens_while_the_round_is_not_over() {
    let mut pallet = registry();
    assert_eq!(pallet.bond_more(Origin::Signed(ALICE), 0, 50, true), Ok(()));
    assert_eq!(pallet.leave_staking(Origin::Signed(ALICE), 0), Ok(()));
    pallet.take_effects();
    assert_eq!(pallet.on_initialize(0, ISSUANCE), Ok(false));
    assert_eq!(pallet.on_initialize(19, ISSUANCE), Ok(false));
    assert_eq!(pallet.round().current, 1);
    assert_eq!(pallet.round().first, 0);
    assert_eq!(pallet.exit_queue(ALICE, 0), Some(()));
    assert_eq!(pallet.estate_stake(0, ALICE), 50);
    assert_eq!(pallet.all_undeployed_land_unit(), 0);
    assert!(pallet.effects().is_empty());
}

#[test]
fn a_round_starts_once_its_length_has_passed() {
    let mut pallet = registry();
    assert_eq!(pallet.on_initialize(20, ISSUANCE), Ok(true));
    assert_eq!(pallet.round().current, 2);
    assert_eq!(pallet.round().first, 20);
    assert_eq!(pallet.round().length, 20);
    assert_eq!(pallet.on_initialize(21, ISSUANCE), Ok(false));
    assert_eq!(pallet.on_initialize(39, ISSUANCE), Ok(false));
    assert_eq!(pallet.on_initialize(10, ISSUANCE), Ok(false));
    assert_eq!(pallet.on_initialize(45, ISSUANCE), Ok(true));
    assert_eq!(pallet.round().current, 3);
    assert_eq!(pallet.round().first, 45);
    assert_eq!(pallet.on_initialize(64, ISSUANCE), Ok(false));
    assert_eq!(pallet.on_initialize(65, ISSUANCE), Ok(true));
    assert_eq!(pallet.round().current, 4);
}

#[test]
fn a_round_of_no_length_starts_at_every_block() {
    let mut pallet = Pallet::new(
        Config {
            land_treasury: TREASURY,
            min_blocks_per_round: 0,
            minimum_stake: 10,
            reward_payment_delay: 2,
        },
        ISSUANCE,
    );
    assert_eq!(pallet.on_initialize(0, ISSUANCE), Ok(true));
    assert_eq!(pallet.on_initialize(0, ISSUANCE), Ok(true));
    assert_eq!(pallet.on_initialize(1, ISSUANCE), Ok(true));
    assert_eq!(pallet.round().current, 4);
    assert_eq!(pallet.round().first, 1);
}

#[test]
fn a_round_issues_land_to_the_treasury() {
    let mut pallet = registry();
    assert_eq!(pallet.on_initialize(20, Range { min: 0, ideal: 3, max: 9 }), Ok(true));
    assert_eq!(pallet.next_undeployed_land_block_id(), 3);
    assert_eq!(pallet.all_undeployed_land_unit(), 300);
    for id in 0..3 {
        let block = pallet.get_undeployed_land_block(id).unwrap();
        assert_eq!(block.id, id);
        assert_eq!(block.owner, TREASURY);
        assert_eq!(block.number_land_units, 100);
        assert_eq!(block.undeployed_land_block_type, UndeployedLandBlockType::Transferable);
        assert_eq!(block.approved, None);
        assert!(!block.is_frozen);
    }
    assert_eq!(
        pallet.effects(),
        &vec![
            Effect::Emit(Event::StakersPaid(2)),
            Effect::Emit(Event::ExitQueueCleared(2)),
            Effect::Emit(Event::StakeSnapshotUpdated(2, 0)),
            Effect::Emit(Event::UndeployedLandBlockIssued(TREASURY, 0)),
            Effect::Emit(Event::UndeployedLandBlockIssued(TREASURY, 1)),
            Effect::Emit(Event::UndeployedLandBlockIssued(TREASURY, 2)),
            Effect::Emit(Event::NewRound(20, 2, 9)),
        ]
    );
}

#[test]
fn a_round_that_issues_nothing_still_starts() {
    let mut pallet = registry();
    assert_eq!(pallet.on_initialize(20, Range { min: 0, ideal: 0, max: 0 }), Ok(true));
    assert_eq!(pallet.all_undeployed_land_unit(), 0);
    assert_eq!(pallet.round().current, 2);
}

#[test]
fn a_round_records_the_stakes_estate_by_estate() {
    let mut pallet = registry();
    assert_eq!(pallet.bond_more(Origin::Signed(ALICE), 0, 50, true), Ok(()));
    assert_eq!(pallet.bond_more(Origin::Signed(BOB), 1, 30, true), Ok(()));
    assert_eq!(pallet.transfer_estate(Origin::Signed(BOB), ALICE, 1, false), Ok(()));
    assert_eq!(pallet.bond_more(Origin::Signed(ALICE), 1, 12, true), Ok(()));
    pallet.take_effects();
    assert_eq!(pallet.on_initialize(20, ISSUANCE), Ok(true));
    assert_eq!(
        pallet.at_stake(2, 0),
        StakeSnapshot { stakers: vec![Bond { staker: ALICE, amount: 50 }], total_bond: 50 }
    );
    assert_eq!(
        pallet.at_stake(2, 1),
        StakeSnapshot {
            stakers: vec![
                Bond { staker: BOB, amount: 30 },
                Bond { staker: ALICE, amount: 12 },
            ],
            total_bond: 42,
        }
    );
    assert_eq!(pallet.at_stake(1, 0), StakeSnapshot { stakers: vec![], total_bond: 0 });
    assert_eq!(pallet.at_stake(2, 5), StakeSnapshot { stakers: vec![], total_bond: 0 });
    assert_eq!(pallet.total_stake(), 92);
    assert_eq!(pallet.staked(2), 92);
    assert_eq!(pallet.staked(1), 0);
    assert!(pallet.effects().contains(&Effect::Emit(Event::StakeSnapshotUpdated(2, 92))));
}

#[test]
fn a_round_leaves_out_the_stakes_on_estates_that_are_gone() {
    let mut pallet = registry();
    assert_eq!(pallet.bond_more(Origin::Signed(ALICE), 0, 50, true), Ok(()));
    assert_eq!(pallet.bond_more(Origin::Signed(BOB), 1, 30, true), Ok(()));
    assert_eq!(pallet.dissolve_estate(Origin::Signed(ALICE), 0, METAVERSE, false), Ok(()));
    assert_eq!(pallet.total_stake(), 80);
    assert_eq!(pallet.on_initialize(20, ISSUANCE), Ok(true));
    assert_eq!(pallet.at_stake(2, 0), StakeSnapshot { stakers: vec![], total_bond: 0 });
    assert_eq!(pallet.total_stake(), 30);
    assert_eq!(pallet.staked(2), 30);
    assert_eq!(pallet.estate_stake(0, ALICE), 50);
}

#[test]
fn the_stakers_of_a_round_are_paid_after_the_delay() {
    let mut pallet = registry();
    assert_eq!(pallet.bond_more(Origin::Signed(ALICE), 0, 50, true), Ok(()));
    assert_eq!(pallet.bond_more(Origin::Signed(BOB), 1, 30, true), Ok(()));
    assert_eq!(pallet.on_initialize(20, ISSUANCE), Ok(true));
    pallet.take_effects();

    assert_eq!(pallet.on_initialize(40, ISSUANCE), Ok(true));
    assert_eq!(pallet.effects()[0], Effect::Emit(Event::StakersPaid(3)));
    assert_eq!(pallet.at_stake(2, 0).stakers.len(), 1);
    pallet.take_effects();

    assert_eq!(pallet.on_initialize(60, ISSUANCE), Ok(true));
    assert_eq!(
        pallet.effects()[..4],
        [
            Effect::Reward(ALICE, 1),
            Effect::Reward(BOB, 1),
            Effect::Emit(Event::StakersPaid(4)),
            Effect::Emit(Event::ExitQueueCleared(4)),
        ]
    );
    assert_eq!(pallet.at_stake(2, 0), StakeSnapshot { stakers: vec![], total_bond: 0 });
    assert_eq!(pallet.at_stake(2, 1), StakeSnapshot { stakers: vec![], total_bond: 0 });
    assert_eq!(pallet.at_stake(3, 0).stakers, vec![Bond { staker: ALICE, amount: 50 }]);
    assert_eq!(pallet.at_stake(4, 1).total_bond, 30);
    pallet.take_effects();

    assert_eq!(pallet.on_initialize(80, ISSUANCE), Ok(true));
    assert_eq!(pallet.effects()[..3], [
        Effect::Reward(ALICE, 1),
        Effect::Reward(BOB, 1),
        Effect::Emit(Event::StakersPaid(5)),
    ]);
    assert_eq!(pallet.at_stake(3, 0), StakeSnapshot { stakers: vec![], total_bond: 0 });
}

#[test]
fn a_stake_that_left_is_neither_recorded_nor_paid() {
    let mut pallet = registry();
    assert_eq!(pallet.bond_more(Origin::Signed(ALICE), 0, 50, true), Ok(()));
    assert_eq!(pallet.bond_more(Origin::Signed(BOB), 1, 30, true), Ok(()));
    assert_eq!(pallet.leave_staking(Origin::Signed(BOB), 1), Ok(()));
    pallet.take_effects();
    assert_eq!(pallet.on_initialize(20, ISSUANCE), Ok(true));
    assert_eq!(pallet.effects()[1], Effect::Unreserve(BOB, 30));
    assert_eq!(pallet.at_stake(2, 1), StakeSnapshot { stakers: vec![], total_bond: 0 });
    assert_eq!(pallet.total_stake(), 50);
    assert_eq!(pallet.estate_stake(1, BOB), 0);
    assert_eq!(pallet.exit_queue(BOB, 1), None);
    assert_eq!(pallet.bond_more(Origin::Signed(BOB), 1, 10, true), Ok(()));
    assert_eq!(pallet.estate_stake(1, BOB), 10);
}

#[test]
fn the_exit_queue_is_cleared_in_the_order_of_leaving() {
    let mut pallet = registry();
    assert_eq!(pallet.bond_more(Origin::Signed(ALICE), 0, 50, true), Ok(()));
    assert_eq!(pallet.bond_more(Origin::Signed(BOB), 1, 30, true), Ok(()));
    assert_eq!(pallet.leave_staking(Origin::Signed(BOB), 1), Ok(()));
    assert_eq!(pallet.leave_staking(Origin::Signed(ALICE), 0), Ok(()));
    pallet.take_effects();
    assert_eq!(pallet.on_initialize(20, ISSUANCE), Ok(true));
    assert_eq!(
        pallet.effects()[..4],
        [
            Effect::Emit(Event::StakersPaid(2)),
            Effect::Unreserve(BOB, 30),
            Effect::Unreserve(ALICE, 50),
            Effect::Emit(Event::ExitQueueCleared(2)),
        ]
    );
    assert_eq!(pallet.exit_queue(ALICE, 0), None);
    assert_eq!(pallet.exit_queue(BOB, 1), None);
    assert_eq!(pallet.total_stake(), 0);
    assert_eq!(pallet.staked(2), 0);
}

#[test]
fn a_round_that_cannot_issue_does_not_start() {
    let mut pallet = registry();
    assert_eq!(pallet.bond_more(Origin::Signed(ALICE), 0, 50, true), Ok(()));
    assert_eq!(pallet.leave_staking(Origin::Signed(ALICE), 0), Ok(()));
    pallet.take_effects();
    assert_eq!(
        pallet.on_initialize(20, Range { min: 0, ideal: 4_294_967_296, max: 0 }),
        Err(Error::Overflow)
    );
    assert_eq!(pallet.round().current, 1);
    assert_eq!(pallet.exit_queue(ALICE, 0), Some(()));
    assert_eq!(pallet.estate_stake(0, ALICE), 50);
    assert_eq!(pallet.all_undeployed_land_unit(), 0);
    assert!(pallet.effects().is_empty());
    assert_eq!(pallet.on_initialize(20, ISSUANCE), Ok(true));
    assert_eq!(pallet.round().current, 2);
}

#[test]
fn the_reward_pool_is_twice_the_stake_as_far_as_a_balance_goes() {
    assert_eq!(Pallet::compute_issuance(0), 0);
    assert_eq!(Pallet::compute_issuance(21), 42);
    assert_eq!(Pallet::compute_issuance(u128::MAX / 2), u128::MAX - 1);
    assert_eq!(Pallet::compute_issuance(u128::MAX / 2 + 1), u128::MAX);
    assert_eq!(Pallet::compute_issuance(u128::MAX), u128::MAX);
}

#[test]
fn every_staker_is_due_one_unit() {
    assert_eq!(Pallet::reward_due(0, Bond { staker: ALICE, amount: 50 }), 1);
    assert_eq!(Pallet::reward_due(1_000_000, Bond { staker: BOB, amount: 1 }), 1);
}

#[test]
fn a_reward_is_told_only_if_the_ledger_has_credited_it() {
    assert_eq!(Pallet::staking_rewarded(ALICE, Some(1)), Some(Event::StakingRewarded(ALICE, 1)));
    assert_eq!(Pallet::staking_rewarded(ALICE, Some(0)), Some(Event::StakingRewarded(ALICE, 0)));
    assert_eq!(Pallet::staking_rewarded(ALICE, None), None);
}

#[test]
fn the_sum_of_a_record_stops_at_the_greatest_balance() {
    let mut pallet = registry();
    assert_eq!(pallet.bond_more(Origin::Signed(ALICE), 0, u128::MAX - 1, true), Ok(()));
    assert_eq!(pallet.transfer_estate(Origin::Signed(ALICE), BOB, 0, false), Ok(()));
    assert_eq!(pallet.bond_more(Origin::Signed(BOB), 0, 10, true), Ok(()));
    assert_eq!(pallet.on_initialize(20, ISSUANCE), Ok(true));
    let record = pallet.at_stake(2, 0);
    assert_eq!(record.stakers.len(), 2);
    assert_eq!(record.total_bond, u128::MAX);
    assert_eq!(pallet.total_stake(), u128::MAX);
}

#[test]
fn an_estate_without_stakers_is_left_out_of_the_record() {
    let mut pallet = registry();
    assert_eq!(pallet.bond_more(Origin::Signed(BOB), 1, 30, true), Ok(()));
    assert_eq!(pallet.on_initialize(20, ISSUANCE), Ok(true));
    let archive = pallet.into_archive();
    assert_eq!(archive.at_stake.len(), 1);
    assert_eq!(archive.at_stake[0].0.round, 2);
    assert_eq!(archive.at_stake[0].0.estate_id, 1);
    assert_eq!(
        archive.at_stake[0].1,
        StakeSnapshot { stakers: vec![Bond { staker: BOB, amount: 30 }], total_bond: 30 }
    );
    assert_eq!(archive.staked, vec![(2, 30)]);
}

#[test]
fn a_record_is_used_up_by_its_payout() {
    let mut pallet = registry();
    assert_eq!(pallet.bond_more(Origin::Signed(ALICE), 0, 50, true), Ok(()));
    assert_eq!(pallet.on_initialize(20, ISSUANCE), Ok(true));
    assert_eq!(pallet.on_initialize(40, ISSUANCE), Ok(true));
    assert_eq!(pallet.on_initialize(60, ISSUANCE), Ok(true));
    let archive = pallet.into_archive();
    let rounds: Vec<u32> = archive.at_stake.iter().map(|entry| entry.0.round).collect();
    assert_eq!(rounds, vec![3, 4]);
    assert_eq!(archive.staked, vec![(2, 50), (3, 50), (4, 50)]);
}
