//! The registry itself: the tables, the counters and the log.

use crate::event::{log_view, Effect, Event};
use crate::assoc::{contains_key, distinct, get, index_of, lemma_found};
use crate::estate::{all_different, find_coordinate};
use crate::state::{custody_is_listed, in_custody, listed_if_held, units_in, State};
use crate::table::Table;
use crate::types::{
    Balance, Config, EstateId, EstateInfo, LandUnitKey, MetaverseId, Owner, Range, RoundIndex,
    RoundInfo, SnapshotKey, StakeKey, StakeSnapshot, UndeployedLandBlock, UndeployedLandBlockId,
};
use vstd::prelude::*;

verus! {

/// The registry of land units, estates, undeployed land blocks and stakes.
///
/// Its abstract value is a [`State`], which the fields below hold one for
/// one. An operation that is refused leaves the registry as it was.
pub struct Pallet {
    pub(crate) config: Config,
    /// The bound of each region that has one.
    pub(crate) max_bounds: Table<MetaverseId, (i32, i32)>,
    pub(crate) all_land_units_count: u64,
    pub(crate) total_undeployed_land_unit: u64,
    /// The holder of each land unit.
    pub(crate) land_units: Table<LandUnitKey, Owner>,
    pub(crate) next_estate_id: EstateId,
    pub(crate) all_estates_count: u64,
    /// The owner and the land units of each estate.
    pub(crate) estates: Table<EstateId, EstateInfo>,
    pub(crate) next_undeployed_land_block_id: UndeployedLandBlockId,
    pub(crate) undeployed_land_blocks: Table<UndeployedLandBlockId, UndeployedLandBlock>,
    pub(crate) round: RoundInfo,
    pub(crate) total_stake: Balance,
    /// What was bonded in all when each round began.
    pub(crate) staked: Table<RoundIndex, Balance>,
    /// The stakes that leave at the next round.
    pub(crate) exit_queue: Table<StakeKey, ()>,
    /// The record of each round, estate by estate.
    pub(crate) at_stake: Table<SnapshotKey, StakeSnapshot>,
    /// What each account has bonded on each estate.
    pub(crate) estate_stake: Table<StakeKey, Balance>,
    /// What is left for the outside world to do, oldest first.
    pub(crate) effects: Vec<Effect>,
}

/// What a registry is built from at the very beginning, besides its
/// parameters.
#[derive(Clone, Copy, Debug, PartialEq, Eq)]
pub struct GenesisConfig {
    /// How much land the first round may bring.
    pub round_issuance: Range,
}

impl Default for GenesisConfig {
    /// A beginning with no land to issue.
    fn default() -> (genesis: GenesisConfig)
        ensures
            genesis.round_issuance == (Range { min: 0, ideal: 0, max: 0 }),
    {
        GenesisConfig { round_issuance: Range { min: 0, ideal: 0, max: 0 } }
    }
}

impl GenesisConfig {
    /// The registry at its beginning: nothing is registered, the first
    /// round begins at block 0 and lasts at least
    /// `config.min_blocks_per_round` blocks, and the log tells of it.
    pub fn build(&self, config: Config) -> (pallet: Pallet)
        ensures
            pallet.wf(),
            pallet@ == State::genesis(config, self.round_issuance),
    {
        Pallet::new(config, self.round_issuance)
    }
}

impl View for Pallet {
    type V = State;

    open(crate) spec fn view(&self) -> State {
        State {
            config: self.config,
            max_bounds: self.max_bounds@,
            all_land_units_count: self.all_land_units_count,
            total_undeployed_land_unit: self.total_undeployed_land_unit,
            land_units: self.land_units@,
            next_estate_id: self.next_estate_id,
            all_estates_count: self.all_estates_count,
            estates: self.estates@,
            next_undeployed_land_block_id: self.next_undeployed_land_block_id,
            undeployed_land_blocks: self.undeployed_land_blocks@,
            round: self.round,
            total_stake: self.total_stake,
            staked: self.staked@,
            exit_queue: self.exit_queue@,
            at_stake: self.at_stake@,
            estate_stake: self.estate_stake@,
            effects: log_view(self.effects@),
        }
    }
}

impl Pallet {
    /// The registry is well formed: its state has the invariant.
    pub open spec fn wf(&self) -> bool {
        self@.inv()
    }

    /// A registry in which nothing is registered yet. The first round begins
    /// at block 0 and lasts at least `config.min_blocks_per_round` blocks;
    /// the log tells of it, with the greatest issuance of the round.
    pub fn new(config: Config, round_issuance: Range) -> (pallet: Pallet)
        ensures
            pallet.wf(),
            pallet@ == State::genesis(config, round_issuance),
    {
        let mut effects: Vec<Effect> = Vec::new();
        effects.push(Effect::Emit(Event::NewRound(0, 1, round_issuance.max)));
        let pallet = Pallet {
            config,
            max_bounds: Table::new(),
            all_land_units_count: 0,
            total_undeployed_land_unit: 0,
            land_units: Table::new(),
            next_estate_id: 0,
            all_estates_count: 0,
            estates: Table::new(),
            next_undeployed_land_block_id: 0,
            undeployed_land_blocks: Table::new(),
            round: RoundInfo::new(1, 0, config.min_blocks_per_round),
            total_stake: 0,
            staked: Table::new(),
            exit_queue: Table::new(),
            at_stake: Table::new(),
            estate_stake: Table::new(),
            effects,
        };
        assert(pallet@.effects =~= State::genesis(config, round_issuance).effects);
        pallet
    }

    /// What the registry has left for the outside world to do, oldest first.
    pub fn effects(&self) -> (log: &Vec<Effect>)
        ensures
            log_view(log@) == self@.effects,
    {
        &self.effects
    }

    /// Hands the log over and starts a new, empty one.
    pub fn take_effects(&mut self) -> (log: Vec<Effect>)
        ensures
            log_view(log@) == old(self)@.effects,
            final(self)@ == (State { effects: Seq::empty(), ..old(self)@ }),
            old(self).wf() ==> final(self).wf(),
    {
        let mut log: Vec<Effect> = Vec::new();
        std::mem::swap(&mut log, &mut self.effects);
        assert(log_view(self.effects@) =~= Seq::empty());
        log
    }

    /// Whether the estate holds each of the land units that it lists.
    fn estate_holds_its_units(&self, i: usize) -> (b: bool)
        requires
            i < self@.estates.len(),
            distinct(self@.land_units),
        ensures
            b == (forall|j: int|
                0 <= j < self@.estates[i as int].1.coordinates.len() ==> get(
                    self@.land_units,
                    LandUnitKey {
                        metaverse_id: self@.estates[i as int].1.metaverse_id,
                        coordinate: #[trigger] self@.estates[i as int].1.coordinates[j],
                    },
                ) == Some(Owner::Estate(self@.estates[i as int].0))),
    {
        let id = self.estates.key(i);
        let estate = self.estates.value(i);
        let mut j: usize = 0;
        while j < estate.coordinates.len()
            invariant
                j <= estate.coordinates.len(),
                i < self@.estates.len(),
                distinct(self@.land_units),
                id == self@.estates[i as int].0,
                estate@ == self@.estates[i as int].1,
                forall|k: int|
                    0 <= k < j ==> get(
                        self@.land_units,
                        LandUnitKey {
                            metaverse_id: self@.estates[i as int].1.metaverse_id,
                            coordinate: #[trigger] self@.estates[i as int].1.coordinates[k],
                        },
                    ) == Some(Owner::Estate(self@.estates[i as int].0)),
            decreases estate.coordinates.len() - j,
        {
            let key = LandUnitKey {
                metaverse_id: estate.metaverse_id,
                coordinate: estate.coordinates[j],
            };
            let held = match self.land_units.get(&key) {
                Some(Owner::Estate(holder)) => *holder == id,
                _ => false,
            };
            if !held {
                assert(self@.estates[i as int].1.coordinates[j as int] == key.coordinate);
                return false;
            }
            j += 1;
        }
        true
    }

    /// Whether every estate has an identifier that has been given out and
    /// at least one land unit, lists no unit twice and holds each unit that
    /// it lists.
    fn estates_are_sound(&self) -> (b: bool)
        requires
            distinct(self@.land_units),
        ensures
            b == {
                &&& forall|i: int|
                    0 <= i < self@.estates.len() ==> {
                        &&& (#[trigger] self@.estates[i]).0 < self@.next_estate_id
                        &&& self@.estates[i].1.coordinates.len() > 0
                        &&& self@.estates[i].1.coordinates.no_duplicates()
                    }
                &&& in_custody(self@.land_units, self@.estates)
            },
    {
        let mut i: usize = 0;
        while i < self.estates.len()
            invariant
                i <= self@.estates.len(),
                distinct(self@.land_units),
                forall|j: int|
                    0 <= j < i ==> {
                        &&& (#[trigger] self@.estates[j]).0 < self@.next_estate_id
                        &&& self@.estates[j].1.coordinates.len() > 0
                        &&& self@.estates[j].1.coordinates.no_duplicates()
                    },
                forall|p: int, j: int|
                    0 <= p < i && 0 <= j < self@.estates[p].1.coordinates.len() ==> get(
                        self@.land_units,
                        LandUnitKey {
                            metaverse_id: self@.estates[p].1.metaverse_id,
                            coordinate: #[trigger] self@.estates[p].1.coordinates[j],
                        },
                    ) == Some(Owner::Estate(self@.estates[p].0)),
            decreases self@.estates.len() - i,
        {
            let estate = self.estates.value(i);
            if self.estates.key(i) >= self.next_estate_id || estate.coordinates.len() == 0
                || !all_different(&estate.coordinates) {
                assert(!({
                    &&& self@.estates[i as int].0 < self@.next_estate_id
                    &&& self@.estates[i as int].1.coordinates.len() > 0
                    &&& self@.estates[i as int].1.coordinates.no_duplicates()
                }));
                return false;
            }
            if !self.estate_holds_its_units(i) {
                assert(!in_custody(self@.land_units, self@.estates));
                return false;
            }
            i += 1;
        }
        true
    }

    /// Whether every land unit that an estate holds is listed by that
    /// estate.
    fn custody_is_sound(&self) -> (b: bool)
        requires
            distinct(self@.land_units),
            distinct(self@.estates),
        ensures
            b == custody_is_listed(self@.land_units, self@.estates),
    {
        let ghost land = self@.land_units;
        let ghost estates = self@.estates;
        let mut i: usize = 0;
        while i < self.land_units.len()
            invariant
                i <= land.len(),
                land == self@.land_units,
                estates == self@.estates,
                distinct(land),
                distinct(estates),
                forall|j: int| 0 <= j < i ==> listed_if_held(land, estates, (#[trigger] land[j]).0),
            decreases land.len() - i,
        {
            let key = self.land_units.key(i);
            proof {
                lemma_found(land, key, i as int);
            }
            let listed = match self.land_units.value(i) {
                Owner::Estate(id) => match self.estates.get(id) {
                    Some(estate) => {
                        proof {
                            estate.coordinates@.index_of_first_ensures(key.coordinate);
                        }
                        estate.metaverse_id == key.metaverse_id && find_coordinate(
                            &estate.coordinates,
                            key.coordinate,
                        ).is_some()
                    },
                    None => false,
                },
                Owner::Account(_) => true,
            };
            if !listed {
                assert(!listed_if_held(land, estates, key));
                return false;
            }
            i += 1;
        }
        assert forall|key: LandUnitKey| #[trigger] listed_if_held(land, estates, key) by {
            if contains_key(land, key) {
                let j = index_of(land, key);
                assert(listed_if_held(land, estates, land[j].0));
            }
        }
        true
    }

    /// Whether every block is stored under its own identifier, which has
    /// been given out, and the blocks together hold as many land units as
    /// the count of undeployed units says.
    fn blocks_are_sound(&self) -> (b: bool)
        ensures
            b == {
                &&& forall|i: int|
                    0 <= i < self@.undeployed_land_blocks.len() ==> {
                        &&& (#[trigger] self@.undeployed_land_blocks[i]).0
                            < self@.next_undeployed_land_block_id
                        &&& self@.undeployed_land_blocks[i].1.id
                            == self@.undeployed_land_blocks[i].0
                    }
                &&& self@.total_undeployed_land_unit == units_in(self@.undeployed_land_blocks)
            },
    {
        let ghost blocks = self@.undeployed_land_blocks;
        let mut units: u128 = 0;
        let mut i: usize = 0;
        proof {
            assert(blocks.take(0) =~= Seq::empty());
        }
        while i < self.undeployed_land_blocks.len()
            invariant
                i <= blocks.len(),
                blocks == self@.undeployed_land_blocks,
                units == units_in(blocks.take(i as int)),
                units <= i * 0xffff_ffff,
                forall|j: int|
                    0 <= j < i ==> {
                        &&& (#[trigger] blocks[j]).0 < self@.next_undeployed_land_block_id
                        &&& blocks[j].1.id == blocks[j].0
                    },
            decreases blocks.len() - i,
        {
            let id = self.undeployed_land_blocks.key(i);
            let block = self.undeployed_land_blocks.value(i);
            if id >= self.next_undeployed_land_block_id || block.id != id {
                assert(!({
                    &&& blocks[i as int].0 < self@.next_undeployed_land_block_id
                    &&& blocks[i as int].1.id == blocks[i as int].0
                }));
                return false;
            }
            proof {
                assert(blocks.take(i + 1).drop_last() =~= blocks.take(i as int));
                assert(blocks.take(i + 1).last() == blocks[i as int]);
                assert(i * 0xffff_ffff + 0xffff_ffff == (i + 1) * 0xffff_ffff) by (nonlinear_arith);
                assert(i * 0xffff_ffff <= 0xffff_ffff_ffff_ffff * 0xffff_ffff) by (nonlinear_arith)
                    requires
                        i <= 0xffff_ffff_ffff_ffff,
                ;
            }
            units = units + block.number_land_units as u128;
            i += 1;
        }
        proof {
            assert(blocks.take(i as int) =~= blocks);
        }
        units == self.total_undeployed_land_unit as u128
    }

    /// Whether every stake that is recorded is at least the minimum stake.
    fn stakes_are_sound(&self) -> (b: bool)
        ensures
            b == (forall|i: int|
                0 <= i < self@.estate_stake.len() ==> (#[trigger] self@.estate_stake[i]).1
                    >= self@.config.minimum_stake),
    {
        let mut i: usize = 0;
        while i < self.estate_stake.len()
            invariant
                i <= self@.estate_stake.len(),
                forall|j: int|
                    0 <= j < i ==> (#[trigger] self@.estate_stake[j]).1
                        >= self@.config.minimum_stake,
            decreases self@.estate_stake.len() - i,
        {
            if *self.estate_stake.value(i) < self.config.minimum_stake {
                assert(!(self@.estate_stake[i as int].1 >= self@.config.minimum_stake));
                return false;
            }
            i += 1;
        }
        true
    }

    /// Whether the registry is well formed. Every registry that this
    /// library hands out is.
    pub fn is_well_formed(&self) -> (b: bool)
        ensures
            b == self.wf(),
    {
        self.max_bounds.has_distinct_keys() && self.land_units.has_distinct_keys()
            && self.estates.has_distinct_keys() && self.undeployed_land_blocks.has_distinct_keys()
            && self.staked.has_distinct_keys() && self.exit_queue.has_distinct_keys()
            && self.at_stake.has_distinct_keys() && self.estate_stake.has_distinct_keys()
            && self.land_units.len() as u128 == self.all_land_units_count as u128
            && self.estates.len() as u128 == self.all_estates_count as u128
            && self.estates_are_sound() && self.custody_is_sound() && self.blocks_are_sound()
            && self.stakes_are_sound()
    }

    /// Adds an effect to the log.
    pub(crate) fn push_effect(&mut self, effect: Effect)
        ensures
            final(self)@ == old(self)@.instruct(effect@),
    {
        self.effects.push(effect);
        assert(log_view(self.effects@) =~= log_view(old(self).effects@).push(effect@));
    }
}

} // verus!
