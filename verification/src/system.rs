//! The year, phase by phase.

use crate::battle::{
    all_living, all_within, apart, battle, battle_fits, battle_outcome, contenders, filter_battle,
    first_missing, lemma_apart_pairs_all_fight, lemma_chosen_pairs_stay_apart, lemma_none_missing,
    pair, paired, proceeds, BattleQuery, GAIN_CEILING,
};
use crate::config::Config;
use crate::cultivation::Cultivation;
use crate::entropy::valid_draws;
use crate::level::LevelTable;
use crate::life::Life;
use crate::spawn::{despawn_dead, newborns, obituaries, spawn_cultivators, DeathEvent};
use crate::stat::{collect_death, increase_year, GlobalState, XiuxianStatistics};
use crate::world::{arrivals, living, Entity, EntityError, World};
use bevy_prng::WyRand;
use vstd::prelude::*;

verus! {

/// The phases of a year, in the order in which they run.
#[derive(Debug, Clone, Copy, PartialEq, Eq, Hash, Structural)]
pub enum GamePlay {
    /// Last year's dead are counted, the year is counted, the newborns
    /// enter, and everyone alive ages, trains and is looked at for a rise.
    Spawn,
    /// The living are paired up at random.
    Pair,
    /// The pairs that will not fight are dropped.
    FilterPair,
    /// The remaining pairs fight.
    Battle,
    /// The dead are removed, and a notice is left for each.
    Finish,
}

/// A cultivator after the yearly round: a year older, then trained if it
/// still lives, then risen if it has what the next level asks for.
pub open spec fn seasoned(row: BattleQuery, table: LevelTable) -> BattleQuery {
    row.spec_aged().spec_trained().spec_advanced(table)
}

/// The yearly round only moves a cultivator forward. The dead are left as
/// they are, and nobody comes back to life. The living get exactly one year
/// older, lose no cultivation, and fall to no lower level. A lifespan
/// changes only with the level. Identity and courage stay for good.
pub proof fn lemma_yearly_round_moves_forward(row: BattleQuery, table: LevelTable)
    requires
        can_season(row),
    ensures
        ({
            let later = seasoned(row, table);
            &&& later.entity == row.entity
            &&& later.battle == row.battle
            &&& !row.life.alive ==> later == row
            &&& later.life.alive ==> row.life.alive
            &&& row.life.alive ==> later.life.age == row.life.age + 1
            &&& later.cultivation.cultivation >= row.cultivation.cultivation
            &&& later.cultivation.level.spec_idx() >= row.cultivation.level.spec_idx()
            &&& later.life.lifespan != row.life.lifespan ==> later.cultivation.level
                != row.cultivation.level
        }),
{
}

/// Every row after the yearly round.
pub open spec fn opened(rows: Seq<BattleQuery>, table: LevelTable) -> Seq<BattleQuery> {
    Seq::new(rows.len(), |i: int| seasoned(rows[i], table))
}

/// The yearly round can be counted on this row: its age can grow by one,
/// and so can its cultivation if it lives on.
pub open spec fn can_season(row: BattleQuery) -> bool {
    row.life.can_age() && (row.life.spec_aged().alive ==> row.cultivation.can_train())
}

/// The row leaves room for a whole year: its age can grow by one, and its
/// cultivation is below the ceiling under which any gain fits.
pub open spec fn has_room(row: BattleQuery) -> bool {
    row.life.age < u64::MAX && row.cultivation.cultivation < GAIN_CEILING
}

/// A whole year on the rows `rows` of a world whose next identity is
/// `next`, for one way the random stream can fall: `courages` are dealt to
/// the newborns, `order` is the line-up of the living, and `draws` decide
/// the fights. `world_after` and `deaths_after` are what the year leaves.
pub open spec fn year_runs(
    rows: Seq<BattleQuery>,
    next: nat,
    table: LevelTable,
    config: Config,
    courages: Seq<u64>,
    order: Seq<Entity>,
    draws: Seq<u64>,
    world_after: Seq<BattleQuery>,
    deaths_after: Seq<DeathEvent>,
) -> bool {
    let grown = opened(rows + arrivals(newborns(courages), next), table);
    let fights = paired(order).filter(proceeds(grown));
    let fought = battle_outcome(grown, fights, draws);
    &&& valid_draws(courages, config.spawn_per_year as nat)
    &&& order.to_multiset() == contenders(grown).to_multiset()
    &&& valid_draws(draws, fights.len())
    &&& fought.1 is Ok
    &&& world_after == fought.0.filter(living())
    &&& deaths_after == obituaries(fought.0)
}

/// A simulation: the world, what the current year has proposed and left
/// behind, and what has been counted.
#[derive(Debug)]
pub struct Simulation {
    pub world: World,
    /// The fights proposed for this year.
    pub pairs: Vec<(Entity, Entity)>,
    /// The notices of the dead that have not been counted yet.
    pub deaths: Vec<DeathEvent>,
    pub stats: XiuxianStatistics,
    pub state: GlobalState,
    pub table: LevelTable,
}

impl Simulation {
    /// The world and the statistics are sound.
    pub open spec fn wf(&self) -> bool {
        self.world.wf() && self.stats.wf()
    }

    /// The phase can be counted: no count and no sum that it makes leaves
    /// its type, whatever the random stream gives.
    pub open spec fn phase_fits(&self, phase: GamePlay, config: Config) -> bool {
        match phase {
            GamePlay::Spawn => {
                &&& self.state.year < u64::MAX
                &&& self.world.next_id() + config.spawn_per_year <= u64::MAX
                &&& self.stats.death.total + self.deaths@.len() <= usize::MAX
                &&& forall|i: int| 0 <= i < self.world@.len() ==> can_season(#[trigger] self.world@[i])
            },
            GamePlay::Battle => forall|draws: Seq<u64>|
                valid_draws(draws, self.pairs@.len()) ==> #[trigger] battle_fits(
                    self.world@,
                    self.pairs@,
                    draws,
                ),
            _ => true,
        }
    }

    /// What the phase made of the simulation `before`, and how it ended.
    pub open spec fn phase_ran(
        &self,
        before: Simulation,
        phase: GamePlay,
        config: Config,
        r: Result<(), EntityError>,
    ) -> bool {
        &&& self.table == before.table
        &&& match phase {
            GamePlay::Spawn => {
                &&& r is Ok
                &&& self.stats.counts(before.stats, before.deaths@)
                &&& self.deaths@.len() == 0
                &&& self.state.year == before.state.year + 1
                &&& self.pairs == before.pairs
                &&& self.world.next_id() == before.world.next_id() + config.spawn_per_year
                &&& exists|courages: Seq<u64>|
                    valid_draws(courages, config.spawn_per_year as nat) && self.world@ == opened(
                        before.world@ + #[trigger] arrivals(
                            newborns(courages),
                            before.world.next_id(),
                        ),
                        before.table,
                    )
            },
            GamePlay::Pair => {
                &&& r is Ok
                &&& self.world == before.world
                &&& self.stats == before.stats
                &&& self.deaths == before.deaths
                &&& self.state == before.state
                &&& apart(self.pairs@)
                &&& all_living(self.world@, self.pairs@)
                &&& exists|order: Seq<Entity>|
                    order.to_multiset() == contenders(self.world@).to_multiset() && self.pairs@
                        == #[trigger] paired(order)
            },
            GamePlay::FilterPair => {
                &&& self.world == before.world
                &&& self.stats == before.stats
                &&& self.deaths == before.deaths
                &&& self.state == before.state
                &&& match first_missing(before.world@, before.pairs@) {
                    Some(e) => r == Err::<(), EntityError>(EntityError::MissingEntity(e))
                        && self.pairs == before.pairs,
                    None => r is Ok && self.pairs@ == before.pairs@.filter(
                        proceeds(before.world@),
                    ),
                }
            },
            GamePlay::Battle => {
                &&& self.world.next_id() == before.world.next_id()
                &&& self.stats == before.stats
                &&& self.deaths == before.deaths
                &&& self.state == before.state
                &&& self.pairs == before.pairs
                &&& exists|draws: Seq<u64>|
                    valid_draws(draws, before.pairs@.len()) && #[trigger] battle_outcome(
                        before.world@,
                        before.pairs@,
                        draws,
                    ) == (self.world@, r)
            },
            GamePlay::Finish => {
                &&& r is Ok
                &&& self.world.next_id() == before.world.next_id()
                &&& self.stats == before.stats
                &&& self.state == before.state
                &&& self.pairs@.len() == 0
                &&& self.world@ == before.world@.filter(living())
                &&& self.deaths@ == before.deaths@ + obituaries(before.world@)
            },
        }
    }

    /// A simulation before its first year: nobody in the world, nothing
    /// counted, and the table of the default configuration.
    pub fn new() -> (sim: Simulation)
        ensures
            sim.wf(),
            sim.world@.len() == 0,
            sim.world.next_id() == 0,
            sim.pairs@.len() == 0,
            sim.deaths@.len() == 0,
            sim.state.year == 0,
            sim.table.matches(Config::spec_default()),
            sim.stats.death.total == 0,
    {
        Simulation {
            world: World::new(),
            pairs: Vec::new(),
            deaths: Vec::new(),
            stats: XiuxianStatistics::default(),
            state: GlobalState::default(),
            table: LevelTable::default(),
        }
    }

    /// The simulation leaves room for a whole year: the year and the deaths
    /// can be counted, the newborns can be given identities, and every
    /// cultivator has room.
    pub open spec fn advance_fits(&self, config: Config) -> bool {
        &&& self.state.year < u64::MAX
        &&& self.world.next_id() + config.spawn_per_year <= u64::MAX
        &&& self.stats.death.total + self.deaths@.len() <= usize::MAX
        &&& forall|i: int| 0 <= i < self.world@.len() ==> has_room(#[trigger] self.world@[i])
    }

    /// Whether the simulation leaves room for a whole year.
    pub fn can_advance(&self, config: &Config) -> (r: bool)
        ensures
            r == self.advance_fits(*config),
    {
        if self.state.year == u64::MAX {
            return false;
        }
        if config.spawn_per_year as u128 + self.world.next() as u128 > u64::MAX as u128 {
            return false;
        }
        if self.deaths.len() > usize::MAX - self.stats.death.total {
            return false;
        }
        let n: usize = self.world.len();
        let mut i: usize = 0;
        while i < n
            invariant
                i <= n,
                n == self.world@.len(),
                forall|k: int| 0 <= k < i ==> has_room(#[trigger] self.world@[k]),
            decreases n - i,
        {
            let row = self.world.row(i);
            if row.life.age == u64::MAX || row.cultivation.cultivation >= GAIN_CEILING {
                assert(!has_room(self.world@[i as int]));
                return false;
            }
            i = i + 1;
        }
        true
    }

    /// Runs one phase of the year.
    pub fn run_phase(&mut self, phase: GamePlay, config: &Config, rng: &mut WyRand) -> (r: Result<
        (),
        EntityError,
    >)
        requires
            old(self).wf(),
            old(self).phase_fits(phase, *config),
        ensures
            final(self).wf(),
            final(self).phase_ran(*old(self), phase, *config, r),
    {
        match phase {
            GamePlay::Spawn => {
                collect_death(&self.deaths, &mut self.stats, rng);
                self.deaths = Vec::new();
                increase_year(&mut self.state);
                spawn_cultivators(&mut self.world, rng, config);
                let ghost entered = self.world@;
                proof {
                    let courages = choose|courages: Seq<u64>|
                        valid_draws(courages, config.spawn_per_year as nat) && entered == old(
                            self,
                        ).world@ + #[trigger] arrivals(
                            newborns(courages),
                            old(self).world.next_id(),
                        );
                    let born = arrivals(newborns(courages), old(self).world.next_id());
                    assert forall|i: int| 0 <= i < entered.len() implies can_season(
                        #[trigger] entered[i],
                    ) by {
                        if i < old(self).world@.len() {
                            assert(entered[i] == old(self).world@[i]);
                        } else {
                            assert(entered[i] == born[i - old(self).world@.len()]);
                        }
                    }
                }
                Life::increase_age(&mut self.world);
                Cultivation::increase_cultivation(&mut self.world);
                Cultivation::try_advance(&mut self.world, &self.table);
                proof {
                    assert(self.world@ =~= opened(entered, self.table));
                }
                Ok(())
            },
            GamePlay::Pair => {
                self.pairs = pair(&self.world, rng);
                Ok(())
            },
            GamePlay::FilterPair => {
                match filter_battle(&self.world, &self.pairs) {
                    Ok(kept) => {
                        self.pairs = kept;
                        Ok(())
                    },
                    Err(e) => Err(e),
                }
            },
            GamePlay::Battle => battle(&mut self.world, &self.pairs, rng),
            GamePlay::Finish => {
                let mut events = despawn_dead(&mut self.world);
                self.deaths.append(&mut events);
                self.pairs = Vec::new();
                Ok(())
            },
        }
    }
}

/// The five phases ran in their order, each on what the one before left,
/// and none of them failed: from `start` through the four states between to
/// `end`.
pub open spec fn year_in_order(
    start: Simulation,
    spawned: Simulation,
    paired: Simulation,
    filtered: Simulation,
    fought: Simulation,
    end: Simulation,
    config: Config,
) -> bool {
    &&& spawned.phase_ran(start, GamePlay::Spawn, config, Ok(()))
    &&& paired.phase_ran(spawned, GamePlay::Pair, config, Ok(()))
    &&& filtered.phase_ran(paired, GamePlay::FilterPair, config, Ok(()))
    &&& fought.phase_ran(filtered, GamePlay::Battle, config, Ok(()))
    &&& end.phase_ran(fought, GamePlay::Finish, config, Ok(()))
}

impl Simulation {
    /// Advances the simulation by one year: the five phases, in their
    /// order. Within a year no phase can fail: the pairs are made of the
    /// living of this world, and no cultivator is in two of them.
    pub fn tick(&mut self, config: &Config, rng: &mut WyRand)
        requires
            old(self).wf(),
            old(self).advance_fits(*config),
        ensures
            final(self).wf(),
            exists|spawned: Simulation, paired: Simulation, filtered: Simulation, fought: Simulation|
             #[trigger]
                year_in_order(
                    *old(self),
                    spawned,
                    paired,
                    filtered,
                    fought,
                    *final(self),
                    *config,
                ),
            final(self).table == old(self).table,
            final(self).state.year == old(self).state.year + 1,
            final(self).stats.counts(old(self).stats, old(self).deaths@),
            final(self).pairs@.len() == 0,
            final(self).world.next_id() == old(self).world.next_id() + config.spawn_per_year,
            exists|courages: Seq<u64>, order: Seq<Entity>, draws: Seq<u64>| #[trigger]
                year_runs(
                    old(self).world@,
                    old(self).world.next_id(),
                    old(self).table,
                    *config,
                    courages,
                    order,
                    draws,
                    final(self).world@,
                    final(self).deaths@,
                ),
    {
        proof {
            assert forall|i: int| 0 <= i < self.world@.len() implies can_season(
                #[trigger] self.world@[i],
            ) by {
                assert(has_room(self.world@[i]));
            }
        }
        let _ = self.run_phase(GamePlay::Spawn, config, rng);
        let ghost spawned = *self;
        let ghost grown = self.world@;
        let ghost courages = choose|courages: Seq<u64>|
            valid_draws(courages, config.spawn_per_year as nat) && grown == opened(
                old(self).world@ + #[trigger] arrivals(
                    newborns(courages),
                    old(self).world.next_id(),
                ),
                old(self).table,
            );
        proof {
            let entered = old(self).world@ + arrivals(
                newborns(courages),
                old(self).world.next_id(),
            );
            assert forall|i: int| 0 <= i < grown.len() implies (#[trigger] grown[i]).cultivation.cultivation
                <= GAIN_CEILING by {
                assert(grown[i] == seasoned(entered[i], old(self).table));
                if i < old(self).world@.len() {
                    assert(entered[i] == old(self).world@[i]);
                    assert(has_room(old(self).world@[i]));
                } else {
                    assert(entered[i] == arrivals(
                        newborns(courages),
                        old(self).world.next_id(),
                    )[i - old(self).world@.len()]);
                }
            }
        }
        let _ = self.run_phase(GamePlay::Pair, config, rng);
        let ghost paired_up = *self;
        let ghost proposed = self.pairs@;
        let ghost order = choose|order: Seq<Entity>|
            order.to_multiset() == contenders(grown).to_multiset() && proposed == #[trigger] paired(
                order,
            );
        proof {
            lemma_none_missing(grown, proposed);
            lemma_chosen_pairs_stay_apart(grown, proposed, proceeds(grown));
        }
        let _ = self.run_phase(GamePlay::FilterPair, config, rng);
        let ghost filtered = *self;
        let ghost fights = self.pairs@;
        proof {
            assert(fights == paired(order).filter(proceeds(grown)));
            assert(all_within(grown, fights));
            assert forall|draws: Seq<u64>| valid_draws(draws, fights.len()) implies #[trigger] battle_fits(
                grown,
                fights,
                draws,
            ) by {
                lemma_apart_pairs_all_fight(grown, fights, draws);
            }
        }
        let fought = self.run_phase(GamePlay::Battle, config, rng);
        let ghost battled = *self;
        let ghost after = self.world@;
        let ghost draws = choose|draws: Seq<u64>|
            valid_draws(draws, fights.len()) && #[trigger] battle_outcome(grown, fights, draws) == (
                after,
                fought,
            );
        proof {
            lemma_apart_pairs_all_fight(grown, fights, draws);
        }
        let _ = self.run_phase(GamePlay::Finish, config, rng);
        proof {
            assert(self.deaths@ =~= obituaries(after));
            assert(year_in_order(
                *old(self),
                spawned,
                paired_up,
                filtered,
                battled,
                *self,
                *config,
            ));
            assert(year_runs(
                old(self).world@,
                old(self).world.next_id(),
                old(self).table,
                *config,
                courages,
                order,
                draws,
                self.world@,
                self.deaths@,
            ));
        }
    }
}

} // verus!
