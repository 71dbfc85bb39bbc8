//! How cultivators enter the world and leave it.

use crate::battle::{BattleQuery, Courage};
use crate::config::Config;
use crate::cultivation::Cultivation;
use crate::entropy::{draw_units, valid_draws};
use crate::level::Level;
use crate::life::Life;
use crate::world::{arrivals, fallen, living, Cultivator, World};
use bevy_prng::WyRand;
use vstd::prelude::*;

verus! {

/// The notice that a cultivator has left the world: its years as they
/// stood when it was removed.
#[derive(Debug, Clone, Copy, PartialEq, Eq, Structural)]
pub struct DeathEvent {
    pub life: Life,
}

/// How a cultivator came to die.
#[derive(Debug, Clone, Copy, PartialEq, Eq, Structural)]
pub enum DeathCause {
    /// It lost a fight.
    Battle,
    /// It reached the end of its lifespan.
    Natural,
}

impl DeathEvent {
    /// A cultivator removed at exactly the age of its lifespan died of old
    /// age; any other was killed in a fight.
    pub open spec fn spec_cause(self) -> DeathCause {
        if self.life.age == self.life.lifespan {
            DeathCause::Natural
        } else {
            DeathCause::Battle
        }
    }

    /// How the cultivator came to die.
    pub fn cause(&self) -> (cause: DeathCause)
        ensures
            cause == self.spec_cause(),
            cause == DeathCause::Natural <==> self.life.age == self.life.lifespan,
    {
        if self.life.lifespan == self.life.age {
            DeathCause::Natural
        } else {
            DeathCause::Battle
        }
    }
}

/// A cultivator as it enters the world: twenty years old with a lifespan of
/// a hundred, on the lowest level with a cultivation of ten, and with the
/// courage it was dealt.
pub open spec fn newborn(courage: u64) -> Cultivator {
    Cultivator {
        life: Life { age: 20, lifespan: 100, alive: true },
        cultivation: Cultivation { level: Level::Foundation, cultivation: 10 },
        courage: Courage { courage },
    }
}

/// The newborn of each of the courages dealt, in their order.
pub open spec fn newborns(courages: Seq<u64>) -> Seq<Cultivator> {
    Seq::new(courages.len(), |k: int| newborn(courages[k]))
}

/// The notices for the dead among the rows, in the order of their rows.
pub open spec fn obituaries(rows: Seq<BattleQuery>) -> Seq<DeathEvent> {
    let dead = rows.filter(fallen());
    Seq::new(dead.len(), |k: int| DeathEvent { life: dead[k].life })
}

/// Lets the year's newborns into the world, each with the courage at its
/// place in `courages`.
pub fn spawn_with(world: &mut World, courages: &Vec<u64>)
    requires
        old(world).wf(),
        old(world).next_id() + courages@.len() <= u64::MAX,
    ensures
        final(world).wf(),
        final(world).next_id() == old(world).next_id() + courages@.len(),
        final(world)@ == old(world)@ + arrivals(newborns(courages@), old(world).next_id()),
{
    let mut batch: Vec<Cultivator> = Vec::with_capacity(courages.len());
    let mut k: usize = 0;
    while k < courages.len()
        invariant
            k <= courages@.len(),
            batch@ == newborns(courages@.take(k as int)),
        decreases courages@.len() - k,
    {
        batch.push(
            Cultivator {
                life: Life { age: 20, lifespan: 100, alive: true },
                cultivation: Cultivation { level: Level::Foundation, cultivation: 10 },
                courage: Courage { courage: courages[k] },
            },
        );
        assert(batch@ =~= newborns(courages@.take(k + 1)));
        k = k + 1;
    }
    assert(courages@.take(courages@.len() as int) =~= courages@);
    world.spawn_batch(&batch);
}

/// Lets the year's newborns into the world: as many as the configuration
/// says, each with a courage drawn from the random stream.
pub fn spawn_cultivators(world: &mut World, rng: &mut WyRand, config: &Config)
    requires
        old(world).wf(),
        old(world).next_id() + config.spawn_per_year <= u64::MAX,
    ensures
        final(world).wf(),
        final(world).next_id() == old(world).next_id() + config.spawn_per_year,
        exists|courages: Seq<u64>|
            valid_draws(courages, config.spawn_per_year as nat) && final(world)@ == old(world)@
                + #[trigger] arrivals(newborns(courages), old(world).next_id()),
{
    let courages = draw_units(rng, config.spawn_per_year);
    spawn_with(world, &courages);
}

/// Removes the dead from the world and returns one notice for each, in the
/// order of their rows.
pub fn despawn_dead(world: &mut World) -> (events: Vec<DeathEvent>)
    requires
        old(world).wf(),
    ensures
        final(world).wf(),
        final(world).next_id() == old(world).next_id(),
        final(world)@ == old(world)@.filter(living()),
        events@ == obituaries(old(world)@),
{
    let dead = world.remove_dead();
    let mut events: Vec<DeathEvent> = Vec::with_capacity(dead.len());
    let mut k: usize = 0;
    while k < dead.len()
        invariant
            k <= dead@.len(),
            events@.len() == k,
            forall|m: int| 0 <= m < k ==> events@[m] == (DeathEvent { life: dead@[m].life }),
        decreases dead@.len() - k,
    {
        events.push(DeathEvent { life: dead[k].life });
        k = k + 1;
    }
    assert(events@ =~= obituaries(old(world)@));
    events
}

} // verus!
