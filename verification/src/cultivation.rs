//! What a cultivator has gathered, and what that makes of it.

use crate::battle::BattleQuery;
use crate::fraction::{share, Frac, Ratio};
use crate::level::{Level, LevelTable};
use crate::life::Life;
use crate::world::World;
use vstd::prelude::*;

verus! {

/// The standing of one cultivator.
#[derive(Debug, Clone, Copy, PartialEq, Eq, Structural)]
pub struct Cultivation {
    pub level: Level,
    pub cultivation: u64,
}

impl Cultivation {
    /// The chance of beating `opponent`: one's own cultivation as a share of
    /// both. Undefined (a zero denominator) where neither has any.
    pub open spec fn win_rate(self, opponent: Cultivation) -> Frac {
        share(self.cultivation as nat, opponent.cultivation as nat)
    }

    /// The chance of beating `opponent`, as an exact fraction.
    pub fn get_win_rate(&self, opponent: &Self) -> (rate: Ratio)
        ensures
            rate@ == self.win_rate(*opponent),
    {
        Ratio {
            num: self.cultivation as u128,
            den: self.cultivation as u128 + opponent.cultivation as u128,
        }
    }

    /// A year of training adds one to the cultivation.
    pub open spec fn spec_trained(self) -> Cultivation {
        Cultivation { level: self.level, cultivation: (self.cultivation + 1) as u64 }
    }

    /// The year's training can be counted: the cultivation is not yet the
    /// largest `u64`.
    pub open spec fn can_train(self) -> bool {
        self.cultivation < u64::MAX
    }

    /// The standing after a year of training.
    pub fn trained(self) -> (later: Cultivation)
        requires
            self.can_train(),
        ensures
            later == self.spec_trained(),
    {
        Cultivation { level: self.level, cultivation: self.cultivation + 1 }
    }

    /// Lets every living cultivator that has gathered what the next level
    /// asks for rise to it.
    pub fn try_advance(world: &mut World, table: &LevelTable)
        requires
            old(world).wf(),
        ensures
            final(world).wf(),
            final(world).next_id() == old(world).next_id(),
            final(world)@.len() == old(world)@.len(),
            forall|i: int|
                0 <= i < old(world)@.len() ==> (#[trigger] final(world)@[i]) == old(
                    world,
                )@[i].spec_advanced(*table),
    {
        let n: usize = world.len();
        let mut i: usize = 0;
        while i < n
            invariant
                i <= n,
                n == old(world)@.len(),
                world.wf(),
                world.next_id() == old(world).next_id(),
                world@.len() == n,
                forall|k: int|
                    0 <= k < i ==> (#[trigger] world@[k]) == old(world)@[k].spec_advanced(*table),
                forall|k: int| i <= k < n ==> (#[trigger] world@[k]) == old(world)@[k],
            decreases n - i,
        {
            let row = world.row(i);
            world.put(i, row.advanced(table));
            i = i + 1;
        }
    }

    /// Gives every living cultivator its year of training.
    pub fn increase_cultivation(world: &mut World)
        requires
            old(world).wf(),
            forall|i: int|
                0 <= i < old(world)@.len() && (#[trigger] old(world)@[i]).life.alive ==> old(
                    world,
                )@[i].cultivation.can_train(),
        ensures
            final(world).wf(),
            final(world).next_id() == old(world).next_id(),
            final(world)@.len() == old(world)@.len(),
            forall|i: int|
                0 <= i < old(world)@.len() ==> (#[trigger] final(world)@[i]) == old(
                    world,
                )@[i].spec_trained(),
    {
        let n: usize = world.len();
        let mut i: usize = 0;
        while i < n
            invariant
                i <= n,
                n == old(world)@.len(),
                world.wf(),
                world.next_id() == old(world).next_id(),
                world@.len() == n,
                forall|k: int|
                    0 <= k < n && (#[trigger] old(world)@[k]).life.alive ==> old(
                        world,
                    )@[k].cultivation.can_train(),
                forall|k: int| 0 <= k < i ==> (#[trigger] world@[k]) == old(world)@[k].spec_trained(),
                forall|k: int| i <= k < n ==> (#[trigger] world@[k]) == old(world)@[k],
            decreases n - i,
        {
            let row = world.row(i);
            assert(old(world)@[i as int].life.alive ==> old(world)@[i as int].cultivation.can_train());
            if row.life.alive {
                world.put(i, row.with_cultivation(row.cultivation.trained()));
            }
            i = i + 1;
        }
    }
}

impl BattleQuery {
    /// A living cultivator after its year of training; the dead do not
    /// train.
    pub open spec fn spec_trained(self) -> BattleQuery {
        if self.life.alive {
            self.spec_with_cultivation(self.cultivation.spec_trained())
        } else {
            self
        }
    }

    /// Whether the cultivator rises now: it lives, a next level exists, and
    /// its cultivation has reached what that level asks for.
    pub open spec fn rises(self, table: LevelTable) -> bool {
        &&& self.life.alive
        &&& self.cultivation.level.spec_next() matches Some(next)
        &&& self.cultivation.cultivation >= table.required_cultivation@[next.spec_idx() as int]
    }

    /// The cultivator after the yearly look at its level. One that rises
    /// gets the next level and, in place of its old lifespan, the lifespan
    /// of that level; its cultivation stays. Any other stays as it is.
    pub open spec fn spec_advanced(self, table: LevelTable) -> BattleQuery {
        if self.rises(table) {
            let next = self.cultivation.level.spec_next()->Some_0;
            BattleQuery {
                cultivation: Cultivation { level: next, cultivation: self.cultivation.cultivation },
                life: Life {
                    age: self.life.age,
                    lifespan: table.total_lifespan@[next.spec_idx() as int],
                    alive: self.life.alive,
                },
                ..self
            }
        } else {
            self
        }
    }

    /// The cultivator after the yearly look at its level.
    pub fn advanced(self, table: &LevelTable) -> (later: BattleQuery)
        ensures
            later == self.spec_advanced(*table),
    {
        if !self.life.alive {
            return self;
        }
        match self.cultivation.level.next_level() {
            Some(next) => {
                if self.cultivation.cultivation >= next.required_cultivation(table) {
                    BattleQuery {
                        cultivation: Cultivation {
                            level: next,
                            cultivation: self.cultivation.cultivation,
                        },
                        battle: self.battle,
                        life: Life {
                            age: self.life.age,
                            lifespan: next.total_lifespan(table),
                            alive: self.life.alive,
                        },
                        entity: self.entity,
                    }
                } else {
                    self
                }
            },
            None => self,
        }
    }
}

} // verus!
