//! How long a cultivator has lived, and how long it may.

use crate::battle::BattleQuery;
use crate::world::World;
use vstd::prelude::*;

verus! {

/// The years of one cultivator.
#[derive(Debug, Clone, Copy, PartialEq, Eq, Structural)]
pub struct Life {
    /// Years lived.
    pub age: u64,
    /// The age at which the cultivator dies of old age.
    pub lifespan: u64,
    /// False once the cultivator has died; it never turns true again.
    pub alive: bool,
}

impl Life {
    /// One more year on a living cultivator: it is a year older, and dead
    /// once its age has reached its lifespan. The dead do not age.
    pub open spec fn spec_aged(self) -> Life {
        if self.alive {
            Life {
                age: (self.age + 1) as u64,
                lifespan: self.lifespan,
                alive: self.age + 1 < self.lifespan,
            }
        } else {
            self
        }
    }

    /// The year can be counted: the age of a living cultivator is not yet
    /// the largest `u64`.
    pub open spec fn can_age(self) -> bool {
        self.alive ==> self.age < u64::MAX
    }

    /// The cultivator a year later.
    pub fn aged(self) -> (later: Life)
        requires
            self.can_age(),
        ensures
            later == self.spec_aged(),
    {
        if self.alive {
            let age: u64 = self.age + 1;
            Life { age, lifespan: self.lifespan, alive: age < self.lifespan }
        } else {
            self
        }
    }

    /// Lets a year pass for every living cultivator of the world.
    pub fn increase_age(world: &mut World)
        requires
            old(world).wf(),
            forall|i: int| 0 <= i < old(world)@.len() ==> (#[trigger] old(world)@[i]).life.can_age(),
        ensures
            final(world).wf(),
            final(world).next_id() == old(world).next_id(),
            final(world)@.len() == old(world)@.len(),
            forall|i: int|
                0 <= i < old(world)@.len() ==> (#[trigger] final(world)@[i]) == old(
                    world,
                )@[i].spec_aged(),
    {
        let n: usize = world.len();
        let mut i: usize = 0;
        while i < n
            invariant
                i <= n,
                n == old(world)@.len(),
                world.wf(),
                world.next_id() == old(world).next_id(),
                world@.len() == n,
                forall|k: int| 0 <= k < n ==> (#[trigger] old(world)@[k]).life.can_age(),
                forall|k: int| 0 <= k < i ==> (#[trigger] world@[k]) == old(world)@[k].spec_aged(),
                forall|k: int| i <= k < n ==> (#[trigger] world@[k]) == old(world)@[k],
            decreases n - i,
        {
            let row = world.row(i);
            assert(old(world)@[i as int].life.can_age());
            let later = row.life.aged();
            world.put(i, row.with_life(later));
            i = i + 1;
        }
    }
}

impl BattleQuery {
    /// The cultivator a year later: older if it lives, and nothing else
    /// changed.
    pub open spec fn spec_aged(self) -> BattleQuery {
        self.spec_with_life(self.life.spec_aged())
    }
}

} // verus!
