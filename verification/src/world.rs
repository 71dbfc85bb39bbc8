//! The store of living and freshly dead cultivators.
//!
//! Every cultivator gets an identity when it enters the world and keeps it
//! until it is removed; identities are handed out in rising order and never
//! reused, and the world keeps its rows in that order.

use crate::battle::{BattleQuery, Courage};
use crate::cultivation::Cultivation;
use crate::life::Life;
use vstd::prelude::*;

verus! {

/// The identity of one cultivator.
#[derive(Debug, Clone, Copy, PartialEq, Eq, Hash, PartialOrd, Ord, Structural)]
pub struct Entity(pub u64);

/// What a cultivator is made of when it enters the world.
#[derive(Debug, Clone, Copy, PartialEq, Eq, Structural)]
pub struct Cultivator {
    pub life: Life,
    pub cultivation: Cultivation,
    pub courage: Courage,
}

impl Cultivator {
    /// The row that holds this cultivator under the identity `entity`.
    pub open spec fn row(self, entity: Entity) -> BattleQuery {
        BattleQuery { cultivation: self.cultivation, battle: self.courage, life: self.life, entity }
    }

    fn row_exec(self, entity: Entity) -> (r: BattleQuery)
        ensures
            r == self.row(entity),
    {
        BattleQuery { cultivation: self.cultivation, battle: self.courage, life: self.life, entity }
    }
}

/// Why the world could not hand out two cultivators at once.
#[derive(Debug, Clone, Copy, PartialEq, Eq, Structural)]
pub enum EntityError {
    /// The same cultivator was asked for twice.
    ConflictingAccess(Entity),
    /// No cultivator of that identity is in the world.
    MissingEntity(Entity),
}

/// The rows of a batch that enters a world whose next identity is `next`.
pub open spec fn arrivals(batch: Seq<Cultivator>, next: nat) -> Seq<BattleQuery> {
    Seq::new(batch.len(), |k: int| batch[k].row(Entity((next + k) as u64)))
}

/// The rows are in rising order of identity, so no identity occurs twice.
pub open spec fn ids_rise(rows: Seq<BattleQuery>) -> bool {
    forall|i: int, j: int| 0 <= i < j < rows.len() ==> rows[i].entity.0 < rows[j].entity.0
}

/// Some row holds the identity `e`.
pub open spec fn present(rows: Seq<BattleQuery>, e: Entity) -> bool {
    exists|i: int| 0 <= i < rows.len() && rows[i].entity == e
}

/// The place of the row that holds `e`, where there is one.
pub open spec fn slot_of(rows: Seq<BattleQuery>, e: Entity) -> int {
    choose|i: int| 0 <= i < rows.len() && rows[i].entity == e
}

/// The rows without the one that holds `e`.
pub open spec fn without(rows: Seq<BattleQuery>, e: Entity) -> Seq<BattleQuery> {
    if present(rows, e) {
        rows.remove(slot_of(rows, e))
    } else {
        rows
    }
}

/// The test for a row whose cultivator lives.
pub open spec fn living() -> spec_fn(BattleQuery) -> bool {
    |row: BattleQuery| row.life.alive
}

/// The test for a row whose cultivator has died.
pub open spec fn fallen() -> spec_fn(BattleQuery) -> bool {
    |row: BattleQuery| !row.life.alive
}

/// In rows of rising identity, a row that holds `e` is the only one.
pub proof fn lemma_slot_is_unique(rows: Seq<BattleQuery>, e: Entity, i: int)
    requires
        ids_rise(rows),
        0 <= i < rows.len(),
        rows[i].entity == e,
    ensures
        present(rows, e),
        slot_of(rows, e) == i,
{
    let j = slot_of(rows, e);
    if j < i {
        assert(rows[j].entity.0 < rows[i].entity.0);
    } else if i < j {
        assert(rows[i].entity.0 < rows[j].entity.0);
    }
}

/// Rewriting a row under its own identity changes neither the order of the
/// identities nor the place of any of them.
pub proof fn lemma_update_keeps_slots(rows: Seq<BattleQuery>, i: int, row: BattleQuery)
    requires
        ids_rise(rows),
        0 <= i < rows.len(),
        row.entity == rows[i].entity,
    ensures
        ids_rise(rows.update(i, row)),
        forall|e: Entity| present(rows.update(i, row), e) == present(rows, e),
        forall|e: Entity| present(rows, e) ==> slot_of(rows.update(i, row), e) == slot_of(rows, e),
{
    let next = rows.update(i, row);
    assert forall|e: Entity| present(next, e) == present(rows, e) by {
        if present(next, e) {
            let k = slot_of(next, e);
            assert(rows[k].entity == e);
        }
        if present(rows, e) {
            let k = slot_of(rows, e);
            assert(next[k].entity == e);
        }
    }
    assert forall|e: Entity| present(rows, e) implies slot_of(next, e) == slot_of(rows, e) by {
        let k = slot_of(rows, e);
        assert(next[k].entity == e);
        lemma_slot_is_unique(next, e, k);
    }
}

/// The cultivators of a simulation, each under its identity.
#[derive(Debug)]
pub struct World {
    rows: Vec<BattleQuery>,
    next: u64,
}

impl World {
    /// The rows of the world, oldest identity first.
    pub closed spec fn view(&self) -> Seq<BattleQuery> {
        self.rows@
    }

    /// The identity that the next cultivator to enter will get.
    pub closed spec fn next_id(&self) -> nat {
        self.next as nat
    }

    /// The rows are in rising order of identity, below the next one to be
    /// handed out.
    pub open spec fn wf(&self) -> bool {
        &&& ids_rise(self@)
        &&& forall|i: int| 0 <= i < self@.len() ==> (#[trigger] self@[i]).entity.0 < self.next_id()
    }

    /// An empty world.
    pub fn new() -> (world: World)
        ensures
            world.wf(),
            world@.len() == 0,
            world.next_id() == 0,
    {
        World { rows: Vec::new(), next: 0 }
    }

    /// The identity that the next cultivator to enter will get.
    pub fn next(&self) -> (id: u64)
        ensures
            id == self.next_id(),
    {
        self.next
    }

    /// The number of cultivators in the world.
    pub fn len(&self) -> (n: usize)
        ensures
            n == self@.len(),
    {
        self.rows.len()
    }

    /// The row at place `i`.
    pub fn row(&self, i: usize) -> (row: BattleQuery)
        requires
            i < self@.len(),
        ensures
            row == self@[i as int],
    {
        self.rows[i]
    }

    /// Rewrites the row at place `i`; the row keeps its identity.
    pub fn put(&mut self, i: usize, row: BattleQuery)
        requires
            old(self).wf(),
            i < old(self)@.len(),
            row.entity == old(self)@[i as int].entity,
        ensures
            final(self).wf(),
            final(self)@ == old(self)@.update(i as int, row),
            final(self).next_id() == old(self).next_id(),
    {
        self.rows.set(i, row);
        proof {
            lemma_update_keeps_slots(old(self)@, i as int, row);
        }
    }

    /// Lets one cultivator into the world and returns its new identity.
    pub fn spawn(&mut self, cultivator: Cultivator) -> (entity: Entity)
        requires
            old(self).wf(),
            old(self).next_id() < u64::MAX,
        ensures
            final(self).wf(),
            entity.0 == old(self).next_id(),
            final(self).next_id() == old(self).next_id() + 1,
            final(self)@ == old(self)@.push(cultivator.row(entity)),
    {
        let entity = Entity(self.next);
        self.rows.push(cultivator.row_exec(entity));
        self.next = self.next + 1;
        entity
    }

    /// Lets a batch of cultivators into the world, in order, and returns
    /// their new identities.
    pub fn spawn_batch(&mut self, batch: &Vec<Cultivator>) -> (entities: Vec<Entity>)
        requires
            old(self).wf(),
            old(self).next_id() + batch@.len() <= u64::MAX,
        ensures
            final(self).wf(),
            final(self).next_id() == old(self).next_id() + batch@.len(),
            entities@.len() == batch@.len(),
            forall|k: int|
                0 <= k < batch@.len() ==> (#[trigger] entities@[k]).0 == old(self).next_id() + k,
            final(self)@ == old(self)@ + arrivals(batch@, old(self).next_id()),
    {
        let mut entities: Vec<Entity> = Vec::new();
        let mut k: usize = 0;
        while k < batch.len()
            invariant
                k <= batch@.len(),
                self.wf(),
                old(self).next_id() + batch@.len() <= u64::MAX,
                self.next_id() == old(self).next_id() + k,
                entities@.len() == k,
                forall|m: int| 0 <= m < k ==> (#[trigger] entities@[m]).0 == old(self).next_id() + m,
                self@ == old(self)@ + arrivals(batch@.take(k as int), old(self).next_id()),
            decreases batch@.len() - k,
        {
            let entity = self.spawn(batch[k]);
            entities.push(entity);
            assert(self@ =~= old(self)@ + arrivals(batch@.take(k + 1), old(self).next_id()));
            k = k + 1;
        }
        assert(batch@.take(batch@.len() as int) =~= batch@);
        entities
    }

    /// The place of the row that holds `e`, if there is one.
    pub fn find(&self, e: Entity) -> (slot: Option<usize>)
        requires
            self.wf(),
        ensures
            slot is Some <==> present(self@, e),
            slot matches Some(i) ==> {
                &&& i == slot_of(self@, e)
                &&& i < self@.len()
                &&& self@[i as int].entity == e
            },
    {
        let mut lo: usize = 0;
        let mut hi: usize = self.rows.len();
        while lo < hi
            invariant
                lo <= hi <= self@.len(),
                self.wf(),
                forall|k: int| 0 <= k < lo ==> (#[trigger] self@[k]).entity.0 < e.0,
                forall|k: int| hi <= k < self@.len() ==> (#[trigger] self@[k]).entity.0 > e.0,
            decreases hi - lo,
        {
            let mid: usize = lo + (hi - lo) / 2;
            let id: u64 = self.rows[mid].entity.0;
            if id == e.0 {
                proof {
                    lemma_slot_is_unique(self@, e, mid as int);
                }
                return Some(mid);
            } else if id < e.0 {
                lo = mid + 1;
            } else {
                hi = mid;
            }
        }
        proof {
            if present(self@, e) {
                let k = slot_of(self@, e);
                assert(self@[k].entity.0 == e.0);
            }
        }
        None
    }

    /// The cultivator of identity `e`, if it is in the world.
    pub fn get(&self, e: Entity) -> (row: Option<BattleQuery>)
        requires
            self.wf(),
        ensures
            row is Some <==> present(self@, e),
            row matches Some(r) ==> r == self@[slot_of(self@, e)] && r.entity == e,
    {
        match self.find(e) {
            Some(i) => Some(self.rows[i]),
            None => None,
        }
    }

    /// Removes the cultivator of identity `e` and says whether there was
    /// one; to remove what is no longer there changes nothing.
    pub fn despawn(&mut self, e: Entity) -> (removed: bool)
        requires
            old(self).wf(),
        ensures
            final(self).wf(),
            final(self).next_id() == old(self).next_id(),
            removed == present(old(self)@, e),
            final(self)@ == without(old(self)@, e),
            !present(final(self)@, e),
    {
        match self.find(e) {
            Some(i) => {
                self.rows.remove(i);
                proof {
                    let before = old(self)@;
                    let after = self@;
                    assert(after == before.remove(i as int));
                    assert forall|a: int, b: int| 0 <= a < b < after.len() implies after[a].entity.0
                        < after[b].entity.0 by {
                        let a0 = if a < i { a } else { a + 1 };
                        let b0 = if b < i { b } else { b + 1 };
                        assert(after[a] == before[a0] && after[b] == before[b0]);
                    }
                    assert forall|a: int| 0 <= a < after.len() implies (#[trigger] after[a]).entity.0
                        < self.next_id() by {
                        let a0 = if a < i { a } else { a + 1 };
                        assert(after[a] == before[a0]);
                    }
                    if present(after, e) {
                        let a = slot_of(after, e);
                        let a0 = if a < i { a } else { a + 1 };
                        assert(after[a] == before[a0]);
                        lemma_slot_is_unique(before, e, a0);
                    }
                }
                true
            },
            None => false,
        }
    }

    /// Finds two different cultivators at once, for a step that rewrites
    /// both. Asking for the same one twice is refused before anything is
    /// looked up; else the first of the two that is missing is reported.
    pub fn get_disjoint_mut(&self, a: Entity, b: Entity) -> (slots: Result<
        (usize, usize),
        EntityError,
    >)
        requires
            self.wf(),
        ensures
            match locate(self@, a, b) {
                Ok((i, j)) => slots == Ok::<(usize, usize), EntityError>((i as usize, j as usize)),
                Err(e) => slots == Err::<(usize, usize), EntityError>(e),
            },
            slots matches Ok((i, j)) ==> {
                &&& i < self@.len()
                &&& j < self@.len()
                &&& i != j
                &&& self@[i as int].entity == a
                &&& self@[j as int].entity == b
            },
    {
        if a == b {
            return Err(EntityError::ConflictingAccess(a));
        }
        let i = match self.find(a) {
            Some(i) => i,
            None => {
                return Err(EntityError::MissingEntity(a));
            },
        };
        let j = match self.find(b) {
            Some(j) => j,
            None => {
                return Err(EntityError::MissingEntity(b));
            },
        };
        Ok((i, j))
    }

    /// The rows of the living, in their order.
    pub fn alive_rows(&self) -> (rows: Vec<BattleQuery>)
        ensures
            rows@ == self@.filter(living()),
    {
        let mut rows: Vec<BattleQuery> = Vec::new();
        let n: usize = self.rows.len();
        let mut i: usize = 0;
        proof {
            assert(self@.take(0) =~= Seq::<BattleQuery>::empty());
            Seq::<BattleQuery>::empty().lemma_filter_len(living());
        }
        while i < n
            invariant
                i <= n,
                n == self@.len(),
                rows@ == self@.take(i as int).filter(living()),
            decreases n - i,
        {
            let row = self.rows[i];
            proof {
                let head = self@.take(i as int);
                assert(self@.take(i + 1) =~= head.push(row));
                head.lemma_filter_push(row, living());
            }
            if row.life.alive {
                rows.push(row);
            }
            i = i + 1;
        }
        proof {
            assert(self@.take(n as int) =~= self@);
        }
        rows
    }

    /// Removes every cultivator that has died and returns their rows, in
    /// the order they had; the living stay as they were.
    pub fn remove_dead(&mut self) -> (dead: Vec<BattleQuery>)
        requires
            old(self).wf(),
        ensures
            final(self).wf(),
            final(self).next_id() == old(self).next_id(),
            final(self)@ == old(self)@.filter(living()),
            dead@ == old(self)@.filter(fallen()),
    {
        let mut kept: Vec<BattleQuery> = Vec::new();
        let mut dead: Vec<BattleQuery> = Vec::new();
        let n: usize = self.rows.len();
        let mut i: usize = 0;
        proof {
            assert(self@.take(0) =~= Seq::<BattleQuery>::empty());
            Seq::<BattleQuery>::empty().lemma_filter_len(living());
            Seq::<BattleQuery>::empty().lemma_filter_len(fallen());
        }
        while i < n
            invariant
                i <= n,
                n == self@.len(),
                self@ == old(self)@,
                self.next_id() == old(self).next_id(),
                self.wf(),
                kept@ == self@.take(i as int).filter(living()),
                dead@ == self@.take(i as int).filter(fallen()),
                ids_rise(kept@),
                forall|k: int, m: int|
                    0 <= k < kept@.len() && i <= m < n ==> (#[trigger] kept@[k]).entity.0 < (
                    #[trigger] self@[m]).entity.0,
                forall|k: int| 0 <= k < kept@.len() ==> (#[trigger] kept@[k]).entity.0 < self.next_id(),
            decreases n - i,
        {
            let row = self.rows[i];
            proof {
                let head = self@.take(i as int);
                assert(self@.take(i + 1) =~= head.push(row));
                head.lemma_filter_push(row, living());
                head.lemma_filter_push(row, fallen());
            }
            if row.life.alive {
                kept.push(row);
            } else {
                dead.push(row);
            }
            i = i + 1;
        }
        proof {
            assert(self@.take(n as int) =~= self@);
        }
        self.rows = kept;
        dead
    }
}

/// Where two cultivators asked for at once are found: refused where both
/// are the same one, else the first missing one is reported, else their two
/// places.
pub open spec fn locate(rows: Seq<BattleQuery>, a: Entity, b: Entity) -> Result<
    (int, int),
    EntityError,
> {
    if a == b {
        Err(EntityError::ConflictingAccess(a))
    } else if !present(rows, a) {
        Err(EntityError::MissingEntity(a))
    } else if !present(rows, b) {
        Err(EntityError::MissingEntity(b))
    } else {
        Ok((slot_of(rows, a), slot_of(rows, b)))
    }
}

} // verus!
