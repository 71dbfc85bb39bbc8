//! Who fights whom, and how a fight ends.

use crate::cultivation::Cultivation;
use crate::entropy::{draw_units, shuffle, valid_draws};
use crate::fraction::{lemma_shares_sum_to_one, unit_exceeds, unit_frac, Frac};
use crate::life::Life;
use crate::world::{
    ids_rise, lemma_slot_is_unique, living, locate, present, slot_of, Entity, EntityError, World,
};
use bevy_prng::WyRand;
use vstd::prelude::*;
use vstd::seq_lib::to_multiset_contains;

verus! {

/// How readily a cultivator picks a fight: the fraction `courage / SCALE`
/// of the unit interval, fixed at birth.
#[derive(Debug, Clone, Copy, PartialEq, Eq, Structural)]
pub struct Courage {
    pub courage: u64,
}

impl View for Courage {
    type V = Frac;

    open spec fn view(&self) -> Frac {
        unit_frac(self.courage)
    }
}

/// One cultivator as the world holds it: what it is, and who it is.
#[derive(Debug, Clone, Copy, PartialEq, Eq, Structural)]
pub struct BattleQuery {
    pub cultivation: Cultivation,
    pub battle: Courage,
    pub life: Life,
    pub entity: Entity,
}

impl BattleQuery {
    /// The same cultivator with other years.
    pub open spec fn spec_with_life(self, life: Life) -> BattleQuery {
        BattleQuery { life, ..self }
    }

    /// The same cultivator with another cultivation.
    pub open spec fn spec_with_cultivation(self, cultivation: Cultivation) -> BattleQuery {
        BattleQuery { cultivation, ..self }
    }

    /// The same cultivator with other years.
    pub fn with_life(self, life: Life) -> (r: BattleQuery)
        ensures
            r == self.spec_with_life(life),
    {
        BattleQuery { cultivation: self.cultivation, battle: self.battle, life, entity: self.entity }
    }

    /// The same cultivator with another cultivation.
    pub fn with_cultivation(self, cultivation: Cultivation) -> (r: BattleQuery)
        ensures
            r == self.spec_with_cultivation(cultivation),
    {
        BattleQuery { cultivation, battle: self.battle, life: self.life, entity: self.entity }
    }
}

/// Whether `a` wants to fight `b`: its courage is more than its chance of
/// losing, `1 - win_rate(a, b)`.
pub open spec fn willing(a: BattleQuery, b: BattleQuery) -> bool {
    a.battle@.gt(a.cultivation.win_rate(b.cultivation).complement())
}

/// Whether `a` wants to fight `b`.
pub fn will_battle(a: &BattleQuery, b: &BattleQuery) -> (r: bool)
    ensures
        r == willing(*a, *b),
{
    let rate = a.cultivation.get_win_rate(&b.cultivation);
    unit_exceeds(a.battle.courage, rate.den - rate.num, rate.den)
}

/// The chances of two combatants against each other add up to one, and the
/// chance of losing is the opponent's chance of winning, unless neither has
/// any cultivation.
pub proof fn lemma_win_rates_sum_to_one(a: Cultivation, b: Cultivation)
    requires
        a.cultivation + b.cultivation > 0,
    ensures
        a.win_rate(b).sums_to_one(b.win_rate(a)),
        a.win_rate(b).complement() == b.win_rate(a),
{
    lemma_shares_sum_to_one(a.cultivation as nat, b.cultivation as nat);
}

/// Whether the draw `draw / SCALE` goes against the first combatant: it is
/// more than the first one's chance of winning.
pub open spec fn second_wins(a: BattleQuery, b: BattleQuery, draw: u64) -> bool {
    unit_frac(draw).gt(a.cultivation.win_rate(b.cultivation))
}

/// The winner's cultivation after the fight: its own and a tenth of the
/// loser's, rounded down.
pub open spec fn gain(winner: BattleQuery, loser: BattleQuery) -> int {
    winner.cultivation.cultivation + loser.cultivation.cultivation / 10
}

/// The winner after the fight.
pub open spec fn victor(winner: BattleQuery, loser: BattleQuery) -> BattleQuery {
    winner.spec_with_cultivation(
        Cultivation { level: winner.cultivation.level, cultivation: gain(winner, loser) as u64 },
    )
}

/// The loser after the fight.
pub open spec fn defeated(loser: BattleQuery) -> BattleQuery {
    loser.spec_with_life(Life { age: loser.life.age, lifespan: loser.life.lifespan, alive: false })
}

/// The two combatants after their fight, in the order they came.
pub open spec fn duel(a: BattleQuery, b: BattleQuery, draw: u64) -> (BattleQuery, BattleQuery) {
    if second_wins(a, b, draw) {
        (defeated(a), victor(b, a))
    } else {
        (victor(a, b), defeated(b))
    }
}

/// The winner's new cultivation is a `u64`.
pub open spec fn duel_fits(a: BattleQuery, b: BattleQuery, draw: u64) -> bool {
    if second_wins(a, b, draw) {
        gain(b, a) <= u64::MAX
    } else {
        gain(a, b) <= u64::MAX
    }
}

/// A fight changes two things and nothing else: the winner's cultivation
/// grows by a tenth of the loser's, rounded down, and the loser is dead.
pub proof fn lemma_duel_changes(a: BattleQuery, b: BattleQuery, draw: u64)
    requires
        duel_fits(a, b, draw),
    ensures
        ({
            let (winner, loser) = if second_wins(a, b, draw) {
                (b, a)
            } else {
                (a, b)
            };
            let (winner_after, loser_after) = if second_wins(a, b, draw) {
                (duel(a, b, draw).1, duel(a, b, draw).0)
            } else {
                (duel(a, b, draw).0, duel(a, b, draw).1)
            };
            &&& winner_after.cultivation.cultivation == winner.cultivation.cultivation
                + loser.cultivation.cultivation / 10
            &&& winner_after.cultivation.level == winner.cultivation.level
            &&& winner_after.life == winner.life
            &&& winner_after.battle == winner.battle
            &&& winner_after.entity == winner.entity
            &&& !loser_after.life.alive
            &&& loser_after.life.age == loser.life.age
            &&& loser_after.life.lifespan == loser.life.lifespan
            &&& loser_after.cultivation == loser.cultivation
            &&& loser_after.battle == loser.battle
            &&& loser_after.entity == loser.entity
        }),
{
}

/// Fights out one pair on the draw `draw / SCALE`.
pub fn fight(a: BattleQuery, b: BattleQuery, draw: u64) -> (after: (BattleQuery, BattleQuery))
    requires
        duel_fits(a, b, draw),
    ensures
        after == duel(a, b, draw),
{
    let rate = a.cultivation.get_win_rate(&b.cultivation);
    let (winner, loser, swapped) = if unit_exceeds(draw, rate.num, rate.den) {
        (b, a, true)
    } else {
        (a, b, false)
    };
    let winner = BattleQuery {
        cultivation: Cultivation {
            level: winner.cultivation.level,
            cultivation: winner.cultivation.cultivation + loser.cultivation.cultivation / 10,
        },
        battle: winner.battle,
        life: winner.life,
        entity: winner.entity,
    };
    let loser = BattleQuery {
        cultivation: loser.cultivation,
        battle: loser.battle,
        life: Life { age: loser.life.age, lifespan: loser.life.lifespan, alive: false },
        entity: loser.entity,
    };
    if swapped {
        (loser, winner)
    } else {
        (winner, loser)
    }
}

/// The rows after the pair has fought on the draw `draw / SCALE`, or why it
/// could not fight.
pub open spec fn resolve(rows: Seq<BattleQuery>, pair: (Entity, Entity), draw: u64) -> Result<
    Seq<BattleQuery>,
    EntityError,
> {
    match locate(rows, pair.0, pair.1) {
        Ok((i, j)) => {
            let after = duel(rows[i], rows[j], draw);
            Ok(rows.update(i, after.0).update(j, after.1))
        },
        Err(e) => Err(e),
    }
}

/// Where the pair can fight, the winner's new cultivation is a `u64`.
pub open spec fn resolve_fits(rows: Seq<BattleQuery>, pair: (Entity, Entity), draw: u64) -> bool {
    locate(rows, pair.0, pair.1) matches Ok((i, j)) ==> duel_fits(rows[i], rows[j], draw)
}

/// Lets one pair of the world fight on the draw `draw / SCALE`. Where the
/// pair cannot fight the world stays as it is.
pub fn resolve_pair(world: &mut World, pair: (Entity, Entity), draw: u64) -> (r: Result<
    (),
    EntityError,
>)
    requires
        old(world).wf(),
        resolve_fits(old(world)@, pair, draw),
    ensures
        final(world).wf(),
        final(world).next_id() == old(world).next_id(),
        match resolve(old(world)@, pair, draw) {
            Ok(rows) => r is Ok && final(world)@ == rows,
            Err(e) => r == Err::<(), EntityError>(e) && final(world)@ == old(world)@,
        },
{
    match world.get_disjoint_mut(pair.0, pair.1) {
        Ok((i, j)) => {
            let after = fight(world.row(i), world.row(j), draw);
            world.put(i, after.0);
            world.put(j, after.1);
            Ok(())
        },
        Err(e) => Err(e),
    }
}

/// The pairs that a line of players makes: the first with the second, the
/// third with the fourth, and so on; an odd one at the end stays out.
pub open spec fn paired(players: Seq<Entity>) -> Seq<(Entity, Entity)> {
    Seq::new(players.len() / 2, |k: int| (players[2 * k], players[2 * k + 1]))
}

/// Pairs up a line of players, neighbours together.
pub fn pair_up(players: &Vec<Entity>) -> (pairs: Vec<(Entity, Entity)>)
    ensures
        pairs@ == paired(players@),
{
    let mut pairs: Vec<(Entity, Entity)> = Vec::new();
    let n: usize = players.len();
    let count: usize = n / 2;
    let mut k: usize = 0;
    while k < count
        invariant
            k <= count,
            n == players@.len(),
            count == n / 2,
            pairs@.len() == k,
            forall|m: int| 0 <= m < k ==> pairs@[m] == (players@[2 * m], players@[2 * m + 1]),
        decreases count - k,
    {
        pairs.push((players[2 * k], players[2 * k + 1]));
        k = k + 1;
    }
    assert(pairs@ =~= paired(players@));
    pairs
}

/// The identities of the living, in the order of their rows.
pub open spec fn contenders(rows: Seq<BattleQuery>) -> Seq<Entity> {
    let alive = rows.filter(living());
    Seq::new(alive.len(), |k: int| alive[k].entity)
}

/// No identity occurs twice among the pairs: not within a pair, and not in
/// two of them.
pub open spec fn apart(pairs: Seq<(Entity, Entity)>) -> bool {
    &&& forall|k: int| 0 <= k < pairs.len() ==> (#[trigger] pairs[k]).0 != pairs[k].1
    &&& forall|k: int, m: int|
        0 <= k < m < pairs.len() ==> {
            &&& (#[trigger] pairs[k]).0 != (#[trigger] pairs[m]).0
            &&& pairs[k].0 != pairs[m].1
            &&& pairs[k].1 != pairs[m].0
            &&& pairs[k].1 != pairs[m].1
        }
}

/// Both of each pair are in the world and alive.
pub open spec fn all_living(rows: Seq<BattleQuery>, pairs: Seq<(Entity, Entity)>) -> bool {
    forall|k: int|
        0 <= k < pairs.len() ==> {
            &&& present(rows, (#[trigger] pairs[k]).0)
            &&& present(rows, pairs[k].1)
            &&& rows[slot_of(rows, pairs[k].0)].life.alive
            &&& rows[slot_of(rows, pairs[k].1)].life.alive
        }
}

/// Proposes this year's fights: the living are lined up in a random order
/// and paired up, neighbours together; an odd one stays out.
pub fn pair(world: &World, rng: &mut WyRand) -> (pairs: Vec<(Entity, Entity)>)
    requires
        world.wf(),
    ensures
        exists|order: Seq<Entity>|
            order.to_multiset() == contenders(world@).to_multiset() && pairs@ == #[trigger] paired(
                order,
            ),
        apart(pairs@),
        all_living(world@, pairs@),
{
    let mut players: Vec<Entity> = Vec::new();
    let n: usize = world.len();
    let mut i: usize = 0;
    proof {
        assert(world@.take(0) =~= Seq::<BattleQuery>::empty());
        Seq::<BattleQuery>::empty().lemma_filter_len(living());
        assert(players@ =~= contenders(world@.take(0)));
    }
    while i < n
        invariant
            i <= n,
            n == world@.len(),
            world.wf(),
            players@ == contenders(world@.take(i as int)),
            forall|k: int, m: int|
                0 <= k < players@.len() && i <= m < n ==> (#[trigger] players@[k]).0 < (
                #[trigger] world@[m]).entity.0,
            forall|k: int, m: int| 0 <= k < m < players@.len() ==> players@[k].0 < players@[m].0,
            forall|k: int|
                0 <= k < players@.len() ==> present(world@, #[trigger] players@[k]) && world@[slot_of(
                    world@,
                    players@[k],
                )].life.alive,
        decreases n - i,
    {
        let row = world.row(i);
        proof {
            let head = world@.take(i as int);
            assert(world@.take(i + 1) =~= head.push(row));
            head.lemma_filter_push(row, living());
            if row.life.alive {
                assert(contenders(head.push(row)) =~= contenders(head).push(row.entity));
                lemma_slot_is_unique(world@, row.entity, i as int);
            }
        }
        if row.life.alive {
            players.push(row.entity);
        }
        i = i + 1;
    }
    let ghost lined = players@;
    proof {
        assert(world@.take(n as int) =~= world@);
        assert(lined.no_duplicates());
        lined.lemma_multiset_has_no_duplicates();
    }
    shuffle(&mut players, rng);
    let pairs = pair_up(&players);
    proof {
        let order = players@;
        broadcast use to_multiset_contains;

        assert(forall|x: Entity|
            order.to_multiset().contains(x) ==> order.to_multiset().count(x) == 1);
        order.lemma_multiset_has_no_duplicates_conv();
        assert forall|k: int| 0 <= k < order.len() implies present(world@, #[trigger] order[k])
            && world@[slot_of(world@, order[k])].life.alive by {
            assert(order.contains(order[k]));
            assert(order.to_multiset().count(order[k]) > 0);
            assert(lined.contains(order[k]));
            let m = choose|m: int| 0 <= m < lined.len() && lined[m] == order[k];
            assert(present(world@, lined[m]));
        }
        assert forall|k: int| 0 <= k < pairs@.len() implies (#[trigger] pairs@[k]).0
            == order[2 * k] && pairs@[k].1 == order[2 * k + 1] by {}
        assert(apart(pairs@));
        assert(all_living(world@, pairs@)) by {
            assert forall|k: int| 0 <= k < pairs@.len() implies {
                &&& present(world@, (#[trigger] pairs@[k]).0)
                &&& present(world@, pairs@[k].1)
                &&& world@[slot_of(world@, pairs@[k].0)].life.alive
                &&& world@[slot_of(world@, pairs@[k].1)].life.alive
            } by {
                assert(pairs@[k].0 == order[2 * k]);
                assert(pairs@[k].1 == order[2 * k + 1]);
            }
        }
    }
    pairs
}

/// The first of the pair that is not in the world, if either is not.
pub open spec fn missing_from(rows: Seq<BattleQuery>, pair: (Entity, Entity)) -> Option<Entity> {
    if !present(rows, pair.0) {
        Some(pair.0)
    } else if !present(rows, pair.1) {
        Some(pair.1)
    } else {
        None
    }
}

/// The missing one of the first pair that has one missing.
pub open spec fn first_missing(rows: Seq<BattleQuery>, pairs: Seq<(Entity, Entity)>) -> Option<
    Entity,
>
    decreases pairs.len(),
{
    if pairs.len() == 0 {
        None
    } else {
        match first_missing(rows, pairs.drop_last()) {
            Some(e) => Some(e),
            None => missing_from(rows, pairs.last()),
        }
    }
}

/// The test for a pair that goes on to fight: both are of the same level,
/// and at least one of the two wants to.
pub open spec fn proceeds(rows: Seq<BattleQuery>) -> spec_fn((Entity, Entity)) -> bool {
    |pair: (Entity, Entity)|
        {
            let a = rows[slot_of(rows, pair.0)];
            let b = rows[slot_of(rows, pair.1)];
            a.cultivation.level == b.cultivation.level && (willing(a, b) || willing(b, a))
        }
}

/// What is missing among the first pairs is missing among all.
proof fn lemma_missing_sticks(rows: Seq<BattleQuery>, pairs: Seq<(Entity, Entity)>, k: int)
    requires
        0 <= k <= pairs.len(),
        first_missing(rows, pairs.take(k)) is Some,
    ensures
        first_missing(rows, pairs) == first_missing(rows, pairs.take(k)),
    decreases pairs.len(),
{
    if k == pairs.len() {
        assert(pairs.take(k) =~= pairs);
    } else {
        assert(pairs.drop_last().take(k) =~= pairs.take(k));
        lemma_missing_sticks(rows, pairs.drop_last(), k);
    }
}

/// Keeps of the proposed pairs, in their order, those that go on to fight.
/// A pair that names a cultivator who is not in the world is an error: the
/// first such pair decides, and in it the first of the two.
pub fn filter_battle(world: &World, pairs: &Vec<(Entity, Entity)>) -> (r: Result<
    Vec<(Entity, Entity)>,
    EntityError,
>)
    requires
        world.wf(),
    ensures
        match first_missing(world@, pairs@) {
            Some(e) => r == Err::<Vec<(Entity, Entity)>, EntityError>(EntityError::MissingEntity(e)),
            None => r matches Ok(kept) && kept@ == pairs@.filter(proceeds(world@)),
        },
{
    let mut kept: Vec<(Entity, Entity)> = Vec::new();
    let n: usize = pairs.len();
    let mut i: usize = 0;
    proof {
        assert(pairs@.take(0) =~= Seq::<(Entity, Entity)>::empty());
        Seq::<(Entity, Entity)>::empty().lemma_filter_len(proceeds(world@));
    }
    while i < n
        invariant
            i <= n,
            n == pairs@.len(),
            world.wf(),
            first_missing(world@, pairs@.take(i as int)) is None,
            kept@ == pairs@.take(i as int).filter(proceeds(world@)),
        decreases n - i,
    {
        let pair = pairs[i];
        proof {
            let head = pairs@.take(i as int);
            assert(pairs@.take(i + 1) =~= head.push(pair));
            assert(head.push(pair).drop_last() =~= head);
            head.lemma_filter_push(pair, proceeds(world@));
        }
        let a = match world.get(pair.0) {
            Some(a) => a,
            None => {
                proof {
                    lemma_missing_sticks(world@, pairs@, i + 1);
                }
                return Err(EntityError::MissingEntity(pair.0));
            },
        };
        let b = match world.get(pair.1) {
            Some(b) => b,
            None => {
                proof {
                    lemma_missing_sticks(world@, pairs@, i + 1);
                }
                return Err(EntityError::MissingEntity(pair.1));
            },
        };
        if a.cultivation.level == b.cultivation.level && (will_battle(&a, &b) || will_battle(&b, &a)) {
            kept.push(pair);
        }
        i = i + 1;
    }
    proof {
        assert(pairs@.take(n as int) =~= pairs@);
    }
    Ok(kept)
}

/// The world after the pairs have fought in order, each on its draw, and
/// how that ended. The first pair that cannot fight ends it: the fights
/// before it stand, and none comes after.
pub open spec fn battle_outcome(
    rows: Seq<BattleQuery>,
    pairs: Seq<(Entity, Entity)>,
    draws: Seq<u64>,
) -> (Seq<BattleQuery>, Result<(), EntityError>)
    decreases pairs.len(),
{
    if pairs.len() == 0 {
        (rows, Ok(()))
    } else {
        let before = battle_outcome(rows, pairs.drop_last(), draws.drop_last());
        match before.1 {
            Err(_) => before,
            Ok(_) => match resolve(before.0, pairs.last(), draws.last()) {
                Ok(after) => (after, Ok(())),
                Err(e) => (before.0, Err(e)),
            },
        }
    }
}

/// In every fight that takes place, the winner's new cultivation is a
/// `u64`.
pub open spec fn battle_fits(
    rows: Seq<BattleQuery>,
    pairs: Seq<(Entity, Entity)>,
    draws: Seq<u64>,
) -> bool
    decreases pairs.len(),
{
    if pairs.len() == 0 {
        true
    } else {
        let before = battle_outcome(rows, pairs.drop_last(), draws.drop_last());
        &&& battle_fits(rows, pairs.drop_last(), draws.drop_last())
        &&& before.1 is Ok ==> resolve_fits(before.0, pairs.last(), draws.last())
    }
}

/// Once a pair could not fight, that is how the whole battle ends.
proof fn lemma_failure_sticks(
    rows: Seq<BattleQuery>,
    pairs: Seq<(Entity, Entity)>,
    draws: Seq<u64>,
    k: int,
)
    requires
        0 <= k <= pairs.len(),
        draws.len() == pairs.len(),
        battle_outcome(rows, pairs.take(k), draws.take(k)).1 is Err,
    ensures
        battle_outcome(rows, pairs, draws) == battle_outcome(rows, pairs.take(k), draws.take(k)),
    decreases pairs.len(),
{
    if k == pairs.len() {
        assert(pairs.take(k) =~= pairs);
        assert(draws.take(k) =~= draws);
    } else {
        assert(pairs.drop_last().take(k) =~= pairs.take(k));
        assert(draws.drop_last().take(k) =~= draws.take(k));
        lemma_failure_sticks(rows, pairs.drop_last(), draws.drop_last(), k);
    }
}

/// What fits for all the pairs fits for the first of them.
proof fn lemma_fits_so_far(
    rows: Seq<BattleQuery>,
    pairs: Seq<(Entity, Entity)>,
    draws: Seq<u64>,
    k: int,
)
    requires
        0 <= k <= pairs.len(),
        draws.len() == pairs.len(),
        battle_fits(rows, pairs, draws),
    ensures
        battle_fits(rows, pairs.take(k), draws.take(k)),
    decreases pairs.len(),
{
    if k == pairs.len() {
        assert(pairs.take(k) =~= pairs);
        assert(draws.take(k) =~= draws);
    } else {
        assert(pairs.drop_last().take(k) =~= pairs.take(k));
        assert(draws.drop_last().take(k) =~= draws.take(k));
        lemma_fits_so_far(rows, pairs.drop_last(), draws.drop_last(), k);
    }
}

/// Lets the pairs fight in order, the `k`-th on the `k`-th draw.
pub fn battle_with(world: &mut World, pairs: &Vec<(Entity, Entity)>, draws: &Vec<u64>) -> (r: Result<
    (),
    EntityError,
>)
    requires
        old(world).wf(),
        draws@.len() == pairs@.len(),
        battle_fits(old(world)@, pairs@, draws@),
    ensures
        final(world).wf(),
        final(world).next_id() == old(world).next_id(),
        battle_outcome(old(world)@, pairs@, draws@) == (final(world)@, r),
{
    let n: usize = pairs.len();
    let mut i: usize = 0;
    proof {
        assert(pairs@.take(0) =~= Seq::<(Entity, Entity)>::empty());
    }
    while i < n
        invariant
            i <= n,
            n == pairs@.len(),
            draws@.len() == n,
            world.wf(),
            world.next_id() == old(world).next_id(),
            battle_fits(old(world)@, pairs@, draws@),
            battle_outcome(old(world)@, pairs@.take(i as int), draws@.take(i as int)) == (
                world@,
                Ok::<(), EntityError>(()),
            ),
        decreases n - i,
    {
        proof {
            lemma_fits_so_far(old(world)@, pairs@, draws@, i + 1);
            assert(pairs@.take(i + 1).drop_last() =~= pairs@.take(i as int));
            assert(draws@.take(i + 1).drop_last() =~= draws@.take(i as int));
        }
        match resolve_pair(world, pairs[i], draws[i]) {
            Ok(_) => {},
            Err(e) => {
                proof {
                    lemma_failure_sticks(old(world)@, pairs@, draws@, i + 1);
                }
                return Err(e);
            },
        }
        i = i + 1;
    }
    proof {
        assert(pairs@.take(n as int) =~= pairs@);
        assert(draws@.take(n as int) =~= draws@);
    }
    Ok(())
}

/// Lets the pairs fight in order, each on a fresh draw from the random
/// stream.
pub fn battle(world: &mut World, pairs: &Vec<(Entity, Entity)>, rng: &mut WyRand) -> (r: Result<
    (),
    EntityError,
>)
    requires
        old(world).wf(),
        forall|draws: Seq<u64>|
            valid_draws(draws, pairs@.len()) ==> #[trigger] battle_fits(old(world)@, pairs@, draws),
    ensures
        final(world).wf(),
        final(world).next_id() == old(world).next_id(),
        exists|draws: Seq<u64>|
            valid_draws(draws, pairs@.len()) && #[trigger] battle_outcome(
                old(world)@,
                pairs@,
                draws,
            ) == (final(world)@, r),
{
    let draws = draw_units(rng, pairs.len());
    battle_with(world, pairs, &draws)
}

/// The largest cultivation `c` for which `c + c / 10` is still a `u64`:
/// among cultivators no higher than this, any winner's gain fits.
pub const GAIN_CEILING: u64 = 16769767339735956014;

/// Both of each pair are in the world, and neither is above the ceiling.
pub open spec fn all_within(rows: Seq<BattleQuery>, pairs: Seq<(Entity, Entity)>) -> bool {
    forall|k: int|
        0 <= k < pairs.len() ==> {
            &&& present(rows, (#[trigger] pairs[k]).0)
            &&& present(rows, pairs[k].1)
            &&& rows[slot_of(rows, pairs[k].0)].cultivation.cultivation <= GAIN_CEILING
            &&& rows[slot_of(rows, pairs[k].1)].cultivation.cultivation <= GAIN_CEILING
        }
}

/// `after` holds the same identities as `before`, each at its place, and
/// the rows of those that are in none of the pairs are as they were.
pub open spec fn only_fighters_changed(
    before: Seq<BattleQuery>,
    after: Seq<BattleQuery>,
    pairs: Seq<(Entity, Entity)>,
) -> bool {
    &&& after.len() == before.len()
    &&& forall|i: int| 0 <= i < before.len() ==> (#[trigger] after[i]).entity == before[i].entity
    &&& forall|i: int|
        0 <= i < before.len() && (forall|k: int|
            0 <= k < pairs.len() ==> (#[trigger] pairs[k]).0 != before[i].entity && pairs[k].1
                != before[i].entity) ==> (#[trigger] after[i]) == before[i]
}

/// Rows that hold the same identities at the same places find them at the
/// same places.
proof fn lemma_same_ids_same_slots(before: Seq<BattleQuery>, after: Seq<BattleQuery>)
    requires
        ids_rise(before),
        after.len() == before.len(),
        forall|i: int| 0 <= i < before.len() ==> (#[trigger] after[i]).entity == before[i].entity,
    ensures
        ids_rise(after),
        forall|e: Entity| present(after, e) == present(before, e),
        forall|e: Entity| present(before, e) ==> slot_of(after, e) == slot_of(before, e),
{
    assert forall|i: int, j: int| 0 <= i < j < after.len() implies after[i].entity.0
        < after[j].entity.0 by {
        assert(after[i].entity == before[i].entity);
        assert(after[j].entity == before[j].entity);
    }
    assert forall|e: Entity| present(after, e) == present(before, e) by {
        if present(after, e) {
            let k = slot_of(after, e);
            assert(before[k].entity == e);
        }
        if present(before, e) {
            let k = slot_of(before, e);
            assert(after[k].entity == e);
        }
    }
    assert forall|e: Entity| present(before, e) implies slot_of(after, e) == slot_of(
        before,
        e,
    ) by {
        let k = slot_of(before, e);
        assert(after[k].entity == e);
        lemma_slot_is_unique(after, e, k);
    }
}

/// One fight between two different cultivators of the world, neither
/// above the ceiling, takes place, its gain fits, and it rewrites their two
/// rows and no other.
proof fn lemma_one_fight(rows: Seq<BattleQuery>, a: Entity, b: Entity, draw: u64)
    requires
        ids_rise(rows),
        a != b,
        present(rows, a),
        present(rows, b),
        rows[slot_of(rows, a)].cultivation.cultivation <= GAIN_CEILING,
        rows[slot_of(rows, b)].cultivation.cultivation <= GAIN_CEILING,
    ensures
        resolve_fits(rows, (a, b), draw),
        resolve(rows, (a, b), draw) matches Ok(after) && {
            &&& after.len() == rows.len()
            &&& forall|t: int| 0 <= t < rows.len() ==> (#[trigger] after[t]).entity == rows[t].entity
            &&& forall|t: int|
                0 <= t < rows.len() && rows[t].entity != a && rows[t].entity != b ==> (
                #[trigger] after[t]) == rows[t]
        },
{
    let i = slot_of(rows, a);
    let j = slot_of(rows, b);
    assert(locate(rows, a, b) == Ok::<(int, int), EntityError>((i, j)));
    assert(duel_fits(rows[i], rows[j], draw));
}

/// Among pairs that share no cultivator, all of them in the world and
/// none above the ceiling, every fight takes place and every gain fits,
/// whatever the draws; and the fights touch no one else.
pub proof fn lemma_apart_pairs_all_fight(
    rows: Seq<BattleQuery>,
    pairs: Seq<(Entity, Entity)>,
    draws: Seq<u64>,
)
    requires
        ids_rise(rows),
        apart(pairs),
        all_within(rows, pairs),
        draws.len() == pairs.len(),
    ensures
        battle_fits(rows, pairs, draws),
        battle_outcome(rows, pairs, draws).1 is Ok,
        only_fighters_changed(rows, battle_outcome(rows, pairs, draws).0, pairs),
    decreases pairs.len(),
{
    if pairs.len() > 0 {
        let head = pairs.drop_last();
        let last = pairs.len() - 1;
        let (a, b) = pairs[last];
        assert(apart(head) && all_within(rows, head)) by {
            assert forall|k: int| 0 <= k < head.len() implies head[k] == pairs[k] by {}
        }
        lemma_apart_pairs_all_fight(rows, head, draws.drop_last());
        let mid = battle_outcome(rows, head, draws.drop_last()).0;
        lemma_same_ids_same_slots(rows, mid);
        let i = slot_of(rows, a);
        let j = slot_of(rows, b);
        assert(mid[i] == rows[i] && mid[j] == rows[j]) by {
            assert forall|k: int| 0 <= k < head.len() implies (#[trigger] head[k]).0 != a
                && head[k].1 != a && head[k].0 != b && head[k].1 != b by {
                assert(head[k] == pairs[k]);
            }
        }
        lemma_one_fight(mid, a, b, draws.last());
        let after = battle_outcome(rows, pairs, draws).0;
        assert(only_fighters_changed(rows, after, pairs)) by {
            assert forall|t: int|
                0 <= t < rows.len() && (forall|k: int|
                    0 <= k < pairs.len() ==> (#[trigger] pairs[k]).0 != rows[t].entity
                        && pairs[k].1 != rows[t].entity) implies (#[trigger] after[t])
                == rows[t] by {
                assert(pairs[last].0 != rows[t].entity && pairs[last].1 != rows[t].entity);
                assert forall|k: int| 0 <= k < head.len() implies (#[trigger] head[k]).0
                    != rows[t].entity && head[k].1 != rows[t].entity by {
                    assert(head[k] == pairs[k]);
                }
                assert(mid[t] == rows[t]);
            }
        }
    }
}

/// Where both of every pair are in the world, none is missing.
pub proof fn lemma_none_missing(rows: Seq<BattleQuery>, pairs: Seq<(Entity, Entity)>)
    requires
        forall|k: int|
            0 <= k < pairs.len() ==> present(rows, (#[trigger] pairs[k]).0) && present(
                rows,
                pairs[k].1,
            ),
    ensures
        first_missing(rows, pairs) is None,
    decreases pairs.len(),
{
    if pairs.len() > 0 {
        let head = pairs.drop_last();
        assert forall|k: int| 0 <= k < head.len() implies present(rows, (#[trigger] head[k]).0)
            && present(rows, head[k].1) by {
            assert(head[k] == pairs[k]);
        }
        lemma_none_missing(rows, head);
        assert(pairs.last() == pairs[pairs.len() - 1]);
    }
}

/// The pairs that a test lets through are among those that went in, in
/// their order: they still share no cultivator, and both of each are still
/// living cultivators of the world.
pub proof fn lemma_chosen_pairs_stay_apart(
    rows: Seq<BattleQuery>,
    pairs: Seq<(Entity, Entity)>,
    test: spec_fn((Entity, Entity)) -> bool,
)
    requires
        apart(pairs),
        all_living(rows, pairs),
    ensures
        apart(pairs.filter(test)),
        all_living(rows, pairs.filter(test)),
    decreases pairs.len(),
{
    reveal(Seq::filter);
    if pairs.len() > 0 {
        let head = pairs.drop_last();
        let last = pairs[pairs.len() - 1];
        assert(apart(head) && all_living(rows, head)) by {
            assert forall|k: int| 0 <= k < head.len() implies head[k] == pairs[k] by {}
        }
        lemma_chosen_pairs_stay_apart(rows, head, test);
        let before = head.filter(test);
        if test(last) {
            assert(pairs.filter(test) == before.push(last));
            assert forall|k: int| 0 <= k < before.len() implies {
                &&& (#[trigger] before[k]).0 != last.0
                &&& before[k].0 != last.1
                &&& before[k].1 != last.0
                &&& before[k].1 != last.1
            } by {
                assert(before.contains(before[k]));
                head.lemma_filter_contains_rev(test, before[k]);
                let m = choose|m: int| 0 <= m < head.len() && head[m] == before[k];
                assert(pairs[m] == before[k]);
            }
        }
    }
}

} // verus!
