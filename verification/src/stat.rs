//! What the simulation knows about its population and its dead.
//!
//! Sums and counts are kept, never rounded means: a mean is handed out as
//! the exact fraction of the two.

use crate::battle::BattleQuery;
use crate::config::TOP;
use crate::entropy::shuffle;
use crate::fraction::{Frac, Ratio, SCALE};
use crate::spawn::{DeathCause, DeathEvent};
use crate::world::{living, World};
use bevy_prng::WyRand;
use itertools::Itertools;
use std::collections::HashMap;
use vstd::prelude::*;
use vstd::seq_lib::{lemma_multiset_commutative, to_multiset_build, to_multiset_len};

verus! {

/// The count of the years that have been simulated.
#[derive(Debug, Clone, Copy, PartialEq, Eq, Structural)]
pub struct GlobalState {
    pub year: u64,
}

impl Default for GlobalState {
    fn default() -> (state: GlobalState)
        ensures
            state.year == 0,
    {
        GlobalState { year: 0 }
    }
}

/// Counts one more year.
pub fn increase_year(state: &mut GlobalState)
    requires
        old(state).year < u64::MAX,
    ensures
        final(state).year == old(state).year + 1,
{
    state.year = state.year + 1;
}

/// The courages of the rows, added up.
pub open spec fn courage_sum(rows: Seq<BattleQuery>) -> nat
    decreases rows.len(),
{
    if rows.len() == 0 {
        0
    } else {
        courage_sum(rows.drop_last()) + rows.last().battle.courage as nat
    }
}

/// The cultivations of the rows, added up.
pub open spec fn cultivation_sum(rows: Seq<BattleQuery>) -> nat
    decreases rows.len(),
{
    if rows.len() == 0 {
        0
    } else {
        cultivation_sum(rows.drop_last()) + rows.last().cultivation.cultivation as nat
    }
}

/// The size of a group of cultivators and the sums from which its mean
/// courage and mean cultivation are taken.
#[derive(Debug, Clone, Copy, PartialEq, Eq, Structural)]
pub struct PerGroupStatistics {
    pub size: usize,
    /// The courages of the group, as counts of `1 / SCALE`, added up.
    pub courage_sum: u128,
    /// The cultivations of the group, added up.
    pub cultivation_sum: u128,
}

impl PerGroupStatistics {
    /// These are the statistics of the group `rows`.
    pub open spec fn describes(self, rows: Seq<BattleQuery>) -> bool {
        &&& self.size == rows.len()
        &&& self.courage_sum == courage_sum(rows)
        &&& self.cultivation_sum == cultivation_sum(rows)
    }

    /// The mean courage of the group, where it has anyone.
    pub open spec fn spec_courage(self) -> Option<Frac> {
        if self.size == 0 {
            None
        } else {
            Some(Frac { num: self.courage_sum as int, den: self.size * SCALE })
        }
    }

    /// The mean cultivation of the group, where it has anyone.
    pub open spec fn spec_cultivation(self) -> Option<Frac> {
        if self.size == 0 {
            None
        } else {
            Some(Frac { num: self.cultivation_sum as int, den: self.size as int })
        }
    }

    /// Takes the statistics of a group.
    pub fn new(cultivators: &Vec<BattleQuery>) -> (stats: PerGroupStatistics)
        ensures
            stats.describes(cultivators@),
    {
        let mut stats = PerGroupStatistics { size: 0, courage_sum: 0, cultivation_sum: 0 };
        let n: usize = cultivators.len();
        let mut i: usize = 0;
        assert(cultivators@.take(0) =~= Seq::<BattleQuery>::empty());
        while i < n
            invariant
                i <= n,
                n == cultivators@.len(),
                stats.describes(cultivators@.take(i as int)),
                stats.courage_sum <= i * u64::MAX,
                stats.cultivation_sum <= i * u64::MAX,
            decreases n - i,
        {
            let row = cultivators[i];
            proof {
                assert(cultivators@.take(i + 1).drop_last() =~= cultivators@.take(i as int));
                assert(i * u64::MAX + u64::MAX <= usize::MAX * u64::MAX) by (nonlinear_arith)
                    requires
                        i < usize::MAX,
                ;
                assert((i + 1) * u64::MAX == i * u64::MAX + u64::MAX) by (nonlinear_arith);
            }
            stats.size = stats.size + 1;
            stats.courage_sum = stats.courage_sum + row.battle.courage as u128;
            stats.cultivation_sum = stats.cultivation_sum + row.cultivation.cultivation as u128;
            i = i + 1;
        }
        assert(cultivators@.take(n as int) =~= cultivators@);
        stats
    }

    /// The mean courage of the group, if it has anyone.
    pub fn courage(&self) -> (mean: Option<Ratio>)
        ensures
            mean is Some <==> self.size > 0,
            mean matches Some(m) ==> Some(m@) == self.spec_courage(),
    {
        if self.size == 0 {
            None
        } else {
            assert(self.size * SCALE <= usize::MAX * 0x20_0000_0000_0000) by (nonlinear_arith)
                requires
                    self.size <= usize::MAX,
                    SCALE == 0x20_0000_0000_0000,
            ;
            Some(Ratio { num: self.courage_sum, den: self.size as u128 * SCALE as u128 })
        }
    }

    /// The mean cultivation of the group, if it has anyone.
    pub fn cultivation(&self) -> (mean: Option<Ratio>)
        ensures
            mean is Some <==> self.size > 0,
            mean matches Some(m) ==> Some(m@) == self.spec_cultivation(),
    {
        if self.size == 0 {
            None
        } else {
            Some(Ratio { num: self.cultivation_sum, den: self.size as u128 })
        }
    }
}

/// A running mean: how many values came in, and their sum.
#[derive(Debug, Clone, Copy, PartialEq, Eq, Structural)]
pub struct Average {
    pub total: usize,
    pub sum: u128,
}

impl Average {
    /// The sum is one that `total` values of `u64` can have.
    pub open spec fn wf(self) -> bool {
        self.sum <= self.total * u64::MAX
    }

    /// The mean of the values so far; zero before the first.
    pub open spec fn spec_average(self) -> Frac {
        if self.total == 0 {
            Frac { num: 0, den: 1 }
        } else {
            Frac { num: self.sum as int, den: self.total as int }
        }
    }

    /// Takes one more value in.
    pub fn digiest(&mut self, data: u64)
        requires
            old(self).wf(),
            old(self).total < usize::MAX,
        ensures
            final(self).wf(),
            final(self).total == old(self).total + 1,
            final(self).sum == old(self).sum + data,
    {
        proof {
            let n = self.total as int;
            assert(n * u64::MAX + u64::MAX <= usize::MAX * u64::MAX) by (nonlinear_arith)
                requires
                    n < usize::MAX,
            ;
            assert((n + 1) * u64::MAX == n * u64::MAX + u64::MAX) by (nonlinear_arith);
        }
        self.sum = self.sum + data as u128;
        self.total = self.total + 1;
    }

    /// The mean of the values so far; zero before the first.
    pub fn average(&self) -> (mean: Ratio)
        ensures
            mean@ == self.spec_average(),
    {
        if self.total == 0 {
            Ratio { num: 0, den: 1 }
        } else {
            Ratio { num: self.sum, den: self.total as u128 }
        }
    }

    /// A value taken in moves the mean as a running mean moves: from `m`
    /// over `n` values to `(m * n + x) / (n + 1)`.
    pub proof fn lemma_running_mean(before: Average, after: Average, data: u64)
        requires
            before.wf(),
            after.total == before.total + 1,
            after.sum == before.sum + data,
        ensures
            ({
                let m = before.spec_average();
                let n = before.total as int;
                after.spec_average().same(Frac { num: m.num * n + data * m.den, den: m.den * (n + 1) })
            }),
    {
        let n = before.total as int;
        let s = before.sum as int;
        let x = data as int;
        if n > 0 {
            assert((s + x) * (n * (n + 1)) == (s * n + x * n) * (n + 1)) by (nonlinear_arith);
        } else {
            assert(s == 0) by (nonlinear_arith)
                requires
                    0 <= s <= n * u64::MAX,
                    n == 0,
            ;
            assert(x * (1 * (0 + 1)) == (0 * 0 + x * 1) * 1) by (nonlinear_arith);
        }
    }
}

impl Default for Average {
    fn default() -> (average: Average)
        ensures
            average.total == 0,
            average.sum == 0,
            average.wf(),
    {
        Average { total: 0, sum: 0 }
    }
}

/// The default number of death ages above which the sample is thinned.
pub const SAMPLE_CAP: usize = 2000;

/// The default number of death ages that a thinning leaves.
pub const SAMPLE_TARGET: usize = 1000;

/// A sample of the ages at which cultivators died, kept within bounds: when
/// it grows beyond `cap` entries, `target` of them, picked at random, stay.
#[derive(Debug)]
pub struct DeathAges {
    pub ages: Vec<u64>,
    pub cap: usize,
    pub target: usize,
}

impl DeathAges {
    /// The sample is within its cap, and a thinning does not enlarge it.
    pub open spec fn wf(&self) -> bool {
        self.target <= self.cap && self.ages@.len() <= self.cap
    }

    /// An empty sample with the given bounds.
    pub fn new(cap: usize, target: usize) -> (sample: DeathAges)
        requires
            target <= cap,
        ensures
            sample.wf(),
            sample.ages@.len() == 0,
            sample.cap == cap,
            sample.target == target,
    {
        DeathAges { ages: Vec::new(), cap, target }
    }

    /// Takes one more age into the sample. If that makes more than `cap`,
    /// the sample is thinned to `target` entries drawn from it at random,
    /// none of them more often than it was there.
    pub fn record(&mut self, age: u64, rng: &mut WyRand)
        requires
            old(self).wf(),
        ensures
            final(self).wf(),
            final(self).cap == old(self).cap,
            final(self).target == old(self).target,
            old(self).ages@.len() < old(self).cap ==> final(self).ages@ == old(self).ages@.push(age),
            old(self).ages@.len() == old(self).cap ==> final(self).ages@.len() == old(self).target,
            final(self).ages@.to_multiset().subset_of(old(self).ages@.push(age).to_multiset()),
    {
        self.ages.push(age);
        if self.ages.len() > self.cap {
            let ghost full = self.ages@;
            shuffle(&mut self.ages, rng);
            let ghost mixed = self.ages@;
            self.ages.truncate(self.target);
            proof {
                let kept = mixed.take(self.target as int);
                to_multiset_len(mixed);
                to_multiset_len(full);
                assert(mixed =~= kept + mixed.skip(self.target as int));
                lemma_multiset_commutative(kept, mixed.skip(self.target as int));
                assert(self.ages@ =~= kept);
            }
        }
    }
}

/// The size of a sample that held `len` ages after `more` have been taken
/// in one by one: each adds one, but one that comes to a full sample
/// leaves `target`.
pub open spec fn thinned_len(len: nat, cap: nat, target: nat, more: nat) -> nat
    decreases more,
{
    if more == 0 {
        len
    } else {
        let before = thinned_len(len, cap, target, (more - 1) as nat);
        if before < cap {
            before + 1
        } else {
            target
        }
    }
}

/// A sample within its cap stays within it however many ages it takes in;
/// and as long as they all fit under the cap, it keeps every one.
pub proof fn lemma_sample_stays_bounded(len: nat, cap: nat, target: nat, more: nat)
    requires
        len <= cap,
        target <= cap,
    ensures
        thinned_len(len, cap, target, more) <= cap,
        len + more <= cap ==> thinned_len(len, cap, target, more) == len + more,
    decreases more,
{
    if more > 0 {
        lemma_sample_stays_bounded(len, cap, target, (more - 1) as nat);
    }
}

impl Default for DeathAges {
    fn default() -> (sample: DeathAges)
        ensures
            sample.wf(),
            sample.ages@.len() == 0,
            sample.cap == SAMPLE_CAP,
            sample.target == SAMPLE_TARGET,
    {
        DeathAges::new(SAMPLE_CAP, SAMPLE_TARGET)
    }
}

/// The ages at death in the notices, added up.
pub open spec fn age_sum(events: Seq<DeathEvent>) -> nat
    decreases events.len(),
{
    if events.len() == 0 {
        0
    } else {
        age_sum(events.drop_last()) + events.last().life.age as nat
    }
}

/// The ages at death in the notices, in their order.
pub open spec fn ages_of(events: Seq<DeathEvent>) -> Seq<u64> {
    Seq::new(events.len(), |k: int| events[k].life.age)
}

/// The test for the notice of a death of the given cause.
pub open spec fn died_of(cause: DeathCause) -> spec_fn(DeathEvent) -> bool {
    |event: DeathEvent| event.spec_cause() == cause
}

/// The test for a row of the level at position `idx`.
pub open spec fn of_level(idx: usize) -> spec_fn(BattleQuery) -> bool {
    |row: BattleQuery| row.cultivation.level.spec_idx() == idx
}

impl BattleQuery {
    /// The position of the cultivator's level.
    pub fn level_index(&self) -> (idx: usize)
        ensures
            idx == self.cultivation.level.spec_idx(),
            idx <= TOP,
    {
        self.cultivation.level.idx()
    }
}

/// Calls `itertools::Itertools::into_group_map_by` on copies of the rows,
/// keyed by the position of their level. It walks the rows once and appends
/// each to the list under its key, so a key is in the map exactly when some
/// row has it, and its list holds the rows of that key in their order.
#[verifier::external_body]
fn group_by_level(rows: &Vec<BattleQuery>) -> (groups: HashMap<usize, Vec<BattleQuery>>)
    ensures
        forall|idx: usize| #[trigger]
            groups@.contains_key(idx) <==> rows@.filter(of_level(idx)).len() > 0,
        forall|idx: usize|
            groups@.contains_key(idx) ==> (#[trigger] groups@[idx])@ == rows@.filter(of_level(idx)),
{
    rows.iter().copied().into_group_map_by(|row| row.level_index())
}

/// Everything the simulation keeps count of.
#[derive(Debug)]
pub struct XiuxianStatistics {
    /// The statistics of each level that has anyone living, by the level's
    /// position.
    pub per_level_stat: HashMap<usize, PerGroupStatistics>,
    /// The statistics of all the living.
    pub global_stat: PerGroupStatistics,
    /// The ages at death of all who died.
    pub death: Average,
    /// The ages at death of those killed in a fight.
    pub death_by_battle: Average,
    /// The ages at death of those who died of old age.
    pub death_by_age: Average,
    /// A bounded sample of the ages at death.
    pub death_ages: DeathAges,
}

impl XiuxianStatistics {
    /// The running means are sound, every death is counted under exactly
    /// one cause, and the sample is within its bounds.
    pub open spec fn wf(&self) -> bool {
        &&& self.death.wf()
        &&& self.death_by_battle.wf()
        &&& self.death_by_age.wf()
        &&& self.death_by_battle.total + self.death_by_age.total == self.death.total
        &&& self.death_by_battle.sum + self.death_by_age.sum == self.death.sum
        &&& self.death_ages.wf()
    }

    /// The population statistics are those of the living among `rows`:
    /// all of them together, and level by level for each level that has
    /// any.
    pub open spec fn describes(&self, rows: Seq<BattleQuery>) -> bool {
        let alive = rows.filter(living());
        &&& self.global_stat.describes(alive)
        &&& forall|idx: usize| #[trigger]
            self.per_level_stat@.contains_key(idx) <==> alive.filter(of_level(idx)).len() > 0
        &&& forall|idx: usize|
            self.per_level_stat@.contains_key(idx) ==> (#[trigger] self.per_level_stat@[idx]).describes(
                alive.filter(of_level(idx)),
            )
    }
}

impl XiuxianStatistics {
    /// These statistics are `before` with the deaths of `events` counted:
    /// each toward the mean age at death of all and toward that of its
    /// cause. The sample has taken the ages in one by one, thinned whenever
    /// it was full, and holds no age more often than it came in. The bounds
    /// of the sample and what is known of the living are those of `before`.
    pub open spec fn counts(&self, before: XiuxianStatistics, events: Seq<DeathEvent>) -> bool {
        let natural = events.filter(died_of(DeathCause::Natural));
        let battle = events.filter(died_of(DeathCause::Battle));
        &&& self.death.total == before.death.total + events.len()
        &&& self.death.sum == before.death.sum + age_sum(events)
        &&& self.death_by_age.total == before.death_by_age.total + natural.len()
        &&& self.death_by_age.sum == before.death_by_age.sum + age_sum(natural)
        &&& self.death_by_battle.total == before.death_by_battle.total + battle.len()
        &&& self.death_by_battle.sum == before.death_by_battle.sum + age_sum(battle)
        &&& self.death_ages.cap == before.death_ages.cap
        &&& self.death_ages.target == before.death_ages.target
        &&& self.death_ages.ages@.len() == thinned_len(
            before.death_ages.ages@.len(),
            before.death_ages.cap as nat,
            before.death_ages.target as nat,
            events.len(),
        )
        &&& self.death_ages.ages@.to_multiset().subset_of(
            before.death_ages.ages@.to_multiset().add(ages_of(events).to_multiset()),
        )
        &&& self.per_level_stat == before.per_level_stat
        &&& self.global_stat == before.global_stat
    }
}

impl Default for XiuxianStatistics {
    fn default() -> (stats: XiuxianStatistics)
        ensures
            stats.wf(),
            stats.per_level_stat@ == Map::<usize, PerGroupStatistics>::empty(),
            stats.global_stat == (PerGroupStatistics { size: 0, courage_sum: 0, cultivation_sum: 0 }),
            stats.death == (Average { total: 0, sum: 0 }),
            stats.death_by_battle == (Average { total: 0, sum: 0 }),
            stats.death_by_age == (Average { total: 0, sum: 0 }),
            stats.death_ages.ages@.len() == 0,
            stats.death_ages.cap == SAMPLE_CAP,
            stats.death_ages.target == SAMPLE_TARGET,
    {
        XiuxianStatistics {
            per_level_stat: HashMap::new(),
            global_stat: PerGroupStatistics { size: 0, courage_sum: 0, cultivation_sum: 0 },
            death: Average::default(),
            death_by_battle: Average::default(),
            death_by_age: Average::default(),
            death_ages: DeathAges::default(),
        }
    }
}

/// Takes the population statistics anew from the living of the world. What
/// is known of the dead stays.
pub fn update_stats(world: &World, stats: &mut XiuxianStatistics)
    ensures
        final(stats).describes(world@),
        final(stats).death == old(stats).death,
        final(stats).death_by_battle == old(stats).death_by_battle,
        final(stats).death_by_age == old(stats).death_by_age,
        final(stats).death_ages == old(stats).death_ages,
{
    broadcast use vstd::std_specs::hash::group_hash_axioms;

    let cultivators = world.alive_rows();
    stats.global_stat = PerGroupStatistics::new(&cultivators);
    let groups = group_by_level(&cultivators);
    let mut per_level: HashMap<usize, PerGroupStatistics> = HashMap::new();
    let mut idx: usize = 0;
    while idx <= TOP
        invariant
            idx <= TOP + 1,
            forall|k: usize| #[trigger]
                groups@.contains_key(k) <==> cultivators@.filter(of_level(k)).len() > 0,
            forall|k: usize|
                groups@.contains_key(k) ==> (#[trigger] groups@[k])@ == cultivators@.filter(
                    of_level(k),
                ),
            forall|k: usize| #[trigger]
                per_level@.contains_key(k) <==> k < idx && groups@.contains_key(k),
            forall|k: usize|
                per_level@.contains_key(k) ==> (#[trigger] per_level@[k]).describes(
                    cultivators@.filter(of_level(k)),
                ),
        decreases TOP + 1 - idx,
    {
        match groups.get(&idx) {
            Some(group) => {
                per_level.insert(idx, PerGroupStatistics::new(group));
            },
            None => {},
        }
        idx = idx + 1;
    }
    proof {
        assert forall|k: usize| #[trigger]
            per_level@.contains_key(k) <==> cultivators@.filter(of_level(k)).len() > 0 by {
            if k > TOP && cultivators@.filter(of_level(k)).len() > 0 {
                let group = cultivators@.filter(of_level(k));
                cultivators@.lemma_filter_pred(of_level(k), 0);
                assert(of_level(k)(group[0]));
            }
        }
    }
    stats.per_level_stat = per_level;
}

/// Takes the year's death notices into the statistics: each counts toward
/// the mean age at death of all, toward that of its cause, and into the
/// sample of ages.
pub fn collect_death(events: &Vec<DeathEvent>, stats: &mut XiuxianStatistics, rng: &mut WyRand)
    requires
        old(stats).wf(),
        old(stats).death.total + events@.len() <= usize::MAX,
    ensures
        final(stats).wf(),
        final(stats).counts(*old(stats), events@),
{
    let n: usize = events.len();
    let mut i: usize = 0;
    proof {
        broadcast use vstd::multiset::group_multiset_axioms;

        assert(events@.take(0) =~= Seq::<DeathEvent>::empty());
        assert(ages_of(events@.take(0)) =~= Seq::<u64>::empty());
        Seq::<DeathEvent>::empty().lemma_filter_len(died_of(DeathCause::Natural));
        Seq::<DeathEvent>::empty().lemma_filter_len(died_of(DeathCause::Battle));
    }
    while i < n
        invariant
            i <= n,
            n == events@.len(),
            stats.wf(),
            old(stats).death.total + n <= usize::MAX,
            stats.death.total == old(stats).death.total + i,
            stats.death.sum == old(stats).death.sum + age_sum(events@.take(i as int)),
            stats.death_by_age.total == old(stats).death_by_age.total + events@.take(i as int).filter(
                died_of(DeathCause::Natural),
            ).len(),
            stats.death_by_age.sum == old(stats).death_by_age.sum + age_sum(
                events@.take(i as int).filter(died_of(DeathCause::Natural)),
            ),
            stats.death_by_battle.total == old(stats).death_by_battle.total + events@.take(
                i as int,
            ).filter(died_of(DeathCause::Battle)).len(),
            stats.death_by_battle.sum == old(stats).death_by_battle.sum + age_sum(
                events@.take(i as int).filter(died_of(DeathCause::Battle)),
            ),
            stats.death_ages.cap == old(stats).death_ages.cap,
            stats.death_ages.target == old(stats).death_ages.target,
            stats.death_ages.ages@.len() == thinned_len(
                old(stats).death_ages.ages@.len(),
                old(stats).death_ages.cap as nat,
                old(stats).death_ages.target as nat,
                i as nat,
            ),
            stats.death_ages.ages@.to_multiset().subset_of(
                old(stats).death_ages.ages@.to_multiset().add(
                    ages_of(events@.take(i as int)).to_multiset(),
                ),
            ),
            stats.per_level_stat == old(stats).per_level_stat,
            stats.global_stat == old(stats).global_stat,
        decreases n - i,
    {
        let event = events[i];
        let age: u64 = event.life.age;
        proof {
            let head = events@.take(i as int);
            let natural = head.filter(died_of(DeathCause::Natural));
            let battle = head.filter(died_of(DeathCause::Battle));
            assert(events@.take(i + 1) =~= head.push(event));
            assert(head.push(event).drop_last() =~= head);
            head.lemma_filter_push(event, died_of(DeathCause::Natural));
            head.lemma_filter_push(event, died_of(DeathCause::Battle));
            assert(natural.push(event).drop_last() =~= natural);
            assert(battle.push(event).drop_last() =~= battle);
            assert(ages_of(events@.take(i + 1)) =~= ages_of(head).push(age));
        }
        let ghost sampled = stats.death_ages.ages@;
        stats.death.digiest(age);
        match event.cause() {
            DeathCause::Natural => {
                stats.death_by_age.digiest(age);
            },
            DeathCause::Battle => {
                stats.death_by_battle.digiest(age);
            },
        }
        stats.death_ages.record(age, rng);
        proof {
            broadcast use vstd::multiset::group_multiset_axioms;

            to_multiset_build(sampled, age);
            to_multiset_build(ages_of(events@.take(i as int)), age);
        }
        i = i + 1;
    }
    proof {
        assert(events@.take(n as int) =~= events@);
    }
}

} // verus!
