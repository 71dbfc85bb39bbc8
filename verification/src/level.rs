//! The ladder of levels, and the table that says what each level asks for
//! and grants.

use crate::config::{lemma_default_terms, Config, TOP};
use vstd::prelude::*;

verus! {

/// The rank of a cultivator, lowest first.
#[derive(Debug, Clone, Copy, PartialEq, Eq, Hash, PartialOrd, Ord, Structural)]
pub enum Level {
    Foundation,
    GoldenCore,
    NascentSoul,
    SpiritTransform,
    VoidRefining,
    BodyIntegration,
    Mahayana,
}

impl Level {
    /// The level's position on the ladder, from 0.
    pub open spec fn spec_idx(self) -> nat {
        match self {
            Level::Foundation => 0,
            Level::GoldenCore => 1,
            Level::NascentSoul => 2,
            Level::SpiritTransform => 3,
            Level::VoidRefining => 4,
            Level::BodyIntegration => 5,
            Level::Mahayana => 6,
        }
    }

    /// The level at a position of the ladder.
    pub open spec fn spec_from_idx(idx: nat) -> Option<Level> {
        if idx == 0 {
            Some(Level::Foundation)
        } else if idx == 1 {
            Some(Level::GoldenCore)
        } else if idx == 2 {
            Some(Level::NascentSoul)
        } else if idx == 3 {
            Some(Level::SpiritTransform)
        } else if idx == 4 {
            Some(Level::VoidRefining)
        } else if idx == 5 {
            Some(Level::BodyIntegration)
        } else if idx == 6 {
            Some(Level::Mahayana)
        } else {
            None
        }
    }

    /// The level one step up; the top level has none.
    pub open spec fn spec_next(self) -> Option<Level> {
        Level::spec_from_idx(self.spec_idx() + 1)
    }

    /// The level's name.
    pub open spec fn spec_name(self) -> Seq<char> {
        match self {
            Level::Foundation => "筑基"@,
            Level::GoldenCore => "结丹"@,
            Level::NascentSoul => "元婴"@,
            Level::SpiritTransform => "化神"@,
            Level::VoidRefining => "炼虚"@,
            Level::BodyIntegration => "合体"@,
            Level::Mahayana => "大乘"@,
        }
    }

    /// The level's name.
    pub fn name(&self) -> (s: &'static str)
        ensures
            s@ == self.spec_name(),
    {
        match self {
            Level::Foundation => "筑基",
            Level::GoldenCore => "结丹",
            Level::NascentSoul => "元婴",
            Level::SpiritTransform => "化神",
            Level::VoidRefining => "炼虚",
            Level::BodyIntegration => "合体",
            Level::Mahayana => "大乘",
        }
    }

    /// The level's position on the ladder, from 0.
    pub fn idx(&self) -> (i: usize)
        ensures
            i == self.spec_idx(),
            i <= TOP,
    {
        match self {
            Level::Foundation => 0,
            Level::GoldenCore => 1,
            Level::NascentSoul => 2,
            Level::SpiritTransform => 3,
            Level::VoidRefining => 4,
            Level::BodyIntegration => 5,
            Level::Mahayana => 6,
        }
    }

    /// The level at position `idx`, if the ladder reaches that far.
    pub fn from_idx(idx: usize) -> (l: Option<Level>)
        ensures
            l == Level::spec_from_idx(idx as nat),
            l is Some <==> idx <= TOP,
            l matches Some(level) ==> level.spec_idx() == idx,
    {
        match idx {
            0 => Some(Level::Foundation),
            1 => Some(Level::GoldenCore),
            2 => Some(Level::NascentSoul),
            3 => Some(Level::SpiritTransform),
            4 => Some(Level::VoidRefining),
            5 => Some(Level::BodyIntegration),
            6 => Some(Level::Mahayana),
            _ => None,
        }
    }

    /// The cultivation that entering this level takes.
    pub fn required_cultivation(&self, table: &LevelTable) -> (c: u64)
        ensures
            c == table.required_cultivation@[self.spec_idx() as int],
    {
        table.required_cultivation[self.idx()]
    }

    /// The age that a cultivator of this level lives to.
    pub fn total_lifespan(&self, table: &LevelTable) -> (y: u64)
        ensures
            y == table.total_lifespan@[self.spec_idx() as int],
    {
        table.total_lifespan[self.idx()]
    }

    /// The level one step up; the top level has none.
    pub fn next_level(&self) -> (l: Option<Level>)
        ensures
            l == self.spec_next(),
            l is None <==> *self == Level::Mahayana,
            l matches Some(next) ==> next.spec_idx() == self.spec_idx() + 1,
    {
        match self {
            Level::Foundation => Some(Level::GoldenCore),
            Level::GoldenCore => Some(Level::NascentSoul),
            Level::NascentSoul => Some(Level::SpiritTransform),
            Level::SpiritTransform => Some(Level::VoidRefining),
            Level::VoidRefining => Some(Level::BodyIntegration),
            Level::BodyIntegration => Some(Level::Mahayana),
            Level::Mahayana => None,
        }
    }

    /// Recomputes the table in place from the two sequences of `config`:
    /// level `k` gets the term after `k` steps of each.
    pub fn update(table: &mut LevelTable, config: &Config)
        requires
            config.representable(),
        ensures
            final(table).matches(*config),
    {
        let mut required: [u64; 7] = [config.lvup.start; 7];
        let mut lifespan: [u64; 7] = [config.lifespan.start; 7];
        let mut i: usize = 1;
        while i <= TOP
            invariant
                1 <= i <= TOP + 1,
                config.representable(),
                forall|k: nat| k < i ==> required@[k as int] == #[trigger] config.lvup.spec_value(k),
                forall|k: nat|
                    k < i ==> lifespan@[k as int] == #[trigger] config.lifespan.spec_value(k),
            decreases TOP + 1 - i,
        {
            proof {
                config.lvup.lemma_value_grows(i as nat, TOP as nat);
                config.lvup.lemma_value_grows((i - 1) as nat, i as nat);
                config.lifespan.lemma_value_grows(i as nat, TOP as nat);
                config.lifespan.lemma_value_grows((i - 1) as nat, i as nat);
                assert(required@[i - 1] == config.lvup.spec_value((i - 1) as nat));
                assert(lifespan@[i - 1] == config.lifespan.spec_value((i - 1) as nat));
            }
            required[i] = required[i - 1] + config.lvup.diff(i);
            lifespan[i] = lifespan[i - 1] + config.lifespan.diff(i);
            i = i + 1;
        }
        table.required_cultivation = required;
        table.total_lifespan = lifespan;
    }
}

/// For each level, by its position: the cultivation that entering it takes
/// and the age that it lets a cultivator reach.
#[derive(Debug, Clone, Copy)]
pub struct LevelTable {
    pub required_cultivation: [u64; 7],
    pub total_lifespan: [u64; 7],
}

impl LevelTable {
    /// The table holds, level by level, the terms of the two sequences of
    /// `config`.
    pub open spec fn matches(self, config: Config) -> bool {
        &&& forall|k: nat|
            k <= TOP ==> self.required_cultivation@[k as int] == #[trigger] config.lvup.spec_value(k)
        &&& forall|k: nat|
            k <= TOP ==> self.total_lifespan@[k as int] == #[trigger] config.lifespan.spec_value(k)
    }

    /// A table is fixed by the configuration it was computed from: computing
    /// it again from the same configuration, whatever it held before, gives
    /// the same thresholds and the same lifespans.
    pub proof fn lemma_update_is_idempotent(once: LevelTable, twice: LevelTable, config: Config)
        requires
            once.matches(config),
            twice.matches(config),
        ensures
            once.required_cultivation@ == twice.required_cultivation@,
            once.total_lifespan@ == twice.total_lifespan@,
    {
        assert forall|k: int| 0 <= k < 7 implies once.required_cultivation@[k]
            == twice.required_cultivation@[k] && once.total_lifespan@[k]
            == twice.total_lifespan@[k] by {
            let _ = config.lvup.spec_value(k as nat);
            let _ = config.lifespan.spec_value(k as nat);
        }
        assert(once.required_cultivation@ =~= twice.required_cultivation@);
        assert(once.total_lifespan@ =~= twice.total_lifespan@);
    }
}

impl Default for LevelTable {
    /// The table of the default configuration.
    fn default() -> (table: LevelTable)
        ensures
            table.required_cultivation@ == seq![10u64, 100, 1000, 10000, 100000, 1000000, 10000000],
            table.total_lifespan@ == seq![100u64, 900, 8900, 88900, 888900, 8888900, 88888900],
            table.matches(Config::spec_default()),
    {
        let table = LevelTable {
            required_cultivation: [10, 100, 1000, 10000, 100000, 1000000, 10000000],
            total_lifespan: [100, 900, 8900, 88900, 888900, 8888900, 88888900],
        };
        proof {
            lemma_default_terms();
            assert(table.required_cultivation@ =~= seq![
                10u64,
                100,
                1000,
                10000,
                100000,
                1000000,
                10000000,
            ]);
            assert(table.total_lifespan@ =~= seq![
                100u64,
                900,
                8900,
                88900,
                888900,
                8888900,
                88888900,
            ]);
        }
        table
    }
}

} // verus!
