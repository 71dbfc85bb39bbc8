use bevy_prng::WyRand;
use rand::SeedableRng;
use xiuxian::battle::{BattleQuery, Courage};
use xiuxian::config::{Config, Sequence};
use xiuxian::cultivation::Cultivation;
use xiuxian::entropy::{draw_unit, draw_units, unit_of};
use xiuxian::fraction::SCALE;
use xiuxian::level::{Level, LevelTable};
use xiuxian::life::Life;
use xiuxian::spawn::{despawn_dead, spawn_cultivators, spawn_with, DeathCause, DeathEvent};
use xiuxian::world::{Cultivator, Entity, EntityError, World};

fn someone(age: u64, lifespan: u64, alive: bool) -> Cultivator {
    Cultivator {
        life: Life { age, lifespan, alive },
        cultivation: Cultivation { level: Level::Foundation, cultivation: 10 },
        courage: Courage { courage: SCALE / 2 },
    }
}

fn ranked(level: Level, cultivation: u64) -> Cultivator {
    Cultivator {
        life: Life { age: 30, lifespan: 100, alive: true },
        cultivation: Cultivation { level, cultivation },
        courage: Courage { courage: SCALE / 2 },
    }
}

#[test]
fn test_spawn_cultivators() {
    let mut world = World::new();
    let mut rng = WyRand::seed_from_u64(0);
    let config = Config::default();
    spawn_cultivators(&mut world, &mut rng, &config);
    assert_eq!(world.alive_rows().len(), config.spawn_per_year);
}

#[test]
fn test_despawn_dead() {
    let mut world = World::new();
    let dead_entity = world.spawn(someone(100, 100, false));
    let alive_entity = world.spawn(someone(50, 100, true));

    despawn_dead(&mut world);

    assert!(world.get(dead_entity).is_none());
    assert!(world.get(alive_entity).is_some());
}

#[test]
fn newborns_are_twenty_with_a_hundred_years_and_ten_cultivation() {
    let mut world = World::new();
    let mut rng = WyRand::seed_from_u64(8);
    let config = Config {
        cult_default: 10,
        cult_per_year: 1,
        lifespan: Sequence { start: 100, a: 800, b: 10 },
        lvup: Sequence { start: 10, a: 90, b: 10 },
        spawn_per_year: 37,
    };
    spawn_cultivators(&mut world, &mut rng, &config);
    assert_eq!(world.len(), 37);
    let mut courages = Vec::new();
    for i in 0..37 {
        let row = world.row(i);
        assert_eq!(row.entity, Entity(i as u64));
        assert_eq!(row.life, Life { age: 20, lifespan: 100, alive: true });
        assert_eq!(row.cultivation, Cultivation { level: Level::Foundation, cultivation: 10 });
        assert!(row.battle.courage < SCALE);
        courages.push(row.battle.courage);
    }
    courages.sort();
    courages.dedup();
    assert!(courages.len() > 30);
    spawn_cultivators(&mut world, &mut rng, &config);
    assert_eq!(world.len(), 74);
    assert_eq!(world.row(73).entity, Entity(73));
    assert_eq!(world.next(), 74);
}

#[test]
fn spawn_with_deals_the_given_courages() {
    let mut world = World::new();
    world.spawn(someone(1, 2, true));
    spawn_with(&mut world, &vec![5, 0, SCALE - 1]);
    assert_eq!(world.len(), 4);
    for (i, c) in [5, 0, SCALE - 1].into_iter().enumerate() {
        assert_eq!(
            world.row(i + 1),
            BattleQuery {
                cultivation: Cultivation { level: Level::Foundation, cultivation: 10 },
                battle: Courage { courage: c },
                life: Life { age: 20, lifespan: 100, alive: true },
                entity: Entity(i as u64 + 1),
            }
        );
    }
}

#[test]
fn spawning_nobody_changes_nothing() {
    let mut world = World::new();
    let mut config = Config::default();
    config.spawn_per_year = 0;
    spawn_cultivators(&mut world, &mut WyRand::seed_from_u64(1), &config);
    assert_eq!(world.len(), 0);
    assert_eq!(world.next(), 0);
}

#[test]
fn draws_are_fractions_below_one() {
    let mut rng = WyRand::seed_from_u64(99);
    let mut low = 0;
    for _ in 0..2000 {
        let raw = draw_unit(&mut rng);
        assert!(raw < SCALE);
        if raw < SCALE / 2 {
            low += 1;
        }
    }
    assert!(low > 800 && low < 1200);
    let draws = draw_units(&mut rng, 17);
    assert_eq!(draws.len(), 17);
    assert!(draws.iter().all(|d| *d < SCALE));
    assert!(draw_units(&mut rng, 0).is_empty());
}

#[test]
fn a_word_stands_for_its_top_53_bits() {
    assert_eq!(unit_of(0), 0);
    assert_eq!(unit_of(2047), 0);
    assert_eq!(unit_of(2048), 1);
    assert_eq!(unit_of(4095), 1);
    assert_eq!(unit_of(1 << 63), SCALE / 2);
    assert_eq!(unit_of(u64::MAX), SCALE - 1);
    assert_eq!(unit_of(0xdead_beef_0000_07ff), 0xdead_beef_0000_07ff / 2048);
}

#[test]
fn draws_are_fixed_by_the_seed() {
    let a = draw_units(&mut WyRand::seed_from_u64(4), 8);
    let b = draw_units(&mut WyRand::seed_from_u64(4), 8);
    assert_eq!(a, b);
}

#[test]
fn identities_rise_and_are_never_reused() {
    let mut world = World::new();
    assert_eq!(world.len(), 0);
    let a = world.spawn(someone(1, 9, true));
    let b = world.spawn(someone(2, 9, true));
    assert_eq!((a, b), (Entity(0), Entity(1)));
    assert!(world.despawn(b));
    let c = world.spawn(someone(3, 9, true));
    assert_eq!(c, Entity(2));
    assert!(world.get(b).is_none());
    assert_eq!(world.get(c).unwrap().life.age, 3);
    assert_eq!(world.len(), 2);
}

#[test]
fn spawn_batch_returns_the_new_identities_in_order() {
    let mut world = World::new();
    world.spawn(someone(1, 9, true));
    let batch = vec![someone(10, 90, true), someone(11, 91, false), someone(12, 92, true)];
    let ids = world.spawn_batch(&batch);
    assert_eq!(ids, vec![Entity(1), Entity(2), Entity(3)]);
    for (id, c) in ids.iter().zip(batch.iter()) {
        let row = world.get(*id).unwrap();
        assert_eq!(row.life, c.life);
        assert_eq!(row.cultivation, c.cultivation);
        assert_eq!(row.battle, c.courage);
        assert_eq!(row.entity, *id);
    }
    assert_eq!(world.spawn_batch(&vec![]), vec![]);
    assert_eq!(world.len(), 4);
}

#[test]
fn despawn_is_silent_about_what_is_gone() {
    let mut world = World::new();
    let ids: Vec<Entity> = (0..10).map(|i| world.spawn(someone(i, 99, true))).collect();
    assert!(world.despawn(ids[4]));
    assert!(!world.despawn(ids[4]));
    assert!(!world.despawn(Entity(1234)));
    assert_eq!(world.len(), 9);
    for (i, id) in ids.iter().enumerate() {
        let found = world.get(*id);
        if i == 4 {
            assert_eq!(found, None);
            assert_eq!(world.find(*id), None);
        } else {
            assert_eq!(found.unwrap().life.age, i as u64);
        }
    }
    assert_eq!(world.find(ids[3]), Some(3));
    assert_eq!(world.find(ids[5]), Some(4));
    assert_eq!(world.find(ids[9]), Some(8));
}

#[test]
fn put_rewrites_one_row() {
    let mut world = World::new();
    let a = world.spawn(someone(1, 9, true));
    let b = world.spawn(someone(2, 9, true));
    let mut row = world.row(1);
    row.life.age = 77;
    row.cultivation.cultivation = 5;
    world.put(1, row);
    assert_eq!(world.get(b).unwrap(), row);
    assert_eq!(world.get(a).unwrap().life.age, 1);
}

#[test]
fn two_at_once_must_be_two() {
    let mut world = World::new();
    let a = world.spawn(someone(1, 9, true));
    let b = world.spawn(someone(2, 9, true));
    let c = world.spawn(someone(3, 9, true));
    world.despawn(b);
    assert_eq!(world.get_disjoint_mut(a, c), Ok((0, 1)));
    assert_eq!(world.get_disjoint_mut(c, a), Ok((1, 0)));
    assert_eq!(world.get_disjoint_mut(a, a), Err(EntityError::ConflictingAccess(a)));
    assert_eq!(world.get_disjoint_mut(b, b), Err(EntityError::ConflictingAccess(b)));
    assert_eq!(world.get_disjoint_mut(a, b), Err(EntityError::MissingEntity(b)));
    assert_eq!(world.get_disjoint_mut(b, a), Err(EntityError::MissingEntity(b)));
    assert_eq!(world.get_disjoint_mut(b, Entity(50)), Err(EntityError::MissingEntity(b)));
}

#[test]
fn the_dead_leave_in_order_with_one_notice_each() {
    let mut world = World::new();
    let lives = [
        Life { age: 100, lifespan: 100, alive: false },
        Life { age: 50, lifespan: 100, alive: true },
        Life { age: 33, lifespan: 120, alive: false },
        Life { age: 21, lifespan: 100, alive: true },
        Life { age: 900, lifespan: 900, alive: false },
    ];
    let ids: Vec<Entity> =
        lives.iter().map(|l| world.spawn(someone(l.age, l.lifespan, l.alive))).collect();
    let events = despawn_dead(&mut world);
    assert_eq!(
        events,
        vec![
            DeathEvent { life: lives[0] },
            DeathEvent { life: lives[2] },
            DeathEvent { life: lives[4] }
        ]
    );
    assert_eq!(world.len(), 2);
    assert_eq!(world.row(0).entity, ids[1]);
    assert_eq!(world.row(1).entity, ids[3]);
    assert_eq!(despawn_dead(&mut world), vec![]);
    assert_eq!(world.len(), 2);
    assert_eq!(world.alive_rows().len(), 2);
}

#[test]
fn cause_of_death_goes_by_age_and_lifespan() {
    let natural = DeathEvent { life: Life { age: 100, lifespan: 100, alive: false } };
    let early = DeathEvent { life: Life { age: 99, lifespan: 100, alive: false } };
    let late = DeathEvent { life: Life { age: 101, lifespan: 100, alive: false } };
    assert_eq!(natural.cause(), DeathCause::Natural);
    assert_eq!(early.cause(), DeathCause::Battle);
    assert_eq!(late.cause(), DeathCause::Battle);
}

#[test]
fn a_year_ages_the_living_and_ends_a_spent_life() {
    assert_eq!(
        Life { age: 20, lifespan: 100, alive: true }.aged(),
        Life { age: 21, lifespan: 100, alive: true }
    );
    assert_eq!(
        Life { age: 98, lifespan: 100, alive: true }.aged(),
        Life { age: 99, lifespan: 100, alive: true }
    );
    assert_eq!(
        Life { age: 99, lifespan: 100, alive: true }.aged(),
        Life { age: 100, lifespan: 100, alive: false }
    );
    assert_eq!(
        Life { age: 150, lifespan: 100, alive: true }.aged(),
        Life { age: 151, lifespan: 100, alive: false }
    );
    assert_eq!(
        Life { age: 40, lifespan: 100, alive: false }.aged(),
        Life { age: 40, lifespan: 100, alive: false }
    );
    assert_eq!(
        Life { age: u64::MAX, lifespan: 1, alive: false }.aged(),
        Life { age: u64::MAX, lifespan: 1, alive: false }
    );
}

#[test]
fn increase_age_passes_over_the_whole_world() {
    let mut world = World::new();
    let a = world.spawn(someone(20, 100, true));
    let b = world.spawn(someone(99, 100, true));
    let c = world.spawn(someone(60, 100, false));
    Life::increase_age(&mut world);
    assert_eq!(world.get(a).unwrap().life, Life { age: 21, lifespan: 100, alive: true });
    assert_eq!(world.get(b).unwrap().life, Life { age: 100, lifespan: 100, alive: false });
    assert_eq!(world.get(c).unwrap().life, Life { age: 60, lifespan: 100, alive: false });
    let notice = DeathEvent { life: world.get(b).unwrap().life };
    assert_eq!(notice.cause(), DeathCause::Natural);
    assert_eq!(world.get(a).unwrap().cultivation.cultivation, 10);
}

#[test]
fn training_adds_one_to_the_living() {
    let mut world = World::new();
    let a = world.spawn(ranked(Level::GoldenCore, 10));
    let mut fallen = ranked(Level::Foundation, 10);
    fallen.life.alive = false;
    let b = world.spawn(fallen);
    Cultivation::increase_cultivation(&mut world);
    Cultivation::increase_cultivation(&mut world);
    assert_eq!(
        world.get(a).unwrap().cultivation,
        Cultivation { level: Level::GoldenCore, cultivation: 12 }
    );
    assert_eq!(world.get(b).unwrap().cultivation.cultivation, 10);
    assert_eq!(
        Cultivation { level: Level::Mahayana, cultivation: 41 }.trained(),
        Cultivation { level: Level::Mahayana, cultivation: 42 }
    );
}

#[test]
fn a_rise_takes_the_threshold_and_replaces_the_lifespan() {
    let table = LevelTable::default();
    let mut world = World::new();
    let short = world.spawn(ranked(Level::Foundation, 99));
    let exact = world.spawn(ranked(Level::Foundation, 100));
    let far = world.spawn(ranked(Level::Foundation, 5000));
    let top = world.spawn(ranked(Level::Mahayana, u64::MAX));
    let mut fallen = ranked(Level::Foundation, 5000);
    fallen.life.alive = false;
    let dead = world.spawn(fallen);
    Cultivation::try_advance(&mut world, &table);
    let row = world.get(short).unwrap();
    assert_eq!(row.cultivation.level, Level::Foundation);
    assert_eq!(row.life.lifespan, 100);
    let row = world.get(exact).unwrap();
    assert_eq!(row.cultivation, Cultivation { level: Level::GoldenCore, cultivation: 100 });
    assert_eq!(row.life, Life { age: 30, lifespan: 900, alive: true });
    let row = world.get(far).unwrap();
    assert_eq!(row.cultivation, Cultivation { level: Level::GoldenCore, cultivation: 5000 });
    assert_eq!(row.life.lifespan, 900);
    let row = world.get(top).unwrap();
    assert_eq!(row.cultivation.level, Level::Mahayana);
    assert_eq!(row.life.lifespan, 100);
    let row = world.get(dead).unwrap();
    assert_eq!(row.cultivation.level, Level::Foundation);
    Cultivation::try_advance(&mut world, &table);
    let row = world.get(far).unwrap();
    assert_eq!(row.cultivation, Cultivation { level: Level::NascentSoul, cultivation: 5000 });
    assert_eq!(row.life, Life { age: 30, lifespan: 8900, alive: true });
    Cultivation::try_advance(&mut world, &table);
    assert_eq!(world.get(far).unwrap().cultivation.level, Level::NascentSoul);
}

#[test]
fn advanced_leaves_the_rest_of_the_row_alone() {
    let table = LevelTable::default();
    let row = BattleQuery {
        cultivation: Cultivation { level: Level::VoidRefining, cultivation: 1000000 },
        battle: Courage { courage: 12345 },
        life: Life { age: 700, lifespan: 888900, alive: true },
        entity: Entity(31),
    };
    assert_eq!(
        row.advanced(&table),
        BattleQuery {
            cultivation: Cultivation { level: Level::BodyIntegration, cultivation: 1000000 },
            battle: Courage { courage: 12345 },
            life: Life { age: 700, lifespan: 8888900, alive: true },
            entity: Entity(31),
        }
    );
    let mut below = row;
    below.cultivation.cultivation = 999999;
    assert_eq!(below.advanced(&table), below);
}
