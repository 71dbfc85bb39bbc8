use bevy_prng::WyRand;
use rand::SeedableRng;
use xiuxian::battle::{Courage, GAIN_CEILING};
use xiuxian::config::Config;
use xiuxian::cultivation::Cultivation;
use xiuxian::fraction::SCALE;
use xiuxian::level::{Level, LevelTable};
use xiuxian::life::Life;
use xiuxian::spawn::DeathCause;
use xiuxian::system::{GamePlay, Simulation};
use xiuxian::world::{Cultivator, EntityError};

fn veteran(age: u64, lifespan: u64, cultivation: u64) -> Cultivator {
    Cultivator {
        life: Life { age, lifespan, alive: true },
        cultivation: Cultivation { level: Level::Foundation, cultivation },
        courage: Courage { courage: SCALE },
    }
}

#[test]
fn a_new_simulation_is_empty() {
    let sim = Simulation::new();
    assert_eq!(sim.world.len(), 0);
    assert_eq!(sim.state.year, 0);
    assert!(sim.pairs.is_empty());
    assert!(sim.deaths.is_empty());
    assert_eq!(sim.stats.death.total, 0);
    assert_eq!(sim.table.total_lifespan, LevelTable::default().total_lifespan);
    assert!(sim.can_advance(&Config::default()));
}

#[test]
fn the_first_year_of_the_default_simulation() {
    let mut sim = Simulation::new();
    let config = Config::default();
    let mut rng = WyRand::seed_from_u64(1);
    sim.tick(&config, &mut rng);
    assert_eq!(sim.state.year, 1);
    assert_eq!(sim.world.next(), 100);
    assert!(sim.pairs.is_empty());
    assert_eq!(sim.world.len() + sim.deaths.len(), 100);
    assert!(sim.deaths.len() <= 50);
    assert!(!sim.deaths.is_empty());
    for event in &sim.deaths {
        assert_eq!(event.life, Life { age: 21, lifespan: 100, alive: false });
        assert_eq!(event.cause(), DeathCause::Battle);
    }
    let mut winners = 0;
    for i in 0..sim.world.len() {
        let row = sim.world.row(i);
        assert_eq!(row.life, Life { age: 21, lifespan: 100, alive: true });
        assert_eq!(row.cultivation.level, Level::Foundation);
        assert!(row.cultivation.cultivation == 11 || row.cultivation.cultivation == 12);
        if row.cultivation.cultivation == 12 {
            winners += 1;
        }
    }
    assert_eq!(winners, sim.deaths.len());
    assert_eq!(sim.stats.death.total, 0);
}

#[test]
fn deaths_are_counted_at_the_start_of_the_next_year() {
    let mut sim = Simulation::new();
    let config = Config::default();
    let mut rng = WyRand::seed_from_u64(2);
    sim.tick(&config, &mut rng);
    let first = sim.deaths.len();
    sim.tick(&config, &mut rng);
    assert_eq!(sim.stats.death.total, first);
    assert_eq!(sim.stats.death_by_battle.total, first);
    assert_eq!(sim.stats.death_by_age.total, 0);
    assert_eq!(sim.stats.death.sum, 21 * first as u128);
    assert_eq!(sim.state.year, 2);
    assert_eq!(sim.world.next(), 200);
}

#[test]
fn a_run_is_fixed_by_its_seed() {
    let config = Config::default();
    let mut a = Simulation::new();
    let mut b = Simulation::new();
    let mut rng_a = WyRand::seed_from_u64(77);
    let mut rng_b = WyRand::seed_from_u64(77);
    for _ in 0..12 {
        a.tick(&config, &mut rng_a);
        b.tick(&config, &mut rng_b);
    }
    assert_eq!(a.world.alive_rows(), b.world.alive_rows());
    assert_eq!(a.deaths, b.deaths);
    assert_eq!(a.stats.death, b.stats.death);
}

#[test]
fn a_long_run_keeps_its_books() {
    let config = Config::default();
    let mut sim = Simulation::new();
    let mut rng = WyRand::seed_from_u64(5);
    for year in 1..=120u64 {
        assert!(sim.can_advance(&config));
        sim.tick(&config, &mut rng);
        assert_eq!(sim.state.year, year);
        assert_eq!(sim.world.next(), 100 * year);
        assert_eq!(sim.world.alive_rows().len(), sim.world.len());
        assert_eq!(
            sim.world.len() + sim.deaths.len() + sim.stats.death.total,
            100 * year as usize
        );
        assert_eq!(
            sim.stats.death_by_age.total + sim.stats.death_by_battle.total,
            sim.stats.death.total
        );
        assert!(sim.stats.death_ages.ages.len() <= 2000);
    }
    assert!(sim.stats.death.total > 2000);
    assert!(sim.stats.death_by_age.total > 0);
    assert!(sim.stats.death_by_battle.total > 0);
    let risen = (0..sim.world.len())
        .filter(|i| sim.world.row(*i).cultivation.level != Level::Foundation)
        .count();
    assert!(risen > 0);
}

#[test]
fn old_age_ends_a_life_at_its_lifespan() {
    let mut sim = Simulation::new();
    let mut config = Config::default();
    config.spawn_per_year = 0;
    let elder = sim.world.spawn(veteran(99, 100, 50));
    let mut rng = WyRand::seed_from_u64(5);
    sim.tick(&config, &mut rng);
    assert!(sim.world.get(elder).is_none());
    assert_eq!(sim.deaths.len(), 1);
    assert_eq!(sim.deaths[0].life, Life { age: 100, lifespan: 100, alive: false });
    assert_eq!(sim.deaths[0].cause(), DeathCause::Natural);
    sim.tick(&config, &mut rng);
    assert_eq!(sim.stats.death_by_age.total, 1);
    assert_eq!(sim.stats.death_by_age.sum, 100);
    assert!(sim.deaths.is_empty());
}

#[test]
fn a_lone_cultivator_trains_and_rises() {
    let mut sim = Simulation::new();
    let mut config = Config::default();
    config.spawn_per_year = 0;
    let hermit = sim.world.spawn(veteran(20, 100, 98));
    let mut rng = WyRand::seed_from_u64(5);
    sim.tick(&config, &mut rng);
    let row = sim.world.get(hermit).unwrap();
    assert_eq!(row.cultivation, Cultivation { level: Level::Foundation, cultivation: 99 });
    assert_eq!(row.life, Life { age: 21, lifespan: 100, alive: true });
    sim.tick(&config, &mut rng);
    let row = sim.world.get(hermit).unwrap();
    assert_eq!(row.cultivation, Cultivation { level: Level::GoldenCore, cultivation: 100 });
    assert_eq!(row.life, Life { age: 22, lifespan: 900, alive: true });
}

#[test]
fn two_of_different_levels_never_fight() {
    let mut sim = Simulation::new();
    let mut config = Config::default();
    config.spawn_per_year = 0;
    let low = sim.world.spawn(veteran(20, 100, 10));
    let mut high = veteran(20, 900, 500);
    high.cultivation.level = Level::GoldenCore;
    let high = sim.world.spawn(high);
    let mut rng = WyRand::seed_from_u64(5);
    for _ in 0..30 {
        sim.tick(&config, &mut rng);
    }
    assert_eq!(sim.world.get(low).unwrap().cultivation.cultivation, 40);
    assert_eq!(sim.world.get(high).unwrap().cultivation.cultivation, 530);
    assert!(sim.deaths.is_empty());
}

#[test]
fn two_bold_equals_fight_in_their_first_year() {
    let mut sim = Simulation::new();
    let mut config = Config::default();
    config.spawn_per_year = 0;
    let a = sim.world.spawn(veteran(20, 100, 49));
    let b = sim.world.spawn(veteran(20, 100, 49));
    let mut rng = WyRand::seed_from_u64(5);
    sim.tick(&config, &mut rng);
    assert_eq!(sim.world.len(), 1);
    assert_eq!(sim.deaths.len(), 1);
    let winner = sim.world.row(0);
    assert!(winner.entity == a || winner.entity == b);
    assert_eq!(winner.cultivation.cultivation, 55);
    assert_eq!(sim.deaths[0].life, Life { age: 21, lifespan: 100, alive: false });
}

#[test]
fn phases_can_be_run_one_by_one() {
    let mut sim = Simulation::new();
    let mut config = Config::default();
    config.spawn_per_year = 10;
    let mut rng = WyRand::seed_from_u64(9);
    assert_eq!(sim.run_phase(GamePlay::Spawn, &config, &mut rng), Ok(()));
    assert_eq!(sim.world.len(), 10);
    assert_eq!(sim.state.year, 1);
    assert_eq!(sim.world.row(0).life.age, 21);
    assert_eq!(sim.world.row(0).cultivation.cultivation, 11);
    assert_eq!(sim.run_phase(GamePlay::Pair, &config, &mut rng), Ok(()));
    assert_eq!(sim.pairs.len(), 5);
    assert_eq!(sim.run_phase(GamePlay::FilterPair, &config, &mut rng), Ok(()));
    let fights = sim.pairs.len();
    assert!(fights <= 5);
    assert_eq!(sim.run_phase(GamePlay::Battle, &config, &mut rng), Ok(()));
    assert_eq!(sim.world.len(), 10);
    assert_eq!(sim.world.alive_rows().len(), 10 - fights);
    assert_eq!(sim.run_phase(GamePlay::Finish, &config, &mut rng), Ok(()));
    assert_eq!(sim.world.len(), 10 - fights);
    assert_eq!(sim.deaths.len(), fights);
    assert!(sim.pairs.is_empty());
}

#[test]
fn a_phase_run_on_stale_pairs_reports_the_missing() {
    let mut sim = Simulation::new();
    let config = Config::default();
    let mut rng = WyRand::seed_from_u64(9);
    let a = sim.world.spawn(veteran(20, 100, 10));
    let b = sim.world.spawn(veteran(20, 100, 10));
    sim.pairs = vec![(a, b)];
    sim.world.despawn(a);
    assert_eq!(
        sim.run_phase(GamePlay::FilterPair, &config, &mut rng),
        Err(EntityError::MissingEntity(a))
    );
    assert_eq!(sim.pairs, vec![(a, b)]);
    assert_eq!(
        sim.run_phase(GamePlay::Battle, &config, &mut rng),
        Err(EntityError::MissingEntity(a))
    );
    sim.pairs = vec![(b, b)];
    assert_eq!(
        sim.run_phase(GamePlay::Battle, &config, &mut rng),
        Err(EntityError::ConflictingAccess(b))
    );
}

#[test]
fn room_for_a_year_is_told_apart() {
    let config = Config::default();
    let mut sim = Simulation::new();
    sim.world.spawn(veteran(20, 100, GAIN_CEILING - 1));
    assert!(sim.can_advance(&config));
    sim.world.spawn(veteran(20, 100, GAIN_CEILING));
    assert!(!sim.can_advance(&config));
    let mut sim = Simulation::new();
    sim.world.spawn(veteran(u64::MAX, 100, 10));
    assert!(!sim.can_advance(&config));
    let mut sim = Simulation::new();
    sim.state.year = u64::MAX;
    assert!(!sim.can_advance(&config));
    let mut sim = Simulation::new();
    sim.stats.death.total = usize::MAX;
    assert!(sim.can_advance(&config));
    sim.deaths.push(xiuxian::spawn::DeathEvent { life: Life { age: 1, lifespan: 1, alive: false } });
    assert!(!sim.can_advance(&config));
    let sim = Simulation::new();
    let mut crowded = config;
    crowded.spawn_per_year = usize::MAX;
    assert_eq!(sim.can_advance(&crowded), usize::MAX as u128 <= u64::MAX as u128);
}
