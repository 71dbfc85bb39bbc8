//! A yearly simulation of a population of cultivators: they are born, train,
//! duel, rise through levels and die, and the library keeps running
//! statistics over the population and its deaths.

pub mod entropy;
pub mod fraction;
pub mod config;
pub mod level;
pub mod battle;
pub mod cultivation;
pub mod life;
pub mod world;
pub mod spawn;
pub mod stat;
pub mod system;
