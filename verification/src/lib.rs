pub mod bits;
pub mod grid;
pub mod life;
pub mod counter;
pub mod runner;
pub mod rng;
pub mod chromosome;
pub mod laws;
pub mod ea;
pub mod express;
pub mod evaluator;
pub mod population;
pub mod selection;
pub mod driver;
pub mod settings;
