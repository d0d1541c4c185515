//! An event-driven backtesting engine for a moving-average crossover strategy
//! on a single instrument, with a parameter grid search and a walk-forward
//! validator built on it.
//!
//! All amounts are exact integers: prices and money are counted in hundredths
//! of the currency unit, timestamps in milliseconds since the Unix epoch.
//!
//! - [`data`] and [`events`]: ticks, and the events that a tick gives rise to.
//! - [`strategy`]: the streaming crossover strategy and its mathematical state.
//! - [`engine`]: the simulation, as a state and a step per tick, and the
//!   engine that carries it out through a queue of events.
//! - [`equity`]: the points of an equity curve and the window of values
//!   behind each of them.
//! - [`walkforward`] and [`grid`]: the two drivers.
//! - [`laws`]: what holds of every run.
//! - [`ratio`] and [`series`]: exact comparison of averages; sums and tails
//!   of sequences.
pub mod data;
pub mod events;
pub mod ratio;
pub mod series;
pub mod strategy;
pub mod equity;
pub mod engine;
pub mod walkforward;
pub mod grid;
pub mod laws;
