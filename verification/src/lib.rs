//! Dining philosophers: a table of forks that one hand at a time may hold, the
//! philosophers who each need two of them, and the dinner in which every guest
//! takes its forks in its own order, eats, and puts them down again.
//!
//! The library decides; it never waits, sleeps or prints. A caller that runs the
//! guests on threads keeps the [`dinner::Dinner`] behind a lock, asks it for each
//! guest's next step, and does the waiting itself.
//!
//! - [`table`]: the forks, and the two requests that can be made of them.
//! - [`philosopher`]: a guest, its two forks and the order it takes them in.
//! - [`script`]: the stages of a meal and what a guest does at each.
//! - [`dinner`]: the state machine of the whole dinner, one turn at a time.
//! - [`safety`]: no fork is ever in two hands.
//! - [`history`]: every fork that is taken is put down again, once.
//! - [`liveness`]: which dinners can get stuck and which cannot.

pub mod dinner;
pub mod error;
pub mod history;
pub mod liveness;
pub mod philosopher;
pub mod safety;
pub mod script;
pub mod table;
