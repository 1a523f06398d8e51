//! Core of a periodic reminder application: a persistent scheduler state
//! (reminder items, firing interval, daily counter) together with the
//! per-tick decision logic and a JSON codec for the on-disk mirror.

pub mod chars;
pub mod clock;
pub mod codec;
pub mod digits;
pub mod rng;
pub mod state;
pub mod tick;

pub use state::ReminderItem;
pub use state::SchedulerState;
