//! Periodic endpoint polling: a timing wheel that decides which endpoints are
//! due at each tick, and the decisions of the loop that drives it.
pub mod check;
pub mod model;
pub mod schedule;
pub mod time_wheel;

pub use check::status_for_check;
pub use model::{Config, ConfigError, CreateStatus, Endpoint, HealthCheck, Status, ValidatedConfig};
pub use schedule::{advance_schedule, schedule_endpoints};
pub use time_wheel::{Slotted, TimingWheel};
