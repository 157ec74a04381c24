//! Per-process CPU time sampling with a modelled energy estimate.
//!
//! The library turns the CPU accounting records that the operating system keeps
//! for each process into cumulative CPU seconds and watt-hours, and keeps the
//! latest value for every process identity it has seen in a metric store.

mod convert;
mod stat;
mod sampler;
mod store;

pub use convert::{cpu_seconds, energy_wh, ClockRate, PowerModel};
pub use stat::{parse_decimal_u64, process_ticks, ticks_from_record};
pub use sampler::{Observation, Sampler, StartupError};
pub use store::{IdentityView, MetricSample, ProcessIdentity, Store, StoreEntry};
