//! Game-stream host measurement, capture decisions and session lifecycle, verified.

pub mod accumulator;
pub mod buffer_timing;
pub mod bus;
pub mod campaign;
pub mod capture_trigger;
pub mod decimal;
pub mod distribution;
pub mod environment;
pub mod initialization;
pub mod launcher;
pub mod measurement;
pub mod metrics;
pub mod names;
pub mod net;
pub mod plan;
pub mod processes;
pub mod quality;
pub mod raw;
pub mod receiver;
pub mod report;
pub mod session;
pub mod sums;
pub mod termination;
pub mod text;
pub mod time;
pub mod units;
pub mod video;
