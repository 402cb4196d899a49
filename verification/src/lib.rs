//! Threshold filtering and aggregate statistics over sensor readings.

pub mod accumulator;
pub mod grouped;
pub mod laws;
pub mod lexical;
pub mod processor;
pub mod reading;
pub mod record;
pub mod stats;

pub use processor::process;
pub use record::Record;
pub use stats::{Mean, ProcessingStats, SensorStats};
