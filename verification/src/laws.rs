//! What holds of the exporter as a whole.

pub mod answering;
pub mod effects;
pub mod ingesting;
pub mod running;
pub mod series;
pub mod views;
