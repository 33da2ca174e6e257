//! Transaction readiness and consensus-rejection tracking for a validator's
//! execution pipeline.

pub mod notify;
pub mod position;
pub mod rejected;
pub mod scheduler;
