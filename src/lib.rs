//! Index bookkeeping, strategy selection and witness selection for geodesic
//! Hausdorff distances and polyline densification.
//!
//! Coordinates and metric computations live with the caller; this crate holds
//! the decisions that connect them: which evaluation strategy to run, which
//! origin and candidate realise a directed distance, how original positions
//! survive filtering, and how densified parts are laid out in a flat buffer.

pub mod error;
pub mod polyline;
pub mod positioned;
pub mod strategy;
pub mod witness;
