//! Inventory-constrained order engine for pop-up vendor booths.
//!
//! The library keeps per-event inventory, places orders atomically against
//! it, cancels them with stock restitution, lists them per event, and decides
//! who may touch which event.

pub mod text;

pub mod auth;
pub mod models;
pub mod error;
pub mod store;
pub mod orders;
pub mod gated;
pub mod laws;
