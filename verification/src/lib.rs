//! Monitor topology reconciliation and directional-placement engine.
//!
//! The library keeps an in-memory model of connected display outputs
//! synchronized with the live hardware state, computes proposed coordinates
//! for a chosen relative arrangement of a primary and a secondary output,
//! and validates and tracks the transactional application of such an
//! arrangement. Querying the display server and issuing configuration
//! commands are left to the surrounding program; the library parses the
//! query output and decides everything else.

pub mod commit;
pub mod help;
pub mod input;
pub mod laws;
pub mod notification;
pub mod placement;
pub mod provider;
pub mod screen;
pub mod topology;
pub mod ui;
