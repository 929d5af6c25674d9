//! Rotating savings circles and the escrow ledger that goes with them.
//!
//! A circle is a fixed group whose members pay the same contribution in each
//! cycle and are paid the pool in turn. [`SoroSusu`] holds the operations on
//! circles, over the records in a [`Store`]; [`Escrow`] holds deposits and lets
//! depositors take them back once the administrator has been silent for
//! [`INACTIVITY_WINDOW`]. Whether a call is authorized, what time it is and
//! whether tokens have moved is for the caller to find out and pass in; the one
//! thing the library asks of the host itself is the random order of a queue.
//!
//! Every function is verified against its contract, but for the one call into
//! the host's generator in `queue`, whose contract is taken on trust. `laws`
//! states what holds across calls.

pub mod audit;
pub mod circle;
pub mod contract;
pub mod escrow;
pub mod identity;
pub mod laws;
pub mod queue;
pub mod store;

pub use circle::{Circle, CycleCompletedEvent, Error, GroupRolloverEvent, Phase, MAX_MEMBERS};
pub use contract::SoroSusu;
pub use escrow::{Escrow, EscrowError, INACTIVITY_WINDOW};
pub use identity::Identity;
pub use store::{DataKey, Store};
