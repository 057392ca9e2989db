//! Headless rules engine for rotating chess: pieces sit at real-valued
//! positions, face an arbitrary direction, and move along geometric rays.
//!
//! Every length in this crate is a fixed-point integer with
//! [`floating_drift::UNIT`] steps to the board unit, so that all geometry is
//! exact integer arithmetic. The board spans `0..=8 * UNIT` on both axes. A
//! facing is held as the cosine and sine of its angle on the same scale.

pub mod board;
pub mod emulator;
pub mod floating_drift;
pub mod piece;
pub mod search;
pub mod turn;

pub use emulator::RotchessEmulator;
