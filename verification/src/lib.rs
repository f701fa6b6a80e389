//! Repairmen who explore a grid of houses, repair the ones in need and tell each
//! other of their work through notes left in the houses.
//!
//! - [`position`]: the cells of the grid and the steps between them.
//! - [`notes`]: what is known of the repairs made, and how reading merges it.
//! - [`world`]: the grid of houses with the place of each repairman, held by one
//!   owner; [`shared`]: the same grid with each house behind a lock of its own.
//! - [`search`]: the way to the nearest cell that a repairman has not visited,
//!   found by the breadth-first search of `pathfinding`.
//! - [`repairman`]: what a repairman does in a house, turn by turn.
//! - [`barrier`]: the meeting point at which all threads of a run end each round.
//! - [`report`]: the notebooks handed over at the end of a run.
//! - [`error`]: why a run can fail.
//! - [`grid`], [`rng`], [`sync`]: what the library takes from `ndarray`, `rand` and
//!   `std::sync`, with the contracts that it relies on.

pub mod barrier;
pub mod error;
pub mod grid;
pub mod notes;
pub mod position;
pub mod repairman;
pub mod report;
pub mod rng;
pub mod search;
pub mod shared;
pub mod sync;
pub mod world;
