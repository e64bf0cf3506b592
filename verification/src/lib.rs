//! Enumeration of conflict-free weekly schedules.
//!
//! A [`grid::Grid`] is one concrete weekly commitment option, a
//! [`grid::Pool`] is a named group of mutually exclusive grids, and a
//! [`grid::Schedule`] is an accumulating, conflict-checked list of accepted
//! grids. [`engine::engine_main`] enumerates every way to pick one grid from
//! each pool of a fixed-size pool combination such that no two chosen grids,
//! nor any pre-committed seed grids, overlap in time on any day of the week.

pub mod engine;
pub mod error;
pub mod grid;
pub mod utils;
