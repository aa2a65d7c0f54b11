//! A verified engine for Conway's Game of Life.
//!
//! The engine owns a fixed-size toroidal grid of cells and advances it one
//! generation at a time under Conway's rule. Every operation carries a
//! contract; rendering and scheduling are left to unverified callers that
//! poll the grid through the accessors.

pub mod model;
