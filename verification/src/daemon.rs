//! The daemon: what it holds between events and what it decides on each.

pub mod state;
