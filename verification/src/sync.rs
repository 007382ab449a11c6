//! The synchronisation engine: validation, planning, detection and watching.

pub mod detect;
pub mod detect_loop;
pub mod engine;
pub mod operations;
pub mod planner;
pub mod run;
pub mod validation;
pub mod watcher;
