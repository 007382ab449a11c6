//! The manifest of a synchronised folder, the comparison of listings, the
//! scan of a folder and the resolved folder mappings.

pub mod diff;
pub mod index;
pub mod scanner;
pub mod task;
