//! Helpers shared by the rest of the library.

pub mod human;
pub mod paths;
pub mod slug;
pub mod text;
