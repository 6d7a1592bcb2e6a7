//! The analyses of a project.

pub mod folders;
pub mod readme;
