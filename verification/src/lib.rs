//! Checks that the directories of a coding-challenge repository match the
//! chapters that its configuration describes.

pub mod analytics;
pub mod chapters;
pub mod config;
pub mod config_v1;
pub mod dirset;
pub mod error;
pub mod fileops;
pub mod orgmode;
pub mod reports;
pub mod text;
