//! Builds official releases from source as position independent executables.

pub mod build;
pub mod cli;
pub mod elf;
pub mod json;
pub mod number;
pub mod path;
pub mod recipe;
pub mod resolve;
pub mod runner;
pub mod select;
pub mod template;
pub mod text;
pub mod text_map;
pub mod ui;
pub mod version;
