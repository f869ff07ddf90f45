//! Verified core of the `pesto` Usenet poster and its `upapasta` file browser.

pub mod cli;
pub mod file_tree;
pub mod order;
pub mod path;
pub mod text;
pub mod tools;
pub mod ui;
pub mod upload;
pub mod wizard;
