//! Workspaces and their tabs.
pub mod model;
