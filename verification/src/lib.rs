//! The decision core of a workspace navigator.

pub mod text;
pub mod order;
pub mod string_set;
pub mod data;
pub mod file_path;
pub mod model;
pub mod query;
pub mod config;
pub mod keys;
pub mod tree;
pub mod panel;
pub mod app;
pub mod children;
pub mod selection;
pub mod load;
pub mod workspaces;
pub mod open;
pub mod pins;
pub mod dir_tree;
pub mod preview;
pub mod laws;
pub mod tree_laws;
pub mod text_laws;
pub mod listing_laws;
pub mod row_laws;
pub mod refresh_laws;
pub mod open_laws;
pub mod preview_laws;
pub mod dir_tree_laws;
pub mod state_laws;
