//! Verified view-model and projection logic for the folder-compare desktop UI.

pub mod text;
pub mod paths;
pub mod core_model;
pub mod view_models;
pub mod compare_foundation;
pub mod foundation_laws;
pub mod expansion;
pub mod compare_tree;
pub mod hidden_rows;
pub mod tree_laws;
pub mod navigator_tree;
pub mod context_menu;
pub mod loading_mask;
pub mod layout;
pub mod sync_policy;
pub mod panel_sync;
pub mod compare_file;
pub mod bridge;
pub mod folder_picker;
pub mod legacy_rows;
