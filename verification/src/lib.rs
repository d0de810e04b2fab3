//! Verified core logic of the Ramag Redis and Git tool views.

pub mod actions;
pub mod branches;
pub mod cli;
pub mod diff;
pub mod file_tree;
pub mod forms;
pub mod key_create;
pub mod key_detail;
pub mod monitor;
pub mod pubsub;
pub mod session;
pub mod key_tree;
pub mod key_tree_view;
pub mod text;
pub mod value_display;
pub mod vcs_common;
pub mod vcs_confirm;
pub mod vcs_files;
pub mod vcs_ops;
pub mod vcs_search;
