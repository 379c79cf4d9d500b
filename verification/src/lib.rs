//! Save, restore and reconcile the windows of a Hyprland session.
//!
//! The crate holds the decisions: how saved windows are matched with open
//! ones, where they are placed, how they are launched and which commands are
//! sent to the compositor.  Reading files, running commands and waiting are
//! left to the program around it.

pub mod autosave;
pub mod brave;
pub mod capture;
pub mod commands;
pub mod config;
pub mod entries;
pub mod files;
pub mod hungarian;
pub mod hyprctl;
pub mod json;
pub mod laws;
pub mod lists;
pub mod matching;
pub mod paths;
pub mod placement;
pub mod process;
pub mod procfs;
pub mod recovery;
pub mod restore;
pub mod session;
pub mod text;
pub mod webapps;
