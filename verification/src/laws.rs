//! What holds of the library as a whole.

pub mod asking;
pub mod capturing;
pub mod closing;
pub mod dispatch;
pub mod effects;
pub mod evidence;
pub mod geometry;
pub mod hints;
pub mod launched;
pub mod launching;
pub mod messages;
pub mod passes;
pub mod processes;
pub mod profiles;
pub mod reconcile;
pub mod readings;
pub mod recognition;
pub mod replacing;
pub mod restoring;
pub mod sessions;
pub mod settings;
pub mod settled;
pub mod targets;
pub mod texts;
pub mod units;
pub mod watching;
pub mod web;
