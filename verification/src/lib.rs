//! Moving Proton compatdata off a game drive that cannot hold it.

pub mod asking;
pub mod backend;
pub mod backup;
pub mod checks;
pub mod cli;
pub mod closing;
pub mod commands;
pub mod comparing;
pub mod copying;
pub mod courses;
pub mod discover;
pub mod document;
pub mod evidence;
pub mod exchange;
pub mod finding;
pub mod fsops;
pub mod games;
pub mod handling;
pub mod history;
pub mod ids;
pub mod json;
pub mod judging;
pub mod links;
pub mod lock;
pub mod path;
pub mod plan;
pub mod png;
pub mod protocol;
pub mod reasons;
pub mod record;
pub mod repair;
pub mod safefs;
pub mod scan;
pub mod seeing;
pub mod sha256;
pub mod sort;
pub mod state;
pub mod steam;
pub mod system;
pub mod telling;
pub mod text;
pub mod undo;
pub mod vdf;
pub mod walk;
pub mod window;
pub mod wording;
