use vstd::prelude::*;

pub mod cli;
pub mod config;
pub mod drag;
pub mod hotkey;
pub mod notify;
pub mod session_dir;
pub mod session_log;
pub mod track;
pub mod text;

verus! {
}
