//! The logic of a keyboard-driven browser: what it stores, what it reads, and
//! what it decides.

use vstd::prelude::*;

pub mod blocker;
pub mod bookmarks;
pub mod commands;
pub mod config;
pub mod control;
pub mod crash;
pub mod data;
pub mod dispatch;
pub mod downloads;
pub mod engine;
pub mod favicon;
pub mod follow;
pub mod fuzzy;
pub mod hints;
pub mod history;
pub mod inspect;
pub mod interstitial;
pub mod json;
pub mod keyboard;
pub mod keys;
pub mod launch;
pub mod layout;
pub mod list;
pub mod mcp;
pub mod number;
pub mod pathname;
pub mod paths;
pub mod permissions;
pub mod policy;
pub mod profile;
pub mod progress;
pub mod scripts;
pub mod server;
pub mod session;
pub mod shot;
pub mod state;
pub mod table;
pub mod text;
pub mod weburl;

verus! {

} // verus!
