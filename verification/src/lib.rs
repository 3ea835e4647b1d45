//! A coding-agent harness that reports what it did, what it observed, and
//! what it cost.
use vstd::prelude::*;

pub mod text;
pub mod message;
pub mod path;
pub mod tools;
pub mod diff;
pub mod edit;
pub mod fs;
pub mod patterns;
pub mod search;
pub mod effect;
pub mod shell;
pub mod checks;
pub mod constraints;
pub mod approval;
pub mod evidence;
pub mod learn;
pub mod agent;
pub mod commands;
pub mod checkpoint;
pub mod hooks;
pub mod secrets;
pub mod mcp;
pub mod providers;
pub mod tui;
pub mod which;
pub mod wire;
pub mod config;
pub mod permission;
pub mod setup;

verus! {
} // verus!
