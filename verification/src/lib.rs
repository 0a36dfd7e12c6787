use vstd::prelude::*;

pub mod text;
pub mod quiz;
pub mod modes;
pub mod output;
pub mod prompts;
pub mod cli;
pub mod config;
pub mod stats;
pub mod chat;
pub mod shell;
pub mod models;
pub mod packs;
pub mod setup;
pub mod update;

verus! {

} // verus!
