//! Verified core of a bridge between Roon outputs and FSCT players.
use vstd::prelude::*;

pub mod config;
pub mod conversions;
pub mod device_manager;
pub mod ids;
pub mod mapping;
pub mod output_manager;
pub mod player;
pub mod player_manager;
pub mod roon;
pub mod settings;
pub mod state_cache;
pub mod table;
pub mod text;
pub mod zone_handler;

verus! {
} // verus!
