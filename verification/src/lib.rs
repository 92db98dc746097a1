//! A long-lived autonomous agent core: a think-cycle scheduler, a tool-calling
//! protocol loop, an append-only memory ledger with multi-factor retrieval,
//! and a sandboxed command validator, all with verified contracts.

use vstd::prelude::*;

pub mod config;
pub mod controller;
pub mod hex;
pub mod identity;
pub mod ledger;
pub mod memory;
pub mod movement;
pub mod provider;
pub mod sandbox;
pub mod score;
pub mod strutil;
pub mod types;
pub mod web;

verus! {

/// Width of the agent's room in tiles.
pub const ROOM_COLS: i32 = 12;

/// Height of the agent's room in tiles.
pub const ROOM_ROWS: i32 = 12;

} // verus!
