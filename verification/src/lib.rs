//! Queue times and region locking for Dead by Daylight matchmaking.
use vstd::prelude::*;

pub mod api;
pub mod app;
pub mod best;
pub mod cache;
pub mod config;
pub mod firewall;
pub mod i18n;
pub mod order;
pub mod properties;
pub mod ping;
pub mod sets;
pub mod text;
pub mod ui;

verus! {

} // verus!
