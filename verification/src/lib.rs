//! Verified core of the La Chuoi task runner: schedules, worker bookkeeping,
//! configuration sync plans and the small text protocols around them.
use vstd::prelude::*;

pub mod text;
pub mod task;
pub mod task_config;
pub mod config;
pub mod scheduler;
pub mod sync;
pub mod reload;
pub mod wasm_handlers;
pub mod web;
pub mod db;
pub mod wasm_binary;
pub mod rpc;
pub mod apps;
pub mod native_handlers;
pub mod async_scheduler;
pub mod tokens;
pub mod metrics;

verus! {

} // verus!
