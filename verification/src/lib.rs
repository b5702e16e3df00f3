//! A MAVLink-aware interception proxy core: framing, a structured message
//! model, a priority-ordered rule engine with per-rule activation state, an
//! action executor, and a batch aggregator.  The surrounding process feeds
//! it bytes and events and carries out the deliveries, delays and timeouts
//! it decides.
#![allow(unused_imports)]
#![verifier::loop_isolation(false)]
use vstd::prelude::*;

pub mod ack;
pub mod action;
pub mod batch;
pub mod codec;
pub mod config;
pub mod engine;
pub mod executor;
pub mod frame;
pub mod rule_state;
pub mod table;
pub mod tree;
