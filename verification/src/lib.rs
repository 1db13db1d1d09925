//! Core logic for a switch-provisioning farm: a declarative expect/response
//! state machine that drives a switch over a serial line, a port tracker that
//! fuses presence and job-status events into LED colors and reset commands,
//! the broker message codec, and the board line protocol.

pub mod action;
pub mod board;
pub mod codec;
pub mod config;
pub mod devinfo;
pub mod discovery;
pub mod helpers;
pub mod job;
pub mod expect;
pub mod machine;
pub mod manager;
pub mod numbers;
pub mod rx;
pub mod status;
pub mod tracker;
pub mod text;
pub mod topics;
pub mod trigger;
