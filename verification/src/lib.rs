//! Verified core of `camera-box`.

use vstd::prelude::*;

pub mod auth;
pub mod button;
pub mod camera;
pub mod cli;
pub mod client;
pub mod command;
pub mod config;
pub mod digest;
pub mod hotspot;
pub mod logs;
pub mod net;
pub mod numeral;
pub mod order;
pub mod scan;
pub mod steps;
pub mod stream;
pub mod sys;
pub mod text;
pub mod update;
pub mod web;

verus! {

} // verus!
