//! NeuTerm core library: terminal grid, colors, configuration model,
//! output triggers, pane/tab multiplexing and input mapping.
#![allow(unused_imports)]

use vstd::prelude::*;

pub mod color;
pub mod text;
pub mod grid;
pub mod vt;
pub mod schema;
pub mod theme;
pub mod config;
pub mod triggers;
pub mod mux;
pub mod ai;
pub mod input;
pub mod render;
pub mod overlay;
pub mod session;
