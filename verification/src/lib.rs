//! zm-mux: the model of an AI-agent terminal multiplexer.

pub mod types;
pub mod text;
pub mod mux;
pub mod keybinding;
pub mod config;
pub mod seqs;
pub mod pane_tree;
pub mod selection;
pub mod tabs;
pub mod session;
pub mod agent;
pub mod ipc;
pub mod shim;
pub mod cli;
pub mod rpc;
pub mod backend;
pub mod mux_api;
pub mod osc;
pub mod palette;
pub mod term;
pub mod raster;
pub mod runs;
pub mod keys;
pub mod probe;
