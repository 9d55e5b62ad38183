//! Pools of pre-started application windows: configuration, window
//! bookkeeping, activation and scratchpad decisions, and the input heuristics
//! of the background daemon.
//!
//! The library decides; the program around it makes the X11 requests, runs
//! the processes and reads and writes the files.
pub mod text;
pub mod external;
pub mod state;
pub mod config;
pub mod x11util;
pub mod pools;
pub mod daemon;
pub mod cli;
