//! Mosaic: the decision logic of a keyboard-driven tiling window manager.
//!
//! The library holds the tiling tree and layout engine, the window tracker and
//! its rules, the configuration defaults, the state of the window manager with
//! its scratchpad and marks, the command protocol spoken over the control
//! socket, the hotkey modes, and the small pieces of window-server bookkeeping
//! that do not need the operating system.

pub mod config;
pub mod features;
pub mod hotkeys;
pub mod ipc;
pub mod layout;
pub mod sa;
pub mod seqs;
pub mod skylight;
pub mod state;
pub mod text;
pub mod window;
