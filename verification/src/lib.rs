//! Nirius is a companion daemon for the niri compositor: it mirrors the
//! compositor's window and workspace state, and executes client commands
//! (focus cycling, marks, follow mode, scratchpad) against that mirror.
//!
//! The library holds the state store and the command engine.  Everything
//! that needs the outside world (sockets, the compositor connection) lives
//! in the surrounding application: the engine hands it [`cmds::Action`]
//! values to perform and takes [`cmds::Reply`] values back.

pub mod cmds;
pub mod config;
pub mod events;
pub mod matching;
pub mod state;
pub mod strfmt;
