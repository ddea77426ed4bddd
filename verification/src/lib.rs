//! Sambil: the state, layout, input and rendering logic of a keyboard-driven
//! terminal multiplexer, with its contracts proved by Verus.
pub mod size;
pub mod scroll;
pub mod text;
pub mod cell;
pub mod cursor;
pub mod pane;
pub mod pane_manager;
pub mod keys;
pub mod config;
pub mod input;
pub mod renderer;
pub mod replay;
