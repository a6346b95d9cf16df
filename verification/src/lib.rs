//! A library for managing terminal-multiplexer sessions: it parses a
//! declarative configuration document into named preset layouts (nested
//! windows, splits and panes with proportional sizes) and turns a preset
//! into the ordered sequence of backend operations that materializes it,
//! where the backend only offers pairwise percentage-based pane splits.

pub mod commands;
pub mod config;
pub mod kdl_bridge;
pub mod machine;
pub mod model;
pub mod parser;
pub mod plan;
pub mod strutil;
