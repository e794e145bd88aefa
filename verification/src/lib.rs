//! Utility-class stylesheet tooling: a registry of the class names each source
//! file references, resolution of class names to CSS declarations, and the
//! bookkeeping that turns bursts of file-system events into single updates.

pub mod class_set;
pub mod compiler;
pub mod data_manager;
pub mod debounce;
pub mod engine;
pub mod generator;
pub mod parser;
pub mod text;
pub mod utils;
pub mod watcher;
