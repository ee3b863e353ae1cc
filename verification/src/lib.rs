//! Incremental build engine: dependency resolution, change detection,
//! compile-command synthesis, and the compile/link state machine.
//!
//! The library is pure logic over plain values: paths are `String`s,
//! modification times are epoch seconds, and every external effect
//! (reading a manifest, listing a directory, spawning a compiler) is
//! performed by the surrounding program, which feeds the results back
//! in as values.

pub mod cache;
pub mod compile_command;
pub mod config;
pub mod database;
pub mod error;
pub mod laws;
pub mod orchestrator;
pub mod paths;
pub mod project;
pub mod resolver;
