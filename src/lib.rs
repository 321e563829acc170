//! Translation of a resolved Cargo dependency graph into Buck2 build rules,
//! with content-addressed change detection and targeted patching of the
//! generated files.
pub mod text;
pub mod collections;
pub mod platform;
pub mod rules;
pub mod readback;
pub mod deps;
pub mod cache;
pub mod resolve;
pub mod apply;
pub mod emit;
pub mod targets;
pub mod patch;
pub mod render;
pub mod commands;
pub mod config;
pub mod cli;
