//! Rule-evaluation core for a home-automation controller.
//!
//! The library projects device, scene and group state into a flat,
//! addressable evaluation namespace, runs a user-authored expression
//! against that namespace, and reconciles whatever the expression
//! changed back into concrete domain actions (device writes, scene
//! activations, routine triggers).

pub mod error;
pub mod value;
pub mod strings;
pub mod context;
pub mod device;
pub mod flatten;
pub mod builder;
pub mod cache;
pub mod action;
pub mod commands;
pub mod pointer;
pub mod diff;
pub mod engine;
pub mod evalexpr_types;
pub mod hue;
pub mod laws;
