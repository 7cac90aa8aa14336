//! Engine for locating, reading and surgically updating a game launcher's
//! on-disk configuration and runtime state: a codec for its nested quoted
//! key-value text format, discovery of storage roots, resolution of the
//! active identity, time- and modification-gated caches, a layered
//! runtime matcher, and the decision core of the prefix repair pass.
//!
//! Every function here is pure over plain values: callers observe the
//! filesystem and the clock, hand the facts in, and perform the I/O the
//! results call for.

pub mod cache;
pub mod cleaner;
pub mod config;
pub mod dependencies;
pub mod error;
pub mod manifest;
pub mod matcher;
pub mod models;
pub mod output;
pub mod paths;
pub mod repair;
pub mod scanner;
pub mod sort;
pub mod strutil;
pub mod terminal;
pub mod ui;
pub mod user_config;
pub mod validator;
pub mod vdf;
