//! Verified core of the SwiftFlow toolkit: project configuration, project
//! scaffolding, text-input bridging, touch tracking and the small data
//! structures the renderer relies on.

pub mod node;
pub mod dsu;
pub mod ime;
pub mod strs;
pub mod config;
pub mod templates;
pub mod project;
pub mod toolchain;
pub mod input;
pub mod keys;
pub mod file_dialog;
pub mod pacing;
pub mod icon;
pub mod decode;
pub mod font;
pub mod sdk;
