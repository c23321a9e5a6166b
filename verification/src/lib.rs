//! Decision logic for publishing container images to registries.

pub mod config;
pub mod containerfile;
pub mod deploy;
pub mod docker;
pub mod document;
pub mod environment;
pub mod ghcr;
pub mod order;
pub mod path;
pub mod text;
pub mod util;
