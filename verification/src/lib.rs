//! A store of markdown notes: plain files under one root directory, each with an
//! optional YAML front matter block, and a small index of path and title beside them.
//!
//! Everything here is pure: the functions decide and compute, and hand back the steps
//! that touch the file tree and the index for the caller to carry out.

pub mod text;

pub mod error;

pub mod path;

pub mod node;

pub mod types;

pub mod yaml;

pub mod document;

pub mod vault;

pub mod index;

pub mod store;

pub mod model;

pub mod cli;

pub mod settings;
