//! Dependency-manifest language-server logic: manifest detection, section
//! detection for completion, document and cache state, package-lock and
//! registry response decoding, and the ecosystem formatters.

pub mod text;
pub mod completion;
pub mod ecosystem;
pub mod config;
pub mod strmap;
pub mod keymap;
pub mod types;
pub mod document;
pub mod numfmt;
pub mod file_watcher;
pub mod urlenc;
pub mod unicode;
pub mod pep440;
pub mod semver;
pub mod pypi;
pub mod npm;
pub mod json;
pub mod npm_lockfile;
pub mod npm_parser;
pub mod progress;
pub mod handlers;
pub mod zed;
pub mod responses;
pub mod cli;
