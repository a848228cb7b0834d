//! The rules of a caching proxy for package registries and read-only git, verified.
//!
//! What the proxy decides stands here: which requests it serves and from where, how metadata
//! is rewritten, what is cached under which key, who fetches and who waits, what leaves the
//! cache, and what is answered. Sockets, files and clocks are left to the program around it.
pub mod bounds;
pub mod cache;
pub mod cargo;
pub mod config;
pub mod directory;
pub mod disk;
pub mod error;
pub mod eviction;
pub mod failure_log;
pub mod fetch;
pub mod footer;
pub mod git;
pub mod http;
pub mod json;
pub mod keys;
pub mod meta;
pub mod metadata;
pub mod npm;
pub mod opening;
pub mod ordered;
pub mod packages;
pub mod packument;
pub mod paths;
pub mod proxy;
pub mod pypi;
pub mod rewrite;
pub mod routes;
pub mod state;
pub mod stats;
pub mod text;
pub mod weburl;
pub mod writing;

pub use config::Config;
pub use stats::{
    AppStats, StatsSnapshot, UPSTREAM_CARGO_DOWNLOAD, UPSTREAM_CARGO_INDEX, UPSTREAM_GITHUB,
    UPSTREAM_NPM, UPSTREAM_PYPI_FILES, UPSTREAM_PYPI_SIMPLE,
};
pub use weburl::Url;
