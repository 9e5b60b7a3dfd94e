//! Verified core of a bulk-fetch-then-install pipeline for workshop content.
//!
//! The library holds the logic of the pipeline: partitioning requested items
//! across fetch-tool instances, the retry/backoff orchestration that reports
//! every requested item exactly once, scanning the fetch tool's output for
//! per-item failure hints, deciding when a download has materialised on disk,
//! resolving destination folder names (including collision and corruption
//! handling), and planning the installation steps so that the filesystem
//! observer is always told to ignore a destination before it is mutated and
//! released again on every exit path.  All filesystem, subprocess and network
//! work is performed by a thin unverified driver that feeds plain values into
//! these functions and carries out the action plans they return.

pub mod access;
pub mod backup;
pub mod balance;
pub mod cache;
pub mod detector;
pub mod downloader;
pub mod installer;
pub mod metadata;
pub mod naming;
pub mod orchestrator;
pub mod paths;
pub mod rate;
pub mod registry;
pub mod scan;
pub mod steam_api;
pub mod strings;
pub mod watcher;
pub mod xml;
