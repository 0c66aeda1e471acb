//! Indexing and querying of RPM package repositories, verified: the order of
//! `epoch:version-release` identifiers, the newest package of each name and
//! arch, the incremental sync of a repository against its stored snapshot,
//! and the fusion of lexical and semantic scores into one ranking.
pub mod config;
pub mod error;
pub mod fusion;
pub mod gbs;
pub mod latest;
pub mod package;
pub mod planner;
pub mod protocol;
pub mod query;
pub mod repomd;
pub mod storage;
pub mod sync;
pub mod text;
pub mod version;
