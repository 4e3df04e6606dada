//! Write-path buffering core of a time-series ingestion tier.
//!
//! Inbound write and delete operations, keyed by a sequencing partition,
//! are held in memory organized as sequencer -> namespace -> table ->
//! time-partition, and are periodically compacted and persisted to durable
//! object storage with metadata committed to a shared catalog.

pub mod batch;
pub mod buffer;
pub mod cache;
pub mod catalog;
pub mod cli;
pub mod config;
pub mod data;
pub mod delete;
pub mod grpc;
pub mod lifecycle;
pub mod object_store;
pub mod outside;
pub mod partitioner;
pub mod persist;
pub mod request;
pub mod scan;
pub mod scenarios;
pub mod stats;
pub mod types;
