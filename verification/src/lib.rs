//! Bulk-loads a weighted, timestamped edge list from a gzip-compressed CSV
//! source into a remote graph-storage service over one of two transports:
//! HTTP+JSON (REST) or a binary request/reply protocol over a messaging
//! socket (MessagePack encoding).
//!
//! This crate holds the verified core: decoding rows into edge records,
//! framing the wire requests, interpreting the wire replies, and the
//! per-record dispatch outcome logic. The surrounding process (file reading,
//! sockets, the parallel worker pool) lives outside and hands this crate
//! plain byte values.

pub mod config;
pub mod decoder;
pub mod dispatch;
pub mod outcome;
pub mod record;
pub mod rest;
pub mod rpc;
