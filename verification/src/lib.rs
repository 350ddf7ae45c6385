//! Core of a proxy that sits in front of a search index and makes sure every
//! submitted document carries a `seed_id` before it is forwarded.
//!
//! The crate holds the parts that decide and compute: the attribute scanner,
//! the document model, the XML reader and writer, host canonicalisation, the
//! `seed_id` resolver with its cache, the per-period counters and the request
//! routing rules. Sockets, the relational store and the clock stay with the
//! caller, which hands their results in as plain values.

pub mod bytes;
pub mod dispatch;
pub mod laws;
pub mod proc_xml;
pub mod scan;
pub mod seed_cache;
pub mod seed_host;
pub mod util;
pub mod working_cnt;
pub mod xml_attr_parser;
pub mod xml_doc;
pub mod xml_events;
pub mod xml_reader;
pub mod xml_sink;
pub mod xml_writer;
