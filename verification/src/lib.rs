//! A minimal centralized syslog sink: a verified parser for a fixed syslog
//! grammar, the per-connection ingestion policy, and an append-only record
//! store with the filtered query interface served over it.

pub mod handler;
pub mod parser;
pub mod query;
pub mod record;
pub mod store;
