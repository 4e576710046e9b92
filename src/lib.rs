//! The core of a DDS middleware speaking RTPS: the shared cache of received
//! changes, the per-reader sample-state engine and reader endpoint, and the
//! discovery database that matches remote endpoints with local ones.

pub mod adapters;
pub mod assoc;
mod clock;
pub mod datareader;
pub mod dds_cache;
pub mod discovery_data;
pub mod discovery_db;
pub mod guid;
pub mod qos;
pub mod sample_cache;
pub mod serialization;
pub mod topic;
