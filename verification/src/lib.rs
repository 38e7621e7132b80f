//! Hadron's cluster logic: authorization, replica placement, peer discovery, the cluster's
//! indices, the Raft log on disk, request routing, and stream partition storage.

pub mod auth;
pub mod config;
pub mod error;
pub mod load_order;
pub mod placement;
pub mod discovery;
pub mod events;
pub mod schema;
pub mod cpc;
pub mod strmap;
pub mod index;
pub mod token;
pub mod codec;
pub mod raftlog;
pub mod database;
pub mod route;
pub mod spc;
pub mod bookkeeping;
pub mod models;
pub mod db_models;
pub mod crc;
pub mod network;
pub mod core_index;
pub mod schema_keys;
pub mod schema_apply;
