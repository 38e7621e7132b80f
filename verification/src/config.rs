//! Runtime configuration.

use vstd::prelude::*;

verus! {

/// Runtime configuration data.
#[derive(Clone, Debug)]
pub struct Config {
    /// The server's logging config, which uses Rust's `env_logger` directives.
    pub rust_log: String,
    /// The port which client network traffic is to use.
    pub client_port: u16,
    /// The name of this node.
    pub node_name: String,
    /// The name of this node's replica set.
    pub repl_set_name: String,
    /// The name of the node which is the leader of this replica set.
    pub leader_name: String,
    /// The name of the replica set which is responsible for cluster metadata.
    pub metadata_repl_set_name: String,
    /// The path to the database on disk.
    pub storage_data_path: String,
}

impl Config {
    /// The cluster's TLS config, if any.
    pub fn tls_config(&self) -> (tls: Option<()>)
        ensures
            tls is None,
    {
        None
    }
}

} // verus!
