//! The layout of the node's data on disk: the data path, the names of database trees, and the
//! files which record the node's identity.

use vstd::prelude::*;
use vstd::string::StringExecFns;

use crate::codec::{decimal, parse_u64, parse_u64_spec, u64_to_decimal, lemma_decimal_round_trip};

verus! {

/// The default path to use for data storage.
pub open spec fn default_data_path_spec() -> Seq<char> {
    "/usr/local/hadron/data"@
}

/// The default path to use for data storage.
pub fn default_data_path() -> (s: String)
    ensures
        s@ == default_data_path_spec(),
{
    String::from_str("/usr/local/hadron/data")
}

/// The name of the DB tree holding a stream's entries.
pub open spec fn stream_tree_name_spec(namespace: Seq<char>, name: Seq<char>) -> Seq<char> {
    "streams/"@ + namespace + "/"@ + name
}

/// The name of the DB tree holding a stream's entries.
pub fn stream_tree_name(namespace: &str, name: &str) -> (s: String)
    ensures
        s@ == stream_tree_name_spec(namespace@, name@),
{
    let mut s = String::from_str("streams/");
    s.append(namespace);
    s.append("/");
    s.append(name);
    s
}

/// The name of the DB tree holding a stream's metadata.
pub open spec fn stream_metadata_tree_name_spec(namespace: Seq<char>, name: Seq<char>) -> Seq<char> {
    stream_tree_name_spec(namespace, name) + "/metadata"@
}

/// The name of the DB tree holding a stream's metadata.
pub fn stream_metadata_tree_name(namespace: &str, name: &str) -> (s: String)
    ensures
        s@ == stream_metadata_tree_name_spec(namespace@, name@),
{
    let mut s = stream_tree_name(namespace, name);
    s.append("/metadata");
    s
}

/// The name of the DB tree holding the entries of a replica of a stream partition.
pub open spec fn stream_replica_tree_name_spec(namespace: Seq<char>, name: Seq<char>, partition: u32, replica_id: u64) -> Seq<char> {
    "spc::stream/"@ + namespace + "/"@ + name + "/"@ + decimal(partition as nat) + "/"@ + decimal(replica_id as nat)
}

/// The name of the DB tree holding the entries of a replica of a stream partition.
pub fn stream_replica_tree_name(namespace: &str, name: &str, partition: u32, replica_id: u64) -> (s: String)
    ensures
        s@ == stream_replica_tree_name_spec(namespace@, name@, partition, replica_id),
{
    let mut s = String::from_str("spc::stream/");
    s.append(namespace);
    s.append("/");
    s.append(name);
    s.append("/");
    let p = u64_to_decimal(partition as u64);
    s.append(p.as_str());
    s.append("/");
    let r = u64_to_decimal(replica_id);
    s.append(r.as_str());
    s
}

/// Errors about the node's identity on disk.
#[derive(Debug)]
pub enum IdentityError {
    /// The node's name differs from the one recorded with its state.
    NodeNameMismatch,
    /// The node ID file holds something other than a node ID.
    InvalidNodeId(String),
}

impl IdentityError {
    /// The error's message.
    pub open spec fn spec_message(&self) -> Seq<char> {
        match self {
            IdentityError::NodeNameMismatch =>
                "UNSAFE CONFIG CHANGE ERROR! It is not safe to change the node name \\\nof a node which already has state."@,
            IdentityError::InvalidNodeId(raw) => "invalid node ID found: "@ + raw@,
        }
    }

    /// Render the error's message.
    pub fn message(&self) -> (s: String)
        ensures
            s@ == self.spec_message(),
    {
        match self {
            IdentityError::NodeNameMismatch => String::from_str(
                "UNSAFE CONFIG CHANGE ERROR! It is not safe to change the node name \\\nof a node which already has state.",
            ),
            IdentityError::InvalidNodeId(raw) => {
                let mut s = String::from_str("invalid node ID found: ");
                s.append(raw.as_str());
                s
            },
        }
    }
}

/// Check the node's configured name against the one recorded with its state, if any.
///
/// Returns whether the name is yet to be recorded (`Ok(true)`: the node is pristine) or already
/// recorded (`Ok(false)`); a recorded name which differs is an error, for a node which already
/// has state must not change its name.
pub fn check_node_name(recorded: Option<&str>, node_name: &str) -> (r: Result<bool, IdentityError>)
    ensures
        match recorded {
            None => r matches Ok(true),
            Some(n) => if n@ == node_name@ { r matches Ok(false) } else { r matches Err(IdentityError::NodeNameMismatch) },
        },
{
    match recorded {
        None => Ok(true),
        Some(n) => {
            if crate::auth::str_eq(n, node_name) {
                Ok(false)
            } else {
                Err(IdentityError::NodeNameMismatch)
            }
        },
    }
}

/// Read the node ID recorded in the node ID file: the file holds the ID in decimal.
pub fn parse_node_id(raw: &str) -> (r: Result<u64, IdentityError>)
    ensures
        match parse_u64_spec(raw@) {
            Some(id) => r matches Ok(x) && x == id,
            None => r matches Err(IdentityError::InvalidNodeId(s)) && s@ == raw@,
        },
{
    match parse_u64(raw) {
        Some(id) => Ok(id),
        None => Err(IdentityError::InvalidNodeId(String::from_str(raw))),
    }
}

/// What to write into the node ID file for a new node ID: the ID in decimal.
pub fn node_id_file_contents(id: u64) -> (s: String)
    ensures
        s@ == decimal(id as nat),
{
    u64_to_decimal(id)
}

/// A node ID written to the node ID file is read back unchanged.
pub proof fn lemma_node_id_file_round_trip(id: u64)
    ensures
        parse_u64_spec(decimal(id as nat)) == Some(id),
{
    lemma_decimal_round_trip(id);
}

} // verus!
