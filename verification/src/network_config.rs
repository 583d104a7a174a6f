//! Configuration of a networking node: its role in the network and the
//! parameters of the gossip mesh.

use vstd::prelude::*;
use core::str::FromStr;

verus! {

/// The role of a node, used mostly to estimate how many connections it
/// should allow.
#[derive(Debug, Copy, Clone, PartialEq, Eq, Structural)]
pub enum NetworkNodeType {
    /// A bootstrap node accepts all connections.
    Bootstrap,
    /// A regular node has a limit to the number of connections to accept.
    Regular,
    /// A conductor node is never pruned.
    Conductor,
}

impl FromStr for NetworkNodeType {
    type Err = String;

    fn from_str(input: &str) -> Result<NetworkNodeType, String> {
        if input == "Conductor" {
            Ok(NetworkNodeType::Conductor)
        } else if input == "Regular" {
            Ok(NetworkNodeType::Regular)
        } else if input == "Bootstrap" {
            Ok(NetworkNodeType::Bootstrap)
        } else {
            Err(
                "Couldn't parse node type. Must be one of Conductor, Bootstrap, Regular".to_string(),
            )
        }
    }
}

impl Default for NetworkNodeType {
    /// A node is a bootstrap node unless said otherwise.
    fn default() -> (r: Self)
        ensures
            r == NetworkNodeType::Bootstrap,
    {
        NetworkNodeType::Bootstrap
    }
}

/// Parameters fed into gossip controlling the structure of the mesh.
/// Callers keep `mesh_outbound_min <= mesh_n_low <= mesh_n <= mesh_n_high`
/// and `mesh_outbound_min <= mesh_n / 2`.
#[derive(Clone, Copy, PartialEq, Eq, Debug, Structural)]
pub struct MeshParams {
    /// Upper bound on mesh peers.
    pub mesh_n_high: usize,
    /// Lower bound on mesh peers.
    pub mesh_n_low: usize,
    /// Minimum number of outbound mesh peers.
    pub mesh_outbound_min: usize,
    /// Target number of mesh peers.
    pub mesh_n: usize,
}

impl Default for MeshParams {
    /// The stock mesh shape.
    fn default() -> (r: Self)
        ensures
            r == (MeshParams {
                mesh_n_high: 15,
                mesh_n_low: 8,
                mesh_outbound_min: 4,
                mesh_n: 12,
            }),
    {
        MeshParams { mesh_n_high: 15, mesh_n_low: 8, mesh_outbound_min: 4, mesh_n: 12 }
    }
}

} // verus!
