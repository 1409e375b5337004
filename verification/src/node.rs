//! The state one ring member keeps.
use vstd::prelude::*;
use crate::store::Store;

verus! {

/// A ring member as others know it: its identifier and TCP address.
#[derive(Debug, PartialEq, Eq)]
pub struct NodeInfo {
    pub id: u8,
    pub address: String,
}

impl Clone for NodeInfo {
    fn clone(&self) -> (r: Self)
        ensures
            r == *self,
    {
        NodeInfo { id: self.id, address: self.address.clone() }
    }
}

/// Copies an optional ring member.
pub fn clone_info_opt(o: &Option<NodeInfo>) -> (r: Option<NodeInfo>)
    ensures
        r == *o,
{
    match o {
        Some(n) => Some(n.clone()),
        None => None,
    }
}

/// The state of one ring member.
pub struct Node {
    pub id: u8,
    pub info: NodeInfo,
    /// The next member clockwise; a member alone on the ring is its own successor.
    pub successor: NodeInfo,
    pub predecessor: Option<NodeInfo>,
    /// Finger table: entry `i` routes towards `id + 2^i`.
    pub fingers: Vec<NodeInfo>,
    /// The finger entry most recently refreshed.
    pub next_finger: usize,
    /// Torrent metadata this member is responsible for, keyed by file hash.
    pub storage: Store,
    /// Files this member seeds: file hash to local path.
    pub seeding_files: Store,
}

impl Node {
    /// The invariant every member state keeps.
    pub open spec fn wf(&self) -> bool {
        &&& self.info.id == self.id
        &&& self.next_finger < 8
        &&& self.storage.wf()
        &&& self.seeding_files.wf()
    }

    /// Whether this state keeps the invariant.
    pub fn is_wf(&self) -> (r: bool)
        ensures
            r == self.wf(),
    {
        self.info.id == self.id && self.next_finger < 8 && self.storage.has_unique_keys() && self.seeding_files.has_unique_keys()
    }

    /// A member alone on the ring: its own successor, with no predecessor,
    /// no fingers and nothing stored.
    pub fn new(id: u8, address: String) -> (n: Node)
        ensures
            n.wf(),
            n.id == id,
            n.info == (NodeInfo { id, address }),
            n.successor == n.info,
            n.predecessor is None,
            n.fingers@.len() == 0,
            n.next_finger == 0,
            n.storage.entries@.len() == 0,
            n.seeding_files.entries@.len() == 0,
    {
        let info = NodeInfo { id, address };
        Node {
            id,
            info: info.clone(),
            successor: info,
            predecessor: None,
            fingers: Vec::new(),
            next_finger: 0,
            storage: Store::new(),
            seeding_files: Store::new(),
        }
    }
}

/// What the interface shows of a member.
#[derive(Debug, PartialEq, Eq)]
pub struct NodeView {
    pub id: u8,
    pub address: String,
    pub successor_id: u8,
    pub successor_address: String,
    pub predecessor_id: Option<u8>,
    pub predecessor_address: Option<String>,
}

/// The interface's view of `node`.
pub fn node_view(node: &Node) -> (v: NodeView)
    ensures
        v.id == node.id,
        v.address == node.info.address,
        v.successor_id == node.successor.id,
        v.successor_address == node.successor.address,
        v.predecessor_id == (match node.predecessor {
            Some(p) => Some(p.id),
            None => None,
        }),
        v.predecessor_address == (match node.predecessor {
            Some(p) => Some(p.address),
            None => None,
        }),
{
    let (predecessor_id, predecessor_address) = match &node.predecessor {
        Some(p) => (Some(p.id), Some(p.address.clone())),
        None => (None, None),
    };
    NodeView {
        id: node.id,
        address: node.info.address.clone(),
        successor_id: node.successor.id,
        successor_address: node.successor.address.clone(),
        predecessor_id,
        predecessor_address,
    }
}

} // verus!
