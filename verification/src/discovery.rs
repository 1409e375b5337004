//! Joining the ring: a member's identity and the decisions of discovery.
use vstd::prelude::*;
use vstd::string::*;
use crate::digest::{generate_id_from_ip, name_ring_id};
use crate::message::Message;
use crate::node::Node;

verus! {

/// The datagram a joining member multicasts.
pub const JOIN_REQUEST: &'static str = "PING_CHORD_JOIN";

/// The datagram a member answers a join request with.
pub const JOIN_REPLY: &'static str = "HELLO_I_AM_CONTACT_NODE";

/// The TCP address members listen on: the IP address with port 8000.
pub fn tcp_address(ip: &str) -> (r: String)
    ensures
        r@ == ip@ + ":8000"@,
{
    String::from_str(ip).concat(":8000")
}

/// The state a member starts in, given its IP address and, when some member
/// answered the discovery ping, that contact's answer to `FindSuccessor` for
/// the new identifier. A `SuccessorResponse` names the successor; otherwise the
/// member starts alone.
pub fn find_node(my_ip: &str, contact_reply: Option<Message>) -> (n: Node)
    ensures
        n.wf(),
        n.id == name_ring_id(my_ip@),
        n.info.id == n.id,
        n.info.address@ == my_ip@ + ":8000"@,
        n.successor == (match contact_reply {
            Some(Message::SuccessorResponse { node }) => node,
            _ => n.info,
        }),
        n.predecessor is None,
        n.fingers@.len() == 0,
        n.next_finger == 0,
        n.storage.entries@.len() == 0,
        n.seeding_files.entries@.len() == 0,
{
    let my_id: u8 = generate_id_from_ip(my_ip);
    let mut node = Node::new(my_id, tcp_address(my_ip));
    if let Some(Message::SuccessorResponse { node: succ }) = contact_reply {
        node.successor = succ;
    }
    node
}

/// Whether a listening member answers the datagram `msg`: it must be a join
/// request, and not one this member sent itself.
pub fn should_answer(msg: &str, from_self: bool) -> (r: bool)
    ensures
        r == (msg@ == JOIN_REQUEST@ && !from_self),
{
    String::from_str(msg) == String::from_str(JOIN_REQUEST) && !from_self
}

} // verus!
