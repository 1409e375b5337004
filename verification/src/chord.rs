//! The Chord protocol steps of one ring member: routing, stabilisation,
//! finger maintenance, leaving and rejoining, and answering requests.
//!
//! Every step here is a decision on the member's state and on what arrived from
//! the network; sending and receiving are left to the caller, which performs the
//! returned action and hands back the reply.
use vstd::prelude::*;
use crate::message::{Message, Outgoing};
use crate::node::{clone_info_opt, Node, NodeInfo};
use crate::ring::{in_interval, is_between};
use crate::store::{has_key, inserted, key_index, merged, values_of, Store};
use crate::torrent::CHUNK_SIZE;

verus! {

/// The outcome of the local part of a successor lookup.
#[derive(Debug, PartialEq, Eq)]
pub enum Lookup {
    /// The successor of the identifier is known here.
    Found(NodeInfo),
    /// Ask `via` for the successor; if it gives no answer, use `fallback`.
    Ask { via: NodeInfo, fallback: NodeInfo },
}

/// Scanning the finger table from its end, the first finger that lies strictly
/// between `self_id` and `id`; `self_info` when there is none.
pub open spec fn closest_preceding(fingers: Seq<NodeInfo>, self_id: u8, self_info: NodeInfo, id: u8) -> NodeInfo
    decreases fingers.len(),
{
    if fingers.len() == 0 {
        self_info
    } else if in_interval(fingers.last().id, self_id, id, false) {
        fingers.last()
    } else {
        closest_preceding(fingers.drop_last(), self_id, self_info, id)
    }
}

/// `r` is the finger the routing rule must pick: when some finger lies strictly
/// between `self_id` and `id` going clockwise, `r` is the last such finger in
/// table order; when none does, `r` is whatever stands for the member itself.
pub open spec fn precedes_last(fingers: Seq<NodeInfo>, self_id: u8, id: u8, r: NodeInfo) -> bool {
    (exists|i: int| 0 <= i < fingers.len() && in_interval(#[trigger] fingers[i].id, self_id, id, false))
        ==> (exists|i: int|
        0 <= i < fingers.len() && in_interval(#[trigger] fingers[i].id, self_id, id, false) && r
            == fingers[i] && forall|j: int|
            i < j < fingers.len() ==> !in_interval(#[trigger] fingers[j].id, self_id, id, false))
}

/// The closest preceding finger is the last finger, in table order, that lies
/// strictly between the member and the target going clockwise round the ring
/// (wrapping past 255), and the member itself when no finger does.
pub proof fn lemma_closest_preceding_is_last_in_interval(
    fingers: Seq<NodeInfo>,
    self_id: u8,
    self_info: NodeInfo,
    id: u8,
)
    ensures
        precedes_last(fingers, self_id, id, closest_preceding(fingers, self_id, self_info, id)),
        (forall|i: int|
            0 <= i < fingers.len() ==> !in_interval(#[trigger] fingers[i].id, self_id, id, false))
            ==> closest_preceding(fingers, self_id, self_info, id) == self_info,
    decreases fingers.len(),
{
    if fingers.len() > 0 {
        let d = fingers.drop_last();
        let n = fingers.len() - 1;
        lemma_closest_preceding_is_last_in_interval(d, self_id, self_info, id);
        assert(fingers.last() == fingers[n]);
        assert forall|i: int| 0 <= i < d.len() implies d[i] == fingers[i] by {}
        let r = closest_preceding(fingers, self_id, self_info, id);
        if in_interval(fingers[n].id, self_id, id, false) {
            assert(precedes_last(fingers, self_id, id, r));
        } else {
            if exists|i: int| 0 <= i < fingers.len() && in_interval(#[trigger] fingers[i].id, self_id, id, false) {
                let w = choose|i: int| 0 <= i < fingers.len() && in_interval(#[trigger] fingers[i].id, self_id, id, false);
                assert(w != n);
                assert(in_interval(d[w].id, self_id, id, false));
                let k = choose|i: int|
                    0 <= i < d.len() && in_interval(#[trigger] d[i].id, self_id, id, false) && r == d[i]
                        && forall|j: int| i < j < d.len() ==> !in_interval(#[trigger] d[j].id, self_id, id, false);
                assert(fingers[k] == d[k]);
                assert forall|j: int| k < j < fingers.len() implies !in_interval(#[trigger] fingers[j].id, self_id, id, false) by {
                    if j < n {
                        assert(d[j] == fingers[j]);
                    }
                }
            }
            if forall|i: int| 0 <= i < fingers.len() ==> !in_interval(#[trigger] fingers[i].id, self_id, id, false) {
                assert forall|i: int| 0 <= i < d.len() implies !in_interval(#[trigger] d[i].id, self_id, id, false) by {
                    assert(d[i] == fingers[i]);
                }
            }
        }
    }
}

/// A lookup for an identifier outside the member's own interval is forwarded to
/// the last finger lying strictly between the member and the identifier going
/// clockwise (across the wrap), with the successor as fallback.
pub proof fn lemma_lookup_forwards_to_preceding_finger(node: Node, id: u8, i: int)
    requires
        node.wf(),
        !in_interval(id, node.id, node.successor.id, true),
        0 <= i < node.fingers@.len(),
        in_interval(node.fingers@[i].id, node.id, id, false),
        forall|j: int|
            i < j < node.fingers@.len() ==> !in_interval(
                #[trigger] node.fingers@[j].id,
                node.id,
                id,
                false,
            ),
        node.fingers@[i].id != node.id,
    ensures
        lookup_spec(node, id) == (Lookup::Ask { via: node.fingers@[i], fallback: node.successor }),
{
    lemma_closest_preceding_is_last_in_interval(node.fingers@, node.id, node.info, id);
    let c = closest_preceding(node.fingers@, node.id, node.info, id);
    let k = choose|k: int|
        0 <= k < node.fingers@.len() && in_interval(#[trigger] node.fingers@[k].id, node.id, id, false)
            && c == node.fingers@[k] && forall|j: int|
            k < j < node.fingers@.len() ==> !in_interval(#[trigger] node.fingers@[j].id, node.id, id, false);
    assert(k == i);
}

/// The local decision of a successor lookup for `id` at `node`.
pub open spec fn lookup_spec(node: Node, id: u8) -> Lookup {
    if in_interval(id, node.id, node.successor.id, true) {
        Lookup::Found(node.successor)
    } else {
        let c = closest_preceding(node.fingers@, node.id, node.info, id);
        if c.id == node.id {
            Lookup::Found(node.successor)
        } else {
            Lookup::Ask { via: c, fallback: node.successor }
        }
    }
}

/// The finger of `node` that most closely precedes `id`, or `node.info`.
pub fn closest_preceding_finger(node: &Node, id: u8) -> (r: NodeInfo)
    ensures
        r == closest_preceding(node.fingers@, node.id, node.info, id),
        precedes_last(node.fingers@, node.id, id, r),
{
    proof {
        lemma_closest_preceding_is_last_in_interval(node.fingers@, node.id, node.info, id);
    }
    let mut i: usize = node.fingers.len();
    assert(node.fingers@.take(i as int) =~= node.fingers@);
    while i > 0
        invariant
            i <= node.fingers@.len(),
            closest_preceding(node.fingers@, node.id, node.info, id) == closest_preceding(
                node.fingers@.take(i as int),
                node.id,
                node.info,
                id,
            ),
        decreases i,
    {
        let f = &node.fingers[i - 1];
        assert(node.fingers@.take(i as int).drop_last() =~= node.fingers@.take(i - 1));
        if is_between(f.id, node.id, id, false) {
            proof {
                lemma_closest_preceding_is_last_in_interval(node.fingers@, node.id, node.info, id);
            }
            return f.clone();
        }
        i = i - 1;
    }
    node.info.clone()
}

/// Routing: who is the successor of `id`, as far as `node` can tell alone.
/// If `id` falls between `node` and its successor, the successor is responsible;
/// otherwise the request goes to the closest preceding finger, unless that is
/// `node` itself, in which case the successor is the answer.
pub fn find_successor_rpc(node: &Node, id: u8) -> (r: Lookup)
    ensures
        r == lookup_spec(*node, id),
        in_interval(id, node.id, node.successor.id, true) ==> r == Lookup::Found(node.successor),
        forall|i: int|
            node.wf() && !in_interval(id, node.id, node.successor.id, true) && 0 <= i
                < node.fingers@.len() && in_interval(
                #[trigger] node.fingers@[i].id,
                node.id,
                id,
                false,
            ) && node.fingers@[i].id != node.id && (forall|j: int|
                i < j < node.fingers@.len() ==> !in_interval(
                    #[trigger] node.fingers@[j].id,
                    node.id,
                    id,
                    false,
                )) ==> r == (Lookup::Ask { via: node.fingers@[i], fallback: node.successor }),
{
    proof {
        assert forall|i: int|
            node.wf() && !in_interval(id, node.id, node.successor.id, true) && 0 <= i
                < node.fingers@.len() && in_interval(
                #[trigger] node.fingers@[i].id,
                node.id,
                id,
                false,
            ) && node.fingers@[i].id != node.id && (forall|j: int|
                i < j < node.fingers@.len() ==> !in_interval(
                    #[trigger] node.fingers@[j].id,
                    node.id,
                    id,
                    false,
                )) implies lookup_spec(*node, id) == (Lookup::Ask {
            via: node.fingers@[i],
            fallback: node.successor,
        }) by {
            lemma_lookup_forwards_to_preceding_finger(*node, id, i);
        }
    }
    let self_id: u8 = node.id;
    let succ = node.successor.clone();
    if is_between(id, self_id, succ.id, true) {
        return Lookup::Found(succ);
    }
    let closest = closest_preceding_finger(node, id);
    if closest.id == self_id {
        return Lookup::Found(succ);
    }
    Lookup::Ask { via: closest, fallback: succ }
}

/// The successor that a forwarded lookup yields: the node named in a
/// `SuccessorResponse`, otherwise `fallback`.
pub fn lookup_reply(fallback: NodeInfo, reply: Message) -> (r: NodeInfo)
    ensures
        r == (match reply {
            Message::SuccessorResponse { node } => node,
            _ => fallback,
        }),
{
    match reply {
        Message::SuccessorResponse { node } => node,
        _ => fallback,
    }
}

/// The first half of stabilisation: ask the successor for its predecessor.
pub fn stabilize_query(node: &Node) -> (o: Outgoing)
    ensures
        o.address == node.successor.address,
        o.message == Message::GetPredecessor,
{
    Outgoing { address: node.successor.address.clone(), message: Message::GetPredecessor }
}

/// Only the successor of `post` may differ from `pre`.
pub open spec fn same_but_successor(pre: Node, post: Node) -> bool {
    &&& post.id == pre.id
    &&& post.info == pre.info
    &&& post.predecessor == pre.predecessor
    &&& post.fingers@ == pre.fingers@
    &&& post.next_finger == pre.next_finger
    &&& post.storage.entries@ == pre.storage.entries@
    &&& post.seeding_files.entries@ == pre.seeding_files.entries@
}

/// The successor after stabilisation with `reply`: a predecessor of the successor
/// that lies strictly between `node` and the successor takes its place.
pub open spec fn stabilized_successor(node: Node, reply: Message) -> NodeInfo {
    match reply {
        Message::PredecessorResponse { node: Some(x) } => if in_interval(
            x.id,
            node.id,
            node.successor.id,
            false,
        ) {
            x
        } else {
            node.successor
        },
        _ => node.successor,
    }
}

/// The successor rule of stabilisation in terms of clockwise distance: the
/// successor's predecessor `x` is adopted exactly when it lies strictly
/// between the member and its successor going clockwise, or when the member is
/// its own successor (its interval is then the whole ring); otherwise, and for
/// any other reply, the successor stays.
pub open spec fn adopts_closer_successor(node: Node, reply: Message, succ: NodeInfo) -> bool {
    match reply {
        Message::PredecessorResponse { node: Some(x) } => if node.id == node.successor.id || (0
            < crate::ring::ring_dist(node.id, x.id) && crate::ring::ring_dist(node.id, x.id)
            < crate::ring::ring_dist(node.id, node.successor.id)) {
            succ == x
        } else {
            succ == node.successor
        },
        _ => succ == node.successor,
    }
}

/// The successor chosen by stabilisation follows the clockwise-distance rule.
pub proof fn lemma_stabilize_adopts_closer_successor(node: Node, reply: Message)
    ensures
        adopts_closer_successor(node, reply, stabilized_successor(node, reply)),
{
}

/// The second half of stabilisation: adopt the successor's predecessor when it
/// lies between this member and its successor, then tell the (new) successor
/// about this member.
pub fn stabilize(node: &mut Node, reply: Message) -> (o: Outgoing)
    ensures
        same_but_successor(*old(node), *final(node)),
        final(node).successor == stabilized_successor(*old(node), reply),
        adopts_closer_successor(*old(node), reply, final(node).successor),
        o.address == final(node).successor.address,
        o.message == (Message::Notify { node: old(node).info }),
{
    if let Message::PredecessorResponse { node: Some(x) } = reply {
        if is_between(x.id, node.id, node.successor.id, false) {
            node.successor = x;
        }
    }
    Outgoing {
        address: node.successor.address.clone(),
        message: Message::Notify { node: node.info.clone() },
    }
}

/// `2^k` for `k < 8`.
pub open spec fn pow2_u8(k: nat) -> nat
    decreases k,
{
    if k == 0 {
        1
    } else {
        2 * pow2_u8((k - 1) as nat)
    }
}

fn pow2_small(k: usize) -> (r: u8)
    requires
        k < 8,
    ensures
        r == pow2_u8(k as nat),
{
    let mut r: u8 = 1;
    let mut i: usize = 0;
    while i < k
        invariant
            i <= k < 8,
            r == pow2_u8(i as nat),
        decreases k - i,
    {
        proof {
            reveal_with_fuel(pow2_u8, 8);
            assert(pow2_u8(0) == 1 && pow2_u8(1) == 2 && pow2_u8(2) == 4 && pow2_u8(3) == 8
                && pow2_u8(4) == 16 && pow2_u8(5) == 32 && pow2_u8(6) == 64 && pow2_u8(7) == 128);
        }
        r = r * 2;
        i = i + 1;
    }
    r
}

/// One finger-refresh step: the counter advances by one modulo 8 and names the
/// entry to refresh, whose target is `(id + 2^entry) mod 256`.
pub open spec fn refresh_step(pre: Node, post: Node, r: (usize, u8)) -> bool {
    &&& post.next_finger == (pre.next_finger + 1) % 8
    &&& r.0 == post.next_finger
    &&& r.1 == (pre.id + pow2_u8(r.0 as nat)) % 256
    &&& post.id == pre.id
}

/// Advances the finger counter and returns the entry to refresh together with
/// the identifier it should point at: `(id + 2^next) mod 256`.
pub fn fix_fingers(node: &mut Node) -> (r: (usize, u8))
    requires
        old(node).wf(),
    ensures
        final(node).wf(),
        refresh_step(*old(node), *final(node), r),
        final(node).id == old(node).id,
        final(node).info == old(node).info,
        final(node).successor == old(node).successor,
        final(node).predecessor == old(node).predecessor,
        final(node).fingers@ == old(node).fingers@,
        final(node).storage.entries@ == old(node).storage.entries@,
        final(node).seeding_files.entries@ == old(node).seeding_files.entries@,
{
    node.next_finger = (node.next_finger + 1) % 8;
    let next: usize = node.next_finger;
    let target: u8 = node.id.wrapping_add(pow2_small(next));
    (next, target)
}

/// The finger table after entry `index` learns `succ`: a table too short to
/// hold the entry is first filled up to eight entries with `info`.
pub open spec fn fingers_after(fingers: Seq<NodeInfo>, info: NodeInfo, index: int, succ: NodeInfo) -> Seq<NodeInfo> {
    if fingers.len() <= index {
        (fingers + Seq::new((8 - fingers.len()) as nat, |i: int| info)).update(index, succ)
    } else {
        fingers.update(index, succ)
    }
}

/// Records `succ` as finger `index`.
pub fn set_finger(node: &mut Node, index: usize, succ: NodeInfo)
    requires
        index < 8,
    ensures
        final(node).fingers@ == fingers_after(old(node).fingers@, old(node).info, index as int, succ),
        final(node).id == old(node).id,
        final(node).info == old(node).info,
        final(node).successor == old(node).successor,
        final(node).predecessor == old(node).predecessor,
        final(node).next_finger == old(node).next_finger,
        final(node).storage.entries@ == old(node).storage.entries@,
        final(node).seeding_files.entries@ == old(node).seeding_files.entries@,
{
    let ghost pre = node.fingers@;
    let ghost pre_node = *node;
    if node.fingers.len() <= index {
        let default_info = node.info.clone();
        while node.fingers.len() < 8
            invariant
                pre.len() <= node.fingers@.len() <= 8,
                node.fingers@ == pre + Seq::new(
                    (node.fingers@.len() - pre.len()) as nat,
                    |i: int| default_info,
                ),
                default_info == node.info,
                node.id == pre_node.id,
                node.info == pre_node.info,
                node.successor == pre_node.successor,
                node.predecessor == pre_node.predecessor,
                node.next_finger == pre_node.next_finger,
                node.storage.entries@ == pre_node.storage.entries@,
                node.seeding_files.entries@ == pre_node.seeding_files.entries@,
            decreases 8 - node.fingers@.len(),
        {
            node.fingers.push(default_info.clone());
            assert(node.fingers@ =~= pre + Seq::new(
                (node.fingers@.len() - pre.len()) as nat,
                |i: int| default_info,
            ));
        }
    }
    node.fingers.set(index, succ);
}

/// What the caller must do to answer a request.
#[derive(Debug, PartialEq, Eq)]
pub enum Handling {
    /// Send this reply.
    Reply(Message),
    /// Look up the successor of `id` (see `find_successor_rpc`) and reply with a
    /// `SuccessorResponse` naming it.
    Lookup { id: u8 },
    /// Send this message on and pass the reply back (see `relay_reply`).
    Relay(Outgoing),
    /// Read up to `CHUNK_SIZE` bytes of the file at `path` from `offset` and reply
    /// with what was read (see `chunk_reply`).
    ReadChunk { path: String, offset: u64 },
    /// Close the connection without a reply.
    NoReply,
}

/// `post` differs from `pre` in nothing.
pub open spec fn unchanged(pre: Node, post: Node) -> bool {
    &&& same_but_successor(pre, post)
    &&& post.successor == pre.successor
}

/// Only the predecessor of `post` may differ from `pre`.
pub open spec fn same_but_predecessor(pre: Node, post: Node) -> bool {
    &&& post.id == pre.id
    &&& post.info == pre.info
    &&& post.successor == pre.successor
    &&& post.fingers@ == pre.fingers@
    &&& post.next_finger == pre.next_finger
    &&& post.storage.entries@ == pre.storage.entries@
    &&& post.seeding_files.entries@ == pre.seeding_files.entries@
}

/// Only the metadata storage of `post` may differ from `pre`.
pub open spec fn same_but_storage(pre: Node, post: Node) -> bool {
    &&& post.id == pre.id
    &&& post.info == pre.info
    &&& post.successor == pre.successor
    &&& post.predecessor == pre.predecessor
    &&& post.fingers@ == pre.fingers@
    &&& post.next_finger == pre.next_finger
    &&& post.seeding_files.entries@ == pre.seeding_files.entries@
}

/// A `Notify` from `n` makes `n` the predecessor of `node` when `node` has none,
/// or when `n` lies strictly between the current predecessor and `node`.
pub open spec fn notify_accepts(node: Node, n: NodeInfo) -> bool {
    match node.predecessor {
        None => true,
        Some(p) => in_interval(n.id, p.id, node.id, false),
    }
}

/// The predecessor after a `Notify` from `n`, by clockwise distance: `n` is
/// adopted when there is no predecessor, when the predecessor is the member
/// itself (its interval is then the whole ring), or when `n` lies strictly
/// between the predecessor and the member going clockwise (across the wrap).
pub open spec fn notify_rule(node: Node, n: NodeInfo) -> Option<NodeInfo> {
    match node.predecessor {
        None => Some(n),
        Some(p) => if p.id == node.id || (0 < crate::ring::ring_dist(p.id, n.id)
            && crate::ring::ring_dist(p.id, n.id) < crate::ring::ring_dist(p.id, node.id)) {
            Some(n)
        } else {
            node.predecessor
        },
    }
}

/// Handling a `Notify` sets the predecessor by the clockwise-distance rule.
pub proof fn lemma_notify_rule(pre: Node, n: NodeInfo)
    ensures
        (if notify_accepts(pre, n) {
            Some(n)
        } else {
            pre.predecessor
        }) == notify_rule(pre, n),
{
}

/// Every state reached by handling a `Notify` follows the clockwise-distance rule.
pub proof fn lemma_notify_sets_predecessor(pre: Node, n: NodeInfo, post: Node, h: Handling)
    requires
        handled(pre, Message::Notify { node: n }, post, h),
    ensures
        post.predecessor == notify_rule(pre, n),
{
    lemma_notify_rule(pre, n);
}

/// The stored value under `k`, if any.
pub open spec fn lookup_value(s: Store, k: Seq<char>) -> Option<String> {
    if has_key(s.entries@, k) {
        Some(s.entries@[key_index(s.entries@, k)].1)
    } else {
        None
    }
}

/// How a member in state `pre` answers `msg`, ending in state `post` with `h`.
pub open spec fn handled(pre: Node, msg: Message, post: Node, h: Handling) -> bool {
    match msg {
        Message::Ping => unchanged(pre, post) && h == Handling::Reply(Message::Pong),
        Message::FindSuccessor { id } => unchanged(pre, post) && h == (Handling::Lookup { id }),
        Message::GetPredecessor => unchanged(pre, post) && h == Handling::Reply(
            Message::PredecessorResponse { node: pre.predecessor },
        ),
        Message::Notify { node: n } => {
            &&& same_but_predecessor(pre, post)
            &&& post.predecessor == if notify_accepts(pre, n) {
                Some(n)
            } else {
                pre.predecessor
            }
            &&& h == Handling::Reply(Message::Ack)
        },
        Message::PutData { key_id, file_hash, value } => {
            &&& same_but_storage(pre, post)
            &&& post.storage.entries@ == inserted(pre.storage.entries@, file_hash, value)
            &&& h == Handling::Reply(Message::Ack)
        },
        Message::GetData { key_id, file_hash } => {
            &&& unchanged(pre, post)
            &&& h == Handling::Reply(
                Message::DataResponse { value: lookup_value(pre.storage, file_hash@) },
            )
        },
        Message::UpdateSuccessor { node: n } => {
            &&& same_but_successor(pre, post)
            &&& post.successor == n
            &&& h == Handling::Reply(Message::Ack)
        },
        Message::UpdatePredecessor { node: n } => {
            &&& same_but_predecessor(pre, post)
            &&& post.predecessor == n
            &&& h == Handling::Reply(Message::Ack)
        },
        Message::GetAllFiles { origin_id, files } => {
            let all = files@ + values_of(pre.storage.entries@);
            &&& unchanged(pre, post)
            &&& if pre.id == origin_id {
                h matches Handling::Reply(Message::AllFilesResponse { files: fs }) && fs@ == all
            } else {
                &&& h matches Handling::Relay(o)
                &&& h->Relay_0.address == pre.successor.address
                &&& h->Relay_0.message matches Message::GetAllFiles { origin_id: oid, files: fs }
                &&& h->Relay_0.message->GetAllFiles_origin_id == origin_id
                &&& h->Relay_0.message->GetAllFiles_files@ == all
            }
        },
        Message::RequestChunk { file_hash, chunk_index } => {
            &&& unchanged(pre, post)
            &&& h == match lookup_value(pre.seeding_files, file_hash@) {
                None => Handling::Reply(Message::Ack),
                Some(path) => if chunk_index * CHUNK_SIZE <= usize::MAX {
                    Handling::ReadChunk { path, offset: (chunk_index * CHUNK_SIZE) as u64 }
                } else {
                    Handling::NoReply
                },
            }
        },
        Message::TransferKeys { data } => {
            &&& same_but_storage(pre, post)
            &&& post.storage.entries@ == merged(pre.storage.entries@, data@)
            &&& h == Handling::Reply(Message::Ack)
        },
        _ => unchanged(pre, post) && h == Handling::Reply(Message::Ack),
    }
}

/// Answers one request from another member (or from the interface).
pub fn handle_message(node: &mut Node, msg: Message) -> (h: Handling)
    requires
        old(node).wf(),
    ensures
        final(node).wf(),
        handled(*old(node), msg, *final(node), h),
        msg matches Message::Notify { node: n } ==> final(node).predecessor == notify_rule(
            *old(node),
            n,
        ),
{
    proof {
        if msg is Notify {
            lemma_notify_rule(*old(node), msg->Notify_node);
        }
    }
    match msg {
        Message::Ping => Handling::Reply(Message::Pong),
        Message::FindSuccessor { id } => Handling::Lookup { id },
        Message::GetPredecessor => Handling::Reply(
            Message::PredecessorResponse { node: clone_info_opt(&node.predecessor) },
        ),
        Message::Notify { node: n_prime } => {
            let accept = match &node.predecessor {
                None => true,
                Some(p) => is_between(n_prime.id, p.id, node.id, false),
            };
            if accept {
                node.predecessor = Some(n_prime);
            }
            Handling::Reply(Message::Ack)
        },
        Message::PutData { key_id, file_hash, value } => {
            node.storage.insert(file_hash, value);
            Handling::Reply(Message::Ack)
        },
        Message::GetData { key_id, file_hash } => {
            let value = node.storage.get(&file_hash);
            Handling::Reply(Message::DataResponse { value })
        },
        Message::UpdateSuccessor { node: new_succ } => {
            node.successor = new_succ;
            Handling::Reply(Message::Ack)
        },
        Message::UpdatePredecessor { node: new_pred } => {
            node.predecessor = new_pred;
            Handling::Reply(Message::Ack)
        },
        Message::GetAllFiles { origin_id, files } => {
            let mut files = files;
            node.storage.push_values(&mut files);
            if node.id == origin_id {
                Handling::Reply(Message::AllFilesResponse { files })
            } else {
                Handling::Relay(
                    Outgoing {
                        address: node.successor.address.clone(),
                        message: Message::GetAllFiles { origin_id, files },
                    },
                )
            }
        },
        Message::RequestChunk { file_hash, chunk_index } => {
            match node.seeding_files.get(&file_hash) {
                None => Handling::Reply(Message::Ack),
                Some(path) => match chunk_index.checked_mul(CHUNK_SIZE) {
                    Some(offset) => Handling::ReadChunk { path, offset: offset as u64 },
                    None => Handling::NoReply,
                },
            }
        },
        Message::TransferKeys { data } => {
            node.storage.merge(data);
            Handling::Reply(Message::Ack)
        },
        _ => Handling::Reply(Message::Ack),
    }
}

/// The reply passed back after relaying a file sweep: the collected list when
/// the sweep completed, otherwise `Ack`.
pub fn relay_reply(reply: Message) -> (r: Message)
    ensures
        r == (match reply {
            Message::AllFilesResponse { files } => Message::AllFilesResponse { files },
            _ => Message::Ack,
        }),
{
    match reply {
        Message::AllFilesResponse { files } => Message::AllFilesResponse { files },
        _ => Message::Ack,
    }
}

/// The reply to a chunk request once the file was read: the bytes read, or `Ack`
/// when the file could not be opened, positioned or read.
pub fn chunk_reply(read: Option<Vec<u8>>) -> (r: Message)
    ensures
        r == (match read {
            Some(data) => Message::ChunkData { data },
            None => Message::Ack,
        }),
{
    match read {
        Some(data) => Message::ChunkData { data },
        None => Message::Ack,
    }
}

/// A value stored by `PutData` is what a later `GetData` for the same key
/// returns, when no other request came in between.
pub proof fn lemma_put_then_get(
    pre: Node,
    mid: Node,
    post: Node,
    put_id: u8,
    key: String,
    value: String,
    get_id: u8,
    asked: String,
    h1: Handling,
    h2: Handling,
)
    requires
        pre.wf(),
        handled(pre, Message::PutData { key_id: put_id, file_hash: key, value }, mid, h1),
        handled(mid, Message::GetData { key_id: get_id, file_hash: asked }, post, h2),
        asked@ == key@,
    ensures
        h2 == Handling::Reply(Message::DataResponse { value: Some(value) }),
{
    let e = pre.storage.entries@;
    crate::store::lemma_inserted_wf(e, key, value);
    let r = inserted(e, key, value);
    let pos: int = if has_key(e, key@) {
        key_index(e, key@)
    } else {
        e.len() as int
    };
    assert(r[pos] == (key, value));
    crate::store::lemma_key_index_unique(r, pos);
}

/// The messages a member sends when it leaves the ring: its metadata goes to its
/// successor (when there is any), its predecessor learns the new successor, and
/// its successor learns the new predecessor. A member alone sends nothing.
pub open spec fn leave_messages(node: Node) -> Seq<Outgoing> {
    if node.successor.id != node.info.id {
        let transfer = if node.storage.entries@.len() > 0 {
            seq![
                Outgoing {
                    address: node.successor.address,
                    message: Message::TransferKeys { data: node.storage.entries },
                },
            ]
        } else {
            Seq::empty()
        };
        let to_pred = match node.predecessor {
            Some(p) => seq![
                Outgoing {
                    address: p.address,
                    message: Message::UpdateSuccessor { node: node.successor },
                },
            ],
            None => Seq::empty(),
        };
        transfer + to_pred + seq![
            Outgoing {
                address: node.successor.address,
                message: Message::UpdatePredecessor { node: node.predecessor },
            },
        ]
    } else {
        Seq::empty()
    }
}

/// Leaves the ring gracefully: returns the messages to send, in order, and
/// leaves this member alone on the ring with nothing stored.
pub fn leave_ring(node: &mut Node) -> (out: Vec<Outgoing>)
    requires
        old(node).wf(),
    ensures
        final(node).wf(),
        out@ == leave_messages(*old(node)),
        final(node).successor == old(node).info,
        final(node).predecessor is None,
        final(node).storage.entries@.len() == 0,
        final(node).id == old(node).id,
        final(node).info == old(node).info,
        final(node).fingers@ == old(node).fingers@,
        final(node).next_finger == old(node).next_finger,
        final(node).seeding_files.entries@ == old(node).seeding_files.entries@,
{
    let ghost pre = *node;
    let mut out: Vec<Outgoing> = Vec::new();
    let mut my_storage: Vec<(String, String)> = Vec::new();
    std::mem::swap(&mut my_storage, &mut node.storage.entries);
    let pred_opt = clone_info_opt(&node.predecessor);
    let succ = node.successor.clone();
    if succ.id != node.info.id {
        if my_storage.len() > 0 {
            out.push(Outgoing { address: succ.address.clone(), message: Message::TransferKeys { data: my_storage } });
        }
        if let Some(pred) = &pred_opt {
            out.push(Outgoing { address: pred.address.clone(), message: Message::UpdateSuccessor { node: succ.clone() } });
        }
        out.push(Outgoing { address: succ.address.clone(), message: Message::UpdatePredecessor { node: pred_opt } });
        assert(out@ =~= leave_messages(pre));
    } else {
        assert(out@ =~= leave_messages(pre));
    }
    node.successor = node.info.clone();
    node.predecessor = None;
    out
}

/// The state after trying to rejoin the ring. `contact_reply` is `None` when no
/// member answered the discovery ping, and otherwise the contact's answer to
/// `FindSuccessor` for this member's identifier. A `SuccessorResponse` sets the
/// successor; no contact leaves the member alone; in both cases the predecessor
/// is forgotten. Any other answer changes nothing.
pub fn rejoin_ring(node: &mut Node, contact_reply: Option<Message>)
    ensures
        final(node).id == old(node).id,
        final(node).info == old(node).info,
        final(node).fingers@ == old(node).fingers@,
        final(node).next_finger == old(node).next_finger,
        final(node).storage.entries@ == old(node).storage.entries@,
        final(node).seeding_files.entries@ == old(node).seeding_files.entries@,
        match contact_reply {
            None => final(node).successor == old(node).info && final(node).predecessor is None,
            Some(Message::SuccessorResponse { node: succ }) => final(node).successor == succ
                && final(node).predecessor is None,
            Some(_) => final(node).successor == old(node).successor && final(node).predecessor
                == old(node).predecessor,
        },
{
    match contact_reply {
        Some(Message::SuccessorResponse { node: succ }) => {
            node.successor = succ;
            node.predecessor = None;
        },
        Some(_) => {},
        None => {
            node.successor = node.info.clone();
            node.predecessor = None;
        },
    }
}

/// When a member with metadata leaves, its first message goes to its successor,
/// and once the successor has handled it, the successor holds every key the
/// leaving member held, with the same value, besides its own other keys.
pub proof fn lemma_leave_hands_over_metadata(leaver: Node, succ_pre: Node, succ_post: Node, h: Handling)
    requires
        leaver.wf(),
        succ_pre.wf(),
        leaver.successor.id != leaver.info.id,
        leaver.storage.entries@.len() > 0,
        handled(succ_pre, leave_messages(leaver)[0].message, succ_post, h),
    ensures
        leave_messages(leaver)[0].address == leaver.successor.address,
        succ_post.storage.map() == succ_pre.storage.map().union_prefer_right(leaver.storage.map()),
        h == Handling::Reply(Message::Ack),
{
    crate::store::lemma_merged_map(succ_pre.storage.entries@, leaver.storage.entries@);
}

/// When no finger lies strictly between a member and `id`, and `id` is not in
/// the member's own interval, the lookup answers the member's successor.
pub proof fn lemma_no_preceding_finger_answers_successor(node: Node, id: u8)
    requires
        node.wf(),
        forall|i: int|
            0 <= i < node.fingers@.len() ==> !in_interval(
                (#[trigger] node.fingers@[i]).id,
                node.id,
                id,
                false,
            ),
    ensures
        lookup_spec(node, id) == Lookup::Found(node.successor),
{
    lemma_closest_without_candidates(node.fingers@, node.id, node.info, id);
}

proof fn lemma_closest_without_candidates(fingers: Seq<NodeInfo>, self_id: u8, self_info: NodeInfo, id: u8)
    requires
        forall|i: int|
            0 <= i < fingers.len() ==> !in_interval((#[trigger] fingers[i]).id, self_id, id, false),
    ensures
        closest_preceding(fingers, self_id, self_info, id) == self_info,
    decreases fingers.len(),
{
    if fingers.len() > 0 {
        let d = fingers.drop_last();
        assert forall|i: int| 0 <= i < d.len() implies !in_interval(
            (#[trigger] d[i]).id,
            self_id,
            id,
            false,
        ) by {
            assert(d[i] == fingers[i]);
        }
        assert(fingers.last() == fingers[fingers.len() - 1]);
        lemma_closest_without_candidates(d, self_id, self_info, id);
    }
}

/// Finger `i` may replace the dead successor: it answered the liveness probe and
/// is neither the member itself nor the dead successor.
pub open spec fn live_candidate(node: Node, alive: Seq<bool>, i: int) -> bool {
    &&& 0 <= i < node.fingers@.len()
    &&& alive[i]
    &&& node.fingers@[i].id != node.id
    &&& node.fingers@[i].id != node.successor.id
}

/// Finger `i` is the first live candidate that lies closest clockwise after the member.
pub open spec fn best_candidate(node: Node, alive: Seq<bool>, i: int) -> bool {
    &&& live_candidate(node, alive, i)
    &&& forall|j: int|
        #![trigger node.fingers@[j]]
        live_candidate(node, alive, j) ==> crate::ring::ring_dist(node.id, node.fingers@[i].id)
            <= crate::ring::ring_dist(node.id, node.fingers@[j].id)
    &&& forall|j: int|
        #![trigger node.fingers@[j]]
        0 <= j < i && live_candidate(node, alive, j) ==> crate::ring::ring_dist(
            node.id,
            node.fingers@[i].id,
        ) < crate::ring::ring_dist(node.id, node.fingers@[j].id)
}

/// The healing rule in terms of the probes and clockwise distance: the new
/// successor is either a finger that answered its probe and is neither the
/// member nor the dead successor, and no other such finger is closer clockwise
/// after the member; or, when no finger qualifies, the member itself.
pub open spec fn heals_to_nearest_live(node: Node, alive: Seq<bool>, succ: NodeInfo) -> bool {
    let ok = |j: int|
        0 <= j < node.fingers@.len() && alive[j] && node.fingers@[j].id != node.id
            && node.fingers@[j].id != node.successor.id;
    &&& succ.id != node.successor.id
    &&& forall|j: int|
        #![trigger node.fingers@[j]]
        ok(j) ==> crate::ring::ring_dist(node.id, succ.id) <= crate::ring::ring_dist(
            node.id,
            node.fingers@[j].id,
        )
    &&& (exists|i: int| #![trigger node.fingers@[i]] ok(i) && succ == node.fingers@[i]) || (
    (forall|j: int| #![trigger node.fingers@[j]] !ok(j)) && succ == node.info)
}

/// Whichever finger the healing rule picks is live and lies nearest clockwise.
pub proof fn lemma_heal_picks_nearest_live(node: Node, alive: Seq<bool>)
    requires
        node.wf(),
        node.successor.id != node.id,
    ensures
        forall|i: int| #[trigger] best_candidate(node, alive, i) ==> heals_to_nearest_live(
            node,
            alive,
            node.fingers@[i],
        ),
        (forall|i: int| !#[trigger] live_candidate(node, alive, i)) ==> heals_to_nearest_live(
            node,
            alive,
            node.info,
        ),
{
    assert forall|i: int| #[trigger] best_candidate(node, alive, i) implies heals_to_nearest_live(
        node,
        alive,
        node.fingers@[i],
    ) by {
        assert forall|j: int|
            #![trigger node.fingers@[j]]
            0 <= j < node.fingers@.len() && alive[j] && node.fingers@[j].id != node.id
                && node.fingers@[j].id != node.successor.id implies crate::ring::ring_dist(
            node.id,
            node.fingers@[i].id,
        ) <= crate::ring::ring_dist(node.id, node.fingers@[j].id) by {
            assert(live_candidate(node, alive, j));
        }
    }
    if forall|i: int| !#[trigger] live_candidate(node, alive, i) {
        assert forall|j: int|
            #![trigger node.fingers@[j]]
            !(0 <= j < node.fingers@.len() && alive[j] && node.fingers@[j].id != node.id
                && node.fingers@[j].id != node.successor.id) by {
            assert(!live_candidate(node, alive, j));
        }
    }
}

/// The finger table once `dead` is known to be gone: its entries point back at
/// the member itself.
pub open spec fn fingers_without(fingers: Seq<NodeInfo>, dead: u8, info: NodeInfo) -> Seq<NodeInfo> {
    fingers.map_values(|f: NodeInfo| if f.id == dead { info } else { f })
}

/// Heals the ring round a crashed successor. `successor_alive` is the result of
/// probing the successor; `fingers_alive[i]` that of probing finger `i`. A live
/// successor, or a member alone on the ring, changes nothing. A dead successor
/// is always replaced: by the live finger closest clockwise after this member
/// (other than the member and the dead node), or, when there is none, by the
/// member itself; finger entries naming the dead node then point at the member.
pub fn heal_successor(node: &mut Node, successor_alive: bool, fingers_alive: &Vec<bool>)
    requires
        old(node).wf(),
        fingers_alive@.len() == old(node).fingers@.len(),
    ensures
        final(node).wf(),
        final(node).id == old(node).id,
        final(node).info == old(node).info,
        final(node).predecessor == old(node).predecessor,
        final(node).next_finger == old(node).next_finger,
        final(node).storage.entries@ == old(node).storage.entries@,
        final(node).seeding_files.entries@ == old(node).seeding_files.entries@,
        successor_alive || old(node).successor.id == old(node).id ==> final(node).successor
            == old(node).successor && final(node).fingers@ == old(node).fingers@,
        !successor_alive && old(node).successor.id != old(node).id ==> {
            &&& final(node).successor.id != old(node).successor.id
            &&& final(node).fingers@ == fingers_without(
                old(node).fingers@,
                old(node).successor.id,
                old(node).info,
            )
            &&& (exists|i: int|
                best_candidate(*old(node), fingers_alive@, i) && final(node).successor
                    == old(node).fingers@[i]) || ((forall|i: int|
                !live_candidate(*old(node), fingers_alive@, i)) && final(node).successor
                == old(node).info)
        },
        !successor_alive && old(node).successor.id != old(node).id ==> heals_to_nearest_live(
            *old(node),
            fingers_alive@,
            final(node).successor,
        ),
{
    proof {
        if old(node).successor.id != old(node).id {
            lemma_heal_picks_nearest_live(*old(node), fingers_alive@);
        }
    }
    if successor_alive || node.successor.id == node.id {
        return;
    }
    let ghost pre = *node;
    let dead: u8 = node.successor.id;
    let mut best: Option<usize> = None;
    let mut i: usize = 0;
    while i < node.fingers.len()
        invariant
            *node == pre,
            dead == pre.successor.id,
            fingers_alive@.len() == pre.fingers@.len(),
            i <= pre.fingers@.len(),
            best matches None ==> forall|j: int| 0 <= j < i ==> !live_candidate(pre, fingers_alive@, j),
            best matches Some(b) ==> b < i && live_candidate(pre, fingers_alive@, b as int)
                && (forall|j: int|
                #![trigger pre.fingers@[j]]
                0 <= j < i && live_candidate(pre, fingers_alive@, j) ==> crate::ring::ring_dist(
                    pre.id,
                    pre.fingers@[b as int].id,
                ) <= crate::ring::ring_dist(pre.id, pre.fingers@[j].id)) && (forall|j: int|
                #![trigger pre.fingers@[j]]
                0 <= j < b && live_candidate(pre, fingers_alive@, j) ==> crate::ring::ring_dist(
                    pre.id,
                    pre.fingers@[b as int].id,
                ) < crate::ring::ring_dist(pre.id, pre.fingers@[j].id)),
        decreases pre.fingers@.len() - i,
    {
        let f_id: u8 = node.fingers[i].id;
        if fingers_alive[i] && f_id != node.id && f_id != dead {
            let closer = match best {
                None => true,
                Some(b) => {
                    let d_new: u8 = f_id.wrapping_sub(node.id);
                    let d_best: u8 = node.fingers[b].id.wrapping_sub(node.id);
                    d_new < d_best
                },
            };
            if closer {
                best = Some(i);
            }
        }
        i = i + 1;
    }
    let new_succ = match best {
        Some(b) => node.fingers[b].clone(),
        None => node.info.clone(),
    };
    let mut k: usize = 0;
    while k < node.fingers.len()
        invariant
            node.id == pre.id,
            node.info == pre.info,
            node.successor == pre.successor,
            node.predecessor == pre.predecessor,
            node.next_finger == pre.next_finger,
            node.storage.entries@ == pre.storage.entries@,
            node.seeding_files.entries@ == pre.seeding_files.entries@,
            dead == pre.successor.id,
            node.fingers@.len() == pre.fingers@.len(),
            k <= pre.fingers@.len(),
            forall|j: int|
                0 <= j < k ==> node.fingers@[j] == fingers_without(pre.fingers@, dead, pre.info)[j],
            forall|j: int| k <= j < pre.fingers@.len() ==> node.fingers@[j] == pre.fingers@[j],
        decreases pre.fingers@.len() - k,
    {
        if node.fingers[k].id == dead {
            let me = node.info.clone();
            node.fingers.set(k, me);
        }
        k = k + 1;
    }
    assert(node.fingers@ =~= fingers_without(pre.fingers@, dead, pre.info));
    node.successor = new_succ;
}

/// Forgets a predecessor that did not answer its liveness probe.
pub fn check_predecessor(node: &mut Node, predecessor_alive: bool)
    ensures
        final(node).predecessor == if predecessor_alive {
            old(node).predecessor
        } else {
            None
        },
        same_but_predecessor(*old(node), *final(node)),
{
    if !predecessor_alive {
        node.predecessor = None;
    }
}

/// Whether a probe's reply shows the member alive: it answered `Pong`.
pub fn is_alive_reply(reply: &Message) -> (r: bool)
    ensures
        r == (*reply == Message::Pong),
{
    match reply {
        Message::Pong => true,
        _ => false,
    }
}

/// The counter after `k + 1` refresh steps from `before[0]`, when between steps
/// nothing but the finger table changes (as `set_finger` does).
proof fn lemma_refresh_counter(before: Seq<Node>, after: Seq<Node>, rs: Seq<(usize, u8)>, k: int)
    requires
        before.len() == 8,
        after.len() == 8,
        rs.len() == 8,
        before[0].next_finger < 8,
        forall|j: int| 0 <= j < 8 ==> refresh_step(#[trigger] before[j], after[j], rs[j]),
        forall|j: int|
            0 <= j < 7 ==> (#[trigger] before[j + 1]).id == after[j].id && before[j + 1].next_finger
                == after[j].next_finger,
        0 <= k < 8,
    ensures
        after[k].next_finger == (before[0].next_finger + k + 1) % 8,
        after[k].id == before[0].id,
    decreases k,
{
    assert(refresh_step(before[k], after[k], rs[k]));
    if k > 0 {
        lemma_refresh_counter(before, after, rs, k - 1);
        assert(before[(k - 1) + 1].id == after[k - 1].id);
        let n0 = before[0].next_finger;
        let p = (n0 + k) % 8;
        assert(p == if n0 + k < 8 { n0 + k } else { n0 + k - 8 });
    }
}

/// Some step among `rs` refreshes finger entry `i`.
pub open spec fn refreshes_entry(rs: Seq<(usize, u8)>, i: int) -> bool {
    exists|k: int| 0 <= k < rs.len() && (#[trigger] rs[k]).0 == i
}

/// Eight refresh steps in a row, with only the finger table changing between
/// them, name every finger entry exactly once, each with the target
/// `(id + 2^i) mod 256`, and leave the counter where it started: every finger
/// is refreshed within eight rounds.
pub proof fn lemma_eight_refreshes_cover_table(before: Seq<Node>, after: Seq<Node>, rs: Seq<(usize, u8)>)
    requires
        before.len() == 8,
        after.len() == 8,
        rs.len() == 8,
        before[0].wf(),
        forall|j: int| 0 <= j < 8 ==> refresh_step(#[trigger] before[j], after[j], rs[j]),
        forall|j: int|
            0 <= j < 7 ==> (#[trigger] before[j + 1]).id == after[j].id && before[j + 1].next_finger
                == after[j].next_finger,
    ensures
        after[7].next_finger == before[0].next_finger,
        forall|i: int| 0 <= i < 8 ==> #[trigger] refreshes_entry(rs, i),
        forall|k1: int, k2: int|
            0 <= k1 < 8 && 0 <= k2 < 8 && (#[trigger] rs[k1]).0 == (#[trigger] rs[k2]).0 ==> k1
                == k2,
        forall|k: int|
            0 <= k < 8 ==> (#[trigger] rs[k]).1 == (before[0].id + pow2_u8(rs[k].0 as nat)) % 256,
{
    let n0 = before[0].next_finger as int;
    assert forall|k: int| 0 <= k < 8 implies (#[trigger] rs[k]).0 == (if n0 + k + 1 < 8 {
        n0 + k + 1
    } else {
        n0 + k + 1 - 8
    }) && rs[k].1 == (before[0].id + pow2_u8(rs[k].0 as nat)) % 256 by {
        lemma_refresh_counter(before, after, rs, k);
        assert(refresh_step(before[k], after[k], rs[k]));
        if k > 0 {
            lemma_refresh_counter(before, after, rs, k - 1);
            assert(before[(k - 1) + 1].id == after[k - 1].id);
        }
    }
    lemma_refresh_counter(before, after, rs, 7);
    assert forall|i: int| 0 <= i < 8 implies #[trigger] refreshes_entry(rs, i) by {
        let k = if i > n0 { i - n0 - 1 } else { i + 7 - n0 };
        assert(rs[k].0 == i);
    }
}

} // verus!
