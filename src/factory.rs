use crate::channel::Channel;
use crate::topology::NodeId;
use crossbeam::channel::{Receiver, Sender};
use std::collections::HashMap;
use vstd::prelude::*;

verus! {

broadcast use vstd::std_specs::hash::group_hash_axioms;

/// The concrete behavior an edge node runs.
#[derive(Clone, Copy, Debug, PartialEq, Eq, Structural)]
pub enum NodeType {
    WebBrowser,
    ChatClient,
    TextServer,
    MediaServer,
    ChatServer,
}

/// The first client is a web browser, every later one a chat client.
pub open spec fn spec_client_type(index: int) -> NodeType {
    if index == 0 {
        NodeType::WebBrowser
    } else {
        NodeType::ChatClient
    }
}

/// Servers cycle through text, media and chat servers by position.
pub open spec fn spec_server_type(index: int) -> NodeType {
    if index % 3 == 0 {
        NodeType::TextServer
    } else if index % 3 == 1 {
        NodeType::MediaServer
    } else {
        NodeType::ChatServer
    }
}

/// The behavior of the client at `index` in its group.
pub fn client_type(index: usize) -> (t: NodeType)
    ensures
        t == spec_client_type(index as int),
{
    if index == 0 {
        NodeType::WebBrowser
    } else {
        NodeType::ChatClient
    }
}

/// The behavior of the server at `index` in its group.
pub fn server_type(index: usize) -> (t: NodeType)
    ensures
        t == spec_server_type(index as int),
{
    match index % 3 {
        0 => NodeType::TextServer,
        1 => NodeType::MediaServer,
        _ => NodeType::ChatServer,
    }
}

/// The senders a node with neighbor list `ids` talks to: for each neighbor
/// that has a channel, a handle on that neighbor's inbound channel. A neighbor
/// without a channel is skipped.
pub fn neighbor_senders<P>(comms: &HashMap<NodeId, Channel<P>>, ids: &Vec<NodeId>) -> (r: HashMap<
    NodeId,
    Sender<P>,
>)
    ensures
        forall|x: NodeId| #[trigger]
            r@.contains_key(x) <==> ids@.contains(x) && comms@.contains_key(x),
        forall|x: NodeId| r@.contains_key(x) ==> #[trigger] r@[x] == comms@[x].sender,
{
    let mut r: HashMap<NodeId, Sender<P>> = HashMap::new();
    let mut i: usize = 0;
    while i < ids.len()
        invariant
            i <= ids.len(),
            forall|x: NodeId| #[trigger]
                r@.contains_key(x) <==> ids@.subrange(0, i as int).contains(x)
                    && comms@.contains_key(x),
            forall|x: NodeId| r@.contains_key(x) ==> #[trigger] r@[x] == comms@[x].sender,
        decreases ids.len() - i,
    {
        let id = ids[i];
        if let Some(channel) = comms.get(&id) {
            r.insert(id, channel.get_sender());
        }
        proof {
            assert forall|x: NodeId| #[trigger]
                r@.contains_key(x) <==> ids@.subrange(0, i + 1).contains(x)
                    && comms@.contains_key(x) by {
                if ids@.subrange(0, i as int).contains(x) {
                    let k = choose|k: int| 0 <= k < i && #[trigger] ids@.subrange(0, i as int)[k] == x;
                    assert(ids@.subrange(0, i + 1)[k] == x);
                }
                if ids@.subrange(0, i + 1).contains(x) && x != id {
                    let k = choose|k: int| 0 <= k < i + 1 && #[trigger] ids@.subrange(0, i + 1)[k] == x;
                    assert(ids@.subrange(0, i as int)[k] == x);
                }
                assert(ids@.subrange(0, i + 1)[i as int] == id);
            }
        }
        i = i + 1;
    }
    assert(ids@.subrange(0, ids.len() as int) =~= ids@);
    r
}

/// Everything one relay needs to run: its id and position in its group, its
/// command and packet receivers, the senders of its neighbors, its drop
/// probability (bit pattern of a single-precision float), and where it reports.
#[verifier::reject_recursive_types(P)]
#[verifier::reject_recursive_types(DC)]
#[verifier::reject_recursive_types(DE)]
pub struct DroneWiring<P, DC, DE> {
    pub id: NodeId,
    pub index: usize,
    pub command_receiver: Receiver<DC>,
    pub packet_receiver: Receiver<P>,
    pub neighbors: HashMap<NodeId, Sender<P>>,
    pub pdr_bits: u32,
    pub event_sender: Sender<DE>,
}

/// Everything one edge node needs to run: its id and behavior, the senders of
/// its neighbors, its packet and command receivers, and where it reports.
#[verifier::reject_recursive_types(P)]
#[verifier::reject_recursive_types(NC)]
#[verifier::reject_recursive_types(NE)]
pub struct NodeWiring<P, NC, NE> {
    pub id: NodeId,
    pub node_type: NodeType,
    pub neighbors: HashMap<NodeId, Sender<P>>,
    pub packet_receiver: Receiver<P>,
    pub command_receiver: Receiver<NC>,
    pub event_sender: Sender<NE>,
}

} // verus!
