use crate::channel::Channel;
use crate::factory::{
    client_type, neighbor_senders, server_type, spec_client_type, spec_server_type, DroneWiring,
    NodeType, NodeWiring,
};
use crate::network::Network;
use crate::topology::{
    distinct_ids, ids_in, lemma_ids_in_empty, lemma_ids_in_extend, lemma_ids_in_len,
    lemma_ids_in_outside, lemma_ids_in_shrink, lemma_nodes_index, Config, DeclaredNode, Drone,
    NodeId,
};
use crate::validate::{declares, first_violation, symmetric, ConfigError};
use crossbeam::channel::{Receiver, Sender};
use std::collections::HashMap;
use std::marker::PhantomData;
use vstd::prelude::*;

verus! {

broadcast use vstd::std_specs::hash::group_hash_axioms;

/// The network has been described and checked, nothing is built yet.
pub struct Uninitialized;

/// Channels and agents are built, no agent runs yet.
pub struct Initialized;

/// Every agent has been handed out to run.
pub struct Running;

/// A topology that may be built: its size fits, its ids are distinct and it
/// passes validation.
pub open spec fn valid_config(c: Config) -> bool {
    &&& c.fits()
    &&& c.unique_ids()
    &&& first_violation(c.nodes()) is None
}

/// The behavior the factory gives the edge node at position `m` among all
/// nodes: clients by their position among clients, servers among servers.
pub open spec fn assigned_type(c: Config, m: int) -> NodeType {
    if m < c.drone.len() + c.client.len() {
        spec_client_type(m - c.drone.len())
    } else {
        spec_server_type(m - c.drone.len() - c.client.len())
    }
}

/// `w` is the wiring of drone `d`, the `k`-th of its group, over the inbound
/// channels `comms`, reporting to `events`: it listens on its own inbound
/// channel, and holds, for each declared neighbor that has a channel, the
/// sender of that neighbor's inbound channel. Its command receiver is the
/// listening end of a channel made for it alone; nothing here names that
/// channel, so its pairing with the held command sender is not stated.
pub open spec fn drone_wired<P, DC, DE>(
    w: DroneWiring<P, DC, DE>,
    d: Drone,
    k: int,
    comms: Map<NodeId, Channel<P>>,
    events: Sender<DE>,
) -> bool {
    &&& w.id == d.id
    &&& w.index == k
    &&& w.pdr_bits == d.pdr_bits
    &&& w.packet_receiver == comms[d.id].receiver
    &&& w.event_sender == events
    &&& forall|x: NodeId| #[trigger]
        w.neighbors@.contains_key(x) <==> d.connected_node_ids@.contains(x) && comms.contains_key(x)
    &&& forall|x: NodeId| w.neighbors@.contains_key(x) ==> #[trigger] w.neighbors@[x] == comms[x].sender
}

/// `w` is the wiring of edge node `n`, running behavior `t`, over the inbound
/// channels `comms`, reporting to `events`; as for drones, its command
/// receiver's pairing with the held command sender is not stated.
pub open spec fn node_wired<P, NC, NE>(
    w: NodeWiring<P, NC, NE>,
    n: DeclaredNode,
    t: NodeType,
    comms: Map<NodeId, Channel<P>>,
    events: Sender<NE>,
) -> bool {
    &&& w.id == n.id
    &&& w.node_type == t
    &&& w.packet_receiver == comms[n.id].receiver
    &&& w.event_sender == events
    &&& forall|x: NodeId| #[trigger]
        w.neighbors@.contains_key(x) <==> n.neighbors.contains(x) && comms.contains_key(x)
    &&& forall|x: NodeId| w.neighbors@.contains_key(x) ==> #[trigger] w.neighbors@[x] == comms[x].sender
}

/// Builds and starts a simulated network, then stops it. `State` is one of
/// `Uninitialized`, `Initialized` and `Running`; each step consumes the
/// previous state. `P` is the packet type, `NC`/`NE` the command and event
/// types of edge nodes, `DC`/`DE` those of drones.
#[verifier::reject_recursive_types(State)]
#[verifier::reject_recursive_types(P)]
#[verifier::reject_recursive_types(NC)]
#[verifier::reject_recursive_types(NE)]
#[verifier::reject_recursive_types(DC)]
#[verifier::reject_recursive_types(DE)]
pub struct NetworkInitializer<State, P, NC, NE, DC, DE> {
    communications_channels: HashMap<NodeId, Channel<P>>,
    drone_command_channels: HashMap<NodeId, Sender<DC>>,
    node_command_channels: HashMap<NodeId, (NodeType, Sender<NC>)>,
    drone_event_channel: Channel<DE>,
    node_event_channel: Channel<NE>,
    total_nodes: usize,
    config: Config,
    state: PhantomData<State>,
    network_view: Network,
    initialized_drones: Vec<DroneWiring<P, DC, DE>>,
    initialized_clients: Vec<NodeWiring<P, NC, NE>>,
    initialized_servers: Vec<NodeWiring<P, NC, NE>>,
}

impl<State, P, NC, NE, DC, DE> NetworkInitializer<State, P, NC, NE, DC, DE> {
    pub closed spec fn config(&self) -> Config {
        self.config
    }

    pub closed spec fn total(&self) -> nat {
        self.total_nodes as nat
    }

    /// The inbound packet channel of each node, as held.
    pub closed spec fn comms(&self) -> Map<NodeId, Channel<P>> {
        self.communications_channels@
    }

    /// The command sender of each drone, as held.
    pub closed spec fn drone_senders(&self) -> Map<NodeId, Sender<DC>> {
        self.drone_command_channels@
    }

    /// The behavior and command sender of each edge node, as held.
    pub closed spec fn node_senders(&self) -> Map<NodeId, (NodeType, Sender<NC>)> {
        self.node_command_channels@
    }

    /// The channel drones report their events on.
    pub closed spec fn drone_events(&self) -> Channel<DE> {
        self.drone_event_channel
    }

    /// The channel edge nodes report their events on.
    pub closed spec fn node_events(&self) -> Channel<NE> {
        self.node_event_channel
    }

    /// The nodes that have an inbound packet channel.
    pub open spec fn channel_ids(&self) -> Set<NodeId> {
        self.comms().dom()
    }

    /// The drones whose command sender is held.
    pub open spec fn drone_command_ids(&self) -> Set<NodeId> {
        self.drone_senders().dom()
    }

    /// The edge nodes whose command sender is held, with their behavior.
    pub open spec fn node_types(&self) -> Map<NodeId, NodeType> {
        self.node_senders().map_values(|e: (NodeType, Sender<NC>)| e.0)
    }

    pub closed spec fn network(&self) -> Seq<DeclaredNode> {
        self.network_view@
    }

    pub closed spec fn pending_drones(&self) -> Seq<DroneWiring<P, DC, DE>> {
        self.initialized_drones@
    }

    pub closed spec fn pending_clients(&self) -> Seq<NodeWiring<P, NC, NE>> {
        self.initialized_clients@
    }

    pub closed spec fn pending_servers(&self) -> Seq<NodeWiring<P, NC, NE>> {
        self.initialized_servers@
    }

    /// Nothing is built: no channel, no command sender, an empty view, no agent.
    pub open spec fn is_unbuilt(&self) -> bool {
        &&& valid_config(self.config())
        &&& self.total() == self.config().nodes().len()
        &&& self.channel_ids().is_empty()
        &&& self.drone_command_ids().is_empty()
        &&& self.node_types().dom().is_empty()
        &&& self.network().len() == 0
        &&& self.pending_drones().len() == 0
        &&& self.pending_clients().len() == 0
        &&& self.pending_servers().len() == 0
    }

    /// The bookkeeping of a built network: one packet channel per node, one
    /// command sender per drone and per edge node with the behavior the
    /// factory picked, and a view equal to the declared topology.
    pub open spec fn is_wired(&self) -> bool {
        let c = self.config();
        let ns = c.nodes();
        let d = c.drone.len() as int;
        let n = ns.len() as int;
        &&& valid_config(c)
        &&& self.total() == n
        &&& self.channel_ids() == ids_in(ns, 0, n)
        &&& self.drone_command_ids() == ids_in(ns, 0, d)
        &&& self.node_types().dom() == ids_in(ns, d, n)
        &&& forall|m: int| d <= m < n ==> self.node_types()[#[trigger] ns[m].id] == assigned_type(c, m)
        &&& self.network() == ns
    }

    /// Built: every agent is wired and waits to be started.
    pub open spec fn is_built(&self) -> bool {
        let c = self.config();
        let ns = c.nodes();
        let d = c.drone.len() as int;
        let cl = c.client.len() as int;
        &&& self.is_wired()
        &&& self.pending_drones().len() == d
        &&& forall|k: int|
            0 <= k < d ==> drone_wired(
                #[trigger] self.pending_drones()[k],
                c.drone@[k],
                k,
                self.comms(),
                self.drone_events().sender,
            )
        &&& self.pending_clients().len() == cl
        &&& forall|k: int|
            0 <= k < cl ==> node_wired(
                #[trigger] self.pending_clients()[k],
                ns[d + k],
                assigned_type(c, d + k),
                self.comms(),
                self.node_events().sender,
            )
        &&& self.pending_servers().len() == c.server.len()
        &&& forall|k: int|
            0 <= k < c.server.len() ==> node_wired(
                #[trigger] self.pending_servers()[k],
                ns[d + cl + k],
                assigned_type(c, d + cl + k),
                self.comms(),
                self.node_events().sender,
            )
    }

    /// Running: wired, and no agent is left unstarted.
    pub open spec fn is_running(&self) -> bool {
        &&& self.is_wired()
        &&& self.pending_drones().len() == 0
        &&& self.pending_clients().len() == 0
        &&& self.pending_servers().len() == 0
    }

    /// Started, and possibly stopped since: no agent is left unstarted, and
    /// each table holds only nodes of its own group, edge nodes with the
    /// behavior the factory picked.
    pub open spec fn is_started(&self) -> bool {
        let c = self.config();
        let ns = c.nodes();
        let d = c.drone.len() as int;
        let n = ns.len() as int;
        &&& valid_config(c)
        &&& self.total() == n
        &&& self.channel_ids().subset_of(ids_in(ns, 0, n))
        &&& self.drone_command_ids().subset_of(ids_in(ns, 0, d))
        &&& self.node_types().dom().subset_of(ids_in(ns, d, n))
        &&& forall|m: int|
            d <= m < n && self.node_types().contains_key(#[trigger] ns[m].id)
                ==> self.node_types()[ns[m].id] == assigned_type(c, m)
        &&& self.network() == ns
        &&& self.pending_drones().len() == 0
        &&& self.pending_clients().len() == 0
        &&& self.pending_servers().len() == 0
    }

    /// Stopped: started, and every table is empty.
    pub open spec fn is_stopped(&self) -> bool {
        &&& self.is_started()
        &&& self.channel_ids().is_empty()
        &&& self.drone_command_ids().is_empty()
        &&& self.node_types().dom().is_empty()
    }
}

/// In a topology that passes validation every neighbor reference resolves
/// to a declared node.
pub proof fn lemma_neighbors_declared(c: Config)
    requires
        valid_config(c),
    ensures
        forall|a: int, b: int|
            0 <= a < c.nodes().len() && 0 <= b < c.nodes()[a].neighbors.len() ==> ids_in(
                c.nodes(),
                0,
                c.nodes().len() as int,
            ).contains(#[trigger] c.nodes()[a].neighbors[b]),
{
    let ns = c.nodes();
    assert(symmetric(ns));
    assert forall|a: int, b: int|
        0 <= a < ns.len() && 0 <= b < ns[a].neighbors.len() implies ids_in(
            ns,
            0,
            ns.len() as int,
        ).contains(#[trigger] ns[a].neighbors[b]) by {
        assert(declares(ns, ns[a].neighbors[b], ns[a].id));
        let k = choose|k: int|
            0 <= k < ns.len() && ns[k].id == ns[a].neighbors[b] && #[trigger] ns[k].neighbors.contains(
                ns[a].id,
            );
        assert(ns[k].id == ns[a].neighbors[b]);
    }
}

fn initialize_channels<P>(c: &Config) -> (r: HashMap<NodeId, Channel<P>>)
    requires
        c.fits(),
    ensures
        r@.dom() == ids_in(c.nodes(), 0, c.nodes().len() as int),
{
    let n = c.node_count();
    let ghost ns = c.nodes();
    let mut r: HashMap<NodeId, Channel<P>> = HashMap::new();
    proof {
        lemma_ids_in_empty(ns, 0);
    }
    let mut i: usize = 0;
    while i < n
        invariant
            ns == c.nodes(),
            n == ns.len(),
            i <= n,
            r@.dom() == ids_in(ns, 0, i as int),
        decreases n - i,
    {
        let (id, _, _) = c.node_at(i);
        r.insert(id, Channel::new());
        proof {
            lemma_ids_in_extend(ns, 0, i as int);
        }
        i = i + 1;
    }
    r
}

fn initialize_drones<P, DC, DE>(
    c: &Config,
    comms: &HashMap<NodeId, Channel<P>>,
    events: &Channel<DE>,
) -> (r: (HashMap<NodeId, Sender<DC>>, Vec<DroneWiring<P, DC, DE>>))
    requires
        c.fits(),
        comms@.dom() == ids_in(c.nodes(), 0, c.nodes().len() as int),
    ensures
        r.0@.dom() == ids_in(c.nodes(), 0, c.drone.len() as int),
        r.1.len() == c.drone.len(),
        forall|k: int|
            0 <= k < c.drone.len() ==> drone_wired(
                #[trigger] r.1@[k],
                c.drone@[k],
                k,
                comms@,
                events.sender,
            ),
{
    let ghost ns = c.nodes();
    proof {
        lemma_nodes_index(*c);
        lemma_ids_in_empty(ns, 0);
    }
    let mut commands: HashMap<NodeId, Sender<DC>> = HashMap::new();
    let mut wirings: Vec<DroneWiring<P, DC, DE>> = Vec::new();
    let mut k: usize = 0;
    while k < c.drone.len()
        invariant
            ns == c.nodes(),
            ns.len() == c.drone.len() + c.client.len() + c.server.len(),
            forall|j: int| 0 <= j < c.drone.len() ==> ns[j] == (#[trigger] c.drone@[j]).model(),
            comms@.dom() == ids_in(ns, 0, ns.len() as int),
            k <= c.drone.len(),
            commands@.dom() == ids_in(ns, 0, k as int),
            wirings.len() == k,
            forall|j: int|
                0 <= j < k ==> drone_wired(
                    #[trigger] wirings@[j],
                    c.drone@[j],
                    j,
                    comms@,
                    events.sender,
                ),
        decreases c.drone.len() - k,
    {
        let d = &c.drone[k];
        proof {
            assert(ns[k as int].id == d.id);
            assert(ids_in(ns, 0, ns.len() as int).contains(d.id));
        }
        if let Some(packet_channel) = comms.get(&d.id) {
            let command_channel: Channel<DC> = Channel::new();
            let neighbors = neighbor_senders(comms, &d.connected_node_ids);
            commands.insert(d.id, command_channel.get_sender());
            wirings.push(
                DroneWiring {
                    id: d.id,
                    index: k,
                    command_receiver: command_channel.get_receiver(),
                    packet_receiver: packet_channel.get_receiver(),
                    neighbors,
                    pdr_bits: d.pdr_bits,
                    event_sender: events.get_sender(),
                },
            );
        }
        proof {
            lemma_ids_in_extend(ns, 0, k as int);
        }
        k = k + 1;
    }
    (commands, wirings)
}

fn initialize_clients<P, NC, NE>(
    c: &Config,
    comms: &HashMap<NodeId, Channel<P>>,
    events: &Channel<NE>,
    commands: &mut HashMap<NodeId, (NodeType, Sender<NC>)>,
) -> (r: Vec<NodeWiring<P, NC, NE>>)
    requires
        c.fits(),
        c.unique_ids(),
        comms@.dom() == ids_in(c.nodes(), 0, c.nodes().len() as int),
        old(commands)@.dom().is_empty(),
    ensures
        final(commands)@.dom() == ids_in(
            c.nodes(),
            c.drone.len() as int,
            c.drone.len() + c.client.len(),
        ),
        forall|m: int|
            c.drone.len() <= m < c.drone.len() + c.client.len() ==> final(commands)@[#[trigger] c.nodes()[m].id].0
                == assigned_type(*c, m),
        r.len() == c.client.len(),
        forall|k: int|
            0 <= k < c.client.len() ==> node_wired(
                #[trigger] r@[k],
                c.nodes()[c.drone.len() + k],
                assigned_type(*c, c.drone.len() + k),
                comms@,
                events.sender,
            ),
{
    let ghost ns = c.nodes();
    let d = c.drone.len();
    proof {
        lemma_nodes_index(*c);
        lemma_ids_in_empty(ns, d as int);
        assert(commands@.dom() =~= ids_in(ns, d as int, d as int));
    }
    let mut wirings: Vec<NodeWiring<P, NC, NE>> = Vec::new();
    let mut k: usize = 0;
    while k < c.client.len()
        invariant
            ns == c.nodes(),
            distinct_ids(ns),
            d == c.drone.len(),
            ns.len() == c.drone.len() + c.client.len() + c.server.len(),
            forall|j: int|
                0 <= j < c.client.len() ==> ns[d + j] == (#[trigger] c.client@[j]).model(),
            comms@.dom() == ids_in(ns, 0, ns.len() as int),
            k <= c.client.len(),
            commands@.dom() == ids_in(ns, d as int, d + k),
            forall|m: int|
                d <= m < d + k ==> commands@[#[trigger] ns[m].id].0 == assigned_type(*c, m),
            wirings.len() == k,
            forall|j: int|
                0 <= j < k ==> node_wired(
                    #[trigger] wirings@[j],
                    ns[d + j],
                    assigned_type(*c, d + j),
                    comms@,
                    events.sender,
                ),
        decreases c.client.len() - k,
    {
        let cl = &c.client[k];
        proof {
            assert(ns[d + k].id == cl.id);
            assert(ns[d + k].neighbors == cl.connected_drone_ids@);
            assert(ids_in(ns, 0, ns.len() as int).contains(cl.id));
            lemma_ids_in_outside(ns, d as int, d + k, d + k);
        }
        if let Some(packet_channel) = comms.get(&cl.id) {
            let neighbors = neighbor_senders(comms, &cl.connected_drone_ids);
            let command_channel: Channel<NC> = Channel::new();
            let node_type = client_type(k);
            commands.insert(cl.id, (node_type, command_channel.get_sender()));
            wirings.push(
                NodeWiring {
                    id: cl.id,
                    node_type,
                    neighbors,
                    packet_receiver: packet_channel.get_receiver(),
                    command_receiver: command_channel.get_receiver(),
                    event_sender: events.get_sender(),
                },
            );
        }
        proof {
            lemma_ids_in_extend(ns, d as int, d + k);
            assert forall|m: int| d <= m < d + k + 1 implies commands@[#[trigger] ns[m].id].0
                == assigned_type(*c, m) by {
                if m < d + k {
                    assert(ns[m].id != ns[d + k].id);
                }
            }
        }
        k = k + 1;
    }
    wirings
}

fn initialize_servers<P, NC, NE>(
    c: &Config,
    comms: &HashMap<NodeId, Channel<P>>,
    events: &Channel<NE>,
    commands: &mut HashMap<NodeId, (NodeType, Sender<NC>)>,
) -> (r: Vec<NodeWiring<P, NC, NE>>)
    requires
        c.fits(),
        c.unique_ids(),
        comms@.dom() == ids_in(c.nodes(), 0, c.nodes().len() as int),
        old(commands)@.dom() == ids_in(
            c.nodes(),
            c.drone.len() as int,
            c.drone.len() + c.client.len(),
        ),
        forall|m: int|
            c.drone.len() <= m < c.drone.len() + c.client.len() ==> old(commands)@[#[trigger] c.nodes()[m].id].0
                == assigned_type(*c, m),
    ensures
        final(commands)@.dom() == ids_in(
            c.nodes(),
            c.drone.len() as int,
            c.nodes().len() as int,
        ),
        forall|x: NodeId| #[trigger]
            old(commands)@.contains_key(x) ==> final(commands)@[x] == old(commands)@[x],
        forall|m: int|
            c.drone.len() <= m < c.nodes().len() ==> final(commands)@[#[trigger] c.nodes()[m].id].0
                == assigned_type(*c, m),
        r.len() == c.server.len(),
        forall|k: int|
            0 <= k < c.server.len() ==> node_wired(
                #[trigger] r@[k],
                c.nodes()[c.drone.len() + c.client.len() + k],
                assigned_type(*c, c.drone.len() + c.client.len() + k),
                comms@,
                events.sender,
            ),
{
    let ghost ns = c.nodes();
    let ghost before = commands@;
    let d = c.drone.len();
    let base = c.drone.len() + c.client.len();
    proof {
        lemma_nodes_index(*c);
    }
    let mut wirings: Vec<NodeWiring<P, NC, NE>> = Vec::new();
    let mut k: usize = 0;
    while k < c.server.len()
        invariant
            ns == c.nodes(),
            distinct_ids(ns),
            d == c.drone.len(),
            base == c.drone.len() + c.client.len(),
            ns.len() == c.drone.len() + c.client.len() + c.server.len(),
            forall|j: int|
                0 <= j < c.server.len() ==> ns[base + j] == (#[trigger] c.server@[j]).model(),
            comms@.dom() == ids_in(ns, 0, ns.len() as int),
            before.dom() == ids_in(ns, d as int, base as int),
            k <= c.server.len(),
            commands@.dom() == ids_in(ns, d as int, base + k),
            forall|x: NodeId| #[trigger] before.contains_key(x) ==> commands@[x] == before[x],
            forall|m: int|
                d <= m < base + k ==> commands@[#[trigger] ns[m].id].0 == assigned_type(*c, m),
            wirings.len() == k,
            forall|j: int|
                0 <= j < k ==> node_wired(
                    #[trigger] wirings@[j],
                    ns[base + j],
                    assigned_type(*c, base + j),
                    comms@,
                    events.sender,
                ),
        decreases c.server.len() - k,
    {
        let sv = &c.server[k];
        proof {
            assert(ns[base + k].id == sv.id);
            assert(ns[base + k].neighbors == sv.connected_drone_ids@);
            assert(ids_in(ns, 0, ns.len() as int).contains(sv.id));
            lemma_ids_in_outside(ns, d as int, base + k, base + k);
            assert(!before.contains_key(sv.id));
        }
        if let Some(packet_channel) = comms.get(&sv.id) {
            let neighbors = neighbor_senders(comms, &sv.connected_drone_ids);
            let command_channel: Channel<NC> = Channel::new();
            let node_type = server_type(k);
            commands.insert(sv.id, (node_type, command_channel.get_sender()));
            wirings.push(
                NodeWiring {
                    id: sv.id,
                    node_type,
                    neighbors,
                    packet_receiver: packet_channel.get_receiver(),
                    command_receiver: command_channel.get_receiver(),
                    event_sender: events.get_sender(),
                },
            );
        }
        proof {
            lemma_ids_in_extend(ns, d as int, base + k);
            assert forall|m: int| d <= m < base + k + 1 implies commands@[#[trigger] ns[m].id].0
                == assigned_type(*c, m) by {
                if m < base + k {
                    assert(ns[m].id != ns[base + k].id);
                }
            }
        }
        k = k + 1;
    }
    wirings
}

fn initialize_network_view(c: &Config) -> (r: Network)
    requires
        c.fits(),
    ensures
        r@ == c.nodes(),
{
    let n = c.node_count();
    let mut network = Network::new();
    let mut i: usize = 0;
    while i < n
        invariant
            n == c.nodes().len(),
            i <= n,
            network@ == c.nodes().subrange(0, i as int),
        decreases n - i,
    {
        let (id, role, neighbors) = c.node_at(i);
        network.add_node_controller_view(id, role, neighbors);
        assert(network@ =~= c.nodes().subrange(0, i + 1));
        i = i + 1;
    }
    assert(c.nodes().subrange(0, n as int) =~= c.nodes());
    network
}

/// The agents of a built network, handed out to be run: drones, which start
/// at once, and edge nodes (clients, then servers), which wait on a shared
/// start barrier sized to their number.
#[verifier::reject_recursive_types(P)]
#[verifier::reject_recursive_types(NC)]
#[verifier::reject_recursive_types(NE)]
#[verifier::reject_recursive_types(DC)]
#[verifier::reject_recursive_types(DE)]
pub struct Launch<P, NC, NE, DC, DE> {
    pub barrier_count: usize,
    pub drones: Vec<DroneWiring<P, DC, DE>>,
    pub nodes: Vec<NodeWiring<P, NC, NE>>,
}

/// Where the shutdown command of a node goes.
#[verifier::reject_recursive_types(NC)]
#[verifier::reject_recursive_types(DC)]
pub enum StopTarget<NC, DC> {
    Node(NodeType, Sender<NC>),
    Drone(Sender<DC>),
}

/// One step of stopping the network: send the shutdown command to `target`,
/// drop `packet_channel` (the inbound channel of the node, so nothing more is
/// queued for it), then wait for the node to end.
#[verifier::reject_recursive_types(P)]
#[verifier::reject_recursive_types(NC)]
#[verifier::reject_recursive_types(DC)]
pub struct Shutdown<P, NC, DC> {
    pub id: NodeId,
    pub target: StopTarget<NC, DC>,
    pub packet_channel: Option<Channel<P>>,
}

/// `s` stops edge node `id`: it carries the node's entry of `senders` (its
/// behavior and command sender) and its inbound channel from `comms`.
pub open spec fn stops_node<P, NC, DC>(
    s: Shutdown<P, NC, DC>,
    id: NodeId,
    senders: Map<NodeId, (NodeType, Sender<NC>)>,
    comms: Map<NodeId, Channel<P>>,
) -> bool {
    &&& s.id == id
    &&& s.target == StopTarget::<NC, DC>::Node(senders[id].0, senders[id].1)
    &&& s.packet_channel == Some(comms[id])
}

/// `s` stops drone `id`: it carries the drone's command sender from `senders`
/// and its inbound channel from `comms`.
pub open spec fn stops_drone<P, NC, DC>(
    s: Shutdown<P, NC, DC>,
    id: NodeId,
    senders: Map<NodeId, Sender<DC>>,
    comms: Map<NodeId, Channel<P>>,
) -> bool {
    &&& s.id == id
    &&& s.target == StopTarget::<NC, DC>::Drone(senders[id])
    &&& s.packet_channel == Some(comms[id])
}

impl<P, NC, NE, DC, DE> NetworkInitializer<Uninitialized, P, NC, NE, DC, DE> {
    /// Takes a parsed topology and validates it; nothing is built when it is
    /// refused.
    pub fn new(config: Config) -> (r: Result<Self, ConfigError>)
        requires
            config.fits(),
            config.unique_ids(),
        ensures
            match r {
                Ok(n) => {
                    &&& first_violation(config.nodes()) is None
                    &&& n.is_unbuilt()
                    &&& n.config() == config
                },
                Err(e) => first_violation(config.nodes()) == Some(e@),
            },
    {
        if let Err(e) = config.validate_config() {
            return Err(e);
        }
        let total_nodes = config.node_count();
        let r = NetworkInitializer {
            communications_channels: HashMap::new(),
            drone_command_channels: HashMap::new(),
            node_command_channels: HashMap::new(),
            drone_event_channel: Channel::new(),
            node_event_channel: Channel::new(),
            total_nodes,
            config,
            state: PhantomData,
            network_view: Network::new(),
            initialized_drones: Vec::new(),
            initialized_clients: Vec::new(),
            initialized_servers: Vec::new(),
        };
        assert(r.node_types().dom() =~= Set::<NodeId>::empty());
        Ok(r)
    }

    /// Builds the network: one inbound packet channel per node, then the
    /// drones, the clients and the servers, each in declared order with a
    /// command channel of its own, then the controller's view.
    pub fn initialize(self) -> (r: NetworkInitializer<Initialized, P, NC, NE, DC, DE>)
        requires
            self.is_unbuilt(),
        ensures
            r.is_built(),
            r.config() == self.config(),
            r.network() == self.config().nodes(),
            r.drone_events() == self.drone_events(),
            r.node_events() == self.node_events(),
    {
        let communications_channels = initialize_channels(&self.config);
        let (drone_command_channels, initialized_drones) = initialize_drones(
            &self.config,
            &communications_channels,
            &self.drone_event_channel,
        );
        let mut node_command_channels: HashMap<NodeId, (NodeType, Sender<NC>)> = HashMap::new();
        let initialized_clients = initialize_clients(
            &self.config,
            &communications_channels,
            &self.node_event_channel,
            &mut node_command_channels,
        );
        let initialized_servers = initialize_servers(
            &self.config,
            &communications_channels,
            &self.node_event_channel,
            &mut node_command_channels,
        );
        let network_view = initialize_network_view(&self.config);
        let r = NetworkInitializer {
            communications_channels,
            drone_command_channels,
            node_command_channels,
            drone_event_channel: self.drone_event_channel,
            node_event_channel: self.node_event_channel,
            total_nodes: self.total_nodes,
            config: self.config,
            state: PhantomData,
            network_view,
            initialized_drones,
            initialized_clients,
            initialized_servers,
        };
        assert(r.node_types().dom() =~= r.node_command_channels@.dom());
        r
    }
}

impl<P, NC, NE, DC, DE> NetworkInitializer<Initialized, P, NC, NE, DC, DE> {
    /// Hands every agent out to be run. Drones do not wait on the start
    /// barrier; the barrier counts the other nodes.
    pub fn start_simulation(self) -> (r: (
        NetworkInitializer<Running, P, NC, NE, DC, DE>,
        Launch<P, NC, NE, DC, DE>,
    ))
        requires
            self.is_built(),
        ensures
            r.0.is_running(),
            r.0.config() == self.config(),
            r.0.comms() == self.comms(),
            r.0.drone_senders() == self.drone_senders(),
            r.0.node_senders() == self.node_senders(),
            r.0.drone_events() == self.drone_events(),
            r.0.node_events() == self.node_events(),
            r.1.barrier_count == self.total() - self.config().drone.len(),
            r.1.drones@ == self.pending_drones(),
            r.1.nodes@ == self.pending_clients() + self.pending_servers(),
            r.1.drones.len() + r.1.nodes.len() == self.total(),
    {
        let ghost clients = self.initialized_clients@;
        let ghost servers = self.initialized_servers@;
        let barrier_count = self.total_nodes - self.config.drone.len();
        let mut nodes = self.initialized_clients;
        let mut servers_out = self.initialized_servers;
        nodes.append(&mut servers_out);
        let launch = Launch { barrier_count, drones: self.initialized_drones, nodes };
        let running = NetworkInitializer {
            communications_channels: self.communications_channels,
            drone_command_channels: self.drone_command_channels,
            node_command_channels: self.node_command_channels,
            drone_event_channel: self.drone_event_channel,
            node_event_channel: self.node_event_channel,
            total_nodes: self.total_nodes,
            config: self.config,
            state: PhantomData,
            network_view: self.network_view,
            initialized_drones: Vec::new(),
            initialized_clients: Vec::new(),
            initialized_servers: Vec::new(),
        };
        proof {
            lemma_nodes_index(self.config);
        }
        (running, launch)
    }
}

impl<P, NC, NE, DC, DE> NetworkInitializer<Running, P, NC, NE, DC, DE> {
    /// Takes the network apart, edge nodes first and drones last, so that no
    /// edge node is left waiting on a drone that has already ended. Each step
    /// moves out the node's held command sender and inbound packet channel;
    /// the orchestrator keeps neither. On a network already stopped there is
    /// nothing left to do and the plan is empty.
    pub fn stop_simulation(&mut self) -> (r: Vec<Shutdown<P, NC, DC>>)
        requires
            old(self).is_running() || old(self).is_stopped(),
        ensures
            final(self).is_stopped(),
            final(self).config() == old(self).config(),
            final(self).network() == old(self).network(),
            final(self).drone_events() == old(self).drone_events(),
            final(self).node_events() == old(self).node_events(),
            old(self).is_stopped() ==> r.len() == 0,
            old(self).is_running() ==> r.len() == old(self).total(),
            old(self).is_running() ==> forall|j: int|
                0 <= j < old(self).config().client.len() + old(self).config().server.len()
                    ==> stops_node(
                    #[trigger] r@[j],
                    old(self).config().nodes()[old(self).config().drone.len() + j].id,
                    old(self).node_senders(),
                    old(self).comms(),
                ) && r@[j].target->Node_0 == assigned_type(
                    old(self).config(),
                    old(self).config().drone.len() + j,
                ),
            old(self).is_running() ==> forall|j: int|
                0 <= j < old(self).config().drone.len() ==> stops_drone(
                    #[trigger] r@[old(self).config().client.len() + old(self).config().server.len()
                        + j],
                    old(self).config().nodes()[j].id,
                    old(self).drone_senders(),
                    old(self).comms(),
                ),
    {
        let ghost ns = self.config.nodes();
        let n = self.config.node_count();
        let d = self.config.drone.len();
        proof {
            lemma_nodes_index(self.config);
            lemma_ids_in_empty(ns, n as int);
        }
        if self.communications_channels.is_empty() && self.drone_command_channels.is_empty()
            && self.node_command_channels.is_empty() {
            proof {
                if old(self).is_running() {
                    lemma_ids_in_len(ns, 0, n as int);
                    assert(self.communications_channels@.dom() =~= Set::<NodeId>::empty());
                }
                assert(self.node_types().dom() =~= Set::<NodeId>::empty());
            }
            return Vec::new();
        }
        proof {
            if old(self).is_stopped() {
                assert(self.node_types().dom() =~= self.node_command_channels@.dom());
                assert(self.communications_channels@.dom() =~= Set::<NodeId>::empty());
                assert(self.drone_command_channels@.dom() =~= Set::<NodeId>::empty());
                assert(self.node_command_channels@.dom() =~= Set::<NodeId>::empty());
            }
            assert(old(self).is_running());
            assert(self.communications_channels@.dom() =~= ids_in(ns, 0, d as int).union(
                ids_in(ns, d as int, n as int),
            ));
            assert(self.node_command_channels@.dom() =~= self.node_types().dom());
        }
        let ghost held_comms = self.communications_channels@;
        let ghost held_nodes = self.node_command_channels@;
        let ghost held_drones = self.drone_command_channels@;
        let mut steps: Vec<Shutdown<P, NC, DC>> = Vec::new();
        let mut i: usize = d;
        while i < n
            invariant
                ns == self.config.nodes(),
                n == ns.len(),
                d == self.config.drone.len(),
                distinct_ids(ns),
                d <= i <= n,
                self.config == old(self).config,
                self.total_nodes == old(self).total_nodes,
                self.network_view@ == old(self).network_view@,
                self.drone_event_channel == old(self).drone_event_channel,
                self.node_event_channel == old(self).node_event_channel,
                self.initialized_drones@ == old(self).initialized_drones@,
                self.initialized_clients@ == old(self).initialized_clients@,
                self.initialized_servers@ == old(self).initialized_servers@,
                held_comms == old(self).communications_channels@,
                held_nodes == old(self).node_command_channels@,
                held_drones == old(self).drone_command_channels@,
                self.communications_channels@.dom() == ids_in(ns, 0, d as int).union(
                    ids_in(ns, i as int, n as int),
                ),
                forall|x: NodeId| #[trigger]
                    self.communications_channels@.contains_key(x)
                        ==> self.communications_channels@[x] == held_comms[x],
                self.node_command_channels@.dom() == ids_in(ns, i as int, n as int),
                forall|x: NodeId| #[trigger]
                    self.node_command_channels@.contains_key(x)
                        ==> self.node_command_channels@[x] == held_nodes[x],
                forall|m: int|
                    d <= m < n ==> held_nodes[#[trigger] ns[m].id].0 == assigned_type(
                        self.config,
                        m,
                    ),
                self.drone_command_channels@ == held_drones,
                steps.len() == i - d,
                forall|j: int|
                    0 <= j < i - d ==> stops_node(
                        #[trigger] steps@[j],
                        ns[d + j].id,
                        held_nodes,
                        held_comms,
                    ) && steps@[j].target->Node_0 == assigned_type(self.config, d + j),
            decreases n - i,
        {
            let (id, _, _) = self.config.node_at(i);
            proof {
                lemma_ids_in_shrink(ns, i as int, n as int);
                lemma_ids_in_outside(ns, 0, d as int, i as int);
            }
            let packet_channel = self.communications_channels.remove(&id);
            if let Some(entry) = self.node_command_channels.remove(&id) {
                let (node_type, sender) = entry;
                steps.push(
                    Shutdown { id, target: StopTarget::Node(node_type, sender), packet_channel },
                );
            }
            proof {
                assert(self.communications_channels@.dom() =~= ids_in(ns, 0, d as int).union(
                    ids_in(ns, i + 1, n as int),
                ));
            }
            i = i + 1;
        }
        proof {
            lemma_ids_in_empty(ns, n as int);
            assert(self.communications_channels@.dom() =~= ids_in(ns, 0, d as int));
        }
        let mut i: usize = 0;
        while i < d
            invariant
                ns == self.config.nodes(),
                n == ns.len(),
                d == self.config.drone.len(),
                distinct_ids(ns),
                d <= n,
                i <= d,
                self.config == old(self).config,
                self.total_nodes == old(self).total_nodes,
                self.network_view@ == old(self).network_view@,
                self.drone_event_channel == old(self).drone_event_channel,
                self.node_event_channel == old(self).node_event_channel,
                self.initialized_drones@ == old(self).initialized_drones@,
                self.initialized_clients@ == old(self).initialized_clients@,
                self.initialized_servers@ == old(self).initialized_servers@,
                held_comms == old(self).communications_channels@,
                held_nodes == old(self).node_command_channels@,
                held_drones == old(self).drone_command_channels@,
                self.communications_channels@.dom() == ids_in(ns, i as int, d as int),
                forall|x: NodeId| #[trigger]
                    self.communications_channels@.contains_key(x)
                        ==> self.communications_channels@[x] == held_comms[x],
                self.drone_command_channels@.dom() == ids_in(ns, i as int, d as int),
                forall|x: NodeId| #[trigger]
                    self.drone_command_channels@.contains_key(x)
                        ==> self.drone_command_channels@[x] == held_drones[x],
                self.node_command_channels@.dom() == ids_in(ns, n as int, n as int),
                steps.len() == n - d + i,
                forall|j: int|
                    0 <= j < n - d ==> stops_node(
                        #[trigger] steps@[j],
                        ns[d + j].id,
                        held_nodes,
                        held_comms,
                    ) && steps@[j].target->Node_0 == assigned_type(self.config, d + j),
                forall|j: int|
                    0 <= j < i ==> stops_drone(
                        #[trigger] steps@[n - d + j],
                        ns[j].id,
                        held_drones,
                        held_comms,
                    ),
            decreases d - i,
        {
            let (id, _, _) = self.config.node_at(i);
            proof {
                lemma_ids_in_shrink(ns, i as int, d as int);
            }
            let packet_channel = self.communications_channels.remove(&id);
            if let Some(sender) = self.drone_command_channels.remove(&id) {
                steps.push(Shutdown { id, target: StopTarget::Drone(sender), packet_channel });
            }
            i = i + 1;
        }
        proof {
            lemma_ids_in_empty(ns, d as int);
            assert(self.node_types().dom() =~= self.node_command_channels@.dom());
            assert(self.communications_channels@.dom() =~= Set::<NodeId>::empty());
            assert(self.drone_command_channels@.dom() =~= Set::<NodeId>::empty());
        }
        steps
    }

    /// A receiver of the events that edge nodes report.
    pub fn get_nodes_event_receiver(&self) -> (r: Receiver<NE>)
        ensures
            r == self.node_events().receiver,
    {
        self.node_event_channel.get_receiver()
    }

    /// A receiver of the events that drones report.
    pub fn get_drones_event_receiver(&self) -> (r: Receiver<DE>)
        ensures
            r == self.drone_events().receiver,
    {
        self.drone_event_channel.get_receiver()
    }

    /// For each drone whose command sender is still held: its drop
    /// probability (as bits) and that sender. Empty once stopped.
    pub fn get_drones(&self) -> (r: HashMap<NodeId, (u32, Sender<DC>)>)
        requires
            self.is_started(),
        ensures
            r@.dom() == self.drone_command_ids(),
            forall|k: int|
                0 <= k < self.config().drone.len() && r@.contains_key(
                    (#[trigger] self.config().drone@[k]).id,
                ) ==> r@[self.config().drone@[k].id] == (
                    self.config().drone@[k].pdr_bits,
                    self.drone_senders()[self.config().drone@[k].id],
                ),
            self.is_running() ==> r@.len() == self.config().drone.len(),
    {
        let ghost ns = self.config.nodes();
        let ghost held = self.drone_command_channels@;
        let mut map: HashMap<NodeId, (u32, Sender<DC>)> = HashMap::new();
        proof {
            lemma_nodes_index(self.config);
            lemma_ids_in_empty(ns, 0);
            assert(map@.dom() =~= held.dom().intersect(ids_in(ns, 0, 0)));
        }
        let mut k: usize = 0;
        while k < self.config.drone.len()
            invariant
                self.is_started(),
                held == self.drone_command_channels@,
                ns == self.config.nodes(),
                forall|j: int|
                    0 <= j < self.config.drone.len() ==> ns[j] == (
                    #[trigger] self.config.drone@[j]).model(),
                k <= self.config.drone.len(),
                map@.dom() == held.dom().intersect(ids_in(ns, 0, k as int)),
                forall|j: int|
                    0 <= j < k && map@.contains_key((#[trigger] self.config.drone@[j]).id)
                        ==> map@[self.config.drone@[j].id] == (
                        self.config.drone@[j].pdr_bits,
                        held[self.config.drone@[j].id],
                    ),
            decreases self.config.drone.len() - k,
        {
            let d = &self.config.drone[k];
            proof {
                assert(ns[k as int].id == d.id);
                lemma_ids_in_outside(ns, 0, k as int, k as int);
                lemma_ids_in_extend(ns, 0, k as int);
            }
            if let Some(channel) = self.drone_command_channels.get(&d.id) {
                map.insert(d.id, (d.pdr_bits, channel.clone()));
            }
            proof {
                assert(map@.dom() =~= held.dom().intersect(ids_in(ns, 0, k + 1)));
                assert forall|j: int|
                    0 <= j < k + 1 && map@.contains_key((#[trigger] self.config.drone@[j]).id)
                        implies map@[self.config.drone@[j].id] == (
                    self.config.drone@[j].pdr_bits,
                    held[self.config.drone@[j].id],
                ) by {
                    if j < k {
                        assert(ns[j].id != ns[k as int].id);
                    }
                }
            }
            k = k + 1;
        }
        proof {
            assert(map@.dom() =~= held.dom());
            if self.is_running() {
                lemma_ids_in_len(ns, 0, self.config.drone.len() as int);
            }
        }
        map
    }

    /// For each client whose command sender is still held: its behavior and
    /// that sender. Empty once stopped.
    pub fn get_clients(&self) -> (r: HashMap<NodeId, (NodeType, Sender<NC>)>)
        requires
            self.is_started(),
        ensures
            r@.dom() == self.node_types().dom().intersect(
                ids_in(
                    self.config().nodes(),
                    self.config().drone.len() as int,
                    self.config().drone.len() + self.config().client.len(),
                ),
            ),
            forall|x: NodeId| #[trigger] r@.contains_key(x) ==> r@[x] == self.node_senders()[x],
            forall|k: int|
                0 <= k < self.config().client.len() && r@.contains_key(
                    (#[trigger] self.config().client@[k]).id,
                ) ==> r@[self.config().client@[k].id].0 == spec_client_type(k),
            self.is_running() ==> r@.len() == self.config().client.len(),
    {
        let ghost ns = self.config.nodes();
        let ghost held = self.node_command_channels@;
        let d = self.config.drone.len();
        let mut map: HashMap<NodeId, (NodeType, Sender<NC>)> = HashMap::new();
        proof {
            lemma_nodes_index(self.config);
            lemma_ids_in_empty(ns, d as int);
            assert(map@.dom() =~= held.dom().intersect(ids_in(ns, d as int, d as int)));
        }
        let mut k: usize = 0;
        while k < self.config.client.len()
            invariant
                self.is_started(),
                held == self.node_command_channels@,
                ns == self.config.nodes(),
                d == self.config.drone.len(),
                forall|j: int|
                    0 <= j < self.config.client.len() ==> ns[d + j] == (
                    #[trigger] self.config.client@[j]).model(),
                k <= self.config.client.len(),
                map@.dom() == held.dom().intersect(ids_in(ns, d as int, d + k)),
                forall|x: NodeId| #[trigger] map@.contains_key(x) ==> map@[x] == held[x],
            decreases self.config.client.len() - k,
        {
            let c = &self.config.client[k];
            proof {
                assert(ns[d + k].id == c.id);
                lemma_ids_in_extend(ns, d as int, d + k);
            }
            if let Some(entry) = self.node_command_channels.get(&c.id) {
                map.insert(c.id, (entry.0, entry.1.clone()));
            }
            proof {
                assert(map@.dom() =~= held.dom().intersect(ids_in(ns, d as int, d + k + 1)));
            }
            k = k + 1;
        }
        proof {
            assert forall|j: int|
                0 <= j < self.config.client.len() && map@.contains_key(
                    (#[trigger] self.config.client@[j]).id,
                ) implies map@[self.config.client@[j].id].0 == spec_client_type(j) by {
                assert(ns[d + j].id == self.config.client@[j].id);
                assert(self.node_types().contains_key(ns[d + j].id));
            }
            if self.is_running() {
                lemma_ids_in_len(ns, d as int, d + self.config.client.len());
                assert(map@.dom() =~= ids_in(ns, d as int, d + self.config.client.len()));
            }
        }
        map
    }

    /// For each server whose command sender is still held: its behavior and
    /// that sender. Empty once stopped.
    pub fn get_servers(&self) -> (r: HashMap<NodeId, (NodeType, Sender<NC>)>)
        requires
            self.is_started(),
        ensures
            r@.dom() == self.node_types().dom().intersect(
                ids_in(
                    self.config().nodes(),
                    self.config().drone.len() + self.config().client.len(),
                    self.config().nodes().len() as int,
                ),
            ),
            forall|x: NodeId| #[trigger] r@.contains_key(x) ==> r@[x] == self.node_senders()[x],
            forall|k: int|
                0 <= k < self.config().server.len() && r@.contains_key(
                    (#[trigger] self.config().server@[k]).id,
                ) ==> r@[self.config().server@[k].id].0 == spec_server_type(k),
            self.is_running() ==> r@.len() == self.config().server.len(),
    {
        let ghost ns = self.config.nodes();
        let ghost held = self.node_command_channels@;
        let base = self.config.drone.len() + self.config.client.len();
        let mut map: HashMap<NodeId, (NodeType, Sender<NC>)> = HashMap::new();
        proof {
            lemma_nodes_index(self.config);
            lemma_ids_in_empty(ns, base as int);
            assert(map@.dom() =~= held.dom().intersect(ids_in(ns, base as int, base as int)));
        }
        let mut k: usize = 0;
        while k < self.config.server.len()
            invariant
                self.is_started(),
                held == self.node_command_channels@,
                ns == self.config.nodes(),
                base == self.config.drone.len() + self.config.client.len(),
                ns.len() == base + self.config.server.len(),
                forall|j: int|
                    0 <= j < self.config.server.len() ==> ns[base + j] == (
                    #[trigger] self.config.server@[j]).model(),
                k <= self.config.server.len(),
                map@.dom() == held.dom().intersect(ids_in(ns, base as int, base + k)),
                forall|x: NodeId| #[trigger] map@.contains_key(x) ==> map@[x] == held[x],
            decreases self.config.server.len() - k,
        {
            let sv = &self.config.server[k];
            proof {
                assert(ns[base + k].id == sv.id);
                lemma_ids_in_extend(ns, base as int, base + k);
            }
            if let Some(entry) = self.node_command_channels.get(&sv.id) {
                map.insert(sv.id, (entry.0, entry.1.clone()));
            }
            proof {
                assert(map@.dom() =~= held.dom().intersect(ids_in(ns, base as int, base + k + 1)));
            }
            k = k + 1;
        }
        proof {
            assert forall|j: int|
                0 <= j < self.config.server.len() && map@.contains_key(
                    (#[trigger] self.config.server@[j]).id,
                ) implies map@[self.config.server@[j].id].0 == spec_server_type(j) by {
                assert(ns[base + j].id == self.config.server@[j].id);
                assert(self.node_types().contains_key(ns[base + j].id));
            }
            if self.is_running() {
                lemma_ids_in_len(ns, base as int, ns.len() as int);
                let d = self.config.drone.len() as int;
                assert(self.node_types().dom() =~= held.dom());
                assert forall|x: NodeId|
                    ids_in(ns, base as int, ns.len() as int).contains(x) implies held.dom().contains(
                        x,
                    ) by {
                    let m = choose|m: int| base <= m < ns.len() && #[trigger] ns[m].id == x;
                    assert(ids_in(ns, d, ns.len() as int).contains(ns[m].id));
                }
                assert(map@.dom() =~= ids_in(ns, base as int, ns.len() as int));
            }
        }
        map
    }

    /// A copy of the controller's view of the topology.
    pub fn get_network_view(&self) -> (r: Network)
        ensures
            r@ == self.network(),
    {
        self.network_view.duplicate()
    }

    /// The inbound packet channel of every node, to inject packets directly.
    pub fn get_comms_channels(&self) -> (r: &HashMap<NodeId, Channel<P>>)
        ensures
            r@.dom() == self.channel_ids(),
    {
        &self.communications_channels
    }
}

/// Building a network of N drones, C clients and S servers yields N drone
/// command senders, C client and S server command senders, one inbound
/// channel per node, N + C + S agents waiting to start, and a view of
/// N + C + S nodes.
pub proof fn lemma_built_counts<P, NC, NE, DC, DE>(
    n: NetworkInitializer<Initialized, P, NC, NE, DC, DE>,
)
    requires
        n.is_built(),
    ensures
        n.drone_command_ids().len() == n.config().drone.len(),
        ids_in(
            n.config().nodes(),
            n.config().drone.len() as int,
            n.config().drone.len() + n.config().client.len(),
        ).len() == n.config().client.len(),
        ids_in(
            n.config().nodes(),
            n.config().drone.len() + n.config().client.len(),
            n.config().nodes().len() as int,
        ).len() == n.config().server.len(),
        n.node_types().dom() == ids_in(
            n.config().nodes(),
            n.config().drone.len() as int,
            n.config().drone.len() + n.config().client.len(),
        ).union(
            ids_in(
                n.config().nodes(),
                n.config().drone.len() + n.config().client.len(),
                n.config().nodes().len() as int,
            ),
        ),
        n.node_types().dom().len() == n.config().client.len() + n.config().server.len(),
        n.channel_ids().len() == n.config().drone.len() + n.config().client.len()
            + n.config().server.len(),
        n.pending_drones().len() + n.pending_clients().len() + n.pending_servers().len()
            == n.total(),
        n.network().len() == n.config().drone.len() + n.config().client.len()
            + n.config().server.len(),
{
    let c = n.config();
    let ns = c.nodes();
    let d = c.drone.len() as int;
    let e = c.drone.len() + c.client.len();
    lemma_nodes_index(c);
    lemma_ids_in_len(ns, 0, d);
    lemma_ids_in_len(ns, d, e);
    lemma_ids_in_len(ns, e, ns.len() as int);
    lemma_ids_in_len(ns, d, ns.len() as int);
    lemma_ids_in_len(ns, 0, ns.len() as int);
    assert(ids_in(ns, d, ns.len() as int) =~= ids_in(ns, d, e).union(ids_in(ns, e, ns.len() as int)));
}

/// A running network is started: what the getters need holds from the start
/// of the simulation until after it is stopped.
pub proof fn lemma_running_is_started<P, NC, NE, DC, DE>(
    n: NetworkInitializer<Running, P, NC, NE, DC, DE>,
)
    requires
        n.is_running(),
    ensures
        n.is_started(),
{
}

} // verus!
