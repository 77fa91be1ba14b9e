use vstd::prelude::*;

verus! {

/// Identifier of a node; relays and edge agents share one namespace.
pub type NodeId = u8;

/// The role a node is declared with.
#[derive(Clone, Copy, Debug, PartialEq, Eq, Structural)]
pub enum Role {
    Drone,
    Client,
    Server,
}

impl Role {
    /// Clients and servers sit at the edge of the network; drones relay.
    pub open spec fn is_edge(self) -> bool {
        self != Role::Drone
    }
}

/// A relay, with the drop probability it forwards packets with, kept as the
/// bit pattern of an IEEE-754 single-precision number.
#[derive(Clone, Debug)]
pub struct Drone {
    pub id: NodeId,
    pub connected_node_ids: Vec<NodeId>,
    pub pdr_bits: u32,
}

/// A client (edge agent of the first group).
#[derive(Clone, Debug)]
pub struct Client {
    pub id: NodeId,
    pub connected_drone_ids: Vec<NodeId>,
}

/// A server (edge agent of the second group).
#[derive(Clone, Debug)]
pub struct Server {
    pub id: NodeId,
    pub connected_drone_ids: Vec<NodeId>,
}

/// The parsed shape of a network description: three groups of nodes, each in
/// declared order.
#[derive(Clone, Debug)]
pub struct Config {
    pub drone: Vec<Drone>,
    pub client: Vec<Client>,
    pub server: Vec<Server>,
}

/// One declared node, as the rules on topologies see it.
pub struct DeclaredNode {
    pub id: NodeId,
    pub role: Role,
    pub neighbors: Seq<NodeId>,
}

impl Drone {
    pub open spec fn model(self) -> DeclaredNode {
        DeclaredNode { id: self.id, role: Role::Drone, neighbors: self.connected_node_ids@ }
    }
}

impl Client {
    pub open spec fn model(self) -> DeclaredNode {
        DeclaredNode { id: self.id, role: Role::Client, neighbors: self.connected_drone_ids@ }
    }
}

impl Server {
    pub open spec fn model(self) -> DeclaredNode {
        DeclaredNode { id: self.id, role: Role::Server, neighbors: self.connected_drone_ids@ }
    }
}

impl Config {
    /// Every declared node: the drones, then the clients, then the servers.
    pub open spec fn nodes(&self) -> Seq<DeclaredNode> {
        self.drone@.map_values(|d: Drone| d.model()) + self.client@.map_values(
            |c: Client| c.model(),
        ) + self.server@.map_values(|s: Server| s.model())
    }

    /// The node count fits in a `usize`.
    pub open spec fn fits(&self) -> bool {
        self.drone.len() + self.client.len() + self.server.len() <= usize::MAX
    }

    /// No two declared nodes share an id.
    pub open spec fn unique_ids(&self) -> bool {
        distinct_ids(self.nodes())
    }

    pub fn node_count(&self) -> (r: usize)
        requires
            self.fits(),
        ensures
            r == self.nodes().len(),
    {
        self.drone.len() + self.client.len() + self.server.len()
    }

    /// The `i`-th declared node: its id, role and neighbor list.
    pub fn node_at(&self, i: usize) -> (r: (NodeId, Role, &Vec<NodeId>))
        requires
            i < self.nodes().len(),
        ensures
            r.0 == self.nodes()[i as int].id,
            r.1 == self.nodes()[i as int].role,
            r.2@ == self.nodes()[i as int].neighbors,
    {
        let nd = self.drone.len();
        let nc = self.client.len();
        if i < nd {
            let d = &self.drone[i];
            (d.id, Role::Drone, &d.connected_node_ids)
        } else if i - nd < nc {
            let c = &self.client[i - nd];
            (c.id, Role::Client, &c.connected_drone_ids)
        } else {
            let s = &self.server[i - nd - nc];
            (s.id, Role::Server, &s.connected_drone_ids)
        }
    }

    /// Whether no two declared nodes share an id.
    pub fn has_unique_ids(&self) -> (r: bool)
        requires
            self.fits(),
        ensures
            r == self.unique_ids(),
    {
        let n = self.node_count();
        let mut seen: Vec<bool> = Vec::new();
        let mut v: usize = 0;
        while v < 256
            invariant
                v <= 256,
                seen.len() == v,
                forall|k: int| 0 <= k < v ==> !seen[k],
            decreases 256 - v,
        {
            seen.push(false);
            v = v + 1;
        }
        let mut i: usize = 0;
        while i < n
            invariant
                n == self.nodes().len(),
                i <= n,
                seen.len() == 256,
                forall|a: int, b: int|
                    0 <= a < b < i ==> self.nodes()[a].id != self.nodes()[b].id,
                forall|x: int|
                    0 <= x < 256 ==> (seen[x] <==> exists|k: int|
                        0 <= k < i && self.nodes()[k].id == x),
            decreases n - i,
        {
            let (id, _, _) = self.node_at(i);
            if seen[id as usize] {
                assert(exists|k: int| 0 <= k < i && self.nodes()[k].id == id);
                return false;
            }
            seen.set(id as usize, true);
            i = i + 1;
            assert forall|x: int|
                0 <= x < 256 implies (seen[x] <==> exists|k: int|
                    0 <= k < i && self.nodes()[k].id == x) by {
                if x == id as int {
                    assert(self.nodes()[i - 1].id == x);
                }
                if exists|k: int| 0 <= k < i && self.nodes()[k].id == x {
                    let k = choose|k: int| 0 <= k < i && self.nodes()[k].id == x;
                    if k < i - 1 {
                        assert(exists|k2: int| 0 <= k2 < i - 1 && self.nodes()[k2].id == x);
                    }
                }
            }
        }
        true
    }
}

/// The ids of the nodes at positions `lo` up to `hi` (exclusive).
pub open spec fn ids_in(ns: Seq<DeclaredNode>, lo: int, hi: int) -> Set<NodeId> {
    Set::new(|x: NodeId| exists|m: int| lo <= m < hi && #[trigger] ns[m].id == x)
}

/// No two nodes of `ns` share an id.
pub open spec fn distinct_ids(ns: Seq<DeclaredNode>) -> bool {
    forall|i: int, j: int| 0 <= i < j < ns.len() ==> ns[i].id != ns[j].id
}

/// Where each group sits among all nodes.
pub proof fn lemma_nodes_index(c: Config)
    ensures
        c.nodes().len() == c.drone.len() + c.client.len() + c.server.len(),
        forall|k: int| 0 <= k < c.drone.len() ==> c.nodes()[k] == (#[trigger] c.drone@[k]).model(),
        forall|k: int|
            0 <= k < c.client.len() ==> c.nodes()[c.drone.len() + k] == (
            #[trigger] c.client@[k]).model(),
        forall|k: int|
            0 <= k < c.server.len() ==> c.nodes()[c.drone.len() + c.client.len() + k] == (
            #[trigger] c.server@[k]).model(),
{
}

pub proof fn lemma_ids_in_extend(ns: Seq<DeclaredNode>, lo: int, hi: int)
    requires
        0 <= lo <= hi < ns.len(),
    ensures
        ids_in(ns, lo, hi + 1) == ids_in(ns, lo, hi).insert(ns[hi].id),
{
    assert(ids_in(ns, lo, hi + 1) =~= ids_in(ns, lo, hi).insert(ns[hi].id));
}

pub proof fn lemma_ids_in_empty(ns: Seq<DeclaredNode>, lo: int)
    ensures
        ids_in(ns, lo, lo) == Set::<NodeId>::empty(),
{
    assert(ids_in(ns, lo, lo) =~= Set::<NodeId>::empty());
}

/// With distinct ids, dropping the first id of a range leaves the rest of it.
pub proof fn lemma_ids_in_shrink(ns: Seq<DeclaredNode>, lo: int, hi: int)
    requires
        0 <= lo < hi <= ns.len(),
        distinct_ids(ns),
    ensures
        ids_in(ns, lo, hi).remove(ns[lo].id) == ids_in(ns, lo + 1, hi),
        ids_in(ns, lo, hi).contains(ns[lo].id),
{
    assert(ids_in(ns, lo, hi).remove(ns[lo].id) =~= ids_in(ns, lo + 1, hi));
}

/// With distinct ids, a node outside a range does not have an id of that range.
pub proof fn lemma_ids_in_outside(ns: Seq<DeclaredNode>, lo: int, hi: int, m: int)
    requires
        0 <= lo <= hi <= ns.len(),
        0 <= m < ns.len(),
        m < lo || hi <= m,
        distinct_ids(ns),
    ensures
        !ids_in(ns, lo, hi).contains(ns[m].id),
{
    if ids_in(ns, lo, hi).contains(ns[m].id) {
        let k = choose|k: int| lo <= k < hi && #[trigger] ns[k].id == ns[m].id;
        assert(k != m);
    }
}

/// With distinct ids, a range of `hi - lo` nodes has `hi - lo` ids.
pub proof fn lemma_ids_in_len(ns: Seq<DeclaredNode>, lo: int, hi: int)
    requires
        0 <= lo <= hi <= ns.len(),
        distinct_ids(ns),
    ensures
        ids_in(ns, lo, hi).finite(),
        ids_in(ns, lo, hi).len() == hi - lo,
    decreases hi - lo,
{
    if lo == hi {
        lemma_ids_in_empty(ns, lo);
    } else {
        lemma_ids_in_len(ns, lo, hi - 1);
        lemma_ids_in_extend(ns, lo, hi - 1);
        lemma_ids_in_outside(ns, lo, hi - 1, hi - 1);
    }
}

} // verus!

