use crate::topology::{DeclaredNode, NodeId, Role};
use vstd::prelude::*;

verus! {

/// A copy of `v`.
pub fn copy_ids(v: &Vec<NodeId>) -> (r: Vec<NodeId>)
    ensures
        r@ == v@,
{
    let mut r: Vec<NodeId> = Vec::new();
    let mut i: usize = 0;
    while i < v.len()
        invariant
            i <= v.len(),
            r@ == v@.subrange(0, i as int),
        decreases v.len() - i,
    {
        r.push(v[i]);
        i = i + 1;
    }
    assert(v@.subrange(0, v.len() as int) =~= v@);
    r
}

/// A node as the controller sees it: its id, role and neighbors.
pub struct NetworkNode {
    pub id: NodeId,
    pub node_type: Role,
    pub adjacents: Vec<NodeId>,
}

impl View for NetworkNode {
    type V = DeclaredNode;

    open spec fn view(&self) -> DeclaredNode {
        DeclaredNode { id: self.id, role: self.node_type, neighbors: self.adjacents@ }
    }
}

impl NetworkNode {
    pub fn get_adjacents(&self) -> (r: &Vec<NodeId>)
        ensures
            r@ == self@.neighbors,
    {
        &self.adjacents
    }
}

/// The read-only topology view handed to the controller: one entry per node,
/// independent of the channels the nodes talk over.
pub struct Network {
    pub nodes: Vec<NetworkNode>,
}

impl View for Network {
    type V = Seq<DeclaredNode>;

    open spec fn view(&self) -> Seq<DeclaredNode> {
        self.nodes@.map_values(|n: NetworkNode| n@)
    }
}

impl Network {
    pub fn new() -> (r: Network)
        ensures
            r@ == Seq::<DeclaredNode>::empty(),
    {
        let r = Network { nodes: Vec::new() };
        assert(r@ =~= Seq::<DeclaredNode>::empty());
        r
    }

    /// Records a node with its role and its neighbors.
    pub fn add_node_controller_view(&mut self, id: NodeId, node_type: Role, adjacents: &Vec<NodeId>)
        ensures
            final(self)@ == old(self)@.push(
                DeclaredNode { id: id, role: node_type, neighbors: adjacents@ },
            ),
    {
        let node = NetworkNode { id, node_type, adjacents: copy_ids(adjacents) };
        self.nodes.push(node);
        assert(self@ =~= old(self)@.push(
            DeclaredNode { id: id, role: node_type, neighbors: adjacents@ },
        ));
    }

    /// An independent copy of the view.
    pub fn duplicate(&self) -> (r: Network)
        ensures
            r@ == self@,
    {
        let mut r = Network::new();
        let mut i: usize = 0;
        while i < self.nodes.len()
            invariant
                i <= self.nodes.len(),
                r@ == self@.subrange(0, i as int),
            decreases self.nodes.len() - i,
        {
            let n = &self.nodes[i];
            r.add_node_controller_view(n.id, n.node_type, &n.adjacents);
            assert(r@ =~= self@.subrange(0, i + 1));
            i = i + 1;
        }
        assert(self@.subrange(0, self.nodes.len() as int) =~= self@);
        r
    }
}

} // verus!
