use crate::text::{append_decimal, decimal};
use crate::topology::{Config, DeclaredNode, NodeId, Role};
use vstd::prelude::*;

verus! {

/// Why a topology is refused.
#[derive(Clone, Debug, PartialEq, Eq)]
pub enum ConfigError {
    /// Some node lists a neighbor that does not list it back.
    UnidirectedConnection,
    /// A connection breaks a rule on roles; the text names the node.
    InvalidNodeConnection(String),
}

/// What a `ConfigError` says, with its text as characters.
pub enum Violation {
    Unidirected,
    Invalid(Seq<char>),
}

impl View for ConfigError {
    type V = Violation;

    open spec fn view(&self) -> Violation {
        match self {
            ConfigError::UnidirectedConnection => Violation::Unidirected,
            ConfigError::InvalidNodeConnection(s) => Violation::Invalid(s@),
        }
    }
}

pub open spec fn role_name(r: Role) -> Seq<char> {
    match r {
        Role::Drone => "Drone"@,
        Role::Client => "Client"@,
        Role::Server => "Server"@,
    }
}

/// A node named by its role and id, as in "Drone 3".
pub open spec fn node_label(r: Role, id: NodeId) -> Seq<char> {
    role_name(r) + " "@ + decimal(id as nat)
}

pub open spec fn self_loop_text(r: Role, id: NodeId) -> Seq<char> {
    node_label(r, id) + " cannot be connected to itself"@
}

pub open spec fn pair_text(r: Role, id: NodeId, other: Role, other_id: NodeId) -> Seq<char> {
    node_label(r, id) + " cannot be connected to "@ + node_label(other, other_id)
}

pub open spec fn isolated_text(r: Role, id: NodeId) -> Seq<char> {
    node_label(r, id) + " is not connected to any node"@
}

/// The first node from index `i` on that lists itself as a neighbor.
pub open spec fn self_loop_from(ns: Seq<DeclaredNode>, i: nat) -> Option<Seq<char>>
    decreases ns.len() - i,
{
    if i >= ns.len() {
        None
    } else if ns[i as int].neighbors.contains(ns[i as int].id) {
        Some(self_loop_text(ns[i as int].role, ns[i as int].id))
    } else {
        self_loop_from(ns, i + 1)
    }
}

/// The role of the first edge node from index `k` on whose id is `id`.
pub open spec fn edge_role_from(ns: Seq<DeclaredNode>, id: NodeId, k: nat) -> Option<Role>
    decreases ns.len() - k,
{
    if k >= ns.len() {
        None
    } else if ns[k as int].id == id && ns[k as int].role.is_edge() {
        Some(ns[k as int].role)
    } else {
        edge_role_from(ns, id, k + 1)
    }
}

/// The first neighbor of node `i`, from position `j` on, that makes an edge-to-edge pair.
pub open spec fn pair_in_node(ns: Seq<DeclaredNode>, i: int, j: nat) -> Option<Seq<char>>
    decreases ns[i].neighbors.len() - j,
{
    if j >= ns[i].neighbors.len() {
        None
    } else {
        let other = ns[i].neighbors[j as int];
        if ns[i].role.is_edge() && edge_role_from(ns, other, 0) is Some {
            Some(pair_text(ns[i].role, ns[i].id, edge_role_from(ns, other, 0)->0, other))
        } else {
            pair_in_node(ns, i, j + 1)
        }
    }
}

/// The first edge-to-edge pair declared by a node from index `i` on.
pub open spec fn pair_from(ns: Seq<DeclaredNode>, i: nat) -> Option<Seq<char>>
    decreases ns.len() - i,
{
    if i >= ns.len() {
        None
    } else if pair_in_node(ns, i as int, 0) is Some {
        pair_in_node(ns, i as int, 0)
    } else {
        pair_from(ns, i + 1)
    }
}

/// The first edge node from index `i` on without any neighbor.
pub open spec fn isolated_from(ns: Seq<DeclaredNode>, i: nat) -> Option<Seq<char>>
    decreases ns.len() - i,
{
    if i >= ns.len() {
        None
    } else if ns[i as int].role.is_edge() && ns[i as int].neighbors.len() == 0 {
        Some(isolated_text(ns[i as int].role, ns[i as int].id))
    } else {
        isolated_from(ns, i + 1)
    }
}

/// Some node with id `id` lists `target` among its neighbors.
pub open spec fn declares(ns: Seq<DeclaredNode>, id: NodeId, target: NodeId) -> bool {
    exists|k: int| 0 <= k < ns.len() && ns[k].id == id && #[trigger] ns[k].neighbors.contains(target)
}

/// Every declared connection is declared from both ends.
pub open spec fn symmetric(ns: Seq<DeclaredNode>) -> bool {
    forall|i: int, j: int|
        0 <= i < ns.len() && 0 <= j < ns[i].neighbors.len() ==> declares(
            ns,
            #[trigger] ns[i].neighbors[j],
            ns[i].id,
        )
}

/// The violation that validation reports: the checks run one after the other,
/// each over all nodes, and the first one that fails decides.
pub open spec fn first_violation(ns: Seq<DeclaredNode>) -> Option<Violation> {
    if self_loop_from(ns, 0) is Some {
        Some(Violation::Invalid(self_loop_from(ns, 0)->0))
    } else if pair_from(ns, 0) is Some {
        Some(Violation::Invalid(pair_from(ns, 0)->0))
    } else if isolated_from(ns, 0) is Some {
        Some(Violation::Invalid(isolated_from(ns, 0)->0))
    } else if !symmetric(ns) {
        Some(Violation::Unidirected)
    } else {
        None
    }
}

proof fn lemma_self_loop_from(ns: Seq<DeclaredNode>, i: nat)
    ensures
        self_loop_from(ns, i) is None <==> forall|k: int|
            i <= k < ns.len() ==> !ns[k].neighbors.contains(ns[k].id),
        self_loop_from(ns, i) is Some ==> exists|k: int|
            i <= k < ns.len() && ns[k].neighbors.contains(ns[k].id) && self_loop_from(ns, i)->0
                == self_loop_text(ns[k].role, ns[k].id),
    decreases ns.len() - i,
{
    if i < ns.len() {
        lemma_self_loop_from(ns, i + 1);
    }
}

proof fn lemma_edge_role_from(ns: Seq<DeclaredNode>, id: NodeId, k: nat)
    ensures
        edge_role_from(ns, id, k) is Some <==> exists|m: int|
            k <= m < ns.len() && ns[m].id == id && ns[m].role.is_edge(),
    decreases ns.len() - k,
{
    if k < ns.len() {
        lemma_edge_role_from(ns, id, k + 1);
    }
}

/// Neither `a` nor `b` is an edge node, or `b` is not the id of any edge node.
pub open spec fn no_edge_pair_at(ns: Seq<DeclaredNode>, a: int, b: int) -> bool {
    !(ns[a].role.is_edge() && exists|m: int|
        0 <= m < ns.len() && ns[m].id == ns[a].neighbors[b] && ns[m].role.is_edge())
}

proof fn lemma_pair_in_node(ns: Seq<DeclaredNode>, i: int, j: nat)
    requires
        0 <= i < ns.len(),
    ensures
        pair_in_node(ns, i, j) is None <==> forall|b: int|
            j <= b < ns[i].neighbors.len() ==> #[trigger] no_edge_pair_at(ns, i, b),
    decreases ns[i].neighbors.len() - j,
{
    if j < ns[i].neighbors.len() {
        lemma_pair_in_node(ns, i, j + 1);
        lemma_edge_role_from(ns, ns[i].neighbors[j as int], 0);
        assert(no_edge_pair_at(ns, i, j as int) <==> !(ns[i].role.is_edge() && edge_role_from(
            ns,
            ns[i].neighbors[j as int],
            0,
        ) is Some));
    }
}

proof fn lemma_pair_from(ns: Seq<DeclaredNode>, i: nat)
    ensures
        pair_from(ns, i) is None <==> forall|a: int, b: int|
            i <= a < ns.len() && 0 <= b < ns[a].neighbors.len() ==> #[trigger] no_edge_pair_at(
                ns,
                a,
                b,
            ),
    decreases ns.len() - i,
{
    if i < ns.len() {
        lemma_pair_from(ns, i + 1);
        lemma_pair_in_node(ns, i as int, 0);
    }
}

proof fn lemma_isolated_from(ns: Seq<DeclaredNode>, i: nat)
    ensures
        isolated_from(ns, i) is None <==> forall|k: int|
            i <= k < ns.len() && ns[k].role.is_edge() ==> ns[k].neighbors.len() > 0,
    decreases ns.len() - i,
{
    if i < ns.len() {
        lemma_isolated_from(ns, i + 1);
    }
}

/// A topology in which some node lists itself as a neighbor is refused with
/// `InvalidNodeConnection`, and the text names a node that lists itself.
pub proof fn lemma_self_loop_is_reported(c: Config)
    requires
        exists|k: int|
            0 <= k < c.nodes().len() && c.nodes()[k].neighbors.contains(c.nodes()[k].id),
    ensures
        exists|k: int|
            0 <= k < c.nodes().len() && c.nodes()[k].neighbors.contains(c.nodes()[k].id)
                && first_violation(c.nodes()) == Some(
                Violation::Invalid(self_loop_text(c.nodes()[k].role, c.nodes()[k].id)),
            ),
{
    lemma_self_loop_from(c.nodes(), 0);
}

/// A topology that passes the rules on roles (no node lists itself, no two
/// edge nodes are connected, every edge node has a neighbor) but in which some
/// node lists a neighbor that does not list it back is refused with
/// `UnidirectedConnection`.
pub proof fn lemma_asymmetry_is_unidirected(c: Config)
    requires
        forall|k: int|
            0 <= k < c.nodes().len() ==> !c.nodes()[k].neighbors.contains(c.nodes()[k].id),
        forall|a: int, b: int|
            0 <= a < c.nodes().len() && 0 <= b < c.nodes()[a].neighbors.len()
                ==> #[trigger] no_edge_pair_at(c.nodes(), a, b),
        forall|k: int|
            0 <= k < c.nodes().len() && c.nodes()[k].role.is_edge() ==> c.nodes()[k].neighbors.len()
                > 0,
        exists|a: int, b: int|
            0 <= a < c.nodes().len() && 0 <= b < c.nodes()[a].neighbors.len() && !declares(
                c.nodes(),
                c.nodes()[a].neighbors[b],
                c.nodes()[a].id,
            ),
    ensures
        first_violation(c.nodes()) == Some(Violation::Unidirected),
{
    let ns = c.nodes();
    lemma_self_loop_from(ns, 0);
    lemma_pair_from(ns, 0);
    lemma_isolated_from(ns, 0);
}

pub open spec fn text_of(r: Option<String>) -> Option<Seq<char>> {
    match r {
        Some(s) => Some(s@),
        None => None,
    }
}

fn role_str(r: Role) -> (s: &'static str)
    ensures
        s@ == role_name(r),
{
    match r {
        Role::Drone => "Drone",
        Role::Client => "Client",
        Role::Server => "Server",
    }
}

fn label(r: Role, id: NodeId) -> (s: String)
    ensures
        s@ == node_label(r, id),
{
    let mut s = String::from_str(role_str(r));
    s.append(" ");
    append_decimal(&mut s, id);
    s
}

/// Whether `v` holds `x`.
pub fn contains_id(v: &Vec<NodeId>, x: NodeId) -> (r: bool)
    ensures
        r == v@.contains(x),
{
    let mut i: usize = 0;
    while i < v.len()
        invariant
            i <= v.len(),
            forall|k: int| 0 <= k < i ==> v@[k] != x,
        decreases v.len() - i,
    {
        if v[i] == x {
            assert(v@[i as int] == x);
            return true;
        }
        i = i + 1;
    }
    false
}

fn find_self_loop(c: &Config) -> (r: Option<String>)
    requires
        c.fits(),
    ensures
        text_of(r) == self_loop_from(c.nodes(), 0),
{
    let n = c.node_count();
    let ghost ns = c.nodes();
    let mut i: usize = 0;
    while i < n
        invariant
            ns == c.nodes(),
            n == ns.len(),
            i <= n,
            self_loop_from(ns, 0) == self_loop_from(ns, i as nat),
        decreases n - i,
    {
        let (id, role, nb) = c.node_at(i);
        if contains_id(nb, id) {
            let mut s = label(role, id);
            s.append(" cannot be connected to itself");
            return Some(s);
        }
        i = i + 1;
    }
    None
}

fn edge_role_of(c: &Config, id: NodeId) -> (r: Option<Role>)
    requires
        c.fits(),
    ensures
        r == edge_role_from(c.nodes(), id, 0),
{
    let n = c.node_count();
    let ghost ns = c.nodes();
    let mut k: usize = 0;
    while k < n
        invariant
            ns == c.nodes(),
            n == ns.len(),
            k <= n,
            edge_role_from(ns, id, 0) == edge_role_from(ns, id, k as nat),
        decreases n - k,
    {
        let (kid, role, _) = c.node_at(k);
        if kid == id && role != Role::Drone {
            return Some(role);
        }
        k = k + 1;
    }
    None
}

fn find_pair(c: &Config) -> (r: Option<String>)
    requires
        c.fits(),
    ensures
        text_of(r) == pair_from(c.nodes(), 0),
{
    let n = c.node_count();
    let ghost ns = c.nodes();
    let mut i: usize = 0;
    while i < n
        invariant
            ns == c.nodes(),
            n == ns.len(),
            i <= n,
            pair_from(ns, 0) == pair_from(ns, i as nat),
        decreases n - i,
    {
        let (id, role, nb) = c.node_at(i);
        let mut j: usize = 0;
        while j < nb.len()
            invariant
                ns == c.nodes(),
                n == ns.len(),
                i < n,
                nb@ == ns[i as int].neighbors,
                id == ns[i as int].id,
                role == ns[i as int].role,
                j <= nb.len(),
                pair_from(ns, 0) == pair_from(ns, i as nat),
                pair_in_node(ns, i as int, 0) == pair_in_node(ns, i as int, j as nat),
            decreases nb.len() - j,
        {
            let other = nb[j];
            if role != Role::Drone {
                let found = edge_role_of(c, other);
                if let Some(other_role) = found {
                    let mut s = label(role, id);
                    s.append(" cannot be connected to ");
                    let tail = label(other_role, other);
                    s.append(tail.as_str());
                    assert(s@ =~= pair_text(role, id, other_role, other));
                    assert(pair_in_node(ns, i as int, j as nat) == Some(
                        pair_text(role, id, other_role, other),
                    ));
                    assert(pair_from(ns, i as nat) == pair_in_node(ns, i as int, 0));
                    return Some(s);
                }
            }
            j = j + 1;
        }
        i = i + 1;
    }
    None
}

fn find_isolated(c: &Config) -> (r: Option<String>)
    requires
        c.fits(),
    ensures
        text_of(r) == isolated_from(c.nodes(), 0),
{
    let n = c.node_count();
    let ghost ns = c.nodes();
    let mut i: usize = 0;
    while i < n
        invariant
            ns == c.nodes(),
            n == ns.len(),
            i <= n,
            isolated_from(ns, 0) == isolated_from(ns, i as nat),
        decreases n - i,
    {
        let (id, role, nb) = c.node_at(i);
        if role != Role::Drone && nb.len() == 0 {
            let mut s = label(role, id);
            s.append(" is not connected to any node");
            return Some(s);
        }
        i = i + 1;
    }
    None
}

fn declares_back(c: &Config, id: NodeId, target: NodeId) -> (r: bool)
    requires
        c.fits(),
    ensures
        r == declares(c.nodes(), id, target),
{
    let n = c.node_count();
    let ghost ns = c.nodes();
    let mut k: usize = 0;
    while k < n
        invariant
            ns == c.nodes(),
            n == ns.len(),
            k <= n,
            forall|m: int| 0 <= m < k ==> !(ns[m].id == id && ns[m].neighbors.contains(target)),
        decreases n - k,
    {
        let (kid, _, nb) = c.node_at(k);
        if kid == id && contains_id(nb, target) {
            return true;
        }
        k = k + 1;
    }
    false
}

fn is_symmetric(c: &Config) -> (r: bool)
    requires
        c.fits(),
    ensures
        r == symmetric(c.nodes()),
{
    let n = c.node_count();
    let ghost ns = c.nodes();
    let mut i: usize = 0;
    while i < n
        invariant
            ns == c.nodes(),
            n == ns.len(),
            i <= n,
            forall|a: int, b: int|
                0 <= a < i && 0 <= b < ns[a].neighbors.len() ==> declares(
                    ns,
                    #[trigger] ns[a].neighbors[b],
                    ns[a].id,
                ),
        decreases n - i,
    {
        let (id, _, nb) = c.node_at(i);
        let mut j: usize = 0;
        while j < nb.len()
            invariant
                ns == c.nodes(),
                n == ns.len(),
                i < n,
                nb@ == ns[i as int].neighbors,
                id == ns[i as int].id,
                j <= nb.len(),
                forall|a: int, b: int|
                    0 <= a < i && 0 <= b < ns[a].neighbors.len() ==> declares(
                        ns,
                        #[trigger] ns[a].neighbors[b],
                        ns[a].id,
                    ),
                forall|b: int|
                    0 <= b < j ==> declares(ns, #[trigger] ns[i as int].neighbors[b], id),
            decreases nb.len() - j,
        {
            if !declares_back(c, nb[j], id) {
                return false;
            }
            j = j + 1;
        }
        i = i + 1;
    }
    true
}

impl Config {
    /// Checks that the topology is sound: no node lists itself, no two edge
    /// nodes are connected, every edge node has a neighbor, and every
    /// connection is declared from both ends, in that order of checks.
    pub fn validate_config(&self) -> (r: Result<(), ConfigError>)
        requires
            self.fits(),
        ensures
            match r {
                Ok(()) => first_violation(self.nodes()) is None,
                Err(e) => first_violation(self.nodes()) == Some(e@),
            },
    {
        if let Some(s) = find_self_loop(self) {
            return Err(ConfigError::InvalidNodeConnection(s));
        }
        if let Some(s) = find_pair(self) {
            return Err(ConfigError::InvalidNodeConnection(s));
        }
        if let Some(s) = find_isolated(self) {
            return Err(ConfigError::InvalidNodeConnection(s));
        }
        if !is_symmetric(self) {
            return Err(ConfigError::UnidirectedConnection);
        }
        Ok(())
    }
}

} // verus!
