//! The static node roster and the choice of peers a receiver forwards to.
use vstd::prelude::*;

verus! {

/// The role a node plays in one run.
#[derive(Debug, Clone, Copy, PartialEq, Eq, Structural)]
pub enum NodeType {
    Sender,
    Receiver,
}

impl Default for NodeType {
    fn default() -> (r: NodeType)
        ensures
            r == NodeType::Receiver,
    {
        NodeType::Receiver
    }
}

/// One entry of the roster.
#[derive(Debug)]
pub struct NodeAddress {
    /// IP address of the node.
    pub ip_addr: String,
    /// UDP port the node listens on.
    pub port: u16,
    pub role: NodeType,
}

/// What a roster entry says: address text, port and role.
pub struct NodeAddressView {
    pub ip_addr: Seq<char>,
    pub port: u16,
    pub role: NodeType,
}

impl View for NodeAddress {
    type V = NodeAddressView;

    open spec fn view(&self) -> NodeAddressView {
        NodeAddressView { ip_addr: self.ip_addr@, port: self.port, role: self.role }
    }
}

impl NodeAddress {
    /// A copy of this entry.
    pub fn duplicate(&self) -> (r: NodeAddress)
        ensures
            r@ == self@,
    {
        NodeAddress { ip_addr: self.ip_addr.clone(), port: self.port, role: self.role }
    }
}

/// Whether a receiver whose own entry is `own` forwards to `n`: every other
/// receiver of the roster.
pub open spec fn is_forward_peer(n: NodeAddressView, own: NodeAddressView) -> bool {
    n.role == NodeType::Receiver && !(n.ip_addr == own.ip_addr && n.port == own.port)
}

/// The entries of `nodes` that a receiver with entry `own` forwards to, in
/// roster order.
pub open spec fn forward_peers(nodes: Seq<NodeAddressView>, own: NodeAddressView) -> Seq<NodeAddressView>
    decreases nodes.len(),
{
    if nodes.len() == 0 {
        Seq::empty()
    } else {
        let rest = forward_peers(nodes.drop_last(), own);
        if is_forward_peer(nodes.last(), own) {
            rest.push(nodes.last())
        } else {
            rest
        }
    }
}

/// The roster as views.
pub open spec fn roster_view(nodes: Seq<NodeAddress>) -> Seq<NodeAddressView> {
    nodes.map_values(|n: NodeAddress| n@)
}

/// The receivers of `nodes` other than `own`, which a receiver forwards
/// relayed packets to.
pub fn forward_targets(nodes: &Vec<NodeAddress>, own: &NodeAddress) -> (r: Vec<NodeAddress>)
    ensures
        roster_view(r@) == forward_peers(roster_view(nodes@), own@),
{
    let mut peers: Vec<NodeAddress> = Vec::new();
    for i in 0..nodes.len()
        invariant
            roster_view(peers@) == forward_peers(roster_view(nodes@.subrange(0, i as int)), own@),
    {
        let n = &nodes[i];
        let ghost prefix = roster_view(nodes@.subrange(0, i + 1));
        assert(prefix.drop_last() =~= roster_view(nodes@.subrange(0, i as int)));
        assert(prefix.last() == n@);
        if n.role == NodeType::Receiver && !(n.port == own.port && n.ip_addr == own.ip_addr) {
            let d = n.duplicate();
            let ghost before = peers@;
            peers.push(d);
            assert(roster_view(peers@) =~= roster_view(before).push(prefix.last()));
        }
    }
    assert(nodes@.subrange(0, nodes@.len() as int) =~= nodes@);
    peers
}

} // verus!
