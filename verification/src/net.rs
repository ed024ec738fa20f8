//! Interaction nets, as the readback into terms reads them: nodes with a
//! main port and two auxiliary ports, each linked to a port of a node.
use vstd::prelude::*;
use crate::term::DefId;
use hvmc::run::Val;

verus! {

pub type NodeId = usize;

pub type SlotId = u64;

/// A port: a node and one of its three slots (0 is the main port).
#[derive(Clone, Copy, PartialEq, Eq, Structural)]
pub struct Port(pub NodeId, pub SlotId);

impl Port {
    pub fn node(self) -> (r: NodeId)
        ensures
            r == self.0,
    {
        self.0
    }

    pub fn slot(self) -> (r: SlotId)
        ensures
            r == self.1,
    {
        self.1
    }
}

/// The port that the root of a net is linked to.
pub open spec fn root() -> Port {
    Port(0, 1)
}

#[derive(Clone, Copy, PartialEq, Eq, Structural)]
pub enum NodeKind {
    /// The root node.
    Rot,
    Era,
    Con { lab: u32 },
    Tup,
    Dup { lab: u32 },
    Num { val: u32 },
    Op2 { opr: Val },
    Mat,
    Ref { def_id: DefId },
}

pub struct Node {
    pub main: Port,
    pub aux1: Port,
    pub aux2: Port,
    pub kind: NodeKind,
}

impl Node {
    pub open spec fn port_at(&self, slot: SlotId) -> Port {
        if slot == 0 {
            self.main
        } else if slot == 1 {
            self.aux1
        } else {
            self.aux2
        }
    }

    /// The port that a slot of the node is linked to.
    pub fn port(&self, slot: SlotId) -> (r: Port)
        requires
            slot < 3,
        ensures
            r == self.port_at(slot),
    {
        if slot == 0 {
            self.main
        } else if slot == 1 {
            self.aux1
        } else {
            self.aux2
        }
    }
}

pub struct INet {
    pub nodes: Vec<Node>,
}

/// Whether a port names a node of the net and one of its three slots.
pub open spec fn valid_port(net: &INet, p: Port) -> bool {
    p.0 < net.nodes@.len() && p.1 < 3
}

impl INet {
    /// Every port of every node is linked to a valid port.
    pub open spec fn wf(&self) -> bool {
        forall|i: int, s: SlotId|
            0 <= i < self.nodes@.len() && s < 3 ==> valid_port(self, #[trigger] self.nodes@[i].port_at(s))
    }

    pub open spec fn kind_at(&self, n: NodeId) -> NodeKind {
        self.nodes@[n as int].kind
    }

    /// The port linked to `p`.
    pub open spec fn spec_enter(&self, p: Port) -> Port {
        self.nodes@[p.0 as int].port_at(p.1)
    }

    pub fn node(&self, node: NodeId) -> (r: &Node)
        requires
            node < self.nodes@.len(),
        ensures
            *r == self.nodes@[node as int],
    {
        &self.nodes[node]
    }

    /// The port linked to a port.
    pub fn enter_port(&self, port: Port) -> (r: Port)
        requires
            valid_port(self, port),
        ensures
            r == self.spec_enter(port),
    {
        self.node(port.node()).port(port.slot())
    }
}

/// The port of the root node that the net's term hangs from.
pub fn root_port() -> (r: Port)
    ensures
        r == root(),
{
    Port(0, 1)
}

} // verus!
