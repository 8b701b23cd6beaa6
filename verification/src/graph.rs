//! Canonical design graph metadata used before full DP/DPI lowering.

use vstd::prelude::*;
use crate::poset::{poset_view, PosetRef, PosetView};

verus! {

/// Functionality or requirement direction.
#[derive(Clone, Copy, Debug, PartialEq, Eq, Structural)]
pub enum PortDirection {
    /// Functionality provided by the design problem.
    Provides,
    /// Requirement/resource needed by the design problem.
    Requires,
}

/// Public interface port.
#[derive(Debug, PartialEq, Eq)]
pub struct Port {
    /// Port name.
    pub name: String,
    /// Functionality/resource direction.
    pub direction: PortDirection,
    /// Declared poset.
    pub poset: PosetRef,
}

pub struct PortView {
    pub name: Seq<char>,
    pub direction: PortDirection,
    pub poset: PosetView,
}

impl View for Port {
    type V = PortView;

    open spec fn view(&self) -> PortView {
        PortView { name: self.name@, direction: self.direction, poset: poset_view(self.poset) }
    }
}

impl Port {
    /// Creates a port.
    pub fn new(name: String, direction: PortDirection, poset: PosetRef) -> (r: Port)
        ensures
            r@ == (PortView { name: name@, direction, poset: poset_view(poset) }),
    {
        Port { name, direction, poset }
    }
}

/// Subproblem node in a composite graph.
#[derive(Clone, Debug, PartialEq, Eq)]
pub struct Node {
    /// Local instance name.
    pub name: String,
    /// Referenced model/template/catalog.
    pub model: String,
}

pub struct NodeView {
    pub name: Seq<char>,
    pub model: Seq<char>,
}

impl View for Node {
    type V = NodeView;

    open spec fn view(&self) -> NodeView {
        NodeView { name: self.name@, model: self.model@ }
    }
}

impl Node {
    /// Creates a subproblem node.
    pub fn new(name: String, model: String) -> (r: Node)
        ensures
            r@ == (NodeView { name: name@, model: model@ }),
    {
        Node { name, model }
    }
}

/// Constraint relation.
#[derive(Clone, Copy, Debug, PartialEq, Eq, Structural)]
pub enum Relation {
    /// Less-than-or-equal in the relevant poset.
    Leq,
    /// Greater-than-or-equal in the relevant poset.
    Geq,
    /// Equality.
    Eq,
}

/// Source-preserving constraint shell.
#[derive(Clone, Debug, PartialEq, Eq)]
pub struct Constraint {
    /// Left expression text.
    pub left: String,
    /// Relation.
    pub relation: Relation,
    /// Right expression text.
    pub right: String,
}

pub struct ConstraintView {
    pub left: Seq<char>,
    pub relation: Relation,
    pub right: Seq<char>,
}

impl View for Constraint {
    type V = ConstraintView;

    open spec fn view(&self) -> ConstraintView {
        ConstraintView { left: self.left@, relation: self.relation, right: self.right@ }
    }
}

impl Constraint {
    /// Creates a constraint.
    pub fn new(left: String, relation: Relation, right: String) -> (r: Constraint)
        ensures
            r@ == (ConstraintView { left: left@, relation, right: right@ }),
    {
        Constraint { left, relation, right }
    }
}

/// Canonical graph shell for a named design problem.
#[derive(Debug, Default, PartialEq, Eq)]
pub struct DesignGraph {
    /// Optional model name.
    pub name: Option<String>,
    /// Public interface ports.
    pub ports: Vec<Port>,
    /// Subproblem instances.
    pub nodes: Vec<Node>,
    /// Interconnection and bound constraints.
    pub constraints: Vec<Constraint>,
}

/// What a design graph holds.
pub struct GraphView {
    pub name: Option<Seq<char>>,
    pub ports: Seq<PortView>,
    pub nodes: Seq<NodeView>,
    pub constraints: Seq<ConstraintView>,
}

impl View for DesignGraph {
    type V = GraphView;

    open spec fn view(&self) -> GraphView {
        GraphView {
            name: match self.name {
                Some(n) => Some(n@),
                None => None,
            },
            ports: self.ports@.map_values(|p: Port| p@),
            nodes: self.nodes@.map_values(|n: Node| n@),
            constraints: self.constraints@.map_values(|c: Constraint| c@),
        }
    }
}

} // verus!
