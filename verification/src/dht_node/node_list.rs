//! Lists of overlay nodes, kept in a vector that holds a few nodes in place.

use crate::dht_node::proto::{OverlayNode, OverlayNodeView};
use smallvec::SmallVec;
use vstd::prelude::*;

verus! {

/// A list of overlay nodes. The first five nodes lie in the list itself.
#[verifier::external_body]
pub struct NodeList {
    nodes: SmallVec<[OverlayNode; 5]>,
}

/// The nodes that a list holds, in their order.
pub uninterp spec fn list_nodes(list: NodeList) -> Seq<OverlayNodeView>;

impl View for NodeList {
    type V = Seq<OverlayNodeView>;

    open spec fn view(&self) -> Seq<OverlayNodeView> {
        list_nodes(*self)
    }
}

/// `SmallVec::new`: the new list holds nothing.
#[verifier::external_body]
fn list_new() -> (list: NodeList)
    ensures
        list_nodes(list).len() == 0,
{
    NodeList { nodes: SmallVec::new() }
}

/// `SmallVec::len`: the number of nodes in the list.
#[verifier::external_body]
fn list_len(list: &NodeList) -> (len: usize)
    ensures
        len == list_nodes(*list).len(),
{
    list.nodes.len()
}

/// `SmallVec::push`: the node is appended to the list.
#[verifier::external_body]
fn list_push(list: &mut NodeList, node: OverlayNode)
    ensures
        list_nodes(*final(list)) == list_nodes(*old(list)).push(node@),
{
    list.nodes.push(node);
}

/// Indexing of a `SmallVec` through its slice: the node at a position.
#[verifier::external_body]
fn list_get(list: &NodeList, at: usize) -> (node: &OverlayNode)
    requires
        at < list_nodes(*list).len(),
    ensures
        node@ == list_nodes(*list)[at as int],
{
    &list.nodes[at]
}

impl NodeList {
    /// A list without nodes.
    pub fn new() -> (list: Self)
        ensures
            list@ == Seq::<OverlayNodeView>::empty(),
    {
        let list = list_new();
        assert(list@ =~= Seq::empty());
        list
    }

    /// The number of nodes.
    pub fn len(&self) -> (len: usize)
        ensures
            len == self@.len(),
    {
        list_len(self)
    }

    pub fn is_empty(&self) -> (empty: bool)
        ensures
            empty == (self@.len() == 0),
    {
        list_len(self) == 0
    }

    /// Appends a node.
    pub fn push(&mut self, node: OverlayNode)
        ensures
            final(self)@ == old(self)@.push(node@),
    {
        list_push(self, node);
    }

    /// The node at a position.
    pub fn get(&self, at: usize) -> (node: &OverlayNode)
        requires
            at < self@.len(),
        ensures
            node@ == self@[at as int],
    {
        list_get(self, at)
    }
}

} // verus!
