//! What a path search needs of a graph: node indices, costed edges, and the
//! operations that a kind of graph offers.

use crate::types::maze::CELLS;
use crate::types::{AgentState, Error};
use core::marker::PhantomData;
use vstd::prelude::*;

pub mod four_way_grid;

verus! {

/// The integer that a node index holds.
pub type NodeIndexValue = i16;

/// The cost of an edge or of a way through the graph.
pub type Cost = i32;

/// Most edges that can leave one node.
pub const MAX_NEIGHBORS: usize = 8;

/// `heapless::Vec`, a list with room for `N` items that lives where it is
/// declared. Nothing is known of what such a list holds but what the
/// functions that fill it say.
#[verifier::external_type_specification]
#[verifier::external_body]
#[verifier::reject_recursive_types(T)]
pub struct ExHeaplessVec<T, const N: usize>(heapless::Vec<T, N>);

/// The index of a node in a graph of kind `T`. The kind is part of the type
/// only: the value held is the integer alone.
#[derive(Debug, Eq)]
pub struct NodeIndex<T> {
    value: NodeIndexValue,
    graph_type: PhantomData<T>,
}

impl<T> View for NodeIndex<T> {
    type V = int;

    closed spec fn view(&self) -> int {
        self.value as int
    }
}

impl<T> NodeIndex<T> {
    /// The index `value`, if it lies between 0 and `max`.
    pub(crate) fn bounded(value: NodeIndexValue, max: NodeIndexValue) -> (r: Result<Self, Error>)
        ensures
            match r {
                Ok(index) => 0 <= value <= max && index@ == value,
                Err(e) => !(0 <= value <= max) && e == Error::OutOfRange,
            },
    {
        if value < 0 || value > max {
            Err(Error::OutOfRange)
        } else {
            Ok(Self { value, graph_type: PhantomData })
        }
    }

    /// The integer that the index holds.
    #[inline]
    pub fn value(&self) -> (v: NodeIndexValue)
        ensures
            v == self@,
    {
        self.value
    }
}

impl<T: GraphBase> NodeIndex<T> {
    /// Whether this index names a node of the graph.
    pub open spec fn in_range(self) -> bool {
        0 <= self@ <= T::MAX_NODE_INDEX
    }

    /// The index `value`, if it names a node of the graph.
    #[inline]
    pub fn new(value: NodeIndexValue) -> (r: Result<Self, Error>)
        ensures
            match r {
                Ok(index) => 0 <= value <= T::MAX_NODE_INDEX && index@ == value,
                Err(e) => !(0 <= value <= T::MAX_NODE_INDEX) && e == Error::OutOfRange,
            },
    {
        Self::bounded(value, T::MAX_NODE_INDEX)
    }

    /// The pose of an agent at this node, as the graph gives it.
    #[inline]
    pub fn to_agent_state(&self, from_index: Option<NodeIndex<T>>) -> (state: AgentState)
        requires
            self.in_range(),
            from_index matches Some(from) ==> from.in_range(),
        ensures
            call_ensures(T::agent_state_by_node_index, (*self, from_index), state),
    {
        T::agent_state_by_node_index(*self, from_index)
    }
}

impl<T> PartialEq for NodeIndex<T> {
    #[inline]
    fn eq(&self, other: &Self) -> (r: bool) {
        self.value == other.value
    }
}

impl<T> vstd::std_specs::cmp::PartialEqSpecImpl for NodeIndex<T> {
    open spec fn obeys_eq_spec() -> bool {
        true
    }

    open spec fn eq_spec(&self, other: &Self) -> bool {
        self@ == other@
    }
}

impl<T> PartialOrd for NodeIndex<T> {
    #[inline]
    fn partial_cmp(&self, other: &Self) -> (r: Option<core::cmp::Ordering>) {
        Some(self.value.cmp(&other.value))
    }
}

impl<T> vstd::std_specs::cmp::PartialOrdSpecImpl for NodeIndex<T> {
    open spec fn obeys_partial_cmp_spec() -> bool {
        true
    }

    open spec fn partial_cmp_spec(&self, other: &Self) -> Option<core::cmp::Ordering> {
        if self@ < other@ {
            Some(core::cmp::Ordering::Less)
        } else if self@ == other@ {
            Some(core::cmp::Ordering::Equal)
        } else {
            Some(core::cmp::Ordering::Greater)
        }
    }
}

impl<T> Copy for NodeIndex<T> {

}

impl<T> Clone for NodeIndex<T> {
    #[inline]
    fn clone(&self) -> (r: Self)
        ensures
            r == *self,
    {
        Self { value: self.value, graph_type: PhantomData }
    }
}

/// What an edge holds: the indices of its two ends and its cost.
pub ghost struct EdgeView {
    pub from: int,
    pub to: int,
    pub cost: Cost,
}

/// A step from one node to another, with the cost of taking it.
#[derive(Debug, Copy, Clone, PartialEq, Eq)]
pub struct Edge<T> {
    from: NodeIndex<T>,
    to: NodeIndex<T>,
    cost: Cost,
}

impl<T> View for Edge<T> {
    type V = EdgeView;

    closed spec fn view(&self) -> EdgeView {
        EdgeView { from: self.from@, to: self.to@, cost: self.cost }
    }
}

impl<T> Edge<T> {
    /// The edge between two nodes at a cost that the caller has worked out.
    pub(crate) fn with_cost(from: NodeIndex<T>, to: NodeIndex<T>, cost: Cost) -> (edge: Self)
        ensures
            edge@ == (EdgeView { from: from@, to: to@, cost }),
            edge.from() == from,
            edge.to() == to,
    {
        Self { from, to, cost }
    }

    /// The node that the edge leaves.
    pub closed spec fn source(&self) -> NodeIndex<T> {
        self.from
    }

    /// The node that the edge reaches.
    pub closed spec fn target(&self) -> NodeIndex<T> {
        self.to
    }

    /// The node that the edge leaves.
    #[inline]
    #[verifier::when_used_as_spec(source)]
    pub fn from(&self) -> (r: NodeIndex<T>)
        ensures
            r == self.source(),
            r@ == self@.from,
    {
        self.from
    }

    /// The node that the edge reaches.
    #[inline]
    #[verifier::when_used_as_spec(target)]
    pub fn to(&self) -> (r: NodeIndex<T>)
        ensures
            r == self.target(),
            r@ == self@.to,
    {
        self.to
    }

    /// The cost of taking the edge.
    #[inline]
    pub fn cost(&self) -> (r: Cost)
        ensures
            r == self@.cost,
    {
        self.cost
    }
}

impl<T: GraphBase> Edge<T> {
    /// Whether both ends of the edge name nodes of the graph.
    pub open spec fn in_range(self) -> bool {
        self.from().in_range() && self.to().in_range()
    }

    /// The edge between two nodes, at the cost that the graph gives as their distance.
    #[inline]
    pub fn new(from: NodeIndex<T>, to: NodeIndex<T>) -> (edge: Self)
        requires
            from.in_range(),
            to.in_range(),
        ensures
            edge.from() == from,
            edge.to() == to,
            edge@.from == from@,
            edge@.to == to@,
            call_ensures(T::distance, (from, to), edge@.cost),
    {
        Self::with_cost(from, to, T::distance(from, to))
    }

    /// The pose of an agent at the node that the edge leaves.
    #[inline]
    pub fn agent_state_at_from(&self) -> (state: AgentState)
        requires
            self.in_range(),
        ensures
            call_ensures(
                T::agent_state_by_node_index,
                (self.from(), None::<NodeIndex<T>>),
                state,
            ),
    {
        self.from.to_agent_state(None)
    }

    /// The pose of an agent at the node that the edge reaches, coming along the edge.
    #[inline]
    pub fn agent_state_at_to(&self) -> (state: AgentState)
        requires
            self.in_range(),
        ensures
            call_ensures(T::agent_state_by_node_index, (self.to(), Some(self.from())), state),
    {
        self.to.to_agent_state(Some(self.from))
    }
}

/// A walk through the graph and what it costs.
#[verifier::reject_recursive_types(T)]
#[derive(Debug, PartialEq, Eq)]
pub struct Route<T> {
    nodes: heapless::Vec<NodeIndex<T>, CELLS>,
    cost: Cost,
}

/// What a kind of graph offers to a path search.
pub trait GraphBase: Sized {
    /// The largest index that names a node.
    const MAX_NODE_INDEX: NodeIndexValue;

    /// The cost of going from one node to another.
    fn distance(from: NodeIndex<Self>, to: NodeIndex<Self>) -> Cost
        requires
            0 <= from@ <= Self::MAX_NODE_INDEX,
            0 <= to@ <= Self::MAX_NODE_INDEX,
    ;

    /// A cost that going from one node to another is sure to reach or exceed.
    fn optimistic_distance(from: NodeIndex<Self>, to: NodeIndex<Self>) -> Cost
        requires
            0 <= from@ <= Self::MAX_NODE_INDEX,
            0 <= to@ <= Self::MAX_NODE_INDEX,
    ;

    /// The pose of an agent at a node; where the node it came from is given,
    /// the heading is the displacement from there.
    fn agent_state_by_node_index(
        index: NodeIndex<Self>,
        from_index: Option<NodeIndex<Self>>,
    ) -> AgentState
        requires
            0 <= index@ <= Self::MAX_NODE_INDEX,
            from_index matches Some(from) ==> 0 <= from@ <= Self::MAX_NODE_INDEX,
    ;

    /// The node at which an agent in the given pose stands, if the graph has one there.
    fn node_index_by_agent_state(agent_state: AgentState) -> Result<NodeIndex<Self>, Error>;

    /// The edges that leave a node.
    fn neighbors(&self, from: NodeIndex<Self>) -> heapless::Vec<Edge<Self>, MAX_NEIGHBORS>
        requires
            0 <= from@ <= Self::MAX_NODE_INDEX,
    ;

    /// The edge from one node to another, if there is one.
    fn edge(&self, from: NodeIndex<Self>, to: NodeIndex<Self>) -> Option<Edge<Self>>
        requires
            0 <= from@ <= Self::MAX_NODE_INDEX,
            0 <= to@ <= Self::MAX_NODE_INDEX,
    ;
}

} // verus!
