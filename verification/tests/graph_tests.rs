use amaze::graph::{Cost, Edge, GraphBase, NodeIndex, NodeIndexValue, MAX_NEIGHBORS};
use amaze::types::{AgentState, CellLocalLocation, CoordXY, Error, VectorXY};

pub struct DummyGraph {}

impl GraphBase for DummyGraph {
    const MAX_NODE_INDEX: NodeIndexValue = 10;
    fn distance(_from: NodeIndex<Self>, _to: NodeIndex<Self>) -> Cost {
        1
    }
    fn optimistic_distance(_from: NodeIndex<Self>, _to: NodeIndex<Self>) -> Cost {
        1
    }
    fn agent_state_by_node_index(
        _index: NodeIndex<Self>,
        _from_index: Option<NodeIndex<Self>>,
    ) -> AgentState {
        AgentState {
            location: CoordXY::new(0, 0).unwrap(),
            local_location: CellLocalLocation::Center,
            heading_vector: VectorXY { x: 0, y: 1 },
        }
    }
    fn node_index_by_agent_state(_agent_state: AgentState) -> Result<NodeIndex<Self>, Error> {
        Ok(NodeIndex::new(1).unwrap())
    }
    fn neighbors(&self, _from: NodeIndex<Self>) -> heapless::Vec<Edge<Self>, MAX_NEIGHBORS> {
        heapless::Vec::<Edge<Self>, MAX_NEIGHBORS>::new()
    }
    fn edge(&self, _from: NodeIndex<Self>, _to: NodeIndex<Self>) -> Option<Edge<Self>> {
        None
    }
}

#[test]
fn node_index_new() {
    assert_eq!(NodeIndex::<DummyGraph>::new(0).unwrap().value(), 0)
}

#[test]
fn node_index_new_out_of_range() {
    assert!(NodeIndex::<DummyGraph>::new(11).is_err());
    assert_eq!(
        NodeIndex::<DummyGraph>::new(11).err(),
        Some(Error::OutOfRange)
    );
}

#[test]
fn node_index_to_agent_state() {
    assert_eq!(
        NodeIndex::<DummyGraph>::new(0)
            .unwrap()
            .to_agent_state(None),
        AgentState {
            location: CoordXY::new(0, 0).unwrap(),
            local_location: CellLocalLocation::Center,
            heading_vector: VectorXY { x: 0, y: 1 },
        }
    );
}

#[test]
fn edge_new() {
    let edge: Edge<DummyGraph> =
        Edge::new(NodeIndex::new(0).unwrap(), NodeIndex::new(1).unwrap());
    assert_eq!(edge.from().value(), 0);
    assert_eq!(edge.to().value(), 1);
    assert_eq!(edge.cost(), 1);
}

#[test]
fn edge_agent_state_at_from() {
    let edge: Edge<DummyGraph> =
        Edge::new(NodeIndex::new(0).unwrap(), NodeIndex::new(1).unwrap());
    let agent_state = edge.agent_state_at_from();
    assert_eq!(
        agent_state,
        AgentState {
            location: CoordXY::new(0, 0).unwrap(),
            local_location: CellLocalLocation::Center,
            heading_vector: VectorXY { x: 0, y: 1 },
        }
    );
}

#[test]
fn edge_agent_state_at_to() {
    let edge: Edge<DummyGraph> =
        Edge::new(NodeIndex::new(0).unwrap(), NodeIndex::new(1).unwrap());
    let agent_state = edge.agent_state_at_from();
    assert_eq!(
        agent_state,
        AgentState {
            location: CoordXY::new(0, 0).unwrap(),
            local_location: CellLocalLocation::Center,
            heading_vector: VectorXY { x: 0, y: 1 },
        }
    );
}
