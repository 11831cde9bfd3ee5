//! The graph of a maze in which an agent moves from cell to cell in the four
//! cardinal directions.

use crate::graph::{Cost, Edge, EdgeView, GraphBase, NodeIndex, NodeIndexValue, MAX_NEIGHBORS};
use crate::types::cell::{Cell, CellFlags};
use crate::types::maze::step;
use crate::types::{
    on_grid, AgentState, CellLocalLocation, CoordXY, Direction, Error, Maze, VectorXY, WIDTH,
};
use vstd::prelude::*;

verus! {

/// The four-directional grid graph of a maze. Node `x + y * WIDTH` is cell `(x, y)`.
#[derive(Debug)]
pub struct Graph {
    pub maze: Maze,
}

/// The width of the grid, as an index value.
const SIDE: NodeIndexValue = WIDTH as NodeIndexValue;

/// The distance between two integers.
pub open spec fn gap(a: int, b: int) -> int {
    if a <= b {
        b - a
    } else {
        a - b
    }
}

impl Graph {
    /// Whether `index` names a cell of the grid.
    pub open spec fn is_node(index: int) -> bool {
        0 <= index < WIDTH * WIDTH
    }

    /// The cell that node `index` stands for.
    pub open spec fn xy_from_index(index: int) -> (int, int) {
        (index % (WIDTH as int), index / (WIDTH as int))
    }

    /// The node that stands for cell `(x, y)`.
    pub open spec fn index_from_xy(x: int, y: int) -> int {
        x + y * WIDTH
    }

    /// The displacement from the cell of node `from` to the cell of node `to`.
    pub open spec fn vector_between(from: int, to: int) -> VectorXY {
        let (fx, fy) = Self::xy_from_index(from);
        let (tx, ty) = Self::xy_from_index(to);
        VectorXY { x: (tx - fx) as i8, y: (ty - fy) as i8 }
    }

    /// By how much the index of a node changes along a displacement.
    pub open spec fn index_diff(vector: VectorXY) -> int {
        vector.x + vector.y * WIDTH
    }

    /// The Manhattan distance between the cells of two nodes.
    pub open spec fn manhattan(from: int, to: int) -> int {
        let (fx, fy) = Self::xy_from_index(from);
        let (tx, ty) = Self::xy_from_index(to);
        gap(fx, tx) + gap(fy, ty)
    }

    /// The edge that leaves node `from` in the given direction, where `cell`
    /// holds the flags of that node's cell: there is one where no wall stands
    /// on that side and the step stays on the grid.
    pub open spec fn step_edge(cell: CellFlags, direction: Direction, from: int) -> Option<
        EdgeView,
    > {
        let (x, y) = Self::xy_from_index(from);
        let (nx, ny) = step(x, y, direction);
        if !cell.wall(direction) && on_grid(nx, ny) {
            Some(EdgeView { from, to: Self::index_from_xy(nx, ny), cost: 1 })
        } else {
            None
        }
    }

    /// The edge from node `from` to node `to`: there is one where `to` is one
    /// cardinal step from `from` and no wall stands in the way.
    pub open spec fn edge_between(self, from: int, to: int) -> Option<EdgeView> {
        match Self::vector_between(from, to).direction() {
            Some(direction) => Self::step_edge(
                self.maze@.cells[Self::xy_from_index(from)],
                direction,
                from,
            ),
            None => None,
        }
    }

    /// The edges that leave node `from`, in the order north, east, south, west.
    pub open spec fn neighbor_edges(self, from: int) -> Seq<EdgeView> {
        let cell = self.maze@.cells[Self::xy_from_index(from)];
        listed(Self::step_edge(cell, Direction::North, from)) + listed(
            Self::step_edge(cell, Direction::East, from),
        ) + listed(Self::step_edge(cell, Direction::South, from)) + listed(
            Self::step_edge(cell, Direction::West, from),
        )
    }

    /// The cell that a node stands for; `OutOfRange` where the index names no node.
    pub fn coord_xy_by_node_index(index: NodeIndex<Self>) -> (r: Result<CoordXY, Error>)
        ensures
            match r {
                Ok(coord) => Self::is_node(index@) && coord@ == Self::xy_from_index(index@),
                Err(e) => !Self::is_node(index@) && e == Error::OutOfRange,
            },
    {
        let value: NodeIndexValue = index.value();
        if value < 0 || value > Self::MAX_NODE_INDEX {
            return Err(Error::OutOfRange);
        }
        let x: NodeIndexValue = value % SIDE;
        let y: NodeIndexValue = value / SIDE;
        CoordXY::new(x as u8, y as u8)
    }

    /// The displacement from the cell of one node to the cell of another.
    pub fn vector_xy_by_node_index_pair(from: NodeIndex<Self>, to: NodeIndex<Self>) -> (vector:
        VectorXY)
        requires
            Self::is_node(from@),
            Self::is_node(to@),
        ensures
            vector == Self::vector_between(from@, to@),
    {
        Self::coord_xy_by_node_index(to).unwrap() - Self::coord_xy_by_node_index(from).unwrap()
    }

    /// By how much the index of a node changes along a displacement.
    pub fn node_index_diff_by_vector_xy(vector: VectorXY) -> (diff: NodeIndexValue)
        ensures
            diff == Self::index_diff(vector),
    {
        vector.x as NodeIndexValue + vector.y as NodeIndexValue * SIDE
    }

    /// The node that stands for a cell. Every cell has one.
    pub fn node_index_by_coord_xy(coord: CoordXY) -> (r: Result<NodeIndex<Self>, Error>)
        ensures
            r is Ok,
            r->Ok_0@ == Self::index_from_xy(coord@.0, coord@.1),
            Self::is_node(r->Ok_0@),
    {
        let x: NodeIndexValue = coord.x().value() as NodeIndexValue;
        let y: NodeIndexValue = coord.y().value() as NodeIndexValue;
        NodeIndex::bounded(x + y * SIDE, Self::MAX_NODE_INDEX)
    }

    /// The edge that leaves node `index` in the given direction, where `cell`
    /// is the cell of that node: there is one where the cell has no wall on
    /// that side and the step stays on the grid.
    pub fn edge_impl(cell: Cell, direction: Direction, index: NodeIndex<Self>) -> (r: Option<
        Edge<Self>,
    >)
        requires
            Self::is_node(index@),
        ensures
            view_of(r) == Self::step_edge(cell@, direction, index@),
    {
        if cell.state_by_direction(direction) {
            return None;
        }
        let here = Self::coord_xy_by_node_index(index).unwrap();
        match here + direction.into() {
            Ok(_) => {
                let to = NodeIndex::bounded(
                    index.value() + Self::node_index_diff_by_vector_xy(direction.into()),
                    Self::MAX_NODE_INDEX,
                ).unwrap();
                Some(Edge::with_cost(index, to, Self::distance(index, to)))
            },
            Err(_) => None,
        }
    }
}

/// Whether the cell of node `to` is one step in the given direction from the
/// cell of node `from`.
pub open spec fn is_step(from: int, to: int, direction: Direction) -> bool {
    let (x, y) = Graph::xy_from_index(from);
    Graph::xy_from_index(to) == step(x, y, direction)
}

/// The place of a direction in the order north, east, south, west.
pub open spec fn turn(direction: Direction) -> int {
    match direction {
        Direction::North => 0,
        Direction::East => 1,
        Direction::South => 2,
        Direction::West => 3,
    }
}

/// The place in that order of the direction in which node `to` lies one step
/// from node `from`; 4 where it lies in none.
pub open spec fn turn_towards(from: int, to: int) -> int {
    match Graph::vector_between(from, to).direction() {
        Some(direction) => turn(direction),
        None => 4,
    }
}

/// Going from a cell to its node and back gives the cell again.
pub proof fn lemma_xy_round_trip(x: int, y: int)
    requires
        on_grid(x, y),
    ensures
        Graph::is_node(Graph::index_from_xy(x, y)),
        Graph::xy_from_index(Graph::index_from_xy(x, y)) == (x, y),
{
}

/// Going from a node to its cell and back gives the node again.
pub proof fn lemma_index_round_trip(index: int)
    requires
        Graph::is_node(index),
    ensures
        on_grid(Graph::xy_from_index(index).0, Graph::xy_from_index(index).1),
        Graph::index_from_xy(Graph::xy_from_index(index).0, Graph::xy_from_index(index).1)
            == index,
{
}

/// The largest node index is that of the last cell of the grid: the nodes
/// are the indices from 0 to `MAX_NODE_INDEX`.
pub proof fn lemma_max_node_index()
    ensures
        Graph::MAX_NODE_INDEX == WIDTH * WIDTH - 1,
        forall|index: int| Graph::is_node(index) <==> 0 <= index <= Graph::MAX_NODE_INDEX,
{
}

/// Two nodes whose cells are one cardinal step apart are at distance 1.
pub proof fn lemma_adjacent_distance(from: int, to: int, direction: Direction)
    requires
        Graph::is_node(from),
        Graph::is_node(to),
        is_step(from, to, direction),
    ensures
        Graph::manhattan(from, to) == 1,
        Graph::vector_between(from, to) == direction.unit(),
        to == from + Graph::index_diff(direction.unit()),
{
}

/// Whether the cell of node `to` is one cardinal step from the cell of node `from`.
pub open spec fn is_adjacent(from: int, to: int) -> bool {
    exists|direction: Direction| is_step(from, to, direction)
}

/// Whether `path` is a walk on the grid: a list of nodes, each one cardinal
/// step from the one before it.
pub open spec fn is_walk(path: Seq<int>) -> bool {
    &&& path.len() > 0
    &&& forall|i: int| 0 <= i < path.len() ==> Graph::is_node(#[trigger] path[i])
    &&& forall|i: int| 0 <= i < path.len() - 1 ==> is_adjacent(#[trigger] path[i], path[i + 1])
}

/// The Manhattan distance never overestimates: no walk from one node to
/// another takes fewer steps.
pub proof fn lemma_manhattan_is_admissible(path: Seq<int>)
    requires
        is_walk(path),
    ensures
        Graph::manhattan(path.first(), path.last()) <= path.len() - 1,
    decreases path.len(),
{
    if path.len() > 1 {
        let shorter = path.drop_last();
        assert forall|i: int| 0 <= i < shorter.len() - 1 implies is_adjacent(
            #[trigger] shorter[i],
            shorter[i + 1],
        ) by {
            assert(is_adjacent(path[i], path[i + 1]));
        }
        lemma_manhattan_is_admissible(shorter);
        let before = path[path.len() - 2];
        assert(is_adjacent(before, path[path.len() - 2 + 1]));
        let direction = choose|direction: Direction| is_step(before, path.last(), direction);
        lemma_adjacent_distance(before, path.last(), direction);
        assert(shorter.first() == path.first() && shorter.last() == before);
    }
}

/// Between two nodes there is an edge if and only if the second is one
/// cardinal step from the first and no wall stands on that side of the
/// first; the edge then runs between the two at cost 1, their distance.
pub proof fn lemma_edge_between(graph: Graph, from: int, to: int)
    requires
        Graph::is_node(from),
        Graph::is_node(to),
    ensures
        graph.edge_between(from, to) is Some <==> exists|direction: Direction|
            is_step(from, to, direction) && !#[trigger] graph.maze@.wall(
                Graph::xy_from_index(from).0,
                Graph::xy_from_index(from).1,
                direction,
            ),
        graph.edge_between(from, to) matches Some(edge) ==> edge == (EdgeView { from, to, cost: 1 })
            && edge.cost == Graph::manhattan(from, to),
{
    let (x, y) = Graph::xy_from_index(from);
    match Graph::vector_between(from, to).direction() {
        Some(direction) => {
            assert(is_step(from, to, direction));
            assert forall|other: Direction| is_step(from, to, other) implies other
                == direction by {}
            if graph.edge_between(from, to) is Some {
                assert(is_step(from, to, direction) && !graph.maze@.wall(x, y, direction));
            }
        },
        None => {
            assert forall|other: Direction| !is_step(from, to, other) by {
                if is_step(from, to, other) {
                    lemma_adjacent_distance(from, to, other);
                }
            }
        },
    }
}

/// A node has at most four edges. Each is the edge between the node and the
/// node it reaches, every such edge is among them, and they stand in the
/// order north, east, south, west of the directions in which they leave.
pub proof fn lemma_neighbor_edges(graph: Graph, from: int)
    requires
        Graph::is_node(from),
    ensures
        graph.neighbor_edges(from).len() <= 4,
        forall|i: int|
            0 <= i < graph.neighbor_edges(from).len() ==> {
                let edge = #[trigger] graph.neighbor_edges(from)[i];
                &&& edge.from == from
                &&& Graph::is_node(edge.to)
                &&& graph.edge_between(from, edge.to) == Some(edge)
            },
        forall|to: int|
            Graph::is_node(to) && graph.edge_between(from, to) is Some
                ==> graph.neighbor_edges(from).contains(#[trigger] graph.edge_between(from, to)->0),
        forall|i: int, j: int|
            0 <= i < j < graph.neighbor_edges(from).len() ==> turn_towards(
                from,
                #[trigger] graph.neighbor_edges(from)[i].to,
            ) < turn_towards(from, #[trigger] graph.neighbor_edges(from)[j].to),
{
    let edges = graph.neighbor_edges(from);
    let (x, y) = Graph::xy_from_index(from);
    let cell = graph.maze@.cells[(x, y)];
    lemma_leaving(cell, from);
    assert forall|i: int| 0 <= i < edges.len() implies ({
        let edge = #[trigger] edges[i];
        &&& edge.from == from
        &&& Graph::is_node(edge.to)
        &&& graph.edge_between(from, edge.to) == Some(edge)
    }) by {
        lemma_step_edge(graph, from, leaving(cell, from, i));
    }
    assert forall|to: int|
        Graph::is_node(to) && graph.edge_between(from, to) is Some implies edges.contains(
        #[trigger] graph.edge_between(from, to)->0,
    ) by {
        let d = Graph::vector_between(from, to).direction()->0;
        let k = choose|k: int| 0 <= k < edges.len() && leaving(cell, from, k) == d;
        assert(edges[k] == graph.edge_between(from, to)->0);
    }
    assert forall|i: int, j: int| 0 <= i < j < edges.len() implies turn_towards(
        from,
        #[trigger] edges[i].to,
    ) < turn_towards(from, #[trigger] edges[j].to) by {
        lemma_step_edge(graph, from, leaving(cell, from, i));
        lemma_step_edge(graph, from, leaving(cell, from, j));
    }
}

/// The direction in which the edge at place `k` of the list of a node's edges leaves.
spec fn leaving(cell: CellFlags, from: int, k: int) -> Direction {
    let north = listed(Graph::step_edge(cell, Direction::North, from)).len();
    let east = listed(Graph::step_edge(cell, Direction::East, from)).len();
    let south = listed(Graph::step_edge(cell, Direction::South, from)).len();
    if k < north {
        Direction::North
    } else if k < north + east {
        Direction::East
    } else if k < north + east + south {
        Direction::South
    } else {
        Direction::West
    }
}

/// The list of a node's edges holds, in the order of the directions, the edge
/// of each direction that has one.
proof fn lemma_leaving(cell: CellFlags, from: int)
    ensures
        ({
            let edges = listed(Graph::step_edge(cell, Direction::North, from)) + listed(
                Graph::step_edge(cell, Direction::East, from),
            ) + listed(Graph::step_edge(cell, Direction::South, from)) + listed(
                Graph::step_edge(cell, Direction::West, from),
            );
            &&& edges.len() <= 4
            &&& forall|k: int|
                0 <= k < edges.len() ==> Graph::step_edge(cell, leaving(cell, from, k), from)
                    == Some(#[trigger] edges[k])
            &&& forall|i: int, j: int|
                0 <= i < j < edges.len() ==> turn(#[trigger] leaving(cell, from, i)) < turn(
                    #[trigger] leaving(cell, from, j),
                )
            &&& forall|d: Direction| #[trigger]
                Graph::step_edge(cell, d, from) is Some ==> exists|k: int|
                    0 <= k < edges.len() && leaving(cell, from, k) == d
        }),
{
    let north = listed(Graph::step_edge(cell, Direction::North, from));
    let east = listed(Graph::step_edge(cell, Direction::East, from));
    let south = listed(Graph::step_edge(cell, Direction::South, from));
    let west = listed(Graph::step_edge(cell, Direction::West, from));
    let edges = north + east + south + west;
    assert forall|d: Direction| #[trigger] Graph::step_edge(cell, d, from) is Some implies exists|
        k: int,
    |
        0 <= k < edges.len() && leaving(cell, from, k) == d by {
        let k: int = match d {
            Direction::North => 0,
            Direction::East => north.len() as int,
            Direction::South => (north.len() + east.len()) as int,
            Direction::West => (north.len() + east.len() + south.len()) as int,
        };
        assert(0 <= k < edges.len() && leaving(cell, from, k) == d);
    }
}

/// The edge that leaves a node in a direction is the edge between the node
/// and the node one step from it in that direction.
proof fn lemma_step_edge(graph: Graph, from: int, direction: Direction)
    requires
        Graph::is_node(from),
    ensures
        ({
            let (x, y) = Graph::xy_from_index(from);
            Graph::step_edge(graph.maze@.cells[(x, y)], direction, from) matches Some(edge) ==> {
                &&& edge.from == from
                &&& Graph::is_node(edge.to)
                &&& is_step(from, edge.to, direction)
                &&& Graph::vector_between(from, edge.to).direction() == Some(direction)
                &&& graph.edge_between(from, edge.to) == Some(edge)
            }
        }),
{
    let (x, y) = Graph::xy_from_index(from);
    if let Some(edge) = Graph::step_edge(graph.maze@.cells[(x, y)], direction, from) {
        let (nx, ny) = step(x, y, direction);
        lemma_xy_round_trip(nx, ny);
        lemma_adjacent_distance(from, edge.to, direction);
    }
}

/// The edges that leave node `from` in the first `n` of the directions north,
/// east, south and west.
spec fn first_edges(cell: CellFlags, from: int, n: nat) -> Seq<EdgeView>
    decreases n,
{
    if n == 0 {
        Seq::empty()
    } else {
        let direction = if n == 1 {
            Direction::North
        } else if n == 2 {
            Direction::East
        } else if n == 3 {
            Direction::South
        } else {
            Direction::West
        };
        first_edges(cell, from, (n - 1) as nat) + listed(Graph::step_edge(cell, direction, from))
    }
}

/// What an edge holds, if there is one.
pub open spec fn view_of(edge: Option<Edge<Graph>>) -> Option<EdgeView> {
    match edge {
        Some(e) => Some(e@),
        None => None,
    }
}

/// The list of the edge, if there is one.
pub open spec fn listed(edge: Option<EdgeView>) -> Seq<EdgeView> {
    match edge {
        Some(e) => seq![e],
        None => Seq::empty(),
    }
}

impl GraphBase for Graph {
    const MAX_NODE_INDEX: NodeIndexValue = (WIDTH * WIDTH - 1) as NodeIndexValue;

    /// The Manhattan distance between the cells of the two nodes.
    fn distance(from: NodeIndex<Graph>, to: NodeIndex<Graph>) -> (cost: Cost)
        ensures
            cost == Graph::manhattan(from@, to@),
    {
        Graph::optimistic_distance(from, to)
    }

    /// The Manhattan distance between the cells of the two nodes: no walk
    /// between them is shorter.
    fn optimistic_distance(from: NodeIndex<Graph>, to: NodeIndex<Graph>) -> (cost: Cost)
        ensures
            cost == Graph::manhattan(from@, to@),
    {
        let vector = Self::vector_xy_by_node_index_pair(from, to);
        let dx: Cost = vector.x as Cost;
        let dy: Cost = vector.y as Cost;
        (if dx < 0 { -dx } else { dx }) + (if dy < 0 { -dy } else { dy })
    }

    /// The pose at the center of the cell of node `index`, headed as the
    /// displacement from node `from_index` where one is given.
    fn agent_state_by_node_index(
        index: NodeIndex<Graph>,
        from_index: Option<NodeIndex<Graph>>,
    ) -> (state: AgentState)
        ensures
            state.location@ == Graph::xy_from_index(index@),
            state.local_location == CellLocalLocation::Center,
            state.heading_vector == match from_index {
                Some(from) => Graph::vector_between(from@, index@),
                None => VectorXY { x: 0, y: 0 },
            },
    {
        let mut state = AgentState {
            location: Self::coord_xy_by_node_index(index).unwrap(),
            local_location: CellLocalLocation::Center,
            heading_vector: VectorXY { x: 0, y: 0 },
        };
        if let Some(from_index) = from_index {
            state.heading_vector = Self::vector_xy_by_node_index_pair(from_index, index);
        }
        state
    }

    /// The node of the cell in which the agent stands; `InvalidLocation`
    /// where it does not stand at the center of the cell.
    fn node_index_by_agent_state(agent_state: AgentState) -> (r: Result<NodeIndex<Self>, Error>)
        ensures
            match r {
                Ok(index) => {
                    &&& agent_state.local_location == CellLocalLocation::Center
                    &&& index@ == Graph::index_from_xy(
                        agent_state.location@.0,
                        agent_state.location@.1,
                    )
                    &&& Graph::is_node(index@)
                },
                Err(e) => agent_state.local_location != CellLocalLocation::Center && e
                    == Error::InvalidLocation,
            },
    {
        if agent_state.local_location != CellLocalLocation::Center {
            return Err(Error::InvalidLocation);
        }
        Ok(Self::node_index_by_coord_xy(agent_state.location).unwrap())
    }

    /// The edge from `from` to `to`: there is one where `to` is one cardinal
    /// step from `from` and no wall stands in the way.
    fn edge(&self, from: NodeIndex<Self>, to: NodeIndex<Self>) -> (r: Option<Edge<Self>>)
        ensures
            view_of(r) == self.edge_between(from@, to@),
    {
        let state = Graph::agent_state_by_node_index(from, None);
        let cell = self.maze.cell(state.location);
        if let Ok(direction) = Self::vector_xy_by_node_index_pair(from, to).try_into() {
            return Self::edge_impl(cell, direction, from);
        }
        None
    }

    /// The edges that leave `from`, in the order north, east, south, west.
    fn neighbors(&self, from: NodeIndex<Self>) -> (list: heapless::Vec<Edge<Self>, MAX_NEIGHBORS>)
        ensures
            edge_list(list) == self.neighbor_edges(from@),
    {
        let state = Graph::agent_state_by_node_index(from, None);
        let cell = self.maze.cell(state.location);
        let mut list = empty_edges();
        let directions: [Direction; 4] = [
            Direction::North,
            Direction::East,
            Direction::South,
            Direction::West,
        ];
        for i in 0..4
            invariant
                Graph::is_node(from@),
                directions@ == seq![
                    Direction::North,
                    Direction::East,
                    Direction::South,
                    Direction::West,
                ],
                edge_list(list).len() <= i,
                edge_list(list) == first_edges(cell@, from@, i as nat),
        {
            if let Some(edge) = Self::edge_impl(cell, directions[i], from) {
                let pushed = push_edge(&mut list, edge);
                // At most four edges are listed, so there is room for each.
                assert(pushed is Ok);
            }
            assert(edge_list(list) =~= first_edges(cell@, from@, (i + 1) as nat));
        }
        assert(edge_list(list) =~= self.neighbor_edges(from@)) by {
            reveal_with_fuel(first_edges, 5);
        }
        list
    }
}

/// What a list of edges of this graph holds, first to last.
pub uninterp spec fn edge_list(list: heapless::Vec<Edge<Graph>, MAX_NEIGHBORS>) -> Seq<EdgeView>;

/// What `heapless::Vec::push` hands back: nothing, or the edge that found no room.
type Pushed = Result<(), Edge<Graph>>;

/// `heapless::Vec::new`: the list that it makes holds nothing.
#[verifier::external_body]
fn empty_edges() -> (list: heapless::Vec<Edge<Graph>, MAX_NEIGHBORS>)
    ensures
        edge_list(list) == Seq::<EdgeView>::empty(),
{
    heapless::Vec::new()
}

/// `heapless::Vec::push`: a list that holds fewer edges than it has room for
/// takes the edge at its end; a full list stays as it is and hands the edge back.
#[verifier::external_body]
fn push_edge(list: &mut heapless::Vec<Edge<Graph>, MAX_NEIGHBORS>, edge: Edge<Graph>) -> (r: Pushed)
    ensures
        r is Ok <==> edge_list(*old(list)).len() < MAX_NEIGHBORS,
        r is Ok ==> edge_list(*final(list)) == edge_list(*old(list)).push(edge@),
        r is Err ==> r->Err_0 == edge && edge_list(*final(list)) == edge_list(*old(list)),
{
    list.push(edge)
}

} // verus!
