use vstd::prelude::*;

use crate::nodes::{Node, Port};
use crate::obstacles::ObstacleSet;
use crate::ports::{flat_positions, lookup, PortEntries, PortTable};
use crate::vectors::{
    abs_int, all_coord_ok, candidates, coord_ok, delta, direction, dist, in_box, neighbor_steps,
    phase, previous_direction, step_target, step_verdict, Vector3, SIGNAL_RANGE,
};

verus! {

/// A search state: a position together with the path bookkeeping that
/// constrains the next step. Two states are the same search node when their
/// positions agree; step count and predecessor do not take part.
#[derive(Clone, Copy, Debug, Eq)]
pub struct PathNode {
    pub position: Vector3,
    pub steps_from_start: u32,
    pub previous: Option<Vector3>,
}

impl PartialEq for PathNode {
    fn eq(&self, other: &PathNode) -> (r: bool) {
        self.position == other.position
    }
}

impl vstd::std_specs::cmp::PartialEqSpecImpl for PathNode {
    open spec fn obeys_eq_spec() -> bool {
        true
    }

    open spec fn eq_spec(&self, other: &PathNode) -> bool {
        self.position == other.position
    }
}

impl std::hash::Hash for PathNode {
    /// Relies on the derived `Hash` of `Vector3`: only the position is hashed,
    /// so that equal search nodes hash alike.
    #[verifier::external_body]
    fn hash<H: std::hash::Hasher>(&self, state: &mut H) {
        self.position.hash(state)
    }
}

/// `v` lies in the 3x3x3 block of voxels centred on `p`.
pub open spec fn within_one(v: Vector3, p: Vector3) -> bool {
    abs_int(v.0 - p.0) <= 1 && abs_int(v.1 - p.1) <= 1 && abs_int(v.2 - p.2) <= 1
}

/// Some obstacle lies in the 3x3x3 neighbourhood of `p`.
pub open spec fn obstacle_nearby(obstacles: Set<Vector3>, p: Vector3) -> bool {
    exists|v: Vector3| #[trigger] obstacles.contains(v) && within_one(v, p)
}

/// Whether any voxel of the 3x3x3 neighbourhood of `pos` (itself included)
/// is an obstacle.
pub fn is_obstacle_nearby(obstacles: &ObstacleSet, pos: Vector3) -> (r: bool)
    requires
        i32::MIN < pos.0 < i32::MAX,
        i32::MIN < pos.1 < i32::MAX,
        i32::MIN < pos.2 < i32::MAX,
    ensures
        r == obstacle_nearby(obstacles@, pos),
{
    let mut x: i32 = -1;
    while x <= 1
        invariant
            -1 <= x <= 2,
            i32::MIN < pos.0 < i32::MAX,
            i32::MIN < pos.1 < i32::MAX,
            i32::MIN < pos.2 < i32::MAX,
            forall|v: Vector3| #[trigger]
                obstacles@.contains(v) ==> !(within_one(v, pos) && v.0 - pos.0 < x),
        decreases 2 - x,
    {
        let mut y: i32 = -1;
        while y <= 1
            invariant
                -1 <= x <= 1,
                -1 <= y <= 2,
                i32::MIN < pos.0 < i32::MAX,
                i32::MIN < pos.1 < i32::MAX,
                i32::MIN < pos.2 < i32::MAX,
                forall|v: Vector3| #[trigger]
                    obstacles@.contains(v) ==> !(within_one(v, pos) && v.0 - pos.0 < x),
                forall|v: Vector3| #[trigger]
                    obstacles@.contains(v) ==> !(within_one(v, pos) && v.0 - pos.0 == x && v.1
                        - pos.1 < y),
            decreases 2 - y,
        {
            let mut z: i32 = -1;
            while z <= 1
                invariant
                    -1 <= x <= 1,
                    -1 <= y <= 1,
                    -1 <= z <= 2,
                    i32::MIN < pos.0 < i32::MAX,
                    i32::MIN < pos.1 < i32::MAX,
                    i32::MIN < pos.2 < i32::MAX,
                    forall|v: Vector3| #[trigger]
                        obstacles@.contains(v) ==> !(within_one(v, pos) && v.0 - pos.0 < x),
                    forall|v: Vector3| #[trigger]
                        obstacles@.contains(v) ==> !(within_one(v, pos) && v.0 - pos.0 == x && v.1
                            - pos.1 < y),
                    forall|v: Vector3| #[trigger]
                        obstacles@.contains(v) ==> !(within_one(v, pos) && v.0 - pos.0 == x && v.1
                            - pos.1 == y && v.2 - pos.2 < z),
                decreases 2 - z,
            {
                let probe = Vector3(pos.0 + x, pos.1 + y, pos.2 + z);
                if obstacles.contains(probe) {
                    assert(within_one(probe, pos));
                    return true;
                }
                z = z + 1;
            }
            y = y + 1;
        }
        x = x + 1;
    }
    false
}


/// A search node whose bookkeeping the step rules can be applied to.
pub open spec fn search_node_ok(node: PathNode) -> bool {
    &&& coord_ok(node.position)
    &&& node.previous matches Some(p) ==> coord_ok(p)
    &&& node.steps_from_start < u32::MAX
}

/// The search node reached by a step from `node` to `p`.
pub open spec fn child(node: PathNode, p: Vector3) -> PathNode {
    PathNode {
        position: p,
        steps_from_start: (node.steps_from_start + 1) as u32,
        previous: Some(node.position),
    }
}

/// The successors of a search node with their costs.
pub open spec fn successor_steps(
    node: PathNode,
    start: Vector3,
    goal: Vector3,
    obstacles: Set<Vector3>,
    entries: Seq<Vector3>,
) -> Seq<(PathNode, u64)> {
    if search_node_ok(node) {
        neighbor_steps(node.position, start, goal, obstacles, entries, node).map_values(
            |s: (Vector3, u32)| (child(node, s.0), s.1 as u64),
        )
    } else {
        Seq::empty()
    }
}

/// The successors of `node` in the search from `start` to `goal`.
pub fn successors(
    node: &PathNode,
    start: &Vector3,
    goal: &Vector3,
    obstacles: &ObstacleSet,
    entries: &Vec<Vector3>,
) -> (r: Vec<(PathNode, u64)>)
    requires
        coord_ok(*start),
        coord_ok(*goal),
        all_coord_ok(entries@),
    ensures
        r@ == successor_steps(*node, *start, *goal, obstacles@, entries@),
{
    let ok = node.position.0 >= -crate::vectors::COORD_LIMIT && node.position.0
        <= crate::vectors::COORD_LIMIT && node.position.1 >= -crate::vectors::COORD_LIMIT
        && node.position.1 <= crate::vectors::COORD_LIMIT && node.position.2
        >= -crate::vectors::COORD_LIMIT && node.position.2 <= crate::vectors::COORD_LIMIT
        && node.steps_from_start < u32::MAX && match node.previous {
        Some(p) => p.0 >= -crate::vectors::COORD_LIMIT && p.0 <= crate::vectors::COORD_LIMIT && p.1
            >= -crate::vectors::COORD_LIMIT && p.1 <= crate::vectors::COORD_LIMIT && p.2
            >= -crate::vectors::COORD_LIMIT && p.2 <= crate::vectors::COORD_LIMIT,
        None => true,
    };
    if !ok {
        assert(successor_steps(*node, *start, *goal, obstacles@, entries@) =~= Seq::empty());
        return Vec::new();
    }
    let steps = node.position.neighbors(start, goal, obstacles, entries, node);
    let ghost target = successor_steps(*node, *start, *goal, obstacles@, entries@);
    let mut out: Vec<(PathNode, u64)> = Vec::new();
    let mut i: usize = 0;
    while i < steps.len()
        invariant
            0 <= i <= steps.len(),
            search_node_ok(*node),
            steps@ == neighbor_steps(node.position, *start, *goal, obstacles@, entries@, *node),
            target == successor_steps(*node, *start, *goal, obstacles@, entries@),
            target.len() == steps@.len(),
            out@ =~= target.subrange(0, i as int),
        decreases steps.len() - i,
    {
        let (p, c) = steps[i];
        out.push(
            (PathNode { position: p, steps_from_start: node.steps_from_start + 1, previous: Some(node.position) }, c as u64),
        );
        i = i + 1;
    }
    assert(target.subrange(0, steps.len() as int) =~= target);
    out
}

/// A lower bound of the remaining cost: the Manhattan distance to `goal`.
pub fn heuristic(node: &PathNode, goal: &Vector3) -> (r: u64)
    ensures
        r == dist(node.position, *goal),
{
    let dx = node.position.0 as i64 - goal.0 as i64;
    let dy = node.position.1 as i64 - goal.1 as i64;
    let dz = node.position.2 as i64 - goal.2 as i64;
    let ax: i64 = if dx < 0 { -dx } else { dx };
    let ay: i64 = if dy < 0 { -dy } else { dy };
    let az: i64 = if dz < 0 { -dz } else { dz };
    (ax + ay + az) as u64
}

/// The goal test of the search.
pub fn reaches(node: &PathNode, goal: &Vector3) -> (r: bool)
    ensures
        r == (node.position == *goal),
{
    node.position == *goal
}

/// `path` is a chain of search nodes from `start` to `goal` in which each node
/// is reached by one of the successor steps of the node before it.
pub open spec fn is_search_path(
    path: Seq<PathNode>,
    start: PathNode,
    goal: Vector3,
    obstacles: Set<Vector3>,
    entries: Seq<Vector3>,
) -> bool {
    &&& path.len() >= 1
    &&& path[0].position == start.position
    &&& path.last().position == goal
    &&& forall|i: int|
        0 <= i < path.len() - 1 ==> #[trigger] is_successor_of(
            path[i],
            path[i + 1].position,
            start.position,
            goal,
            obstacles,
            entries,
        )
}

/// Some successor step of `node` leads to `p`.
pub open spec fn is_successor_of(
    node: PathNode,
    p: Vector3,
    start: Vector3,
    goal: Vector3,
    obstacles: Set<Vector3>,
    entries: Seq<Vector3>,
) -> bool {
    exists|j: int|
        0 <= j < successor_steps(node, start, goal, obstacles, entries).len() && (
        #[trigger] successor_steps(node, start, goal, obstacles, entries)[j]).0.position == p
}

/// No two nodes of `path` share a position.
pub open spec fn positions_distinct(path: Seq<PathNode>) -> bool {
    forall|i: int, j: int| 0 <= i < j < path.len() ==> path[i].position != path[j].position
}

/// The outcome of the best-first search from `start` to `goal`.
pub uninterp spec fn search_outcome(
    start: PathNode,
    goal: Vector3,
    obstacles: Set<Vector3>,
    entries: Seq<Vector3>,
) -> Option<Seq<PathNode>>;

/// Relies on `pathfinding::directed::astar::astar`: it returns `None` or a
/// path that begins with a copy of the start node, ends with a node that
/// passes the goal test, holds no node twice (by position, the nodes' `Eq`),
/// and in which each later node equals (by position) a successor that the
/// successor function gave for the node before it. Its
/// work depends on the closures alone, which are deterministic. Costs are
/// summed in `u64`, where no path inside the bounding box can overflow.
#[verifier::external_body]
fn astar_search(
    start: &PathNode,
    goal: &Vector3,
    obstacles: &ObstacleSet,
    entries: &Vec<Vector3>,
) -> (r: Option<Vec<PathNode>>)
    requires
        coord_ok(start.position),
        coord_ok(*goal),
        all_coord_ok(entries@),
    ensures
        r matches Some(path) ==> search_outcome(*start, *goal, obstacles@, entries@) == Some(path@),
        r is None ==> search_outcome(*start, *goal, obstacles@, entries@) is None,
        r matches Some(path) ==> is_search_path(path@, *start, *goal, obstacles@, entries@),
        r matches Some(path) ==> positions_distinct(path@),
{
    let origin = start.position;
    pathfinding::directed::astar::astar(
        start,
        |n| successors(n, &origin, goal, obstacles, entries),
        |n| heuristic(n, goal),
        |n| reaches(n, goal),
    ).map(|(path, _cost)| path)
}

/// Search nodes of a route from `start` to `goal`, or `None` when the search
/// space holds none.
pub fn search(start: Vector3, goal: Vector3, obstacles: &ObstacleSet, entries: &Vec<Vector3>) -> (r:
    Option<Vec<PathNode>>)
    requires
        coord_ok(start),
        coord_ok(goal),
        all_coord_ok(entries@),
    ensures
        r matches Some(path) ==> search_outcome(start_node(start), goal, obstacles@, entries@)
            == Some(path@),
        r is None ==> search_outcome(start_node(start), goal, obstacles@, entries@) is None,
        r matches Some(path) ==> is_search_path(
            path@,
            start_node(start),
            goal,
            obstacles@,
            entries@,
        ),
        r matches Some(path) ==> positions_distinct(path@),
{
    let first = PathNode { position: start, steps_from_start: 0, previous: None };
    astar_search(&first, &goal, obstacles, entries)
}

/// The search node a route starts from.
pub open spec fn start_node(start: Vector3) -> PathNode {
    PathNode { position: start, steps_from_start: 0, previous: None }
}

/// Compass facing of a repeater.
#[derive(Debug, Clone, Copy, PartialEq, Eq, Structural)]
pub enum Facing {
    West,
    North,
    East,
    South,
}

/// What is placed at a voxel of a route.
#[derive(Debug, Clone, Copy, PartialEq, Eq, Structural)]
pub enum BlockKind {
    /// The base block under the signal.
    Conductor,
    /// A plain signal wire.
    Wire,
    /// A signal amplifier.
    Repeater(Facing),
}

/// Places `block` at `pos`.
#[derive(Debug, Clone, Copy, PartialEq, Eq, Structural)]
pub struct BlockPlacement {
    pub pos: Vector3,
    pub block: BlockKind,
}

/// Whether bit `bit` of edge `edge` found a route.
#[derive(Debug, Clone, Copy, PartialEq, Eq, Structural)]
pub struct RouteReport {
    pub edge: usize,
    pub bit: usize,
    pub routed: bool,
}

/// An edge names something the layout does not hold.
#[derive(Debug, Clone, Copy, PartialEq, Eq, Structural)]
pub enum RoutingError {
    /// The source node is not among the nodes.
    UnknownNode { edge: usize },
    /// The source port is not a port of the source node.
    UnknownPort { edge: usize },
    /// The source or destination port has no positions in the port table.
    UnplacedPort { edge: usize },
    /// A port's position list is shorter than the bus width.
    MissingBit { edge: usize, bit: usize },
}

/// A bus: source node id, source port id, destination node id, destination
/// port id.
pub type Edge = (String, String, String, String);

/// The facing of a repeater reached by the step `d`.
pub open spec fn facing_of(d: (int, int, int)) -> Facing {
    if d.0 == 1 && d.2 == 0 {
        Facing::West
    } else if d.0 == 0 && d.2 == 1 {
        Facing::North
    } else if d.0 == -1 && d.2 == 0 {
        Facing::East
    } else {
        Facing::South
    }
}

/// The blocks of voxel `j` of a route: the conductor, and above it a
/// repeater facing along the step into it where `j mod 14 == 1`, else a wire.
pub open spec fn voxel_blocks(path: Seq<Vector3>, j: int) -> Seq<BlockPlacement> {
    let p = path[j];
    let above = Vector3(p.0, (p.1 + 1) as i32, p.2);
    seq![
        BlockPlacement { pos: p, block: BlockKind::Conductor },
        BlockPlacement {
            pos: above,
            block: if j % (SIGNAL_RANGE as int) == 1 {
                BlockKind::Repeater(facing_of(delta(p, path[j - 1])))
            } else {
                BlockKind::Wire
            },
        },
    ]
}

/// The blocks of the first `n` voxels of a route.
pub open spec fn render(path: Seq<Vector3>, n: nat) -> Seq<BlockPlacement>
    decreases n,
{
    if n == 0 {
        Seq::empty()
    } else {
        render(path, (n - 1) as nat) + voxel_blocks(path, n - 1)
    }
}

/// The voxels of a route added to the obstacles.
pub open spec fn commit(obstacles: Set<Vector3>, path: Seq<Vector3>) -> Set<Vector3> {
    obstacles.union(path.to_set())
}

/// The route the search finds from `start` to `goal`, as voxels: a chain of
/// legal steps that visits no voxel twice.
pub open spec fn route_bit(
    start: Vector3,
    goal: Vector3,
    obstacles: Set<Vector3>,
    entries: Seq<Vector3>,
) -> Option<Seq<Vector3>> {
    match search_outcome(start_node(start), goal, obstacles, entries) {
        Some(nodes) => if is_search_path(nodes, start_node(start), goal, obstacles, entries)
            && positions_distinct(nodes) {
            Some(nodes.map_values(|n: PathNode| n.position))
        } else {
            None
        },
        None => None,
    }
}

/// Emitted blocks, obstacles, and per-bit reports.
pub type RouteState = (Seq<BlockPlacement>, Set<Vector3>, Seq<RouteReport>);

/// Routes one bit and commits its route.
pub open spec fn route_one(
    st: RouteState,
    start: Vector3,
    goal: Vector3,
    entries: Seq<Vector3>,
    edge: usize,
    bit: usize,
) -> RouteState {
    match route_bit(start, goal, st.1, entries) {
        Some(p) => (
            st.0 + render(p, p.len()),
            commit(st.1, p),
            st.2.push(RouteReport { edge, bit, routed: true }),
        ),
        None => (st.0, st.1, st.2.push(RouteReport { edge, bit, routed: false })),
    }
}

/// Routes bits `0 .. n` of edge `edge`, between the positions `from` and `to`.
pub open spec fn route_bits(
    st: RouteState,
    from: Seq<Vector3>,
    to: Seq<Vector3>,
    entries: Seq<Vector3>,
    edge: usize,
    n: nat,
) -> Result<RouteState, RoutingError>
    decreases n,
{
    if n == 0 {
        Ok(st)
    } else {
        match route_bits(st, from, to, entries, edge, (n - 1) as nat) {
            Ok(s) => if n - 1 < from.len() && n - 1 < to.len() {
                Ok(route_one(s, from[n - 1], to[n - 1], entries, edge, (n - 1) as usize))
            } else {
                Err(RoutingError::MissingBit { edge, bit: (n - 1) as usize })
            },
            Err(e) => Err(e),
        }
    }
}

/// Index of the first node among the first `n` whose id is `id`, or -1.
pub open spec fn first_node(nodes: Seq<Node>, id: Seq<char>, n: nat) -> int
    decreases n,
{
    if n == 0 {
        -1
    } else if first_node(nodes, id, (n - 1) as nat) >= 0 {
        first_node(nodes, id, (n - 1) as nat)
    } else if nodes[n - 1].id@ == id {
        n - 1
    } else {
        -1
    }
}

/// Index of the first port among the first `n` whose id is `id`, or -1.
pub open spec fn first_port(ports: Seq<Port>, id: Seq<char>, n: nat) -> int
    decreases n,
{
    if n == 0 {
        -1
    } else if first_port(ports, id, (n - 1) as nat) >= 0 {
        first_port(ports, id, (n - 1) as nat)
    } else if ports[n - 1].id@ == id {
        n - 1
    } else {
        -1
    }
}

/// The width of port `id` of `node`: searched among the inputs, then the
/// outputs.
pub open spec fn port_width(node: Node, id: Seq<char>) -> Option<u8> {
    let i = first_port(node.inputs@, id, node.inputs@.len());
    let o = first_port(node.outputs@, id, node.outputs@.len());
    if i >= 0 {
        Some(node.inputs@[i].size)
    } else if o >= 0 {
        Some(node.outputs@[o].size)
    } else {
        None
    }
}

/// What routing edge `k` needs: the bit positions of both ports and the width.
pub open spec fn edge_plan(nodes: Seq<Node>, tab: PortEntries, edge: Edge, k: usize) -> Result<
    (Seq<Vector3>, Seq<Vector3>, nat),
    RoutingError,
> {
    let n = first_node(nodes, edge.0@, nodes.len());
    if n < 0 {
        Err(RoutingError::UnknownNode { edge: k })
    } else {
        match port_width(nodes[n], edge.1@) {
            None => Err(RoutingError::UnknownPort { edge: k }),
            Some(w) => match (lookup(tab, edge.1@), lookup(tab, edge.3@)) {
                (Some(a), Some(b)) => Ok((a, b, w as nat)),
                _ => Err(RoutingError::UnplacedPort { edge: k }),
            },
        }
    }
}

/// Routes the first `k` edges in order, each bit by bit.
pub open spec fn route_edges(
    st: RouteState,
    nodes: Seq<Node>,
    edges: Seq<Edge>,
    tab: PortEntries,
    k: nat,
) -> Result<RouteState, RoutingError>
    decreases k,
{
    if k == 0 {
        Ok(st)
    } else {
        match route_edges(st, nodes, edges, tab, (k - 1) as nat) {
            Ok(s) => match edge_plan(nodes, tab, edges[k - 1], (k - 1) as usize) {
                Ok((a, b, w)) => route_bits(s, a, b, flat_positions(tab), (k - 1) as usize, w),
                Err(e) => Err(e),
            },
            Err(e) => Err(e),
        }
    }
}

/// Every step the neighbour generation offers is one of the twelve moves,
/// taken by the step rules.
pub proof fn lemma_candidate_move(
    cur: Vector3,
    start: Vector3,
    goal: Vector3,
    obstacles: Set<Vector3>,
    entries: Seq<Vector3>,
    node: PathNode,
    n: nat,
    j: int,
)
    requires
        0 <= j < candidates(cur, start, goal, obstacles, entries, node, n).len(),
    ensures
        exists|k: int|
            0 <= k < n && candidates(cur, start, goal, obstacles, entries, node, n)[j].0
                == step_target(cur, k) && step_verdict(cur, k, start, goal, obstacles, entries, node)
                == Some(candidates(cur, start, goal, obstacles, entries, node, n)[j].1),
    decreases n,
{
    if n > 0 {
        let before = candidates(cur, start, goal, obstacles, entries, node, (n - 1) as nat);
        if j < before.len() {
            lemma_candidate_move(cur, start, goal, obstacles, entries, node, (n - 1) as nat, j);
            let k = choose|k: int|
                0 <= k < n - 1 && before[j].0 == step_target(cur, k) && step_verdict(
                    cur,
                    k,
                    start,
                    goal,
                    obstacles,
                    entries,
                    node,
                ) == Some(before[j].1);
            assert(candidates(cur, start, goal, obstacles, entries, node, n)[j] == before[j]);
        } else {
            assert(step_verdict(cur, n - 1, start, goal, obstacles, entries, node) is Some);
        }
    }
}

/// A successor of a search node is reached by one of the twelve moves that
/// the step rules take, from a node whose bookkeeping is in range.
pub proof fn lemma_successor_move(
    node: PathNode,
    p: Vector3,
    start: Vector3,
    goal: Vector3,
    obstacles: Set<Vector3>,
    entries: Seq<Vector3>,
)
    requires
        is_successor_of(node, p, start, goal, obstacles, entries),
    ensures
        search_node_ok(node),
        exists|k: int|
            0 <= k < 12 && p == step_target(node.position, k) && (step_verdict(
                node.position,
                k,
                start,
                goal,
                obstacles,
                entries,
                node,
            ) is Some),
{
    let succ = successor_steps(node, start, goal, obstacles, entries);
    let j = choose|j: int| 0 <= j < succ.len() && (#[trigger] succ[j]).0.position == p;
    assert(search_node_ok(node));
    let ns = neighbor_steps(node.position, start, goal, obstacles, entries, node);
    assert(succ[j].0.position == ns[j].0);
    lemma_candidate_move(node.position, start, goal, obstacles, entries, node, 12, j);
}

/// Every voxel of a search path is in coordinate range.
proof fn lemma_search_path_coords(
    path: Seq<PathNode>,
    start: Vector3,
    goal: Vector3,
    obstacles: Set<Vector3>,
    entries: Seq<Vector3>,
    i: int,
)
    requires
        coord_ok(start),
        is_search_path(path, start_node(start), goal, obstacles, entries),
        0 <= i < path.len(),
    ensures
        coord_ok(path[i].position),
{
    if i > 0 {
        let j = i - 1;
        assert(is_successor_of(path[j], path[j + 1].position, start, goal, obstacles, entries));
        lemma_successor_move(path[j], path[j + 1].position, start, goal, obstacles, entries);
    }
}

fn facing(d: &Vector3) -> (r: Facing)
    ensures
        r == facing_of((d.0 as int, d.1 as int, d.2 as int)),
{
    if d.0 == 1 && d.2 == 0 {
        Facing::West
    } else if d.0 == 0 && d.2 == 1 {
        Facing::North
    } else if d.0 == -1 && d.2 == 0 {
        Facing::East
    } else {
        Facing::South
    }
}

/// Emits the blocks of a route and adds its voxels to the obstacles.
fn commit_route(instructions: &mut Vec<BlockPlacement>, obstacles: &mut ObstacleSet, path: &Vec<
    Vector3,
>)
    requires
        all_coord_ok(path@),
    ensures
        final(instructions)@ == old(instructions)@ + render(path@, path@.len()),
        final(obstacles)@ == commit(old(obstacles)@, path@),
{
    let ghost ins0 = instructions@;
    let ghost obs0 = obstacles@;
    let mut j: usize = 0;
    while j < path.len()
        invariant
            0 <= j <= path@.len(),
            all_coord_ok(path@),
            instructions@ == ins0 + render(path@, j as nat),
            obstacles@ == obs0.union(path@.subrange(0, j as int).to_set()),
            ins0 == old(instructions)@,
            obs0 == old(obstacles)@,
        decreases path@.len() - j,
    {
        let pos = path[j];
        assert(coord_ok(pos));
        instructions.push(BlockPlacement { pos, block: BlockKind::Conductor });
        let above = Vector3(pos.0, pos.1 + 1, pos.2);
        let block = if j % 14 == 1 {
            let prev = path[j - 1];
            assert(coord_ok(prev));
            BlockKind::Repeater(facing(&pos.sub(prev)))
        } else {
            BlockKind::Wire
        };
        instructions.push(BlockPlacement { pos: above, block });
        assert(instructions@ =~= ins0 + render(path@, j as nat + 1));
        obstacles.insert(pos);
        assert(path@.subrange(0, j as int + 1) =~= path@.subrange(0, j as int).push(pos));
        proof {
            path@.subrange(0, j as int).lemma_push_to_set_commute(pos);
        }
        assert(obstacles@ =~= obs0.union(path@.subrange(0, j as int + 1).to_set()));
        j = j + 1;
    }
    assert(path@.subrange(0, path@.len() as int) =~= path@);
}

fn find_node(nodes: &Vec<Node>, id: &String) -> (r: Option<usize>)
    ensures
        r matches Some(i) ==> i == first_node(nodes@, id@, nodes@.len()) && i < nodes@.len(),
        r is None ==> first_node(nodes@, id@, nodes@.len()) == -1,
{
    let mut i: usize = 0;
    while i < nodes.len()
        invariant
            0 <= i <= nodes@.len(),
            first_node(nodes@, id@, i as nat) == -1,
        decreases nodes@.len() - i,
    {
        if nodes[i].id == *id {
            proof {
                lemma_first_node_stays(nodes@, id@, i as nat + 1, nodes@.len() as nat);
            }
            return Some(i);
        }
        i = i + 1;
    }
    None
}

proof fn lemma_first_node_stays(nodes: Seq<Node>, id: Seq<char>, k: nat, n: nat)
    requires
        k <= n,
        first_node(nodes, id, k) >= 0,
    ensures
        first_node(nodes, id, n) == first_node(nodes, id, k),
    decreases n - k,
{
    if k < n {
        lemma_first_node_stays(nodes, id, k, (n - 1) as nat);
    }
}

fn find_port(ports: &Vec<Port>, id: &String) -> (r: Option<usize>)
    ensures
        r matches Some(i) ==> i == first_port(ports@, id@, ports@.len()) && i < ports@.len(),
        r is None ==> first_port(ports@, id@, ports@.len()) == -1,
{
    let mut i: usize = 0;
    while i < ports.len()
        invariant
            0 <= i <= ports@.len(),
            first_port(ports@, id@, i as nat) == -1,
        decreases ports@.len() - i,
    {
        if ports[i].id == *id {
            proof {
                lemma_first_port_stays(ports@, id@, i as nat + 1, ports@.len() as nat);
            }
            return Some(i);
        }
        i = i + 1;
    }
    None
}

proof fn lemma_first_port_stays(ports: Seq<Port>, id: Seq<char>, k: nat, n: nat)
    requires
        k <= n,
        first_port(ports, id, k) >= 0,
    ensures
        first_port(ports, id, n) == first_port(ports, id, k),
    decreases n - k,
{
    if k < n {
        lemma_first_port_stays(ports, id, k, (n - 1) as nat);
    }
}

/// The state that routing bits `0 .. n` of an edge stops in: after the last
/// bit, or at the first bit whose position is missing.
pub open spec fn route_bits_stop(
    st: RouteState,
    from: Seq<Vector3>,
    to: Seq<Vector3>,
    entries: Seq<Vector3>,
    edge: usize,
    n: nat,
) -> RouteState
    decreases n,
{
    if n == 0 {
        st
    } else {
        match route_bits(st, from, to, entries, edge, (n - 1) as nat) {
            Ok(s) => if n - 1 < from.len() && n - 1 < to.len() {
                route_one(s, from[n - 1], to[n - 1], entries, edge, (n - 1) as usize)
            } else {
                s
            },
            Err(_) => route_bits_stop(st, from, to, entries, edge, (n - 1) as nat),
        }
    }
}

/// The state that routing the first `k` edges stops in: after the last one,
/// or where the first error was met.
pub open spec fn route_stop(
    st: RouteState,
    nodes: Seq<Node>,
    edges: Seq<Edge>,
    tab: PortEntries,
    k: nat,
) -> RouteState
    decreases k,
{
    if k == 0 {
        st
    } else {
        match route_edges(st, nodes, edges, tab, (k - 1) as nat) {
            Ok(s) => match edge_plan(nodes, tab, edges[k - 1], (k - 1) as usize) {
                Ok((a, b, w)) => route_bits_stop(s, a, b, flat_positions(tab), (k - 1) as usize, w),
                Err(_) => s,
            },
            Err(_) => route_stop(st, nodes, edges, tab, (k - 1) as nat),
        }
    }
}

proof fn lemma_route_bits_stop_stays(
    st: RouteState,
    from: Seq<Vector3>,
    to: Seq<Vector3>,
    entries: Seq<Vector3>,
    edge: usize,
    k: nat,
    n: nat,
)
    requires
        k <= n,
        route_bits(st, from, to, entries, edge, k) is Err,
    ensures
        route_bits_stop(st, from, to, entries, edge, n) == route_bits_stop(st, from, to, entries, edge, k),
    decreases n - k,
{
    if k < n {
        lemma_route_bits_stop_stays(st, from, to, entries, edge, k, (n - 1) as nat);
        lemma_route_bits_stays_err(st, from, to, entries, edge, k, (n - 1) as nat,
            route_bits(st, from, to, entries, edge, k)->Err_0);
    }
}

proof fn lemma_route_stop_stays(
    st: RouteState,
    nodes: Seq<Node>,
    edges: Seq<Edge>,
    tab: PortEntries,
    k: nat,
    n: nat,
)
    requires
        k <= n,
        route_edges(st, nodes, edges, tab, k) is Err,
    ensures
        route_stop(st, nodes, edges, tab, n) == route_stop(st, nodes, edges, tab, k),
    decreases n - k,
{
    if k < n {
        lemma_route_stop_stays(st, nodes, edges, tab, k, (n - 1) as nat);
        lemma_route_edges_stays_err(st, nodes, edges, tab, k, (n - 1) as nat,
            route_edges(st, nodes, edges, tab, k)->Err_0);
    }
}

proof fn lemma_route_bits_stays_err(
    st: RouteState,
    from: Seq<Vector3>,
    to: Seq<Vector3>,
    entries: Seq<Vector3>,
    edge: usize,
    k: nat,
    n: nat,
    e: RoutingError,
)
    requires
        k <= n,
        route_bits(st, from, to, entries, edge, k) == Err::<RouteState, RoutingError>(e),
    ensures
        route_bits(st, from, to, entries, edge, n) == Err::<RouteState, RoutingError>(e),
    decreases n - k,
{
    if k < n {
        lemma_route_bits_stays_err(st, from, to, entries, edge, k, (n - 1) as nat, e);
    }
}

proof fn lemma_route_edges_stays_err(
    st: RouteState,
    nodes: Seq<Node>,
    edges: Seq<Edge>,
    tab: PortEntries,
    k: nat,
    n: nat,
    e: RoutingError,
)
    requires
        k <= n,
        route_edges(st, nodes, edges, tab, k) == Err::<RouteState, RoutingError>(e),
    ensures
        route_edges(st, nodes, edges, tab, n) == Err::<RouteState, RoutingError>(e),
    decreases n - k,
{
    if k < n {
        lemma_route_edges_stays_err(st, nodes, edges, tab, k, (n - 1) as nat, e);
    }
}

/// The routing engine.
pub struct Pathfinding {}

impl Pathfinding {
    /// The voxels of the route the search finds from `start` to `goal`.
    pub fn find_path(
        &self,
        start: Vector3,
        goal: Vector3,
        obstacles: &ObstacleSet,
        entries: &Vec<Vector3>,
    ) -> (r: Option<Vec<Vector3>>)
        requires
            coord_ok(start),
            coord_ok(goal),
            all_coord_ok(entries@),
        ensures
            r matches Some(p) ==> route_bit(start, goal, obstacles@, entries@) == Some(p@),
            r matches Some(p) ==> all_coord_ok(p@),
            r matches Some(p) ==> p@.no_duplicates(),
            r matches Some(p) ==> exists|nodes: Seq<PathNode>|
                is_search_path(nodes, start_node(start), goal, obstacles@, entries@) && p@
                    == nodes.map_values(|n: PathNode| n.position),
            r is None ==> route_bit(start, goal, obstacles@, entries@) is None,
    {
        match search(start, goal, obstacles, entries) {
            None => None,
            Some(nodes) => {
                let mut out: Vec<Vector3> = Vec::new();
                let mut i: usize = 0;
                while i < nodes.len()
                    invariant
                        0 <= i <= nodes@.len(),
                        coord_ok(start),
                        is_search_path(nodes@, start_node(start), goal, obstacles@, entries@),
                        out@ =~= nodes@.subrange(0, i as int).map_values(|n: PathNode| n.position),
                        all_coord_ok(out@),
                    decreases nodes@.len() - i,
                {
                    proof {
                        lemma_search_path_coords(nodes@, start, goal, obstacles@, entries@, i as int);
                    }
                    out.push(nodes[i].position);
                    i = i + 1;
                }
                assert(nodes@.subrange(0, nodes@.len() as int) =~= nodes@);
                assert(out@ == nodes@.map_values(|n: PathNode| n.position));
                assert(out@.no_duplicates()) by {
                    assert forall|a: int, b: int| 0 <= a < out@.len() && 0 <= b < out@.len() && a != b
                        implies out@[a] != out@[b] by {
                        if a < b {
                            assert(nodes@[a].position != nodes@[b].position);
                        } else {
                            assert(nodes@[b].position != nodes@[a].position);
                        }
                    }
                }
                Some(out)
            },
        }
    }

    /// Routes every bit of every edge, in edge order and then bit order, and
    /// commits each route found before the next search: its voxels join the
    /// obstacles and its blocks are appended to `instructions`. A bit without
    /// a route is reported and skipped; an edge that names an unknown node or
    /// port, or a port without enough bit positions, stops the pass.
    pub fn resolve(
        &self,
        instructions: &mut Vec<BlockPlacement>,
        nodes: &Vec<Node>,
        edges: &Vec<Edge>,
        ports: &PortTable,
        obstacles: &mut ObstacleSet,
    ) -> (r: Result<Vec<RouteReport>, RoutingError>)
        requires
            ports.wf(),
        ensures
            r matches Ok(reports) ==> route_edges(
                (old(instructions)@, old(obstacles)@, Seq::empty()),
                nodes@,
                edges@,
                ports@,
                edges@.len() as nat,
            ) == Ok::<RouteState, RoutingError>((final(instructions)@, final(obstacles)@, reports@)),
            r matches Err(e) ==> route_edges(
                (old(instructions)@, old(obstacles)@, Seq::empty()),
                nodes@,
                edges@,
                ports@,
                edges@.len() as nat,
            ) == Err::<RouteState, RoutingError>(e),
            r is Err ==> route_stop(
                (old(instructions)@, old(obstacles)@, Seq::empty()),
                nodes@,
                edges@,
                ports@,
                edges@.len() as nat,
            ).0 == final(instructions)@,
            r is Err ==> route_stop(
                (old(instructions)@, old(obstacles)@, Seq::empty()),
                nodes@,
                edges@,
                ports@,
                edges@.len() as nat,
            ).1 == final(obstacles)@,
            old(obstacles)@.subset_of(final(obstacles)@),
            final(instructions)@.len() >= old(instructions)@.len(),
            final(instructions)@.subrange(0, old(instructions)@.len() as int) == old(instructions)@,
    {
        let ghost st0: RouteState = (instructions@, obstacles@, Seq::empty());
        let entries = ports.positions();
        let mut reports: Vec<RouteReport> = Vec::new();
        let mut k: usize = 0;
        while k < edges.len()
            invariant
                0 <= k <= edges@.len(),
                ports.wf(),
                entries@ == flat_positions(ports@),
                all_coord_ok(entries@),
                st0 == (old(instructions)@, old(obstacles)@, Seq::<RouteReport>::empty()),
                route_edges(st0, nodes@, edges@, ports@, k as nat) == Ok::<RouteState, RoutingError>(
                    (instructions@, obstacles@, reports@),
                ),
                old(obstacles)@.subset_of(obstacles@),
                instructions@.len() >= old(instructions)@.len(),
                instructions@.subrange(0, old(instructions)@.len() as int) == old(instructions)@,
            decreases edges@.len() - k,
        {
            let edge = &edges[k];
            let ghost s_k: RouteState = (instructions@, obstacles@, reports@);
            let ghost plan = edge_plan(nodes@, ports@, edges@[k as int], k);
            let n = match find_node(nodes, &edge.0) {
                Some(n) => n,
                None => {
                    let e = RoutingError::UnknownNode { edge: k };
                    proof {
                        lemma_route_edges_stays_err(st0, nodes@, edges@, ports@, k as nat + 1, edges@.len() as nat, e);
                        lemma_route_stop_stays(st0, nodes@, edges@, ports@, k as nat + 1, edges@.len() as nat);
                    }
                    return Err(e);
                },
            };
            let node = &nodes[n];
            let width: u8 = match find_port(&node.inputs, &edge.1) {
                Some(i) => node.inputs[i].size,
                None => match find_port(&node.outputs, &edge.1) {
                    Some(o) => node.outputs[o].size,
                    None => {
                        let e = RoutingError::UnknownPort { edge: k };
                        proof {
                            lemma_route_edges_stays_err(st0, nodes@, edges@, ports@, k as nat + 1, edges@.len() as nat, e);
                            lemma_route_stop_stays(st0, nodes@, edges@, ports@, k as nat + 1, edges@.len() as nat);
                        }
                        return Err(e);
                    },
                },
            };
            let (from, to) = match (ports.get(&edge.1), ports.get(&edge.3)) {
                (Some(a), Some(b)) => (a, b),
                _ => {
                    let e = RoutingError::UnplacedPort { edge: k };
                    proof {
                        lemma_route_edges_stays_err(st0, nodes@, edges@, ports@, k as nat + 1, edges@.len() as nat, e);
                        lemma_route_stop_stays(st0, nodes@, edges@, ports@, k as nat + 1, edges@.len() as nat);
                    }
                    return Err(e);
                },
            };
            assert(plan == Ok::<(Seq<Vector3>, Seq<Vector3>, nat), RoutingError>((from@, to@, width as nat)));
            proof {
                assert forall|i: int| 0 <= i < from@.len() implies coord_ok(#[trigger] from@[i]) by {
                    let c = crate::ports::key_index(ports@, edge.1@);
                    assert(ports@[c].1[i] == from@[i]);
                }
                assert forall|i: int| 0 <= i < to@.len() implies coord_ok(#[trigger] to@[i]) by {
                    let c = crate::ports::key_index(ports@, edge.3@);
                    assert(ports@[c].1[i] == to@[i]);
                }
            }
            let mut b: usize = 0;
            while b < width as usize
                invariant
                    0 <= b <= width,
                    k < edges@.len(),
                    entries@ == flat_positions(ports@),
                    all_coord_ok(entries@),
                    all_coord_ok(from@),
                    all_coord_ok(to@),
                    st0 == (old(instructions)@, old(obstacles)@, Seq::<RouteReport>::empty()),
                    route_edges(st0, nodes@, edges@, ports@, k as nat) == Ok::<RouteState, RoutingError>(s_k),
                    edge_plan(nodes@, ports@, edges@[k as int], k) == Ok::<(Seq<Vector3>, Seq<Vector3>, nat), RoutingError>((from@, to@, width as nat)),
                    route_bits(s_k, from@, to@, entries@, k, b as nat) == Ok::<RouteState, RoutingError>(
                        (instructions@, obstacles@, reports@),
                    ),
                    old(obstacles)@.subset_of(obstacles@),
                    instructions@.len() >= old(instructions)@.len(),
                    instructions@.subrange(0, old(instructions)@.len() as int) == old(instructions)@,
                decreases width - b,
            {
                if b >= from.len() || b >= to.len() {
                    let e = RoutingError::MissingBit { edge: k, bit: b };
                    proof {
                        lemma_route_bits_stays_err(s_k, from@, to@, entries@, k, b as nat + 1, width as nat, e);
                        lemma_route_bits_stop_stays(s_k, from@, to@, entries@, k, b as nat + 1, width as nat);
                        assert(route_edges(st0, nodes@, edges@, ports@, k as nat + 1) == Err::<RouteState, RoutingError>(e));
                        lemma_route_edges_stays_err(st0, nodes@, edges@, ports@, k as nat + 1, edges@.len() as nat, e);
                        lemma_route_stop_stays(st0, nodes@, edges@, ports@, k as nat + 1, edges@.len() as nat);
                    }
                    return Err(e);
                }
                match self.find_path(from[b], to[b], obstacles, &entries) {
                    Some(path) => {
                        let ghost ins_b = instructions@;
                        commit_route(instructions, obstacles, &path);
                        assert(instructions@.subrange(0, old(instructions)@.len() as int)
                            =~= ins_b.subrange(0, old(instructions)@.len() as int));
                        reports.push(RouteReport { edge: k, bit: b, routed: true });
                    },
                    None => {
                        reports.push(RouteReport { edge: k, bit: b, routed: false });
                    },
                }
                b = b + 1;
            }
            k = k + 1;
        }
        Ok(reports)
    }
}

/// The voxel is a route end or next to one: the step rules let it be entered
/// whatever the path before.
pub open spec fn near_endpoint(p: Vector3, start: Vector3, goal: Vector3) -> bool {
    p == start || p == goal || dist(p, start) == 1 || dist(p, goal) == 1
}

/// Every step of a search path is one of the twelve moves, stays in the
/// bounding box, and passes the step rules for the search node it leaves.
pub proof fn lemma_search_path_step(
    path: Seq<PathNode>,
    start: Vector3,
    goal: Vector3,
    obstacles: Set<Vector3>,
    entries: Seq<Vector3>,
    i: int,
)
    requires
        is_search_path(path, start_node(start), goal, obstacles, entries),
        0 <= i < path.len() - 1,
    ensures
        search_node_ok(path[i]),
        in_box(path[i + 1].position),
        exists|k: int|
            0 <= k < 12 && path[i + 1].position == step_target(path[i].position, k)
                && delta(path[i + 1].position, path[i].position) == (
                direction(k).0,
                direction(k).1,
                direction(k).2,
            ) && (step_verdict(path[i].position, k, start, goal, obstacles, entries, path[i]) is Some),
{
    assert(is_successor_of(path[i], path[i + 1].position, start, goal, obstacles, entries));
    lemma_successor_move(path[i], path[i + 1].position, start, goal, obstacles, entries);
}

/// Directional legality: away from the route ends, no step of a search path
/// reverses the x or the z component of the step recorded as leading into the
/// node it leaves.
pub proof fn lemma_no_reversal(
    path: Seq<PathNode>,
    start: Vector3,
    goal: Vector3,
    obstacles: Set<Vector3>,
    entries: Seq<Vector3>,
    i: int,
)
    requires
        is_search_path(path, start_node(start), goal, obstacles, entries),
        0 <= i < path.len() - 1,
    ensures
        ({
            let d = delta(path[i + 1].position, path[i].position);
            match previous_direction(path[i].position, path[i]) {
                Some(p) => near_endpoint(path[i + 1].position, start, goal) || (!(d.0 == -p.0
                    && d.1 == 0 && d.2 == 0) && !(d.0 == 0 && d.1 == 0 && d.2 == -p.2)),
                None => true,
            }
        }),
{
    lemma_search_path_step(path, start, goal, obstacles, entries, i);
}

/// Phase legality: away from the route ends, a step of a search path taken
/// at signal phase 0 is straight and keeps the direction of the step before.
pub proof fn lemma_phase_zero_straight(
    path: Seq<PathNode>,
    start: Vector3,
    goal: Vector3,
    obstacles: Set<Vector3>,
    entries: Seq<Vector3>,
    i: int,
)
    requires
        is_search_path(path, start_node(start), goal, obstacles, entries),
        0 <= i < path.len() - 1,
        phase(path[i].steps_from_start) == 0,
    ensures
        near_endpoint(path[i + 1].position, start, goal) || ({
            let d = delta(path[i + 1].position, path[i].position);
            abs_int(d.0) + abs_int(d.1) + abs_int(d.2) == 1
        }),
        near_endpoint(path[i + 1].position, start, goal) || previous_direction(
            path[i].position,
            path[i],
        ) is None || previous_direction(path[i].position, path[i]) == Some(
            delta(path[i + 1].position, path[i].position),
        ),
{
    lemma_search_path_step(path, start, goal, obstacles, entries, i);
}

/// Buffer clearance: away from the route ends, no voxel of a search path has
/// an obstacle in its 3x3x3 neighbourhood.
pub proof fn lemma_buffer_clearance(
    path: Seq<PathNode>,
    start: Vector3,
    goal: Vector3,
    obstacles: Set<Vector3>,
    entries: Seq<Vector3>,
    i: int,
)
    requires
        is_search_path(path, start_node(start), goal, obstacles, entries),
        0 < i < path.len(),
        !near_endpoint(path[i].position, start, goal),
    ensures
        !obstacle_nearby(obstacles, path[i].position),
{
    let j = i - 1;
    lemma_search_path_step(path, start, goal, obstacles, entries, j);
    assert(path[j + 1] == path[i]);
}

/// Every route that routing commits starts at the source voxel, ends at the
/// destination voxel, visits no voxel twice, and moves by one of the twelve
/// moves into the bounding box at each step; away from its ends it keeps clear
/// of the obstacles that stood when it was searched.
pub proof fn lemma_committed_route(
    start: Vector3,
    goal: Vector3,
    obstacles: Set<Vector3>,
    entries: Seq<Vector3>,
    k: int,
)
    requires
        coord_ok(start),
        route_bit(start, goal, obstacles, entries) is Some,
        1 <= k < route_bit(start, goal, obstacles, entries)->Some_0.len(),
    ensures
        ({
            let p = route_bit(start, goal, obstacles, entries)->Some_0;
            &&& p[0] == start
            &&& p.last() == goal
            &&& p.no_duplicates()
            &&& in_box(p[k])
            &&& !near_endpoint(p[k], start, goal) ==> !obstacle_nearby(obstacles, p[k])
            &&& exists|d: int|
                0 <= d < 12 && delta(p[k], p[k - 1]) == (
                    direction(d).0,
                    direction(d).1,
                    direction(d).2,
                )
        }),
{
    let nodes = search_outcome(start_node(start), goal, obstacles, entries)->Some_0;
    let p = route_bit(start, goal, obstacles, entries)->Some_0;
    assert(p == nodes.map_values(|n: PathNode| n.position));
    lemma_search_path_step(nodes, start, goal, obstacles, entries, k - 1);
    assert(nodes[k - 1 + 1] == nodes[k]);
    if !near_endpoint(p[k], start, goal) {
        lemma_buffer_clearance(nodes, start, goal, obstacles, entries, k);
    }
    assert(p.no_duplicates()) by {
        assert forall|a: int, b: int| 0 <= a < p.len() && 0 <= b < p.len() && a != b implies p[a]
            != p[b] by {
            if a < b {
                assert(nodes[a].position != nodes[b].position);
            } else {
                assert(nodes[b].position != nodes[a].position);
            }
        }
    }
}

/// One routed bit keeps every obstacle and adds every voxel of its route.
pub proof fn lemma_route_one_monotonic(
    st: RouteState,
    start: Vector3,
    goal: Vector3,
    entries: Seq<Vector3>,
    edge: usize,
    bit: usize,
)
    ensures
        st.1.subset_of(route_one(st, start, goal, entries, edge, bit).1),
        route_bit(start, goal, st.1, entries) matches Some(p) ==> p.to_set().subset_of(
            route_one(st, start, goal, entries, edge, bit).1,
        ),
        st.1.finite() ==> route_one(st, start, goal, entries, edge, bit).1.finite(),
{
    match route_bit(start, goal, st.1, entries) {
        Some(p) => {
            vstd::seq_lib::seq_to_set_is_finite(p);
        },
        None => {},
    }
}

/// Routing the bits of a bus only adds obstacles, and reports each bit in
/// order.
pub proof fn lemma_route_bits_monotonic(
    st: RouteState,
    from: Seq<Vector3>,
    to: Seq<Vector3>,
    entries: Seq<Vector3>,
    edge: usize,
    n: nat,
)
    requires
        route_bits(st, from, to, entries, edge, n) is Ok,
        n <= usize::MAX,
    ensures
        st.1.subset_of(route_bits(st, from, to, entries, edge, n)->Ok_0.1),
        st.1.finite() ==> route_bits(st, from, to, entries, edge, n)->Ok_0.1.finite(),
        route_bits(st, from, to, entries, edge, n)->Ok_0.2.len() == st.2.len() + n,
        forall|b: int|
            0 <= b < n ==> (#[trigger] route_bits(st, from, to, entries, edge, n)->Ok_0.2[st.2.len()
                + b]).edge == edge && route_bits(st, from, to, entries, edge, n)->Ok_0.2[st.2.len()
                + b].bit == b,
    decreases n,
{
    if n > 0 {
        lemma_route_bits_monotonic(st, from, to, entries, edge, (n - 1) as nat);
        let s = route_bits(st, from, to, entries, edge, (n - 1) as nat)->Ok_0;
        lemma_route_one_monotonic(s, from[n - 1], to[n - 1], entries, edge, (n - 1) as usize);
        let t = route_bits(st, from, to, entries, edge, n)->Ok_0;
        assert forall|b: int| 0 <= b < n implies (#[trigger] t.2[st.2.len() + b]).edge == edge
            && t.2[st.2.len() + b].bit == b by {
            if b < n - 1 {
                assert(t.2[st.2.len() + b] == s.2[st.2.len() + b]);
            } else {
                assert(t == route_one(s, from[n - 1], to[n - 1], entries, edge, (n - 1) as usize));
                assert(t.2 == s.2.push(RouteReport { edge, bit: (n - 1) as usize, routed: t.2.last().routed }));
            }
        }
    }
}

/// Monotonic obstacles: routing keeps every obstacle it started with, so a
/// finite obstacle set never shrinks.
pub proof fn lemma_routing_monotonic(
    st: RouteState,
    nodes: Seq<Node>,
    edges: Seq<Edge>,
    tab: PortEntries,
    k: nat,
)
    requires
        route_edges(st, nodes, edges, tab, k) is Ok,
    ensures
        st.1.subset_of(route_edges(st, nodes, edges, tab, k)->Ok_0.1),
        st.1.finite() ==> route_edges(st, nodes, edges, tab, k)->Ok_0.1.finite()
            && route_edges(st, nodes, edges, tab, k)->Ok_0.1.len() >= st.1.len(),
    decreases k,
{
    if k > 0 {
        lemma_routing_monotonic(st, nodes, edges, tab, (k - 1) as nat);
        let s = route_edges(st, nodes, edges, tab, (k - 1) as nat)->Ok_0;
        let (a, b, w) = edge_plan(nodes, tab, edges[k - 1], (k - 1) as usize)->Ok_0;
        lemma_route_bits_monotonic(s, a, b, flat_positions(tab), (k - 1) as usize, w);
    }
    if st.1.finite() {
        vstd::set_lib::lemma_len_subset(st.1, route_edges(st, nodes, edges, tab, k)->Ok_0.1);
    }
}

/// Every voxel of a committed route is an obstacle afterwards.
pub proof fn lemma_route_committed(
    st: RouteState,
    start: Vector3,
    goal: Vector3,
    entries: Seq<Vector3>,
    edge: usize,
    bit: usize,
    i: int,
)
    requires
        route_bit(start, goal, st.1, entries) is Some,
        0 <= i < route_bit(start, goal, st.1, entries)->Some_0.len(),
    ensures
        route_one(st, start, goal, entries, edge, bit).1.contains(
            route_bit(start, goal, st.1, entries)->Some_0[i],
        ),
{
    let p = route_bit(start, goal, st.1, entries)->Some_0;
    assert(p.to_set().contains(p[i]));
}

/// Determinism: the blocks, obstacles and reports of a routing pass are a
/// function of its inputs.
pub proof fn lemma_routing_deterministic(
    st: RouteState,
    nodes: Seq<Node>,
    edges: Seq<Edge>,
    tab: PortEntries,
    a: RouteState,
    b: RouteState,
)
    requires
        route_edges(st, nodes, edges, tab, edges.len()) == Ok::<RouteState, RoutingError>(a),
        route_edges(st, nodes, edges, tab, edges.len()) == Ok::<RouteState, RoutingError>(b),
    ensures
        a == b,
{
}

} // verus!
