use vstd::prelude::*;

use crate::obstacles::ObstacleSet;
use crate::pathfinding::{is_obstacle_nearby, obstacle_nearby, PathNode};

verus! {

/// A voxel position: an integer 3-tuple (x, y, z).
#[derive(Debug, Clone, Copy, PartialEq, Eq, Structural, Hash)]
pub struct Vector3(pub i32, pub i32, pub i32);

/// Largest coordinate magnitude for which every distance and every unit step
/// stays inside `i32`.
pub const COORD_LIMIT: i32 = 0x1000_0000;

/// The coordinates are small enough for distances and unit steps.
pub open spec fn coord_ok(v: Vector3) -> bool {
    -COORD_LIMIT <= v.0 <= COORD_LIMIT && -COORD_LIMIT <= v.1 <= COORD_LIMIT && -COORD_LIMIT
        <= v.2 <= COORD_LIMIT
}

pub open spec fn abs_int(a: int) -> int {
    if a < 0 {
        -a
    } else {
        a
    }
}

/// Manhattan (L1) distance between two voxels.
pub open spec fn dist(a: Vector3, b: Vector3) -> int {
    abs_int(a.0 - b.0) + abs_int(a.1 - b.1) + abs_int(a.2 - b.2)
}

pub open spec fn fits_i32(a: int) -> bool {
    i32::MIN <= a <= i32::MAX
}

/// The componentwise differences and their absolute sum fit in an `i32`.
pub open spec fn distance_fits(a: Vector3, b: Vector3) -> bool {
    &&& fits_i32(a.0 - b.0)
    &&& fits_i32(a.1 - b.1)
    &&& fits_i32(a.2 - b.2)
    &&& dist(a, b) <= i32::MAX
}

pub proof fn lemma_coord_ok_distance_fits(a: Vector3, b: Vector3)
    requires
        coord_ok(a),
        coord_ok(b),
    ensures
        distance_fits(a, b),
{
}

/// The vector from `b` to `a`.
pub open spec fn delta(a: Vector3, b: Vector3) -> (int, int, int) {
    (a.0 - b.0, a.1 - b.1, a.2 - b.2)
}

impl Vector3 {
    /// Componentwise difference.
    pub fn sub(self, rhs: Vector3) -> (r: Vector3)
        requires
            fits_i32(self.0 - rhs.0),
            fits_i32(self.1 - rhs.1),
            fits_i32(self.2 - rhs.2),
        ensures
            r.0 == self.0 - rhs.0,
            r.1 == self.1 - rhs.1,
            r.2 == self.2 - rhs.2,
    {
        Vector3(self.0 - rhs.0, self.1 - rhs.1, self.2 - rhs.2)
    }

    /// Manhattan distance.
    pub fn distance(&self, other: &Vector3) -> (r: u32)
        requires
            distance_fits(*self, *other),
        ensures
            r == dist(*self, *other),
    {
        let dx = self.0 - other.0;
        let dy = self.1 - other.1;
        let dz = self.2 - other.2;
        let ax: i32 = if dx < 0 { -dx } else { dx };
        let ay: i32 = if dy < 0 { -dy } else { dy };
        let az: i32 = if dz < 0 { -dz } else { dz };
        (ax + ay + az) as u32
    }
}

/// Routing bounding box: candidate voxels outside it are never visited.
pub const BOX_MIN_X: i32 = -10;
pub const BOX_MAX_X: i32 = 50;
pub const BOX_MIN_Y: i32 = 140;
pub const BOX_MAX_Y: i32 = 180;
pub const BOX_MIN_Z: i32 = -30;
pub const BOX_MAX_Z: i32 = 30;

/// Steps a signal travels before it must be amplified.
pub const SIGNAL_RANGE: u32 = 14;

/// Costs are accumulated in millionths of a unit.
pub const COST_SCALE: u64 = 1_000_000;

/// Weight of the `weight / distance` penalty of each known port voxel.
pub const PORT_WEIGHT: u64 = 100;

/// Flat penalty of a diagonal move.
pub const DIAGONAL_PENALTY: u64 = 50;

/// Penalty sums at or above this give the largest cost.
pub const PENALTY_CAP: u64 = 4_294_967_296_000_000;

/// The twelve moves, as (dx, dy, dz, diagonal): every move changes one or two
/// coordinates by one.
pub open spec fn direction(k: int) -> (int, int, int, bool) {
    if k == 0 {
        (1, 0, 0, false)
    } else if k == 1 {
        (-1, 0, 0, false)
    } else if k == 2 {
        (1, 1, 0, true)
    } else if k == 3 {
        (1, -1, 0, true)
    } else if k == 4 {
        (-1, 1, 0, true)
    } else if k == 5 {
        (-1, -1, 0, true)
    } else if k == 6 {
        (0, 1, 1, true)
    } else if k == 7 {
        (0, -1, 1, true)
    } else if k == 8 {
        (0, 1, -1, true)
    } else if k == 9 {
        (0, -1, -1, true)
    } else if k == 10 {
        (0, 0, 1, false)
    } else {
        (0, 0, -1, false)
    }
}

pub open spec fn in_box(v: Vector3) -> bool {
    BOX_MIN_X <= v.0 <= BOX_MAX_X && BOX_MIN_Y <= v.1 <= BOX_MAX_Y && BOX_MIN_Z <= v.2 <= BOX_MAX_Z
}

/// The signal phase of a step taken from a node that is `steps` steps from the
/// start: `(steps - 1) mod 14`, and -1 for the start itself.
pub open spec fn phase(steps: u32) -> int {
    if steps == 0 {
        -1
    } else {
        (steps - 1) % (SIGNAL_RANGE as int)
    }
}

/// The direction of the step that led to `cur`, if there was one.
pub open spec fn previous_direction(cur: Vector3, node: PathNode) -> Option<(int, int, int)> {
    match node.previous {
        Some(p) => Some(delta(cur, p)),
        None => None,
    }
}

/// The voxel reached from `cur` by move `k`.
pub open spec fn step_target(cur: Vector3, k: int) -> Vector3 {
    Vector3(
        (cur.0 + direction(k).0) as i32,
        (cur.1 + direction(k).1) as i32,
        (cur.2 + direction(k).2) as i32,
    )
}

/// Directional memory: a diagonal move keeps the previous horizontal and depth
/// components, and no move reverses the previous horizontal or depth component.
pub open spec fn direction_blocked(k: int, prev: Option<(int, int, int)>) -> bool {
    let (dx, dy, dz, diagonal) = direction(k);
    match prev {
        None => false,
        Some(p) => (diagonal && (dx != p.0 || dz != p.2)) || (dx == -p.0 && dy == 0 && dz == 0)
            || (dx == 0 && dy == 0 && dz == -p.2),
    }
}

/// Repeater rules: the step at phase 0 is straight and keeps the previous
/// direction; the step at phase 13 is no downward diagonal.
pub open spec fn phase_blocked(k: int, prev: Option<(int, int, int)>, steps: u32) -> bool {
    let (dx, dy, dz, diagonal) = direction(k);
    ||| phase(steps) == 0 && (diagonal || (prev.is_some() && (dx, dy, dz) != prev.unwrap()))
    ||| phase(steps) == 13 && diagonal && dy < 0
}

/// Sum over the known port voxels of `100 / distance`, each term in millionths
/// rounded down.
pub open spec fn port_penalty(p: Vector3, entries: Seq<Vector3>) -> int
    decreases entries.len(),
{
    if entries.len() == 0 {
        0
    } else {
        port_penalty(p, entries.drop_last()) + (PORT_WEIGHT * COST_SCALE) as int / dist(
            p,
            entries.last(),
        )
    }
}

/// Cost of entering `p`: 1, plus the port penalty, plus 50 for a diagonal
/// move, rounded down and capped at `u32::MAX`; a voxel that is itself a known
/// port voxel costs `u32::MAX`.
pub open spec fn shaped_cost(p: Vector3, entries: Seq<Vector3>, diagonal: bool) -> u32 {
    if entries.contains(p) {
        u32::MAX
    } else {
        let total = COST_SCALE + port_penalty(p, entries) + if diagonal {
            DIAGONAL_PENALTY * COST_SCALE
        } else {
            0
        };
        if total / (COST_SCALE as int) > u32::MAX {
            u32::MAX
        } else {
            (total / (COST_SCALE as int)) as u32
        }
    }
}

/// Whether move `k` from `cur` is taken, and at what cost.
pub open spec fn step_verdict(
    cur: Vector3,
    k: int,
    start: Vector3,
    goal: Vector3,
    obstacles: Set<Vector3>,
    entries: Seq<Vector3>,
    node: PathNode,
) -> Option<u32> {
    let next = step_target(cur, k);
    let prev = previous_direction(cur, node);
    if !in_box(next) {
        None
    } else if next == start || next == goal || dist(next, start) == 1 || dist(next, goal) == 1 {
        Some(1)
    } else if direction_blocked(k, prev) || phase_blocked(k, prev, node.steps_from_start) {
        None
    } else if obstacle_nearby(obstacles, next) {
        None
    } else {
        Some(shaped_cost(next, entries, direction(k).3))
    }
}

/// The moves among the first `n` that are taken, in order, with their costs.
pub open spec fn candidates(
    cur: Vector3,
    start: Vector3,
    goal: Vector3,
    obstacles: Set<Vector3>,
    entries: Seq<Vector3>,
    node: PathNode,
    n: nat,
) -> Seq<(Vector3, u32)>
    decreases n,
{
    if n == 0 {
        Seq::empty()
    } else {
        let before = candidates(cur, start, goal, obstacles, entries, node, (n - 1) as nat);
        match step_verdict(cur, n - 1, start, goal, obstacles, entries, node) {
            Some(c) => before.push((step_target(cur, n - 1), c)),
            None => before,
        }
    }
}

/// The steps the search may take from `cur`.
pub open spec fn neighbor_steps(
    cur: Vector3,
    start: Vector3,
    goal: Vector3,
    obstacles: Set<Vector3>,
    entries: Seq<Vector3>,
    node: PathNode,
) -> Seq<(Vector3, u32)> {
    candidates(cur, start, goal, obstacles, entries, node, 12)
}

pub open spec fn all_coord_ok(s: Seq<Vector3>) -> bool {
    forall|i: int| 0 <= i < s.len() ==> coord_ok(#[trigger] s[i])
}

fn direction_at(k: usize) -> (r: (i32, i32, i32, bool))
    requires
        k < 12,
    ensures
        (r.0 as int, r.1 as int, r.2 as int, r.3) == direction(k as int),
{
    match k {
        0 => (1, 0, 0, false),
        1 => (-1, 0, 0, false),
        2 => (1, 1, 0, true),
        3 => (1, -1, 0, true),
        4 => (-1, 1, 0, true),
        5 => (-1, -1, 0, true),
        6 => (0, 1, 1, true),
        7 => (0, -1, 1, true),
        8 => (0, 1, -1, true),
        9 => (0, -1, -1, true),
        10 => (0, 0, 1, false),
        _ => (0, 0, -1, false),
    }
}

/// Cost of entering `p` (see `shaped_cost`).
pub fn step_cost(p: &Vector3, entries: &Vec<Vector3>, diagonal: bool) -> (r: u32)
    requires
        coord_ok(*p),
        all_coord_ok(entries@),
    ensures
        r == shaped_cost(*p, entries@, diagonal),
{
    let mut acc: u64 = 0;
    let mut i: usize = 0;
    while i < entries.len()
        invariant
            0 <= i <= entries.len(),
            coord_ok(*p),
            all_coord_ok(entries@),
            !entries@.subrange(0, i as int).contains(*p),
            port_penalty(*p, entries@.subrange(0, i as int)) < PENALTY_CAP ==> acc
                == port_penalty(*p, entries@.subrange(0, i as int)),
            port_penalty(*p, entries@.subrange(0, i as int)) >= PENALTY_CAP ==> acc
                >= PENALTY_CAP,
            acc <= PENALTY_CAP + PORT_WEIGHT * COST_SCALE,
            port_penalty(*p, entries@.subrange(0, i as int)) >= 0,
        decreases entries.len() - i,
    {
        let e = entries[i];
        proof {
            lemma_coord_ok_distance_fits(*p, e);
        }
        let d = p.distance(&e);
        let ghost before = entries@.subrange(0, i as int);
        let ghost after = entries@.subrange(0, i as int + 1);
        assert(after.drop_last() =~= before);
        assert(after.last() == e);
        if d == 0 {
            assert(entries@.contains(*p)) by {
                assert(entries@[i as int] == *p);
            }
            return u32::MAX;
        }
        assert(!after.contains(*p)) by {
            if after.contains(*p) {
                let j = choose|j: int| 0 <= j < after.len() && after[j] == *p;
                if j < i {
                    assert(before[j] == *p);
                }
            }
        }
        let term: u64 = (PORT_WEIGHT * COST_SCALE) / (d as u64);
        if acc < PENALTY_CAP {
            acc = acc + term;
        }
        i = i + 1;
    }
    assert(entries@.subrange(0, entries.len() as int) =~= entries@);
    if acc >= PENALTY_CAP {
        return u32::MAX;
    }
    let total: u64 = COST_SCALE + acc + if diagonal {
        DIAGONAL_PENALTY * COST_SCALE
    } else {
        0
    };
    let units: u64 = total / COST_SCALE;
    if units > u32::MAX as u64 {
        u32::MAX
    } else {
        units as u32
    }
}

impl Vector3 {
    fn verdict(
        &self,
        k: usize,
        start: &Vector3,
        goal: &Vector3,
        obstacles: &ObstacleSet,
        entries: &Vec<Vector3>,
        path_node: &PathNode,
    ) -> (r: Option<u32>)
        requires
            k < 12,
            coord_ok(*self),
            coord_ok(*start),
            coord_ok(*goal),
            all_coord_ok(entries@),
            path_node.previous matches Some(p) ==> coord_ok(p),
        ensures
            r == step_verdict(*self, k as int, *start, *goal, obstacles@, entries@, *path_node),
    {
        let Vector3(x, y, z) = *self;
        let (dx, dy, dz, diagonal) = direction_at(k);
        let next = Vector3(x + dx, y + dy, z + dz);
        assert(next == step_target(*self, k as int));
        if next.0 < BOX_MIN_X || next.0 > BOX_MAX_X || next.1 < BOX_MIN_Y || next.1 > BOX_MAX_Y
            || next.2 < BOX_MIN_Z || next.2 > BOX_MAX_Z {
            return None;
        }
        proof {
            lemma_coord_ok_distance_fits(next, *goal);
            lemma_coord_ok_distance_fits(next, *start);
        }
        let dist_to_goal = next.distance(goal);
        let dist_to_start = next.distance(start);
        if next == *start || next == *goal || dist_to_start == 1 || dist_to_goal == 1 {
            return Some(1);
        }
        let steps = path_node.steps_from_start;
        let step_phase: i32 = if steps == 0 {
            -1
        } else {
            ((steps - 1) % SIGNAL_RANGE) as i32
        };
        assert(step_phase == phase(steps));
        match path_node.previous {
            Some(prev) => {
                let pd = Vector3(x - prev.0, y - prev.1, z - prev.2);
                if diagonal && (dx != pd.0 || dz != pd.2) {
                    return None;
                }
                if dx == -pd.0 && dy == 0 && dz == 0 {
                    return None;
                }
                if dx == 0 && dy == 0 && dz == -pd.2 {
                    return None;
                }
                if step_phase == 0 && (dx != pd.0 || dy != pd.1 || dz != pd.2) {
                    return None;
                }
            },
            None => {},
        }
        if step_phase == 0 && diagonal {
            return None;
        }
        if step_phase == 13 && diagonal && dy < 0 {
            return None;
        }
        if is_obstacle_nearby(obstacles, next) {
            return None;
        }
        Some(step_cost(&next, entries, diagonal))
    }

    /// The steps the search may take from this voxel, with their costs, in
    /// the fixed order of the twelve moves.
    pub fn neighbors(
        &self,
        start: &Vector3,
        goal: &Vector3,
        obstacles: &ObstacleSet,
        entries: &Vec<Vector3>,
        path_node: &PathNode,
    ) -> (r: Vec<(Vector3, u32)>)
        requires
            coord_ok(*self),
            coord_ok(*start),
            coord_ok(*goal),
            all_coord_ok(entries@),
            path_node.previous matches Some(p) ==> coord_ok(p),
        ensures
            r@ == neighbor_steps(*self, *start, *goal, obstacles@, entries@, *path_node),
    {
        let mut out: Vec<(Vector3, u32)> = Vec::new();
        let mut k: usize = 0;
        while k < 12
            invariant
                0 <= k <= 12,
                coord_ok(*self),
                coord_ok(*start),
                coord_ok(*goal),
                all_coord_ok(entries@),
                path_node.previous matches Some(p) ==> coord_ok(p),
                out@ == candidates(
                    *self,
                    *start,
                    *goal,
                    obstacles@,
                    entries@,
                    *path_node,
                    k as nat,
                ),
            decreases 12 - k,
        {
            let v = self.verdict(k, start, goal, obstacles, entries, path_node);
            match v {
                Some(c) => {
                    let Vector3(x, y, z) = *self;
                    let (dx, dy, dz, _) = direction_at(k);
                    out.push((Vector3(x + dx, y + dy, z + dz), c));
                },
                None => {},
            }
            k = k + 1;
        }
        out
    }
}
} // verus!
