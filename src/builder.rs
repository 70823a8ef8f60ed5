use vstd::prelude::*;

use crate::nodes::{has_name, name_of, Node, NodeType};
use crate::obstacles::ObstacleSet;
use crate::ports::{port_voxels, record_spec, PortEntries, PortTable};
use crate::template::{
    parse_selector, parse_selector_spec, template_ok, StructureTemplate, TemplateVoxel, VoxelKind,
};
use crate::vectors::{coord_ok, Vector3};

verus! {

/// Width of a row of the grid: a row ends once its cursor reaches it.
pub const ROW_WIDTH: i32 = 50;

/// Gap between neighbouring footprints, along x and between rows.
pub const ROW_MARGIN: u32 = 10;

/// Height at which every node is placed.
pub const PLACEMENT_Y: i32 = 150;

/// Most nodes a layout holds.
pub const MAX_NODES: usize = 100_000;

/// Places the template called `name` with its origin at `origin`.
#[derive(Debug, Clone, Copy, PartialEq, Eq)]
pub struct Placement {
    pub name: &'static str,
    pub origin: Vector3,
}

/// A structure template does not fit the node it was placed for.
#[derive(Debug, Clone, Copy, PartialEq, Eq, Structural)]
pub enum LayoutError {
    /// A port marker's selector is not `(i|o)-<ordinal>-<bit>`.
    MalformedSelector { node: usize, pos: Vector3 },
    /// A port marker names a port ordinal the node does not have.
    UnknownPort { node: usize, pos: Vector3 },
    /// A port marker names a bit beyond the port's width.
    BitOutOfRange { node: usize, pos: Vector3 },
}

/// The shelf cursor before node `k` is placed: (x, z, depth of the row so
/// far).
pub open spec fn shelf_state(templates: Seq<StructureTemplate>, k: nat) -> (int, int, int)
    decreases k,
{
    if k == 0 {
        (0, 0, 0)
    } else {
        let (x, z, row) = shelf_state(templates, (k - 1) as nat);
        let size = templates[k - 1].size;
        let row1 = if row < size[2] {
            size[2] as int
        } else {
            row
        };
        let x1 = x + size[0] + ROW_MARGIN;
        if x1 >= ROW_WIDTH {
            (0, z + row1 + ROW_MARGIN, 0)
        } else {
            (x1, z, row1)
        }
    }
}

/// Where node `k` is placed.
pub open spec fn placement_origin(templates: Seq<StructureTemplate>, k: nat) -> Vector3 {
    Vector3(shelf_state(templates, k).0 as i32, PLACEMENT_Y, shelf_state(templates, k).1 as i32)
}

/// The absolute position of a template voxel.
pub open spec fn absolute(origin: Vector3, local: Vector3) -> Vector3 {
    Vector3((origin.0 + local.0) as i32, (origin.1 + local.1) as i32, (origin.2 + local.2) as i32)
}

/// Registers one template voxel of node `index`: an obstacle joins the
/// obstacle set, a port marker records its bit in the port table.
pub open spec fn register_voxel(
    node: Node,
    index: nat,
    v: TemplateVoxel,
    origin: Vector3,
    tab: PortEntries,
    obstacles: Set<Vector3>,
) -> Result<(PortEntries, Set<Vector3>), LayoutError> {
    let p = absolute(origin, v.pos);
    match v.kind {
        VoxelKind::Empty => Ok((tab, obstacles)),
        VoxelKind::Obstacle => Ok((tab, obstacles.insert(p))),
        VoxelKind::PortMarker(sel) => match parse_selector_spec(sel@) {
            None => Err(LayoutError::MalformedSelector { node: index as usize, pos: p }),
            Some(s) => {
                let ports = if s.input {
                    node.inputs@
                } else {
                    node.outputs@
                };
                if s.ordinal >= ports.len() {
                    Err(LayoutError::UnknownPort { node: index as usize, pos: p })
                } else {
                    match record_spec(
                        tab,
                        ports[s.ordinal as int].id@,
                        ports[s.ordinal as int].size as nat,
                        s.bit as nat,
                        p,
                    ) {
                        Some(t) => Ok((t, obstacles)),
                        None => Err(LayoutError::BitOutOfRange { node: index as usize, pos: p }),
                    }
                }
            },
        },
    }
}

/// Registers the first `n` voxels of a template, stopping at the first error.
pub open spec fn register_voxels(
    node: Node,
    index: nat,
    template: StructureTemplate,
    origin: Vector3,
    tab: PortEntries,
    obstacles: Set<Vector3>,
    n: nat,
) -> Result<(PortEntries, Set<Vector3>), LayoutError>
    decreases n,
{
    if n == 0 {
        Ok((tab, obstacles))
    } else {
        match register_voxels(node, index, template, origin, tab, obstacles, (n - 1) as nat) {
            Ok((t, o)) => register_voxel(node, index, template.voxels@[n - 1], origin, t, o),
            Err(e) => Err(e),
        }
    }
}

/// Registers the first `k` nodes at their shelf positions.
pub open spec fn register_nodes(
    nodes: Seq<Node>,
    templates: Seq<StructureTemplate>,
    k: nat,
) -> Result<(PortEntries, Set<Vector3>), LayoutError>
    decreases k,
{
    if k == 0 {
        Ok((Seq::empty(), Set::empty()))
    } else {
        match register_nodes(nodes, templates, (k - 1) as nat) {
            Ok((t, o)) => register_voxels(
                nodes[k - 1],
                (k - 1) as nat,
                templates[k - 1],
                placement_origin(templates, (k - 1) as nat),
                t,
                o,
                templates[k - 1].voxels@.len(),
            ),
            Err(e) => Err(e),
        }
    }
}

/// `ports` and `obstacles` are what registering every node leaves, once the
/// port voxels are taken out of the obstacles.
pub open spec fn registered_layout(
    nodes: Seq<Node>,
    templates: Seq<StructureTemplate>,
    ports: PortEntries,
    obstacles: Set<Vector3>,
) -> bool {
    exists|o: Set<Vector3>|
        register_nodes(nodes, templates, nodes.len() as nat) == Ok::<
            (PortEntries, Set<Vector3>),
            LayoutError,
        >((ports, o)) && obstacles == o.difference(port_voxels(ports))
}

/// Determinism: the port table and obstacles of a layout are a function of
/// the nodes and templates.
pub proof fn lemma_layout_deterministic(
    nodes: Seq<Node>,
    templates: Seq<StructureTemplate>,
    ports1: PortEntries,
    obstacles1: Set<Vector3>,
    ports2: PortEntries,
    obstacles2: Set<Vector3>,
)
    requires
        registered_layout(nodes, templates, ports1, obstacles1),
        registered_layout(nodes, templates, ports2, obstacles2),
    ensures
        ports1 == ports2,
        obstacles1 == obstacles2,
{
}

/// Inputs `build_nodes` can lay out: one fitting template per node, every
/// node type with a template name, and not too many nodes.
pub open spec fn layout_inputs_ok(nodes: Seq<Node>, templates: Seq<StructureTemplate>) -> bool {
    &&& nodes.len() == templates.len()
    &&& nodes.len() <= MAX_NODES
    &&& forall|i: int| 0 <= i < templates.len() ==> template_ok(#[trigger] templates[i])
    &&& forall|i: int| 0 <= i < nodes.len() ==> has_name(#[trigger] nodes[i].node)
}

/// Bounds of the shelf cursor.
proof fn lemma_shelf_bounds(templates: Seq<StructureTemplate>, k: nat)
    requires
        k <= templates.len(),
        forall|i: int| 0 <= i < templates.len() ==> template_ok(#[trigger] templates[i]),
    ensures
        0 <= shelf_state(templates, k).0 < ROW_WIDTH,
        0 <= shelf_state(templates, k).1 <= k * (crate::template::SIZE_LIMIT + ROW_MARGIN),
        0 <= shelf_state(templates, k).2 <= crate::template::SIZE_LIMIT,
    decreases k,
{
    if k > 0 {
        lemma_shelf_bounds(templates, (k - 1) as nat);
        assert(template_ok(templates[k - 1]));
        assert((k - 1) * (crate::template::SIZE_LIMIT + ROW_MARGIN) + crate::template::SIZE_LIMIT
            + ROW_MARGIN == k * (crate::template::SIZE_LIMIT + ROW_MARGIN)) by (nonlinear_arith);
    }
}

fn register_structure(
    node: &Node,
    index: usize,
    template: &StructureTemplate,
    origin: Vector3,
    obstacles: &mut ObstacleSet,
    ports: &mut PortTable,
) -> (r: Result<(), LayoutError>)
    requires
        template_ok(*template),
        0 <= origin.0 < ROW_WIDTH,
        origin.1 == PLACEMENT_Y,
        0 <= origin.2 <= MAX_NODES * (crate::template::SIZE_LIMIT + ROW_MARGIN),
        old(ports).wf(),
    ensures
        final(ports).wf(),
        r is Ok ==> register_voxels(
            *node,
            index as nat,
            *template,
            origin,
            old(ports)@,
            old(obstacles)@,
            template.voxels@.len(),
        ) == Ok::<(PortEntries, Set<Vector3>), LayoutError>((final(ports)@, final(obstacles)@)),
        r matches Err(e) ==> register_voxels(
            *node,
            index as nat,
            *template,
            origin,
            old(ports)@,
            old(obstacles)@,
            template.voxels@.len(),
        ) == Err::<(PortEntries, Set<Vector3>), LayoutError>(e),
{
    let ghost tab0 = ports@;
    let ghost obst0 = obstacles@;
    let mut i: usize = 0;
    while i < template.voxels.len()
        invariant
            0 <= i <= template.voxels@.len(),
            template_ok(*template),
            0 <= origin.0 < ROW_WIDTH,
            origin.1 == PLACEMENT_Y,
            0 <= origin.2 <= MAX_NODES * (crate::template::SIZE_LIMIT + ROW_MARGIN),
            ports.wf(),
            tab0 == old(ports)@,
            obst0 == old(obstacles)@,
            register_voxels(*node, index as nat, *template, origin, tab0, obst0, i as nat) == Ok::<
                (PortEntries, Set<Vector3>),
                LayoutError,
            >((ports@, obstacles@)),
        decreases template.voxels@.len() - i,
    {
        let v = &template.voxels[i];
        assert(template_ok(*template));
        let ghost lp = template.voxels@[i as int].pos;
        assert(0 <= lp.0 < template.size[0] && 0 <= lp.1 < template.size[1] && 0 <= lp.2
            < template.size[2]);
        let p = Vector3(origin.0 + v.pos.0, origin.1 + v.pos.1, origin.2 + v.pos.2);
        assert(p == absolute(origin, v.pos));
        assert(coord_ok(p));
        match &v.kind {
            VoxelKind::Empty => {},
            VoxelKind::Obstacle => {
                obstacles.insert(p);
            },
            VoxelKind::PortMarker(sel) => {
                match parse_selector(sel) {
                    None => {
                        let e = LayoutError::MalformedSelector { node: index, pos: p };
                        proof {
                            assert(template.voxels@[i as int] == *v);
                            assert(register_voxel(*node, index as nat, *v, origin, ports@, obstacles@) == Err::<(PortEntries, Set<Vector3>), LayoutError>(e));
                            assert(register_voxels(*node, index as nat, *template, origin, tab0, obst0, i as nat + 1) == Err::<(PortEntries, Set<Vector3>), LayoutError>(e));
                            lemma_register_voxels_stays_err(*node, index as nat, *template, origin, tab0, obst0, i as nat + 1, template.voxels@.len(), e);
                        }
                        return Err(e);
                    },
                    Some(s) => {
                        let list = if s.input {
                            &node.inputs
                        } else {
                            &node.outputs
                        };
                        if s.ordinal >= list.len() {
                            let e = LayoutError::UnknownPort { node: index, pos: p };
                        proof {
                            assert(template.voxels@[i as int] == *v);
                            assert(register_voxel(*node, index as nat, *v, origin, ports@, obstacles@) == Err::<(PortEntries, Set<Vector3>), LayoutError>(e));
                            assert(register_voxels(*node, index as nat, *template, origin, tab0, obst0, i as nat + 1) == Err::<(PortEntries, Set<Vector3>), LayoutError>(e));
                            lemma_register_voxels_stays_err(*node, index as nat, *template, origin, tab0, obst0, i as nat + 1, template.voxels@.len(), e);
                        }
                        return Err(e);
                        }
                        let port = &list[s.ordinal];
                        if !ports.record(&port.id, port.size, s.bit, p) {
                            let e = LayoutError::BitOutOfRange { node: index, pos: p };
                        proof {
                            assert(template.voxels@[i as int] == *v);
                            assert(register_voxel(*node, index as nat, *v, origin, ports@, obstacles@) == Err::<(PortEntries, Set<Vector3>), LayoutError>(e));
                            assert(register_voxels(*node, index as nat, *template, origin, tab0, obst0, i as nat + 1) == Err::<(PortEntries, Set<Vector3>), LayoutError>(e));
                            lemma_register_voxels_stays_err(*node, index as nat, *template, origin, tab0, obst0, i as nat + 1, template.voxels@.len(), e);
                        }
                        return Err(e);
                        }
                    },
                }
            },
        }
        i = i + 1;
    }
    Ok(())
}

/// Places every node on the grid and registers its footprint.
///
/// Nodes are placed in order along rows: each one at the row cursor, at
/// height `PLACEMENT_Y`; the cursor then moves along x by the footprint's
/// width plus `ROW_MARGIN`, and once it reaches `ROW_WIDTH` a new row starts
/// further along z by the row's deepest footprint plus `ROW_MARGIN`. Obstacle
/// voxels join the obstacle set and port markers fill the port table; at the
/// end every voxel of the port table is taken out of the obstacle set.
pub fn build_nodes(nodes: &Vec<Node>, templates: &Vec<StructureTemplate>) -> (r: Result<
    (Vec<Placement>, PortTable, ObstacleSet),
    LayoutError,
>)
    requires
        layout_inputs_ok(nodes@, templates@),
    ensures
        r matches Ok((placements, ports, obstacles)) ==> {
            &&& ports.wf()
            &&& placements@.len() == nodes@.len()
            &&& forall|i: int|
                0 <= i < nodes@.len() ==> (#[trigger] placements@[i]).name@ == name_of(
                    nodes@[i].node,
                ) && placements@[i].origin == placement_origin(templates@, i as nat)
            &&& registered_layout(nodes@, templates@, ports@, obstacles@)
        },
        r matches Err(e) ==> register_nodes(nodes@, templates@, nodes@.len() as nat) == Err::<
            (PortEntries, Set<Vector3>),
            LayoutError,
        >(e),
{
    let mut placements: Vec<Placement> = Vec::new();
    let mut ports = PortTable::new();
    let mut obstacles = ObstacleSet::new();
    let mut x: i32 = 0;
    let mut z: i32 = 0;
    let mut row: u32 = 0;
    let mut i: usize = 0;
    while i < nodes.len()
        invariant
            0 <= i <= nodes@.len(),
            layout_inputs_ok(nodes@, templates@),
            shelf_state(templates@, i as nat) == (x as int, z as int, row as int),
            ports.wf(),
            placements@.len() == i,
            forall|k: int|
                0 <= k < i ==> (#[trigger] placements@[k]).name@ == name_of(nodes@[k].node)
                    && placements@[k].origin == placement_origin(templates@, k as nat),
            register_nodes(nodes@, templates@, i as nat) == Ok::<
                (PortEntries, Set<Vector3>),
                LayoutError,
            >((ports@, obstacles@)),
        decreases nodes@.len() - i,
    {
        proof {
            lemma_shelf_bounds(templates@, i as nat);
            assert(i * (crate::template::SIZE_LIMIT + ROW_MARGIN) <= MAX_NODES * (
            crate::template::SIZE_LIMIT + ROW_MARGIN)) by (nonlinear_arith)
                requires
                    i <= MAX_NODES,
            ;
        }
        let node = &nodes[i];
        let template = &templates[i];
        assert(template_ok(templates@[i as int]));
        assert(has_name(nodes@[i as int].node));
        let depth = template.size[2];
        if row < depth {
            row = depth;
        }
        let origin = Vector3(x, PLACEMENT_Y, z);
        assert(origin == placement_origin(templates@, i as nat));
        match register_structure(node, i, template, origin, &mut obstacles, &mut ports) {
            Ok(()) => {},
            Err(e) => {
                proof {
                    lemma_register_nodes_stays_err(nodes@, templates@, i as nat + 1, nodes@.len() as nat, e);
                }
                return Err(e);
            },
        }
        let name = NodeType::get_name(&node.node);
        placements.push(Placement { name, origin });
        x = x + (template.size[0] + ROW_MARGIN) as i32;
        if x >= ROW_WIDTH {
            x = 0;
            z = z + (row + ROW_MARGIN) as i32;
            row = 0;
        }
        i = i + 1;
    }
    let ghost registered = obstacles@;
    // Port voxels must stay reachable: take them out of the obstacle set.
    let mut e: usize = 0;
    while e < ports.len()
        invariant
            0 <= e <= ports@.len(),
            ports.wf(),
            obstacles@ == registered.difference(
                Set::new(
                    |v: Vector3|
                        exists|a: int, b: int|
                            0 <= a < e && 0 <= b < ports@[a].1.len() && #[trigger] ports@[a].1[b]
                                == v,
                ),
            ),
        decreases ports@.len() - e,
    {
        let list = ports.positions_at(e);
        let mut j: usize = 0;
        while j < list.len()
            invariant
                0 <= e < ports@.len(),
                0 <= j <= list@.len(),
                list@ == ports@[e as int].1,
                obstacles@ == registered.difference(
                    Set::new(
                        |v: Vector3|
                            exists|a: int, b: int|
                                0 <= a < ports@.len() && 0 <= b < ports@[a].1.len() && (a < e || (a
                                    == e && b < j)) && #[trigger] ports@[a].1[b] == v,
                    ),
                ),
            decreases list@.len() - j,
        {
            let ghost before = obstacles@;
            obstacles.remove(list[j]);
            assert(obstacles@ =~= registered.difference(
                Set::new(
                    |v: Vector3|
                        exists|a: int, b: int|
                            0 <= a < ports@.len() && 0 <= b < ports@[a].1.len() && (a < e || (a
                                == e && b < j + 1)) && #[trigger] ports@[a].1[b] == v,
                ),
            )) by {
                assert(ports@[e as int].1[j as int] == list@[j as int]);
            }
            j = j + 1;
        }
        assert(obstacles@ =~= registered.difference(
            Set::new(
                |v: Vector3|
                    exists|a: int, b: int|
                        0 <= a < e + 1 && 0 <= b < ports@[a].1.len() && #[trigger] ports@[a].1[b]
                            == v,
            ),
        ));
        e = e + 1;
    }
    assert(obstacles@ =~= registered.difference(port_voxels(ports@)));
    Ok((placements, ports, obstacles))
}

/// The voxels of the box of `size` whose lowest corner is `origin`.
pub open spec fn footprint(origin: Vector3, size: [u32; 3]) -> Set<Vector3> {
    Set::new(
        |v: Vector3|
            origin.0 <= v.0 < origin.0 + size[0] && origin.1 <= v.1 < origin.1 + size[1] && origin.2
                <= v.2 < origin.2 + size[2],
    )
}

/// Node `i` lies wholly before the shelf cursor of node `k`: in an earlier
/// row, or earlier in the same row.
pub open spec fn before_cursor(templates: Seq<StructureTemplate>, i: int, k: nat) -> bool {
    let (x, z, row) = shelf_state(templates, k);
    let (xi, zi, _) = shelf_state(templates, i as nat);
    let size = templates[i].size;
    ||| zi + size[2] <= z
    ||| zi == z && xi + size[0] <= x && size[2] <= row
}

proof fn lemma_shelf_separation(templates: Seq<StructureTemplate>, k: nat)
    requires
        k <= templates.len(),
    ensures
        forall|i: int| 0 <= i < k ==> #[trigger] before_cursor(templates, i, k),
    decreases k,
{
    if k > 0 {
        lemma_shelf_separation(templates, (k - 1) as nat);
        assert forall|i: int| 0 <= i < k implies #[trigger] before_cursor(templates, i, k) by {
            if i < k - 1 {
                assert(before_cursor(templates, i, (k - 1) as nat));
            }
        }
    }
}

/// Distinct nodes are placed with disjoint footprints.
pub proof fn lemma_placements_disjoint(templates: Seq<StructureTemplate>, i: int, j: int)
    requires
        0 <= i < templates.len(),
        0 <= j < templates.len(),
        i != j,
        templates.len() <= MAX_NODES,
        forall|n: int| 0 <= n < templates.len() ==> template_ok(#[trigger] templates[n]),
    ensures
        footprint(placement_origin(templates, i as nat), templates[i].size).disjoint(
            footprint(placement_origin(templates, j as nat), templates[j].size),
        ),
{
    let (a, b) = if i < j {
        (i, j)
    } else {
        (j, i)
    };
    lemma_shelf_separation(templates, b as nat);
    assert(before_cursor(templates, a, b as nat));
    lemma_shelf_bounds(templates, a as nat);
    lemma_shelf_bounds(templates, b as nat);
    assert(b * (crate::template::SIZE_LIMIT + ROW_MARGIN) <= MAX_NODES * (
    crate::template::SIZE_LIMIT + ROW_MARGIN)) by (nonlinear_arith)
        requires
            b <= MAX_NODES,
    ;
    assert(a * (crate::template::SIZE_LIMIT + ROW_MARGIN) <= MAX_NODES * (
    crate::template::SIZE_LIMIT + ROW_MARGIN)) by (nonlinear_arith)
        requires
            a <= MAX_NODES,
    ;
    let oa = placement_origin(templates, a as nat);
    let ob = placement_origin(templates, b as nat);
    assert(oa.0 == shelf_state(templates, a as nat).0 && oa.2 == shelf_state(templates, a as nat).1);
    assert(ob.0 == shelf_state(templates, b as nat).0 && ob.2 == shelf_state(templates, b as nat).1);
    let fa = footprint(placement_origin(templates, a as nat), templates[a].size);
    let fb = footprint(placement_origin(templates, b as nat), templates[b].size);
    assert forall|v: Vector3| !(fa.contains(v) && fb.contains(v)) by {}
}

/// After registration no voxel of the port table is an obstacle.
pub proof fn lemma_ports_not_obstacles(
    registered: Set<Vector3>,
    ports: PortEntries,
    i: int,
    j: int,
)
    requires
        0 <= i < ports.len(),
        0 <= j < ports[i].1.len(),
    ensures
        !registered.difference(port_voxels(ports)).contains(ports[i].1[j]),
{
    assert(port_voxels(ports).contains(ports[i].1[j]));
}

/// Once registration fails, registering more voxels fails the same way.
proof fn lemma_register_voxels_stays_err(
    node: Node,
    index: nat,
    template: StructureTemplate,
    origin: Vector3,
    tab: PortEntries,
    obstacles: Set<Vector3>,
    k: nat,
    n: nat,
    e: LayoutError,
)
    requires
        k <= n,
        register_voxels(node, index, template, origin, tab, obstacles, k) == Err::<
            (PortEntries, Set<Vector3>),
            LayoutError,
        >(e),
    ensures
        register_voxels(node, index, template, origin, tab, obstacles, n) == Err::<
            (PortEntries, Set<Vector3>),
            LayoutError,
        >(e),
    decreases n - k,
{
    if k < n {
        lemma_register_voxels_stays_err(node, index, template, origin, tab, obstacles, k, (n - 1) as nat, e);
    }
}

/// Once registration fails, registering more nodes fails the same way.
proof fn lemma_register_nodes_stays_err(
    nodes: Seq<Node>,
    templates: Seq<StructureTemplate>,
    k: nat,
    n: nat,
    e: LayoutError,
)
    requires
        k <= n,
        register_nodes(nodes, templates, k) == Err::<(PortEntries, Set<Vector3>), LayoutError>(e),
    ensures
        register_nodes(nodes, templates, n) == Err::<(PortEntries, Set<Vector3>), LayoutError>(e),
    decreases n - k,
{
    if k < n {
        lemma_register_nodes_stays_err(nodes, templates, k, (n - 1) as nat, e);
    }
}

} // verus!
