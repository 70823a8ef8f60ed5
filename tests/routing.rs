use redsharp::nodes::{Node, NodeType, Port};
use redsharp::obstacles::ObstacleSet;
use redsharp::pathfinding::{
    BlockKind, BlockPlacement, Facing, Pathfinding, RouteReport, RoutingError,
};
use redsharp::ports::PortTable;
use redsharp::vectors::Vector3;

fn node(id: &str, inputs: Vec<Port>, outputs: Vec<Port>) -> Node {
    Node { id: id.to_string(), node: NodeType::IntRef, is_primary: false, inputs, outputs }
}

fn port(id: &str, size: u8) -> Port {
    Port { id: id.to_string(), size }
}

fn edge(a: &str, pa: &str, b: &str, pb: &str) -> (String, String, String, String) {
    (a.to_string(), pa.to_string(), b.to_string(), pb.to_string())
}

/// One-bit ports `src` and `dst` at the given voxels, on nodes `n1` and `n2`.
fn one_bit_setup(from: Vector3, to: Vector3) -> (Vec<Node>, PortTable) {
    let nodes = vec![
        node("n1", vec![], vec![port("src", 1)]),
        node("n2", vec![port("dst", 1)], vec![]),
    ];
    let mut ports = PortTable::new();
    assert!(ports.record(&"src".to_string(), 1, 0, from));
    assert!(ports.record(&"dst".to_string(), 1, 0, to));
    (nodes, ports)
}

fn conductors(instructions: &[BlockPlacement]) -> Vec<Vector3> {
    instructions
        .iter()
        .filter(|b| b.block == BlockKind::Conductor)
        .map(|b| b.pos)
        .collect()
}

#[test]
fn straight_unobstructed_route() {
    let (nodes, ports) = one_bit_setup(Vector3(0, 150, 0), Vector3(0, 150, 20));
    let mut instructions = Vec::new();
    let mut obstacles = ObstacleSet::new();
    let reports = Pathfinding {}
        .resolve(&mut instructions, &nodes, &vec![edge("n1", "src", "n2", "dst")], &ports, &mut obstacles)
        .unwrap();
    assert_eq!(reports, vec![RouteReport { edge: 0, bit: 0, routed: true }]);
    let path = conductors(&instructions);
    // 21 voxels, each one step further along the depth axis; the cost of the
    // port voxels makes the route dip one voxel below the straight line
    assert_eq!(path.len(), 21);
    assert_eq!(path[0], Vector3(0, 150, 0));
    assert_eq!(path[20], Vector3(0, 150, 20));
    for (z, p) in path.iter().enumerate() {
        assert_eq!((p.0, p.2), (0, z as i32));
        assert!(p.1 == 150 || p.1 == 149);
    }
    assert_eq!(path[10], Vector3(0, 149, 10));
    assert_eq!(instructions.len(), 42);
    for (j, pair) in instructions.chunks(2).enumerate() {
        assert_eq!(pair[1].pos, Vector3(0, path[j].1 + 1, j as i32));
        let expected_block = if j % 14 == 1 {
            BlockKind::Repeater(Facing::North)
        } else {
            BlockKind::Wire
        };
        assert_eq!(pair[1].block, expected_block, "voxel {j}");
    }
    // the 2nd and the 16th voxels carry the repeaters
    assert_eq!(instructions[3].block, BlockKind::Repeater(Facing::North));
    assert_eq!(instructions[31].block, BlockKind::Repeater(Facing::North));
    for p in &path {
        assert!(obstacles.contains(*p));
    }
}

#[test]
fn find_path_on_its_own() {
    let finder = Pathfinding {};
    let path = finder
        .find_path(Vector3(5, 160, -3), Vector3(5, 160, 3), &ObstacleSet::new(), &vec![])
        .unwrap();
    assert_eq!(path.first(), Some(&Vector3(5, 160, -3)));
    assert_eq!(path.last(), Some(&Vector3(5, 160, 3)));
    assert_eq!(path.len(), 7);
}

#[test]
fn full_obstacle_plane_gives_a_routing_failure() {
    let (nodes, ports) = one_bit_setup(Vector3(0, 150, -29), Vector3(0, 150, -20));
    let mut obstacles = ObstacleSet::new();
    for x in -10..=50 {
        for y in 140..=180 {
            obstacles.insert(Vector3(x, y, -25));
        }
    }
    let mut instructions = Vec::new();
    let reports = Pathfinding {}
        .resolve(&mut instructions, &nodes, &vec![edge("n1", "src", "n2", "dst")], &ports, &mut obstacles)
        .unwrap();
    assert_eq!(reports, vec![RouteReport { edge: 0, bit: 0, routed: false }]);
    assert!(instructions.is_empty());
}

#[test]
fn blocked_corridor_forces_a_detour() {
    let (nodes, ports) = one_bit_setup(Vector3(0, 150, 0), Vector3(0, 150, 20));
    let mut obstacles = ObstacleSet::new();
    let mut wall = Vec::new();
    for x in -10..=6 {
        for y in 140..=156 {
            wall.push(Vector3(x, y, 10));
            obstacles.insert(Vector3(x, y, 10));
        }
    }
    let mut instructions = Vec::new();
    let reports = Pathfinding {}
        .resolve(&mut instructions, &nodes, &vec![edge("n1", "src", "n2", "dst")], &ports, &mut obstacles)
        .unwrap();
    assert_eq!(reports, vec![RouteReport { edge: 0, bit: 0, routed: true }]);
    let path = conductors(&instructions);
    assert_eq!(path.first(), Some(&Vector3(0, 150, 0)));
    assert_eq!(path.last(), Some(&Vector3(0, 150, 20)));
    for p in &path {
        for w in &wall {
            let near = (p.0 - w.0).abs() <= 1 && (p.1 - w.1).abs() <= 1 && (p.2 - w.2).abs() <= 1;
            assert!(!near, "{p:?} touches the wall at {w:?}");
        }
        assert!((-10..=50).contains(&p.0) && (140..=180).contains(&p.1) && (-30..=30).contains(&p.2));
    }
    for pair in path.windows(2) {
        let d = pair[1].sub(pair[0]);
        let moved = d.0.abs() + d.1.abs() + d.2.abs();
        assert!(moved == 1 || moved == 2);
    }
}

#[test]
fn multi_bit_bus_routes_every_bit() {
    let nodes = vec![
        node("n1", vec![], vec![port("src", 8)]),
        node("n2", vec![port("dst", 8)], vec![]),
    ];
    let mut ports = PortTable::new();
    for b in 0..8 {
        assert!(ports.record(&"src".to_string(), 8, b, Vector3(4 * b as i32, 150, 0)));
        assert!(ports.record(&"dst".to_string(), 8, b, Vector3(4 * b as i32, 150, 20)));
    }
    let mut instructions = Vec::new();
    let mut obstacles = ObstacleSet::new();
    let reports = Pathfinding {}
        .resolve(&mut instructions, &nodes, &vec![edge("n1", "src", "n2", "dst")], &ports, &mut obstacles)
        .unwrap();
    let expected: Vec<RouteReport> =
        (0..8).map(|b| RouteReport { edge: 0, bit: b, routed: true }).collect();
    assert_eq!(reports, expected);
    let path = conductors(&instructions);
    // no voxel is claimed twice: later bits avoid earlier routes
    for i in 0..path.len() {
        for j in (i + 1)..path.len() {
            assert_ne!(path[i], path[j]);
        }
        assert!(obstacles.contains(path[i]));
    }
    for b in 0..8 {
        assert!(path.contains(&Vector3(4 * b, 150, 0)));
        assert!(path.contains(&Vector3(4 * b, 150, 20)));
    }
}

#[test]
fn routing_is_deterministic() {
    let run = || {
        let (nodes, ports) = one_bit_setup(Vector3(0, 150, 0), Vector3(10, 160, 20));
        let mut instructions = Vec::new();
        let mut obstacles = ObstacleSet::new();
        obstacles.insert(Vector3(5, 155, 10));
        let reports = Pathfinding {}
            .resolve(&mut instructions, &nodes, &vec![edge("n1", "src", "n2", "dst")], &ports, &mut obstacles)
            .unwrap();
        (instructions, reports)
    };
    assert_eq!(run(), run());
}

#[test]
fn unknown_node_stops_routing() {
    let (nodes, ports) = one_bit_setup(Vector3(0, 150, 0), Vector3(0, 150, 20));
    let mut instructions = Vec::new();
    let mut obstacles = ObstacleSet::new();
    let r = Pathfinding {}.resolve(
        &mut instructions,
        &nodes,
        &vec![edge("n1", "src", "n2", "dst"), edge("nope", "src", "n2", "dst")],
        &ports,
        &mut obstacles,
    );
    assert_eq!(r, Err(RoutingError::UnknownNode { edge: 1 }));
    // the first edge was routed and committed before the failure
    assert_eq!(instructions.len(), 42);
}

#[test]
fn unknown_port_stops_routing() {
    let (nodes, ports) = one_bit_setup(Vector3(0, 150, 0), Vector3(0, 150, 20));
    let mut instructions = Vec::new();
    let mut obstacles = ObstacleSet::new();
    let r = Pathfinding {}.resolve(
        &mut instructions,
        &nodes,
        &vec![edge("n1", "dst", "n2", "dst")],
        &ports,
        &mut obstacles,
    );
    assert_eq!(r, Err(RoutingError::UnknownPort { edge: 0 }));
}

#[test]
fn unplaced_port_stops_routing() {
    let (mut nodes, ports) = one_bit_setup(Vector3(0, 150, 0), Vector3(0, 150, 20));
    nodes[0].outputs.push(port("loose", 1));
    let mut instructions = Vec::new();
    let mut obstacles = ObstacleSet::new();
    let r = Pathfinding {}.resolve(
        &mut instructions,
        &nodes,
        &vec![edge("n1", "loose", "n2", "dst")],
        &ports,
        &mut obstacles,
    );
    assert_eq!(r, Err(RoutingError::UnplacedPort { edge: 0 }));
}

#[test]
fn short_position_list_stops_routing() {
    let nodes = vec![
        node("n1", vec![], vec![port("src", 2)]),
        node("n2", vec![port("dst", 1)], vec![]),
    ];
    let mut ports = PortTable::new();
    assert!(ports.record(&"src".to_string(), 2, 0, Vector3(0, 150, 0)));
    assert!(ports.record(&"src".to_string(), 2, 1, Vector3(4, 150, 0)));
    assert!(ports.record(&"dst".to_string(), 1, 0, Vector3(0, 150, 20)));
    let mut instructions = Vec::new();
    let mut obstacles = ObstacleSet::new();
    let r = Pathfinding {}.resolve(
        &mut instructions,
        &nodes,
        &vec![edge("n1", "src", "n2", "dst")],
        &ports,
        &mut obstacles,
    );
    assert_eq!(r, Err(RoutingError::MissingBit { edge: 0, bit: 1 }));
}

#[test]
fn port_table_record_rejects_bits_beyond_width() {
    let mut ports = PortTable::new();
    assert!(!ports.record(&"p".to_string(), 2, 2, Vector3(1, 1, 1)));
    assert_eq!(ports.len(), 0);
    assert!(ports.record(&"p".to_string(), 2, 1, Vector3(1, 1, 1)));
    assert!(!ports.record(&"p".to_string(), 2, 5, Vector3(1, 1, 1)));
    assert_eq!(ports.get(&"p".to_string()), Some(&vec![Vector3(0, 0, 0), Vector3(1, 1, 1)]));
    assert_eq!(ports.positions(), vec![Vector3(0, 0, 0), Vector3(1, 1, 1)]);
}

#[test]
fn repeaters_face_along_the_route() {
    let cases = [
        (Vector3(0, 150, 0), Vector3(20, 150, 0), Facing::West),
        (Vector3(20, 150, 0), Vector3(0, 150, 0), Facing::East),
        (Vector3(0, 150, 20), Vector3(0, 150, 0), Facing::South),
    ];
    for (from, to, facing) in cases {
        let (nodes, ports) = one_bit_setup(from, to);
        let mut instructions = Vec::new();
        let mut obstacles = ObstacleSet::new();
        Pathfinding {}
            .resolve(&mut instructions, &nodes, &vec![edge("n1", "src", "n2", "dst")], &ports, &mut obstacles)
            .unwrap();
        assert_eq!(instructions.len(), 42);
        assert_eq!(instructions[3].block, BlockKind::Repeater(facing));
        assert_eq!(instructions[31].block, BlockKind::Repeater(facing));
    }
}

#[test]
fn committed_routes_are_obstacles_for_later_edges() {
    // two buses between the same pair of columns: the second must keep clear
    let nodes = vec![
        node("n1", vec![], vec![port("a", 1), port("b", 1)]),
        node("n2", vec![port("c", 1), port("d", 1)], vec![]),
    ];
    let mut ports = PortTable::new();
    assert!(ports.record(&"a".to_string(), 1, 0, Vector3(0, 150, 0)));
    assert!(ports.record(&"b".to_string(), 1, 0, Vector3(3, 150, 0)));
    assert!(ports.record(&"c".to_string(), 1, 0, Vector3(0, 150, 20)));
    assert!(ports.record(&"d".to_string(), 1, 0, Vector3(3, 150, 20)));
    let mut instructions = Vec::new();
    let mut obstacles = ObstacleSet::new();
    let reports = Pathfinding {}
        .resolve(
            &mut instructions,
            &nodes,
            &vec![edge("n1", "a", "n2", "c"), edge("n1", "b", "n2", "d")],
            &ports,
            &mut obstacles,
        )
        .unwrap();
    assert_eq!(reports.len(), 2);
    let path = conductors(&instructions);
    let first: Vec<Vector3> = path.iter().copied().take_while(|p| *p != Vector3(3, 150, 0)).collect();
    let second: Vec<Vector3> = path.iter().copied().skip(first.len()).collect();
    if reports[1].routed {
        for p in &second {
            if p.2 <= 1 || p.2 >= 19 {
                continue;
            }
            for q in &first {
                let near = (p.0 - q.0).abs() <= 1 && (p.1 - q.1).abs() <= 1 && (p.2 - q.2).abs() <= 1;
                assert!(!near, "{p:?} is next to the first route at {q:?}");
            }
        }
    }
}
