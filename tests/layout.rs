use redsharp::ast::Operator;
use redsharp::builder::{build_nodes, LayoutError, Placement};
use redsharp::nodes::{Node, NodeType, Port};
use redsharp::template::{StructureTemplate, TemplateVoxel, VoxelKind};
use redsharp::vectors::Vector3;

fn voxel(x: i32, y: i32, z: i32, kind: VoxelKind) -> TemplateVoxel {
    TemplateVoxel { pos: Vector3(x, y, z), kind }
}

fn int_node(id: &str) -> Node {
    Node {
        id: id.to_string(),
        node: NodeType::Int(3),
        is_primary: false,
        inputs: vec![
            Port { id: format!("{id}-in8"), size: 8 },
            Port { id: format!("{id}-in1"), size: 1 },
        ],
        outputs: vec![Port { id: format!("{id}-out8"), size: 8 }],
    }
}

fn block_template(sx: u32, sz: u32) -> StructureTemplate {
    StructureTemplate {
        size: [sx, 2, sz],
        voxels: vec![
            voxel(0, 0, 0, VoxelKind::Obstacle),
            voxel(1, 0, 0, VoxelKind::Empty),
            voxel(0, 1, 0, VoxelKind::PortMarker("o-0-1".to_string())),
            voxel(1, 1, 0, VoxelKind::PortMarker("\"i-1-0\"".to_string())),
        ],
    }
}

#[test]
fn node_type_port_lists() {
    let sizes = |ports: Vec<Port>| ports.iter().map(|p| p.size).collect::<Vec<u8>>();
    assert_eq!(sizes(NodeType::get_inputs(&NodeType::Start)), Vec::<u8>::new());
    assert_eq!(sizes(NodeType::get_outputs(&NodeType::Start)), vec![1]);
    assert_eq!(sizes(NodeType::get_inputs(&NodeType::Assign)), vec![1, 8]);
    assert_eq!(sizes(NodeType::get_outputs(&NodeType::Assign)), vec![1, 8]);
    assert_eq!(sizes(NodeType::get_inputs(&NodeType::Operator(Operator::Add))), vec![8, 8]);
    assert_eq!(sizes(NodeType::get_outputs(&NodeType::Operator(Operator::Add))), vec![8]);
    assert_eq!(sizes(NodeType::get_inputs(&NodeType::IntRef)), vec![8]);
}

#[test]
fn node_type_names() {
    assert_eq!(NodeType::get_name(&NodeType::Start), "start");
    assert_eq!(NodeType::get_name(&NodeType::Operator(Operator::Add)), "adder");
    assert_eq!(NodeType::get_name(&NodeType::Int(4)), "int");
    assert_eq!(NodeType::get_name(&NodeType::Assign), "int");
    let var = NodeType::VarInt { name: "a".to_string(), value: 1 };
    assert_eq!(NodeType::get_name(&var), "int");
}

#[test]
fn node_from_gets_fresh_ports() {
    let n = Node::from(NodeType::Assign);
    assert!(n.is_primary);
    assert_eq!(n.inputs.len(), 2);
    assert_ne!(n.inputs[0].id, n.inputs[1].id);
    assert_ne!(n.id, n.inputs[0].id);
    let m = Node::from(NodeType::Int(2));
    assert!(!m.is_primary);
    assert_ne!(n.id, m.id);
}

#[test]
fn port_ids_by_width_and_index() {
    let n = Node {
        id: "n".to_string(),
        node: NodeType::Assign,
        is_primary: true,
        inputs: vec![
            Port { id: "a".to_string(), size: 1 },
            Port { id: "b".to_string(), size: 8 },
            Port { id: "c".to_string(), size: 8 },
        ],
        outputs: vec![Port { id: "d".to_string(), size: 1 }, Port { id: "e".to_string(), size: 8 }],
    };
    assert_eq!(n.get_input_id(8, 0), "b");
    assert_eq!(n.get_input_id(8, 1), "c");
    assert_eq!(n.get_input_id(1, 0), "a");
    assert_eq!(n.get_output_id(8, 0), "e");
    assert_eq!(n.get_output_id(1, 0), "d");
}

#[test]
fn shelf_placement_wraps_rows() {
    let nodes = vec![int_node("a"), int_node("b"), int_node("c"), int_node("d")];
    let templates = vec![
        block_template(20, 5),
        block_template(15, 9),
        block_template(3, 4),
        block_template(2, 2),
    ];
    let (placements, _, _) = build_nodes(&nodes, &templates).unwrap();
    let origins: Vec<Vector3> = placements.iter().map(|p| p.origin).collect();
    // x: 0 -> 30 -> 55 (wraps, row depth 9) ; next row starts at z = 19
    assert_eq!(
        origins,
        vec![
            Vector3(0, 150, 0),
            Vector3(30, 150, 0),
            Vector3(0, 150, 19),
            Vector3(13, 150, 19),
        ]
    );
    assert_eq!(placements[0], Placement { name: "int", origin: Vector3(0, 150, 0) });
}

#[test]
fn registration_fills_ports_and_obstacles() {
    let nodes = vec![int_node("a"), int_node("b")];
    let templates = vec![block_template(4, 4), block_template(4, 4)];
    let (_, ports, obstacles) = build_nodes(&nodes, &templates).unwrap();
    // the 8-bit output got eight slots, bit 1 placed
    let out = ports.get(&"a-out8".to_string()).unwrap();
    assert_eq!(out.len(), 8);
    assert_eq!(out[1], Vector3(0, 151, 0));
    assert_eq!(out[0], Vector3(0, 0, 0));
    let input = ports.get(&"b-in1".to_string()).unwrap();
    assert_eq!(input, &vec![Vector3(15, 151, 0)]);
    assert!(obstacles.contains(Vector3(0, 150, 0)));
    assert!(obstacles.contains(Vector3(14, 150, 0)));
    assert!(!obstacles.contains(Vector3(1, 150, 0)));
    assert!(!obstacles.contains(Vector3(0, 151, 0)));
    assert_eq!(ports.len(), 4);
}

#[test]
fn ports_are_never_obstacles() {
    let nodes = vec![int_node("a")];
    let templates = vec![StructureTemplate {
        size: [3, 3, 3],
        voxels: vec![
            voxel(0, 0, 0, VoxelKind::Obstacle),
            voxel(0, 0, 0, VoxelKind::PortMarker("o-0-0".to_string())),
            voxel(2, 2, 2, VoxelKind::PortMarker("i-1-0".to_string())),
            voxel(2, 2, 2, VoxelKind::Obstacle),
        ],
    }];
    let (_, ports, obstacles) = build_nodes(&nodes, &templates).unwrap();
    assert_eq!(ports.get(&"a-out8".to_string()).unwrap()[0], Vector3(0, 150, 0));
    assert!(!obstacles.contains(Vector3(0, 150, 0)));
    assert!(!obstacles.contains(Vector3(2, 152, 2)));
    // the unplaced bits sit at the placeholder, which is not an obstacle either
    assert!(!obstacles.contains(Vector3(0, 0, 0)));
}

#[test]
fn malformed_selector_is_an_error() {
    let nodes = vec![int_node("a")];
    let templates = vec![StructureTemplate {
        size: [3, 3, 3],
        voxels: vec![voxel(1, 2, 0, VoxelKind::PortMarker("o-zero-0".to_string()))],
    }];
    assert_eq!(
        build_nodes(&nodes, &templates).err(),
        Some(LayoutError::MalformedSelector { node: 0, pos: Vector3(1, 152, 0) })
    );
}

#[test]
fn unknown_port_ordinal_is_an_error() {
    let nodes = vec![int_node("a"), int_node("b")];
    let templates = vec![
        block_template(4, 4),
        StructureTemplate {
            size: [3, 3, 3],
            voxels: vec![voxel(0, 0, 0, VoxelKind::PortMarker("o-1-0".to_string()))],
        },
    ];
    assert_eq!(
        build_nodes(&nodes, &templates).err(),
        Some(LayoutError::UnknownPort { node: 1, pos: Vector3(14, 150, 0) })
    );
}

#[test]
fn bit_beyond_port_width_is_an_error() {
    let nodes = vec![int_node("a")];
    let templates = vec![StructureTemplate {
        size: [3, 3, 3],
        voxels: vec![voxel(0, 0, 1, VoxelKind::PortMarker("i-1-1".to_string()))],
    }];
    assert_eq!(
        build_nodes(&nodes, &templates).err(),
        Some(LayoutError::BitOutOfRange { node: 0, pos: Vector3(0, 150, 1) })
    );
}

#[test]
fn footprints_do_not_overlap() {
    let nodes: Vec<Node> = (0..12).map(|i| int_node(&format!("n{i}"))).collect();
    let templates: Vec<StructureTemplate> =
        (0..12).map(|i| block_template(3 + (i * 7) % 19, 2 + (i * 5) % 13)).collect();
    let (placements, _, _) = build_nodes(&nodes, &templates).unwrap();
    for i in 0..12 {
        for j in (i + 1)..12 {
            let (a, b) = (placements[i].origin, placements[j].origin);
            let (sa, sb) = (templates[i].size, templates[j].size);
            let overlap_x = a.0 < b.0 + sb[0] as i32 && b.0 < a.0 + sa[0] as i32;
            let overlap_z = a.2 < b.2 + sb[2] as i32 && b.2 < a.2 + sa[2] as i32;
            assert!(!(overlap_x && overlap_z), "nodes {i} and {j} overlap");
        }
    }
}

#[test]
fn layout_is_deterministic() {
    let nodes = vec![int_node("a"), int_node("b"), int_node("c")];
    let templates = vec![block_template(4, 4), block_template(30, 4), block_template(4, 6)];
    let (p1, t1, _) = build_nodes(&nodes, &templates).unwrap();
    let (p2, t2, _) = build_nodes(&nodes, &templates).unwrap();
    assert_eq!(p1, p2);
    assert_eq!(t1.positions(), t2.positions());
}
