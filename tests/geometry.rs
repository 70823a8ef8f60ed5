use redsharp::obstacles::ObstacleSet;
use redsharp::pathfinding::{is_obstacle_nearby, PathNode};
use redsharp::vectors::{step_cost, Vector3};

#[test]
fn distance_is_manhattan() {
    assert_eq!(Vector3(0, 0, 0).distance(&Vector3(1, -2, 3)), 6);
    assert_eq!(Vector3(-5, 7, 2).distance(&Vector3(-5, 7, 2)), 0);
}

#[test]
fn sub_is_componentwise() {
    assert_eq!(Vector3(3, 4, 5).sub(Vector3(1, 6, -2)), Vector3(2, -2, 7));
}

#[test]
fn obstacle_set_insert_contains_remove() {
    let mut s = ObstacleSet::new();
    assert!(!s.contains(Vector3(1, 2, 3)));
    assert!(s.insert(Vector3(1, 2, 3)));
    assert!(!s.insert(Vector3(1, 2, 3)));
    assert!(s.contains(Vector3(1, 2, 3)));
    assert!(!s.contains(Vector3(3, 2, 1)));
    assert!(s.insert(Vector3(-2147483648, 2147483647, 0)));
    assert!(s.contains(Vector3(-2147483648, 2147483647, 0)));
    assert!(s.remove(Vector3(1, 2, 3)));
    assert!(!s.contains(Vector3(1, 2, 3)));
    assert!(!s.remove(Vector3(1, 2, 3)));
}

#[test]
fn obstacle_nearby_uses_the_3x3x3_block() {
    let mut s = ObstacleSet::new();
    s.insert(Vector3(1, 1, 1));
    assert!(is_obstacle_nearby(&s, Vector3(0, 0, 0)));
    assert!(is_obstacle_nearby(&s, Vector3(1, 1, 1)));
    assert!(is_obstacle_nearby(&s, Vector3(2, 2, 2)));
    assert!(!is_obstacle_nearby(&s, Vector3(3, 1, 1)));
    assert!(!is_obstacle_nearby(&s, Vector3(-1, 0, 0)));
}

#[test]
fn step_cost_without_ports() {
    let p = Vector3(0, 150, 0);
    assert_eq!(step_cost(&p, &vec![], false), 1);
    assert_eq!(step_cost(&p, &vec![], true), 51);
}

#[test]
fn step_cost_with_ports() {
    let p = Vector3(0, 150, 0);
    // 1 + 100 / 10
    assert_eq!(step_cost(&p, &vec![Vector3(0, 150, 10)], false), 11);
    // 1 + 100 / 10 + 100 / 4 + 50
    assert_eq!(
        step_cost(&p, &vec![Vector3(0, 150, 10), Vector3(2, 152, 0)], true),
        86
    );
    // three thirds of 100, each rounded down to a millionth, stay under 100
    let thirds = vec![Vector3(3, 150, 0), Vector3(0, 153, 0), Vector3(0, 150, 3)];
    assert_eq!(step_cost(&p, &thirds, false), 100);
}

#[test]
fn step_cost_on_a_port_voxel_is_maximal() {
    let p = Vector3(0, 150, 0);
    assert_eq!(step_cost(&p, &vec![Vector3(5, 150, 0), p], false), u32::MAX);
}

#[test]
fn neighbors_at_the_start_offer_all_twelve_moves() {
    let start = Vector3(0, 150, 0);
    let goal = Vector3(0, 150, 20);
    let node = PathNode { position: start, steps_from_start: 0, previous: None };
    let n = start.neighbors(&start, &goal, &ObstacleSet::new(), &vec![], &node);
    assert_eq!(
        n,
        vec![
            (Vector3(1, 150, 0), 1),
            (Vector3(-1, 150, 0), 1),
            (Vector3(1, 151, 0), 51),
            (Vector3(1, 149, 0), 51),
            (Vector3(-1, 151, 0), 51),
            (Vector3(-1, 149, 0), 51),
            (Vector3(0, 151, 1), 51),
            (Vector3(0, 149, 1), 51),
            (Vector3(0, 151, -1), 51),
            (Vector3(0, 149, -1), 51),
            (Vector3(0, 150, 1), 1),
            (Vector3(0, 150, -1), 1),
        ]
    );
}

#[test]
fn neighbors_allow_a_diagonal_next_to_the_goal() {
    let start = Vector3(0, 150, 0);
    let goal = Vector3(0, 151, 12);
    let cur = Vector3(0, 150, 10);
    let node = PathNode { position: cur, steps_from_start: 10, previous: Some(Vector3(0, 150, 9)) };
    let n = cur.neighbors(&start, &goal, &ObstacleSet::new(), &vec![], &node);
    assert!(n.contains(&(Vector3(0, 151, 11), 1)));
}

#[test]
fn neighbors_respect_the_bounding_box() {
    let start = Vector3(0, 150, 0);
    let goal = Vector3(0, 150, 20);
    let cur = Vector3(50, 180, 30);
    let node = PathNode { position: cur, steps_from_start: 3, previous: None };
    let n = cur.neighbors(&start, &goal, &ObstacleSet::new(), &vec![], &node);
    assert_eq!(n, vec![(Vector3(49, 180, 30), 1), (Vector3(49, 179, 30), 51), (Vector3(50, 179, 29), 51), (Vector3(50, 180, 29), 1)]);
}

#[test]
fn neighbors_forbid_reversal_and_keep_diagonals_aligned() {
    let start = Vector3(0, 150, -20);
    let goal = Vector3(0, 150, 20);
    let cur = Vector3(0, 150, 0);
    let node = PathNode { position: cur, steps_from_start: 5, previous: Some(Vector3(0, 150, -1)) };
    let n = cur.neighbors(&start, &goal, &ObstacleSet::new(), &vec![], &node);
    let targets: Vec<Vector3> = n.iter().map(|x| x.0).collect();
    // no step back along z, and only the forward diagonals
    assert_eq!(
        targets,
        vec![
            Vector3(1, 150, 0),
            Vector3(-1, 150, 0),
            Vector3(0, 151, 1),
            Vector3(0, 149, 1),
            Vector3(0, 150, 1),
        ]
    );
}

#[test]
fn neighbors_at_phase_zero_go_straight_on() {
    let start = Vector3(0, 150, -20);
    let goal = Vector3(0, 150, 20);
    let cur = Vector3(0, 150, 0);
    let node = PathNode { position: cur, steps_from_start: 15, previous: Some(Vector3(0, 150, -1)) };
    let n = cur.neighbors(&start, &goal, &ObstacleSet::new(), &vec![], &node);
    assert_eq!(n, vec![(Vector3(0, 150, 1), 1)]);
}

#[test]
fn neighbors_before_a_repeater_refuse_downward_diagonals() {
    let start = Vector3(0, 150, -20);
    let goal = Vector3(0, 150, 20);
    let cur = Vector3(0, 150, 0);
    let node = PathNode { position: cur, steps_from_start: 14, previous: Some(Vector3(0, 150, -1)) };
    let n = cur.neighbors(&start, &goal, &ObstacleSet::new(), &vec![], &node);
    let targets: Vec<Vector3> = n.iter().map(|x| x.0).collect();
    assert!(targets.contains(&Vector3(0, 151, 1)));
    assert!(!targets.contains(&Vector3(0, 149, 1)));
}

#[test]
fn neighbors_keep_clear_of_obstacles() {
    let start = Vector3(0, 150, -20);
    let goal = Vector3(0, 150, 20);
    let cur = Vector3(0, 150, 0);
    let mut obstacles = ObstacleSet::new();
    obstacles.insert(Vector3(0, 150, 2));
    let node = PathNode { position: cur, steps_from_start: 5, previous: Some(Vector3(0, 150, -1)) };
    let n = cur.neighbors(&start, &goal, &obstacles, &vec![], &node);
    let targets: Vec<Vector3> = n.iter().map(|x| x.0).collect();
    assert_eq!(targets, vec![Vector3(1, 150, 0), Vector3(-1, 150, 0)]);
}
