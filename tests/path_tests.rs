use yasa_core::geometry::Square;
use yasa_core::model::Path;
use yasa_core::pathfinding::PathNode;
use yasa_core::prob::Prob;

fn value(p: Prob) -> f64 {
    p.num as f64 / p.den as f64
}

#[test]
fn test_path_new() {
    let target = Square::new(5, 5);
    let path = Path::new(target);

    assert_eq!(path.target, target);
    assert_eq!(value(path.prob), 1.0);
    assert_eq!(path.moves_used, 0);
    assert_eq!(path.gfis_used, 0);
    assert!(!path.picks_up_ball);
    assert!(path.is_empty());
}

#[test]
fn test_path_len() {
    let mut path = Path::new(Square::new(5, 5));
    assert_eq!(path.len(), 0);

    path.squares.push(Square::new(2, 2));
    path.squares.push(Square::new(3, 3));
    path.squares.push(Square::new(4, 4));
    path.squares.push(Square::new(5, 5));

    assert_eq!(path.len(), 4);
    assert!(!path.is_empty());
}

#[test]
fn test_path_total_cost() {
    let mut path = Path::new(Square::new(5, 5));
    path.moves_used = 4;
    path.gfis_used = 2;

    assert_eq!(path.total_cost(), 6);
}

#[test]
fn test_path_with_reduced_probability() {
    let mut path = Path::new(Square::new(5, 5));
    path.prob = Prob::new(3, 4);
    path.moves_used = 3;
    path.gfis_used = 1;

    assert_eq!(value(path.prob), 0.75);
    assert_eq!(path.total_cost(), 4);
}

#[test]
fn test_path_clone() {
    let mut path = Path::new(Square::new(5, 5));
    path.squares.push(Square::new(2, 2));
    path.prob = Prob::new(4, 5);
    path.moves_used = 1;
    path.picks_up_ball = true;

    let cloned = path.clone();
    assert_eq!(cloned, path);
}

#[test]
fn test_path_node_new() {
    let node = PathNode::new(Square::new(5, 5), 6, 2);

    assert_eq!(node.position, Square::new(5, 5));
    assert_eq!(node.moves_left, 6);
    assert_eq!(node.gfis_left, 2);
    assert_eq!(value(node.prob), 1.0);
    assert!(node.parent.is_none());
    assert!(!node.picked_up_ball);
}

#[test]
fn test_path_node_from_parent_normal_move() {
    let parent = PathNode::new(Square::new(5, 5), 6, 2);
    let child = PathNode::from_parent(0, &parent, Square::new(6, 5), Prob::one(), false).unwrap();

    assert_eq!(child.position, Square::new(6, 5));
    assert_eq!(child.moves_left, 5);
    assert_eq!(child.gfis_left, 2);
    assert_eq!(value(child.prob), 1.0);
    assert_eq!(child.parent, Some(0));
}

#[test]
fn test_path_node_from_parent_gfi_move() {
    let parent = PathNode::new(Square::new(5, 5), 0, 2);
    let gfi_prob = Prob::sixths(5);

    let child = PathNode::from_parent(0, &parent, Square::new(6, 5), gfi_prob, true).unwrap();

    assert_eq!(child.position, Square::new(6, 5));
    assert_eq!(child.moves_left, 0);
    assert_eq!(child.gfis_left, 1);
    assert!((value(child.prob) - 5.0 / 6.0).abs() < 0.001);
}

#[test]
fn test_path_node_from_parent_with_dodge() {
    let parent = PathNode::new(Square::new(5, 5), 6, 2);
    let dodge_prob = Prob::sixths(4);

    let child = PathNode::from_parent(0, &parent, Square::new(6, 5), dodge_prob, false).unwrap();

    assert!((value(child.prob) - 4.0 / 6.0).abs() < 0.001);
}

#[test]
fn test_path_node_cumulative_probability() {
    let parent = PathNode::new(Square::new(5, 5), 6, 2);
    let child1 =
        PathNode::from_parent(0, &parent, Square::new(6, 5), Prob::sixths(4), false).unwrap();
    let child2 =
        PathNode::from_parent(1, &child1, Square::new(7, 5), Prob::sixths(3), false).unwrap();

    let expected_prob = (4.0 / 6.0) * (3.0 / 6.0);
    assert!((value(child2.prob) - expected_prob).abs() < 0.001);
    assert_eq!(child2.prob, Prob::new(12, 36));
}

#[test]
fn test_path_node_total_moves_left() {
    let node = PathNode::new(Square::new(5, 5), 4, 2);
    assert_eq!(node.total_moves_left(), 6);
}
