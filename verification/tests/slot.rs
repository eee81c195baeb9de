use game_world::node::Node;
use game_world::slot::{Cell, Slots};

/// The grid cell of a world position, as the server computes it.
fn cell(x: f32, y: f32) -> Cell {
    Cell {
        x: ((x + 100000.0) / 20000.0) as i64,
        y: ((y + 100000.0) / 20000.0) as i64,
    }
}

fn compute(addr: &str) -> Node {
    Node::Compute(addr.to_string())
}

#[test]
fn from_position() {
    assert_eq!(55, Slots::from_position(&cell(0.0, 0.0)));
    assert_eq!(0, Slots::from_position(&cell(-100000.0, -100000.0)));
    assert_eq!(0, Slots::from_position(&cell(-200000.0, -200000.0)));
    assert_eq!(10, Slots::from_position(&cell(100000.0, -100000.0)));
    assert_eq!(100, Slots::from_position(&cell(100000.0, 100000.0)));
    assert_eq!(100, Slots::from_position(&cell(200000.0, 200000.0)));
    assert_eq!(100, Slots::from_position(&cell(100000.0, 99999.0)));
    assert_eq!(90, Slots::from_position(&cell(100000.0, 70000.0)));
    assert_eq!(55, Slots::from_position(&cell(19000.0, 19000.0)));
}

#[test]
fn from_area() {
    let min = cell(-68000.0, -78000.0);
    let max = cell(-19000.0, -36000.0);
    let res = Slots::from_area(&min, &max);
    assert_eq!(vec![11, 12, 13, 14, 21, 22, 23, 24, 31, 32, 33, 34], res);
}

#[test]
fn from_area_corners_in_either_order() {
    let a = Cell { x: 4, y: 3 };
    let b = Cell { x: 1, y: 1 };
    assert_eq!(
        vec![11, 12, 13, 14, 21, 22, 23, 24, 31, 32, 33, 34],
        Slots::from_area(&a, &b)
    );
}

#[test]
fn from_area_single_cell() {
    let c = Cell { x: 7, y: 2 };
    assert_eq!(vec![27], Slots::from_area(&c, &c));
}

#[test]
fn from_position_clamps_cells() {
    assert_eq!(0, Slots::from_position(&Cell { x: -5, y: -9 }));
    assert_eq!(10, Slots::from_position(&Cell { x: 11, y: 0 }));
    assert_eq!(100, Slots::from_position(&Cell { x: i64::MAX, y: i64::MAX }));
    assert_eq!(37, Slots::from_position(&Cell { x: 7, y: 3 }));
}

#[test]
fn default_table_is_unassigned() {
    let slots = Slots::default();
    assert_eq!(100, slots.len());
    assert!(matches!(slots.get_node(0), Some(Node::Unknow)));
    assert!(matches!(slots.get_node(99), Some(Node::Unknow)));
    assert!(slots.get_node(100).is_none());
    assert!(!slots.check());
}

#[test]
fn move_to_reads_back() {
    let mut slots = Slots::default();
    let a = compute("10.0.0.1:8080");
    slots.move_to(&a, &[3, 5, 7]);
    assert_eq!(slots.get_node(5), Some(&a));
    assert_eq!(slots.get_node(3), Some(&a));
    assert_eq!(slots.get_node(4), Some(&Node::Unknow));
    let b = compute("10.0.0.2:8080");
    slots.move_to(&b, &[5]);
    assert_eq!(slots.get_node(5), Some(&b));
    assert_eq!(slots.get_node(7), Some(&a));
    assert_eq!(100, slots.len());
}

#[test]
fn check_after_moving_every_slot() {
    let mut slots = Slots::default();
    let all: Vec<usize> = (0..100).collect();
    slots.move_to(&compute("10.0.0.1:1"), &all[..50]);
    assert!(!slots.check());
    slots.move_to(&compute("10.0.0.2:2"), &all[50..]);
    assert!(slots.check());
    slots.move_to(&Node::User("10.0.0.3:3".to_string()), &[42]);
    assert!(!slots.check());
}

#[test]
fn with_node_groups_every_slot() {
    let a = compute("10.0.0.1:1");
    let b = compute("10.0.0.2:2");
    let slots = Slots::from_nodes(vec![a.clone(), b.clone(), a.clone(), Node::Unknow, b.clone()]);
    let groups = slots.with_node();
    assert_eq!(3, groups.len());
    let find = |n: &Node| groups.iter().find(|(m, _)| m == n).map(|(_, v)| v.clone());
    assert_eq!(Some(vec![0, 2]), find(&a));
    assert_eq!(Some(vec![1, 4]), find(&b));
    assert_eq!(Some(vec![3]), find(&Node::Unknow));
}

#[test]
fn get_nodes_numbers_positions_of_found_slots() {
    let a = compute("10.0.0.1:1");
    let b = compute("10.0.0.2:2");
    let slots = Slots::from_nodes(vec![a.clone(), b.clone(), a.clone()]);
    // slot 9 is past the end and is left out; positions count the slots found
    let groups = slots.get_nodes(vec![2, 9, 1, 0]);
    assert_eq!(2, groups.len());
    let find = |n: &Node| groups.iter().find(|(m, _)| m == n).map(|(_, v)| v.clone());
    assert_eq!(Some(vec![0, 2]), find(&a));
    assert_eq!(Some(vec![1]), find(&b));
    assert!(slots.get_nodes(vec![5, 6]).is_empty());
}

#[test]
fn node_queries() {
    let u = Node::User("1.2.3.4:5".to_string());
    let c = compute("1.2.3.4:5");
    assert!(u.is_user_node());
    assert!(!c.is_user_node());
    assert!(!Node::Unknow.is_user_node());
    assert_eq!(Ok("1.2.3.4:5"), u.get_addr().map_err(|_| ()));
    assert_eq!(Ok("1.2.3.4:5"), c.get_addr().map_err(|_| ()));
    assert!(!u.same_as(&c));
    assert!(c.same_as(&c.clone()));
    assert!(c.is_compute_at(&"1.2.3.4:5".to_string()));
    assert!(!u.is_compute_at(&"1.2.3.4:5".to_string()));
    assert_eq!(Node::Unknow, Node::default());
}
