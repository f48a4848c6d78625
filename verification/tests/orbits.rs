use intcode::puzzle::orbit::{read_tree, Tree};
use intcode::puzzle::reaction::{binary_search, ceiling_divide};

fn example() -> Tree {
    read_tree(b"COM)B\nB)C\nC)D\nD)E\nE)F\nB)G\nG)H\nD)I\nE)J\nJ)K\nK)L\n").unwrap()
}

#[test]
fn orbits_are_counted() {
    let tree = example();
    assert_eq!(12, tree.len());
    assert!(tree.verify_tree());
    assert_eq!(Some(42), tree.sum_of_depths());
    let depth = |label: &[u8]| tree.depth(tree.lookup(label).unwrap());
    assert_eq!(Some(0), depth(b"COM"));
    assert_eq!(Some(3), depth(b"D"));
    assert_eq!(Some(7), depth(b"L"));
    assert_eq!(Some(3), depth(b"H"));
    assert_eq!(None, tree.lookup(b"X"));
    assert_eq!(None, tree.lookup(b""));
    assert_eq!(Some(0), tree.lookup(b"COM"));
    assert_eq!(Some(1), tree.lookup(b"B"));
    assert_eq!(Some(6), tree.lookup(b"G"));
    assert_eq!(None, tree.parent(0));
    assert_eq!(Some(1), tree.parent(6));
    // All objects are around the middle; three are around E, and E itself.
    assert_eq!(12, tree.num_nodes(0));
    let e = tree.lookup(b"E").unwrap();
    assert_eq!(5, tree.num_nodes(e));
    assert_eq!(1, tree.num_nodes(tree.lookup(b"L").unwrap()));
    assert_eq!(0, tree.num_nodes(99));
    assert!(tree.is_under(tree.lookup(b"K").unwrap(), e));
    assert!(tree.is_under(e, e));
    assert!(!tree.is_under(e, tree.lookup(b"K").unwrap()));
    assert!(!tree.is_under(tree.lookup(b"H").unwrap(), e));
}

#[test]
fn distances_between_objects() {
    let tree =
        read_tree(b"COM)B\nB)C\nC)D\nD)E\nE)F\nB)G\nG)H\nD)I\nE)J\nJ)K\nK)L\nK)YOU\nI)SAN").unwrap();
    let you = tree.lookup(b"YOU").unwrap();
    let santa = tree.lookup(b"SAN").unwrap();
    assert_eq!(Some(6), tree.distance(you, santa));
    assert_eq!(Some(6), tree.distance(santa, you));
    assert_eq!(Some(0), tree.distance(you, you));
    let root = tree.lookup(b"COM").unwrap();
    assert_eq!(Some(7), tree.distance(root, you));
    assert_eq!(Some(7), tree.distance(you, root));
    let h = tree.lookup(b"H").unwrap();
    let l = tree.lookup(b"L").unwrap();
    assert_eq!(Some(2 + 6), tree.distance(h, l));
    let k = tree.lookup(b"K").unwrap();
    assert_eq!(Some(1), tree.distance(k, you));
    assert_eq!(Some(54), tree.sum_of_depths());
}

#[test]
fn texts_that_are_no_tree() {
    assert!(read_tree(b"").unwrap().verify_tree());
    assert_eq!(0, read_tree(b"").unwrap().len());
    assert_eq!(Some(0), read_tree(b"").unwrap().sum_of_depths());
    assert!(read_tree(b"A)B\r\nB)C").is_some());
    // No `)`, or more than one.
    assert!(read_tree(b"A)B\nC").is_none());
    assert!(read_tree(b"A)B)C").is_none());
    assert!(read_tree(b"A)B\n\nB)C").is_none());
    // An object in orbit around two.
    assert!(read_tree(b"A)B\nC)B").is_none());
    assert!(read_tree(b"A)B\nA)B").is_none());
    // Two objects in orbit around nothing.
    assert!(read_tree(b"A)B\nC)D").is_none());
    // Objects in a circle.
    assert!(read_tree(b"A)B\nB)A").is_none());
    assert!(read_tree(b"A)A").is_none());
    assert!(read_tree(b"A)B\nB)C\nC)B").is_none());
    // Names may be empty, but are told apart.
    let odd = read_tree(b")B\nB) ").unwrap();
    assert_eq!(Some(0), odd.lookup(b""));
    assert_eq!(Some(2), odd.lookup(b" "));
    assert_eq!(Some(3), odd.sum_of_depths());
}

#[test]
fn quotients_are_rounded_up() {
    assert_eq!(0, ceiling_divide(0, 5));
    assert_eq!(1, ceiling_divide(1, 5));
    assert_eq!(1, ceiling_divide(5, 5));
    assert_eq!(2, ceiling_divide(6, 5));
    assert_eq!(7, ceiling_divide(7, 1));
    assert_eq!(1, ceiling_divide(7, 10));
    assert_eq!(u64::MAX, ceiling_divide(u64::MAX, 1));
    assert_eq!((1 << 63), ceiling_divide(u64::MAX, 2));
    assert_eq!(1, ceiling_divide(u64::MAX, u64::MAX));
    assert_eq!(2, ceiling_divide(u64::MAX, u64::MAX - 1));
    // An amount that a float would round.
    assert_eq!(9007199254740993, ceiling_divide(9007199254740993, 1));
    assert_eq!(3002399751580331, ceiling_divide(9007199254740993, 3));
}

#[test]
fn search_in_a_range() {
    let double = |x: u64| 2 * x;
    assert_eq!(Ok(21), binary_search(0, 100, 42, double));
    assert_eq!(Err(22), binary_search(0, 100, 43, double));
    assert_eq!(Err(5), binary_search(5, 5, 42, double));
    assert_eq!(Err(3), binary_search(7, 3, 42, double));
    assert_eq!(Ok(0), binary_search(0, 100, 0, double));
    assert_eq!(Ok(99), binary_search(0, 100, 198, double));
    assert_eq!(Err(100), binary_search(0, 100, 199, double));
    assert_eq!(Err(10), binary_search(10, 100, 3, double));
    let steps = |x: u64| x / 10;
    let found = binary_search(0, 1 << 40, 123456, steps).unwrap();
    assert_eq!(123456, found / 10);
    assert_eq!(Ok(u64::MAX - 1), binary_search(0, u64::MAX, u64::MAX - 1, |x| x));
}
