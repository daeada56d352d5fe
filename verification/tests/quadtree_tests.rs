use dvarcraft::geom::Pos;
use dvarcraft::quadtree::QuadTree;

fn p(x: i64, y: i64) -> Pos {
    Pos { x, y }
}

#[test]
fn five_inserts_found_back() {
    // A 256 x 256-unit tree with minimum leaf width 64 has a 4 x 4 grid
    // of leaves; five positions in five different leaves come back under
    // their own identifiers.
    let mut t = QuadTree::new(0, 0, 256, 256, 64);
    let positions = [p(10, 10), p(100, 10), p(10, 100), p(200, 200), p(70, 70)];
    for (i, pos) in positions.iter().enumerate() {
        assert!(t.insert(*pos, i));
    }
    for (i, pos) in positions.iter().enumerate() {
        assert_eq!(t.find(*pos), Some(i));
    }
}

#[test]
fn find_outside_root_is_none() {
    let mut t = QuadTree::new(0, 0, 256, 256, 64);
    t.insert(p(10, 10), 0);
    assert_eq!(t.find(p(-10, -10)), None);
    assert_eq!(t.find(p(300, 10)), None);
    assert!(t.find_all(p(-1, 0)).is_none());
}

#[test]
fn insert_outside_root_fails_silently() {
    let mut t = QuadTree::new(0, 0, 128, 128, 64);
    assert!(!t.insert(p(-5, 5), 3));
    assert_eq!(t.find(p(5, 5)), None);
}

#[test]
fn find_on_empty_leaf_is_none() {
    let t = QuadTree::new(0, 0, 256, 256, 64);
    assert_eq!(t.find(p(10, 10)), None);
}

#[test]
fn first_member_of_leaf_wins() {
    let mut t = QuadTree::new(0, 0, 128, 128, 64);
    assert!(t.insert(p(5, 5), 8));
    assert!(t.insert(p(6, 6), 9));
    // Same leaf: find returns the first inserted member.
    assert_eq!(t.find(p(5, 5)), Some(8));
    let all = t.find_all(p(6, 6)).unwrap().clone();
    assert_eq!(all, vec![8, 9]);
}

#[test]
fn remove_clears_everywhere() {
    let mut t = QuadTree::new(0, 0, 128, 128, 64);
    t.insert(p(5, 5), 1);
    t.insert(p(6, 6), 2);
    t.remove(1);
    let all = t.find_all(p(5, 5)).unwrap().clone();
    assert!(!all.contains(&1));
    assert_eq!(all, vec![2]);
    t.remove(2);
    assert!(t.find_all(p(5, 5)).is_none());
    // Removing an id that is absent everywhere is harmless.
    t.remove(42);
}

#[test]
fn find_around_in_samples_sibling_members() {
    let mut t = QuadTree::new(0, 0, 128, 128, 64);
    // id 7 sits in the (east, north) leaf; the query position is in the
    // (west, north) leaf, so id 7 is a sibling-branch member.
    assert!(t.insert(p(100, 10), 7));
    let subset = vec![7usize];
    assert_eq!(t.find_around_in(p(10, 10), &subset), Some(7));
    // A subset that misses every member yields nothing.
    let other = vec![9usize];
    assert_eq!(t.find_around_in(p(10, 10), &other), None);
    // The member co-located with the query position is not "around" it.
    let mut t2 = QuadTree::new(0, 0, 128, 128, 64);
    t2.insert(p(10, 10), 3);
    assert_eq!(t2.find_around_in(p(10, 10), &vec![3usize]), None);
}

#[test]
fn split_produces_fixed_grid() {
    let mut t = QuadTree {
        branches: Vec::new(),
        tiles: Vec::new(),
        min_width: 64,
        x: 0,
        y: 0,
        width: 256,
        height: 256,
    };
    t.split();
    assert_eq!(t.branches.len(), 4);
    assert_eq!(t.branches[0].branches.len(), 4);
    // Depth two: 64-wide leaves do not split further.
    assert_eq!(t.branches[0].branches[0].branches.len(), 0);
    assert_eq!(t.branches[0].branches[0].width, 64);
}
