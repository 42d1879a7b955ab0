use galec::collections::flat_tree::{root_id, FlatTree, PreOrderTreeIterator, RandomFlatTreeIterator};

#[test]
fn test_single_child() {
    let mut t: FlatTree<i32> = FlatTree::new_with_root(3);
    let n1 = t.new_node(4, root_id);
    assert_eq!(t.get_node_value(root_id), Some(&3));
    assert_eq!(t.get_node_value(n1), Some(&4));
    assert_eq!(t.get_children(root_id), vec![n1]);
}

#[test]
fn test_multiple_children() {
    let mut t: FlatTree<i32> = FlatTree::new_with_root(3);
    let n1 = t.new_node(4, root_id);
    let n2 = t.new_node(5, root_id);
    assert_eq!(t.get_node_value(root_id), Some(&3));
    assert_eq!(t.get_node_value(n1), Some(&4));
    assert_eq!(t.get_node_value(n2), Some(&5));
    assert_eq!(t.get_children(root_id), vec![n1, n2]);

    let n3 = t.new_node(6, n2);
    assert_eq!(t.get_node_value(n3), Some(&6));
    assert_eq!(t.get_children(n2), vec![n3]);

    t.delete_node(n2);
    assert_eq!(t.get_node_value(n2), None);
    assert_eq!(t.get_node_value(n3), None);
}

#[test]
fn test_iterate_single() {
    let t: FlatTree<i32> = FlatTree::new_with_root(3);
    let mut it = RandomFlatTreeIterator::new(&t);
    assert_eq!(it.next(), Some((0, &3)));
    assert_eq!(it.next(), None);
}

#[test]
fn test_iterate_multiple() {
    let mut t: FlatTree<i32> = FlatTree::new_with_root(3);
    t.new_node(5, root_id);

    let mut it = RandomFlatTreeIterator::new(&t);
    assert_eq!(it.next(), Some((0, &3)));
    assert_eq!(it.next(), Some((1, &5)));
    assert_eq!(it.next(), None);
}

#[test]
fn test_iterate_with_deleted() {
    let mut t: FlatTree<i32> = FlatTree::new_with_root(3);
    let id = t.new_node(5, root_id);
    t.new_node(6, root_id);
    t.delete_node(id);

    let mut it = RandomFlatTreeIterator::new(&t);
    assert_eq!(it.next(), Some((0, &3)));
    assert_eq!(it.next(), Some((2, &6)));
    assert_eq!(it.next(), None);
}

#[test]
fn deleting_hides_the_subtree_and_nothing_else() {
    let mut t: FlatTree<i32> = FlatTree::new_with_root(0);
    let a = t.new_node(1, root_id);
    let b = t.new_node(2, root_id);
    let a1 = t.new_node(11, a);
    let a2 = t.new_node(12, a);
    let a11 = t.new_node(111, a1);
    let b1 = t.new_node(21, b);

    t.delete_node(a);

    assert_eq!(t.get_node_value(a), None);
    assert_eq!(t.get_node_value(a1), None);
    assert_eq!(t.get_node_value(a2), None);
    assert_eq!(t.get_node_value(a11), None);
    assert_eq!(t.get_children(a), Vec::<usize>::new());
    assert_eq!(t.get_children(a1), Vec::<usize>::new());

    assert_eq!(t.get_node_value(root_id), Some(&0));
    assert_eq!(t.get_node_value(b), Some(&2));
    assert_eq!(t.get_node_value(b1), Some(&21));
    assert_eq!(t.get_children(root_id), vec![b]);
    assert_eq!(t.get_children(b), vec![b1]);
    assert_eq!(t.len(), 7);
    assert_eq!((a, b, a1, a2, a11, b1), (1, 2, 3, 4, 5, 6));
}

#[test]
fn deleting_twice_changes_nothing_more() {
    let mut t: FlatTree<i32> = FlatTree::new_with_root(0);
    let a = t.new_node(1, root_id);
    let b = t.new_node(2, root_id);
    t.delete_node(a);
    t.delete_node(a);
    assert_eq!(t.get_node_value(a), None);
    assert_eq!(t.get_node_value(b), Some(&2));
    assert_eq!(t.get_children(root_id), vec![b]);
}

#[test]
fn deleting_the_root_hides_everything() {
    let mut t: FlatTree<i32> = FlatTree::new_with_root(0);
    let a = t.new_node(1, root_id);
    let a1 = t.new_node(11, a);
    t.delete_node(root_id);
    assert_eq!(t.get_node_value(root_id), None);
    assert_eq!(t.get_node_value(a), None);
    assert_eq!(t.get_node_value(a1), None);
    let mut it = RandomFlatTreeIterator::new(&t);
    assert_eq!(it.next(), None);
}

#[test]
fn identities_are_not_reused_after_a_deletion() {
    let mut t: FlatTree<i32> = FlatTree::new_with_root(0);
    let a = t.new_node(1, root_id);
    t.delete_node(a);
    let b = t.new_node(2, root_id);
    assert_eq!(a, 1);
    assert_eq!(b, 2);
    assert_eq!(t.get_node_value(b), Some(&2));
    assert_eq!(t.get_children(root_id), vec![b]);
}

#[test]
fn siblings_come_back_in_the_order_of_insertion() {
    let mut t: FlatTree<i32> = FlatTree::new_with_root(0);
    let mut expected = Vec::new();
    for k in 0..10 {
        expected.push(t.new_node(k, root_id));
    }
    assert_eq!(t.get_children(root_id), expected);
    assert_eq!(expected, vec![1, 2, 3, 4, 5, 6, 7, 8, 9, 10]);
}

#[test]
fn the_root_is_nobodys_child() {
    let t: FlatTree<i32> = FlatTree::new_with_root(0);
    assert_eq!(t.get_parent(root_id), root_id);
    assert_eq!(t.get_children(root_id), Vec::<usize>::new());
}

#[test]
fn an_empty_tree_takes_its_root_from_the_first_node() {
    let mut t: FlatTree<i32> = FlatTree::new_empty();
    assert_eq!(t.len(), 0);
    let r = t.new_node(7, root_id);
    assert_eq!(r, root_id);
    assert_eq!(t.get_parent(r), root_id);
    assert_eq!(t.get_node_value(r), Some(&7));
}

#[test]
fn set_root_creates_or_replaces_the_root() {
    let mut t: FlatTree<i32> = FlatTree::new_empty();
    t.set_root(1);
    assert_eq!(t.len(), 1);
    assert_eq!(t.get_node_value(root_id), Some(&1));
    let a = t.new_node(5, root_id);
    t.set_root(2);
    assert_eq!(t.len(), 2);
    assert_eq!(t.get_node_value(root_id), Some(&2));
    assert_eq!(t.get_node_value(a), Some(&5));
    t.delete_node(root_id);
    t.set_root(3);
    assert_eq!(t.get_node_value(root_id), Some(&3));
    assert_eq!(t.get_node_value(a), None);
}

#[test]
fn values_are_replaced_in_place() {
    let mut t: FlatTree<i32> = FlatTree::new_with_root(0);
    let a = t.new_node(1, root_id);
    let b = t.new_node(2, a);
    t.set_node_value(a, 10);
    assert_eq!(t.get_node_value(a), Some(&10));
    assert_eq!(t.get_parent(a), root_id);
    assert_eq!(t.get_parent(b), a);
    assert_eq!(t.get_children(a), vec![b]);
    match t.get_mut_node_value(b) {
        Some(v) => *v = 20,
        None => panic!("the node is live"),
    }
    assert_eq!(t.get_node_value(b), Some(&20));
}

#[test]
fn a_tombstone_keeps_its_value_out_of_reach() {
    let mut t: FlatTree<i32> = FlatTree::new_with_root(0);
    let a = t.new_node(1, root_id);
    t.delete_node(a);
    t.set_node_value(a, 10);
    assert_eq!(t.get_node_value(a), None);
    assert!(t.get_mut_node_value(a).is_none());
    assert_eq!(t.get_parent(a), root_id);
}

#[test]
fn the_walk_from_the_root_visits_parents_first() {
    let mut t: FlatTree<i32> = FlatTree::new_with_root(0);
    let a = t.new_node(1, root_id);
    let b = t.new_node(2, root_id);
    let a1 = t.new_node(11, a);
    let b1 = t.new_node(21, b);
    let a11 = t.new_node(111, a1);

    let mut it = PreOrderTreeIterator::new(&t);
    let mut seen: Vec<usize> = Vec::new();
    while let Some((id, value)) = it.next() {
        assert_eq!(t.get_node_value(id), Some(value));
        if id != root_id {
            assert!(seen.contains(&t.get_parent(id)));
        }
        assert!(!seen.contains(&id));
        seen.push(id);
    }
    assert_eq!(seen, vec![root_id, b, b1, a, a1, a11]);
}

#[test]
fn the_walk_from_the_root_skips_what_was_deleted() {
    let mut t: FlatTree<i32> = FlatTree::new_with_root(0);
    let a = t.new_node(1, root_id);
    let b = t.new_node(2, root_id);
    t.new_node(11, a);
    let b1 = t.new_node(21, b);
    t.delete_node(a);

    let mut it = PreOrderTreeIterator::new(&t);
    let mut seen: Vec<usize> = Vec::new();
    while let Some((id, _)) = it.next() {
        seen.push(id);
    }
    assert_eq!(seen, vec![root_id, b, b1]);
}

#[test]
fn the_walk_over_an_empty_tree_ends_at_once() {
    let t: FlatTree<i32> = FlatTree::new_empty();
    let mut it = PreOrderTreeIterator::new(&t);
    assert!(it.next().is_none());
    let mut all = RandomFlatTreeIterator::new(&t);
    assert!(all.next().is_none());
}
