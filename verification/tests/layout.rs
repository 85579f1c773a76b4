use bog::layout::LayoutTree;

#[test]
fn layout_tree_links_children_and_parents() {
    let mut tree = LayoutTree::new();
    let root = tree.add_node();
    let mid = tree.add_node();
    let leaf = tree.add_node();
    assert_ne!(root, mid);
    assert!(tree.contains(root) && tree.contains(leaf));
    assert_eq!(tree.parent(mid), None);
    tree.add_child_to_node(root, mid);
    tree.add_child_to_node(mid, leaf);
    assert_eq!(tree.children(root), &[mid]);
    assert_eq!(tree.children_owned(mid), vec![leaf]);
    assert_eq!(tree.parent(leaf), Some(mid));
    assert_eq!(tree.ancestry(leaf), vec![leaf, mid, root]);
    assert_eq!(tree.ancestry(root), vec![root]);
    assert!(tree.reaches(leaf, root));
    assert!(tree.reaches(leaf, leaf));
    assert!(!tree.reaches(root, leaf));
}

#[test]
fn layout_tree_reparenting_follows_the_new_parent() {
    let mut tree = LayoutTree::with_capacity(4);
    let a = tree.add_node();
    let b = tree.add_node();
    let c = tree.add_node();
    tree.add_child_to_node(a, c);
    tree.add_child_to_node(b, c);
    assert_eq!(tree.ancestry(c), vec![c, b]);
    assert_eq!(tree.children(a), &[c]);
    assert_eq!(tree.children(b), &[c]);
    tree.add_child_to_node(a, b);
    assert_eq!(tree.ancestry(c), vec![c, b, a]);
}

#[test]
fn layout_tree_clear_removes_every_node() {
    let mut tree = LayoutTree::new();
    let a = tree.add_node();
    tree.clear();
    assert!(!tree.contains(a));
    let b = tree.add_node();
    assert!(tree.contains(b));
    assert_ne!(a, b);
}
