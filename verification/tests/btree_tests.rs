use mykv::btree::{BTree, Node};

fn leaf(keys: Vec<u64>, values: Vec<&'static str>) -> Node<&'static str> {
    Node { children: None, keys: Some(keys), values: Some(values) }
}

fn tree() -> BTree<&'static str> {
    let root = Node {
        children: Some(vec![
            leaf(vec![], vec![]),
            leaf(vec![1, 2], vec!["a", "b"]),
            leaf(vec![5, 6], vec!["e", "f"]),
        ]),
        keys: Some(vec![0, 4, 8]),
        values: None,
    };
    BTree { root: Box::new(root), bsize: 2, b: 2, page_size: 4096 }
}

#[test]
fn leaf_search_follows_the_separators() {
    let t = tree();
    let l = t.leaf_search(&2, &t.root).unwrap();
    assert_eq!(l.keys, Some(vec![1, 2]));
    let l = t.leaf_search(&4, &t.root).unwrap();
    assert_eq!(l.keys, Some(vec![1, 2]));
    let l = t.leaf_search(&7, &t.root).unwrap();
    assert_eq!(l.keys, Some(vec![5, 6]));
    let l = t.leaf_search(&9, &t.root).unwrap();
    assert_eq!(l.keys, Some(vec![5, 6]));
    let single = leaf(vec![3], vec!["c"]);
    let found = t.leaf_search(&3, &single).unwrap();
    assert_eq!(found.values, Some(vec!["c"]));
    let empty: Node<&'static str> = Node { children: Some(vec![]), keys: None, values: None };
    assert!(t.leaf_search(&3, &empty).is_none());
}

#[test]
fn search_and_get_value_read_the_leaf() {
    let t = tree();
    assert!(t.search(&1));
    assert!(t.search(&6));
    assert!(!t.search(&3));
    assert!(!t.search(&9));
    assert_eq!(t.get_value(&5), Some(&"e"));
    assert_eq!(t.get_value(&2), Some(&"b"));
    assert_eq!(t.get_value(&3), None);
}

#[test]
fn inserted_key_is_found() {
    let mut t = tree();
    t.insert(3, "c");
    assert!(t.search(&3));
    assert_eq!(t.get_value(&3), Some(&"c"));
    assert_eq!(t.leaf_search(&3, &t.root).unwrap().keys, Some(vec![1, 2, 3]));
    assert!(t.search(&1));
    assert_eq!(t.get_value(&2), Some(&"b"));
    assert_eq!(t.get_value(&5), Some(&"e"));
    t.insert(0, "z");
    assert_eq!(t.leaf_search(&0, &t.root).unwrap().keys, Some(vec![0, 1, 2, 3]));
    assert_eq!(t.get_value(&0), Some(&"z"));
    t.insert(20, "t");
    assert_eq!(t.get_value(&20), Some(&"t"));
    assert_eq!(t.leaf_search(&20, &t.root).unwrap().keys, Some(vec![5, 6, 20]));
}

#[test]
fn insert_replaces_the_stored_value() {
    let mut t = tree();
    t.insert(6, "g");
    assert_eq!(t.get_value(&6), Some(&"g"));
    assert_eq!(t.leaf_search(&6, &t.root).unwrap().keys, Some(vec![5, 6]));
    assert_eq!(t.get_value(&5), Some(&"e"));
}

#[test]
fn insert_into_a_bare_leaf_root() {
    let bare: Node<&'static str> = Node { children: None, keys: None, values: None };
    let mut t = BTree { root: Box::new(bare), bsize: 0, b: 4, page_size: 0 };
    assert!(!t.search(&7));
    t.insert(7, "x");
    assert!(t.search(&7));
    assert_eq!(t.get_value(&7), Some(&"x"));
    assert_eq!(t.root.keys, Some(vec![7]));
}

#[test]
fn insert_stops_at_a_node_without_children() {
    let empty: Node<&'static str> = Node { children: Some(vec![]), keys: None, values: None };
    let mut t = BTree { root: Box::new(empty), bsize: 0, b: 4, page_size: 0 };
    t.insert(7, "x");
    assert!(!t.search(&7));
    assert_eq!(t.get_value(&7), None);
}

#[test]
fn node_fullness() {
    let t = tree();
    assert!(t.check_node_full(&leaf(vec![1, 2], vec!["a", "b"])));
    assert!(!t.check_node_full(&leaf(vec![1], vec!["a"])));
    let bare: Node<&'static str> = Node { children: None, keys: None, values: None };
    assert!(!t.check_node_full(&bare));
    let t2: BTree<&'static str> = BTree { root: Box::new(bare), bsize: 0, b: -1, page_size: 0 };
    assert!(t2.check_node_full(&leaf(vec![], vec![])));
}
