use crdt_rga::{Node, UniqueId, PROTECTED_SENTINEL, SENTINEL_END_CHAR, SENTINEL_START_CHAR};

#[test]
fn test_node_creation() {
    let id = UniqueId::new(1, 1);
    let node = Node::new(id, 'A');

    assert_eq!(node.id, id);
    assert_eq!(node.character, 'A');
    assert!(!node.is_deleted);
}

#[test]
fn test_node_deletion() {
    let id = UniqueId::new(1, 1);
    let mut node = Node::new(id, 'A');

    assert!(node.delete().is_ok());
    assert!(node.is_deleted);
}

#[test]
fn test_sentinel_nodes() {
    let start = Node::sentinel_start();
    let end = Node::sentinel_end();

    assert!(start.is_sentinel());
    assert!(end.is_sentinel());
    assert!(start < end);

    // Sentinels cannot be deleted
    let mut start_mut = start;
    let mut end_mut = end;
    assert!(start_mut.delete().is_err());
    assert!(end_mut.delete().is_err());
}

#[test]
fn test_node_visibility() {
    let id = UniqueId::new(1, 1);
    let mut node = Node::new(id, 'A');
    let start = Node::sentinel_start();

    assert!(node.is_visible());
    assert!(!start.is_visible());

    node.delete().unwrap();
    assert!(!node.is_visible());
}

#[test]
fn test_node_ordering() {
    let id1 = UniqueId::new(1, 1);
    let id2 = UniqueId::new(2, 1);
    let node1 = Node::new(id1, 'A');
    let node2 = Node::new(id2, 'B');

    assert!(node1 < node2);
}

#[test]
fn nodes_are_equal_by_identifier_alone() {
    let id = UniqueId::new(3, 2);
    assert!(Node::new(id, 'A') == Node::new_deleted(id, 'B'));
    assert!(Node::new(id, 'A') != Node::new(UniqueId::new(3, 3), 'A'));
}

#[test]
fn sentinel_delete_reports_protection_and_keeps_the_node() {
    let mut start = Node::sentinel_start();
    assert_eq!(start.delete(), Err(PROTECTED_SENTINEL));
    assert!(!start.is_deleted);
    assert_eq!(start.character, SENTINEL_START_CHAR);
    assert_eq!(Node::sentinel_end().character, SENTINEL_END_CHAR);
    assert_eq!(start.id, UniqueId::new(0, 0));
    assert_eq!(
        Node::sentinel_end().id,
        UniqueId::new_with_sequence(u64::MAX, u64::MAX, u32::MAX)
    );
    assert!(UniqueId::new_with_sequence(u64::MAX, u64::MAX, u32::MAX - 1) < Node::sentinel_end().id);
}

#[test]
fn new_deleted_and_undelete() {
    let mut node = Node::new_deleted(UniqueId::new(2, 2), 'Q');
    assert!(node.is_deleted);
    assert!(!node.is_visible());
    node.undelete();
    assert!(!node.is_deleted);
    assert!(node.is_visible());
}
