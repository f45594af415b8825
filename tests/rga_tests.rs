use crdt_rga::RGA;

#[test]
fn test_rga_creation() {
    let rga = RGA::new(1);
    assert_eq!(rga.replica_id(), 1);
    assert_eq!(rga.current_clock(), 0);
    assert_eq!(rga.total_node_count(), 2); // Start and end sentinels
    assert_eq!(rga.visible_node_count(), 0);
    assert_eq!(rga.to_string(), "");
}

#[test]
fn test_basic_insertion() {
    let mut rga = RGA::new(1);
    let start_id = rga.sentinel_start_id();

    let char_id = rga.insert_after(start_id, 'A').unwrap();
    assert_eq!(rga.to_string(), "A");
    assert_eq!(rga.visible_node_count(), 1);

    // Insert after the 'A'
    rga.insert_after(char_id, 'B').unwrap();
    assert_eq!(rga.to_string(), "AB");
    assert_eq!(rga.visible_node_count(), 2);
}

#[test]
fn test_deletion() {
    let mut rga = RGA::new(1);
    let start_id = rga.sentinel_start_id();

    let char_id = rga.insert_after(start_id, 'A').unwrap();
    assert_eq!(rga.to_string(), "A");

    rga.delete(char_id).unwrap();
    assert_eq!(rga.to_string(), "");
    assert_eq!(rga.visible_node_count(), 0);
    assert_eq!(rga.total_node_count(), 3); // Still has the tombstone
}

#[test]
fn test_remote_operations() {
    let mut rga1 = RGA::new(1);
    let mut rga2 = RGA::new(2);

    let start_id = rga1.sentinel_start_id();
    let a_id = rga1.insert_after(start_id, 'A').unwrap();

    let node_a = rga1.all_nodes().into_iter().find(|n| n.id == a_id).unwrap();
    rga2.apply_remote_op(node_a);

    assert_eq!(rga1.to_string(), rga2.to_string());
    assert_eq!(rga2.to_string(), "A");
}

#[test]
fn test_concurrent_operations() {
    let mut rga1 = RGA::new(1);
    let mut rga2 = RGA::new(2);
    let start_id = rga1.sentinel_start_id();

    let a_id = rga1.insert_after(start_id, 'A').unwrap();
    let b_id = rga2.insert_after(start_id, 'B').unwrap();

    let node_a = rga1.all_nodes().into_iter().find(|n| n.id == a_id).unwrap();
    let node_b = rga2.all_nodes().into_iter().find(|n| n.id == b_id).unwrap();

    rga2.apply_remote_op(node_a);
    rga1.apply_remote_op(node_b);

    assert_eq!(rga1.to_string(), rga2.to_string());
    // 'A' (replica 1) orders before 'B' (replica 2)
    assert_eq!(rga1.to_string(), "AB");
}

#[test]
fn clone_keeps_elements_and_clock() {
    let mut rga = RGA::new(4);
    let start_id = rga.sentinel_start_id();
    let a = rga.insert_after(start_id, 'A').unwrap();
    rga.insert_after(a, 'B').unwrap();
    rga.delete(a).unwrap();

    let mut copy = rga.clone();
    assert_eq!(copy.to_string(), "B");
    assert_eq!(copy.total_node_count(), 4);
    assert_eq!(copy.current_clock(), rga.current_clock());
    assert_eq!(copy.replica_id(), 4);

    // The copy goes on above what it holds, and leaves the replica it was copied from alone.
    let c = copy.insert_after(start_id, 'C').unwrap();
    assert!(c.counter() > rga.current_clock());
    assert_eq!(copy.to_string(), "BC");
    assert_eq!(rga.to_string(), "B");
}

#[test]
fn all_nodes_lists_every_element_in_identifier_order() {
    let mut rga = RGA::new(1);
    let start_id = rga.sentinel_start_id();
    let a = rga.insert_after(start_id, 'A').unwrap();
    rga.insert_after(a, 'B').unwrap();
    rga.delete(a).unwrap();

    let nodes = rga.all_nodes();
    let chars: Vec<char> = nodes.iter().map(|n| n.character).collect();
    assert_eq!(
        chars,
        vec![crdt_rga::SENTINEL_START_CHAR, 'A', 'B', crdt_rga::SENTINEL_END_CHAR]
    );
    assert!(nodes[1].is_deleted);
    for w in nodes.windows(2) {
        assert!(w[0].id < w[1].id);
    }

    let visible = rga.visible_nodes();
    assert_eq!(visible.len(), 1);
    assert_eq!(visible[0].character, 'B');
}
