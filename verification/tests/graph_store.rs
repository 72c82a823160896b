use cymbiont::graph_manager::{EdgeType, GraphManager, NodeType};
use cymbiont::pkm_data::{PKMBlockData, PKMPageData, PKMReference};

fn create_test_manager() -> GraphManager {
    GraphManager::new_empty(None)
}

fn create_test_block(id: &str, content: &str) -> PKMBlockData {
    PKMBlockData {
        id: id.to_string(),
        content: content.to_string(),
        created: "2024-01-01T00:00:00Z".to_string(),
        updated: "2024-01-01T00:00:00Z".to_string(),
        parent: None,
        children: vec![],
        page: Some("TestPage".to_string()),
        properties: Vec::new(),
        references: vec![],
        reference_content: None,
    }
}

fn create_test_page(name: &str) -> PKMPageData {
    PKMPageData {
        name: name.to_string(),
        normalized_name: Some(name.to_lowercase()),
        created: "2024-01-01T00:00:00Z".to_string(),
        updated: "2024-01-01T00:00:00Z".to_string(),
        properties: Vec::new(),
        blocks: vec![],
    }
}

#[test]
fn test_create_page_node() {
    let mut manager = create_test_manager();
    let page = create_test_page("TestPage");

    let node_idx = manager.create_or_update_node_from_pkm_page(&page).unwrap();

    let node = manager.get_node(node_idx).unwrap();
    assert_eq!(node.pkm_id, "TestPage");
    assert_eq!(node.content, "TestPage");
    assert_eq!(node.node_type, NodeType::Page);

    assert_eq!(manager.get_node_index("testpage"), Some(node_idx));
}

#[test]
fn test_create_block_node() {
    let mut manager = create_test_manager();
    let block = create_test_block("block-123", "Test content");

    let node_idx = manager.create_or_update_node_from_pkm_block(&block).unwrap();

    let node = manager.get_node(node_idx).unwrap();
    assert_eq!(node.pkm_id, "block-123");
    assert_eq!(node.content, "Test content");
    assert_eq!(node.node_type, NodeType::Block);

    assert!(manager.get_node_index("testpage").is_some());
}

#[test]
fn test_parent_child_relationship() {
    let mut manager = create_test_manager();

    let parent = create_test_block("parent-123", "Parent content");
    let parent_idx = manager.create_or_update_node_from_pkm_block(&parent).unwrap();

    let mut child = create_test_block("child-456", "Child content");
    child.parent = Some("parent-123".to_string());
    let child_idx = manager.create_or_update_node_from_pkm_block(&child).unwrap();

    let edges = manager.edges_connecting(parent_idx, child_idx);
    assert_eq!(edges.len(), 1);
    assert_eq!(edges[0], EdgeType::ParentChild);
}

#[test]
fn test_page_to_block_relationship() {
    let mut manager = create_test_manager();

    let page = create_test_page("TestPage");
    let page_idx = manager.create_or_update_node_from_pkm_page(&page).unwrap();

    let block = create_test_block("block-123", "Root block");
    let block_idx = manager.create_or_update_node_from_pkm_block(&block).unwrap();

    let edges = manager.edges_connecting(page_idx, block_idx);
    assert_eq!(edges.len(), 1);
    assert_eq!(edges[0], EdgeType::PageToBlock);
}

#[test]
fn test_tag_reference() {
    let mut manager = create_test_manager();

    let mut block = create_test_block("block-123", "Content with #philosophy");
    block.references = vec![PKMReference {
        ref_type: "tag".to_string(),
        name: "philosophy".to_string(),
        id: String::new(),
    }];

    let block_idx = manager.create_or_update_node_from_pkm_block(&block).unwrap();

    let tag_idx = manager.get_node_index("philosophy").unwrap();
    let edges = manager.edges_connecting(block_idx, tag_idx);
    assert_eq!(edges.len(), 1);
    assert_eq!(edges[0], EdgeType::Tag);
}

#[test]
fn test_page_reference() {
    let mut manager = create_test_manager();

    let mut block = create_test_block("block-123", "See [[Another Page]]");
    block.references = vec![PKMReference {
        ref_type: "page".to_string(),
        name: "Another Page".to_string(),
        id: String::new(),
    }];

    let block_idx = manager.create_or_update_node_from_pkm_block(&block).unwrap();

    let ref_page_idx = manager.get_node_index("another page").unwrap();
    let edges = manager.edges_connecting(block_idx, ref_page_idx);
    assert_eq!(edges.len(), 1);
    assert_eq!(edges[0], EdgeType::PageRef);
}

#[test]
fn test_block_reference() {
    let mut manager = create_test_manager();

    let target = create_test_block("target-789", "Target content");
    let target_idx = manager.create_or_update_node_from_pkm_block(&target).unwrap();

    let mut source = create_test_block("source-123", "See ((target-789))");
    source.references = vec![PKMReference {
        ref_type: "block".to_string(),
        name: String::new(),
        id: "target-789".to_string(),
    }];

    let source_idx = manager.create_or_update_node_from_pkm_block(&source).unwrap();

    let edges = manager.edges_connecting(source_idx, target_idx);
    assert_eq!(edges.len(), 1);
    assert_eq!(edges[0], EdgeType::BlockRef);
}

#[test]
fn test_properties_storage() {
    let mut manager = create_test_manager();

    let mut block = create_test_block("block-123", "Task content");
    block.properties = vec![
        ("status".to_string(), "in-progress".to_string()),
        ("priority".to_string(), "high".to_string()),
    ];

    let node_idx = manager.create_or_update_node_from_pkm_block(&block).unwrap();

    let node = manager.get_node(node_idx).unwrap();
    assert!(node.properties.iter().any(|(k, v)| k == "status" && v == "in-progress"));
    assert!(node.properties.iter().any(|(k, v)| k == "priority" && v == "high"));
}

#[test]
fn test_update_existing_node() {
    let mut manager = create_test_manager();

    let block1 = create_test_block("block-123", "Original content");
    let idx1 = manager.create_or_update_node_from_pkm_block(&block1).unwrap();

    let mut block2 = create_test_block("block-123", "Updated content");
    block2.updated = "2024-01-02T00:00:00Z".to_string();
    let idx2 = manager.create_or_update_node_from_pkm_block(&block2).unwrap();

    assert_eq!(idx1, idx2);

    let node = manager.get_node(idx1).unwrap();
    assert_eq!(node.content, "Updated content");
}

#[test]
fn test_save_and_load_graph() {
    let node_count;
    let edge_count;
    let snapshot;

    {
        let mut manager = create_test_manager();

        let page = create_test_page("TestPage");
        manager.create_or_update_node_from_pkm_page(&page).unwrap();

        let block = create_test_block("block-123", "Test content");
        manager.create_or_update_node_from_pkm_block(&block).unwrap();

        node_count = manager.node_count();
        edge_count = manager.edge_count();
        snapshot = manager.snapshot();
    }

    {
        let manager = GraphManager::restore(snapshot).unwrap();

        assert_eq!(manager.node_count(), node_count);
        assert_eq!(manager.edge_count(), edge_count);
        assert!(manager.get_node_index("testpage").is_some());
        assert!(manager.get_node_index("block-123").is_some());
    }
}

#[test]
fn test_operation_based_save() {
    let mut manager = create_test_manager();

    for i in 0..9 {
        let block = create_test_block(&format!("block-{}", i), "Content");
        manager.create_or_update_node_from_pkm_block(&block).unwrap();
    }

    assert_eq!(manager.operations_since_save, 9);
    assert!(!manager.save_requested);

    let block = create_test_block("block-9", "Content");
    manager.create_or_update_node_from_pkm_block(&block).unwrap();

    assert_eq!(manager.operations_since_save, 0);
    assert!(manager.take_save_request());
}

#[test]
fn test_no_duplicate_edges() {
    let mut manager = create_test_manager();

    let mut block1 = create_test_block("block-1", "See [[Target]]");
    block1.references = vec![PKMReference {
        ref_type: "page".to_string(),
        name: "Target".to_string(),
        id: String::new(),
    }];

    let mut block2 = create_test_block("block-2", "Also see [[Target]]");
    block2.references = vec![PKMReference {
        ref_type: "page".to_string(),
        name: "Target".to_string(),
        id: String::new(),
    }];

    let idx1 = manager.create_or_update_node_from_pkm_block(&block1).unwrap();
    let idx2 = manager.create_or_update_node_from_pkm_block(&block2).unwrap();
    let target_idx = manager.get_node_index("target").unwrap();

    assert_eq!(manager.edges_connecting(idx1, target_idx).len(), 1);
    assert_eq!(manager.edges_connecting(idx2, target_idx).len(), 1);

    manager.create_or_update_node_from_pkm_block(&block1).unwrap();
    assert_eq!(manager.edges_connecting(idx1, target_idx).len(), 1);
}

#[test]
fn test_real_graph_traversal() {
    let mut manager = create_test_manager();

    let page1 = create_test_page("Page1");
    let page1_idx = manager.create_or_update_node_from_pkm_page(&page1).unwrap();

    let mut block1 = create_test_block("block-1", "Learning about rust");
    block1.page = Some("Page1".to_string());
    block1.references = vec![
        PKMReference { ref_type: "tag".to_string(), name: "rust".to_string(), id: String::new() },
        PKMReference {
            ref_type: "tag".to_string(),
            name: "programming".to_string(),
            id: String::new(),
        },
    ];
    let block1_idx = manager.create_or_update_node_from_pkm_block(&block1).unwrap();

    let mut block2 = create_test_block("block-2", "See [[Page2]] for more");
    block2.parent = Some("block-1".to_string());
    block2.page = Some("Page1".to_string());
    block2.references = vec![PKMReference {
        ref_type: "page".to_string(),
        name: "Page2".to_string(),
        id: String::new(),
    }];
    let block2_idx = manager.create_or_update_node_from_pkm_block(&block2).unwrap();

    let mut block3 = create_test_block("block-3", "As mentioned in ((block-1))");
    block3.page = Some("Page1".to_string());
    block3.references = vec![PKMReference {
        ref_type: "block".to_string(),
        name: String::new(),
        id: "block-1".to_string(),
    }];
    let block3_idx = manager.create_or_update_node_from_pkm_block(&block3).unwrap();

    assert_eq!(manager.node_count(), 7);
    assert_eq!(manager.edge_count(), 7);

    let page1_neighbors = manager.neighbors(page1_idx);
    assert_eq!(page1_neighbors.len(), 2);
    assert!(page1_neighbors.contains(&block1_idx));
    assert!(page1_neighbors.contains(&block3_idx));

    let block1_neighbors = manager.neighbors(block1_idx);
    assert_eq!(block1_neighbors.len(), 3);

    let block3_neighbors = manager.neighbors(block3_idx);
    assert!(block3_neighbors.contains(&block1_idx));

    let parent_child = manager.edges_connecting(block1_idx, block2_idx);
    assert_eq!(parent_child.len(), 1);
    assert_eq!(parent_child[0], EdgeType::ParentChild);
}

#[test]
fn upsert_block_twice_is_idempotent() {
    let mut manager = create_test_manager();

    let page = create_test_page("TestPage");
    manager.create_or_update_node_from_pkm_page(&page).unwrap();

    let mut block = create_test_block("block-1", "See [[Other]] and ((block-0))");
    block.references = vec![
        PKMReference { ref_type: "page".to_string(), name: "Other".to_string(), id: String::new() },
        PKMReference { ref_type: "block".to_string(), name: String::new(), id: "block-0".to_string() },
    ];

    let h1 = manager.create_or_update_node_from_pkm_block(&block).unwrap();
    let nodes_after_first = manager.node_count();
    let edges_after_first = manager.edge_count();

    let h2 = manager.create_or_update_node_from_pkm_block(&block).unwrap();

    assert_eq!(h1, h2);
    assert_eq!(manager.node_count(), nodes_after_first);
    assert_eq!(manager.edge_count(), edges_after_first);
}

#[test]
fn unknown_block_reference_creates_placeholder() {
    let mut manager = create_test_manager();

    let mut block = create_test_block("block-1", "points to ((future-block))");
    block.references = vec![PKMReference {
        ref_type: "block".to_string(),
        name: String::new(),
        id: "future-block".to_string(),
    }];
    manager.create_or_update_node_from_pkm_block(&block).unwrap();

    let ph = manager.get_node_index("future-block").unwrap();
    let node = manager.get_node(ph).unwrap();
    assert_eq!(node.node_type, NodeType::Block);
    assert_eq!(node.pkm_id, "future-block");
    assert_eq!(node.content, "");
}

#[test]
fn unknown_reference_kind_is_rejected() {
    let mut manager = create_test_manager();

    let mut block = create_test_block("block-1", "strange");
    block.references = vec![PKMReference {
        ref_type: "link".to_string(),
        name: "x".to_string(),
        id: String::new(),
    }];
    assert!(manager.create_or_update_node_from_pkm_block(&block).is_err());
}
