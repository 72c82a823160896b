use cymbiont::app_state::AppState;
use cymbiont::config::Config;
use cymbiont::graph_manager::{EdgeType, GraphManager};
use cymbiont::graph_registry::GraphRegistry;
use cymbiont::kg_api::{KgApi, KgApiError};

fn fresh_api(dir: &tempfile::TempDir) -> KgApi {
    let data_dir = dir.path().to_str().unwrap().to_string();
    let registry = GraphRegistry::new(data_dir.clone());
    let state = AppState::new(Config::default(), data_dir, registry);
    KgApi::new(state)
}

fn active_store<'a>(kg: &'a KgApi) -> &'a GraphManager {
    let active = kg.get_active_graph().unwrap();
    let mi = kg.app_state.find_manager(&active).unwrap();
    &kg.app_state.graph_managers[mi].1
}

#[test]
fn end_to_end_block_creation_and_expansion() {
    let dir = tempfile::tempdir().unwrap();
    let mut kg = fresh_api(&dir);
    kg.create_graph(Some("G".to_string()), None).unwrap();

    let b1 = kg.add_block("alpha".to_string(), None, Some("P".to_string()), None).unwrap();
    let b2 = kg
        .add_block(format!("(({}))", b1), None, Some("P".to_string()), None)
        .unwrap();

    let node2 = kg.get_node(&b2).unwrap();
    assert!(node2.reference_content.unwrap().contains("alpha"));

    let store = active_store(&kg);
    let h1 = store.get_node_index(&b1).unwrap();
    let h2 = store.get_node_index(&b2).unwrap();
    let hp = store.get_node_index("p").unwrap();

    let page_edges = store.edges_connecting(hp, h2);
    assert!(page_edges.contains(&EdgeType::PageToBlock));
    let block_edges = store.edges_connecting(h2, h1);
    assert_eq!(block_edges, vec![EdgeType::BlockRef]);
}

#[test]
fn graph_switch_isolation() {
    let dir = tempfile::tempdir().unwrap();
    let mut kg = fresh_api(&dir);
    let g1 = kg.create_graph(Some("G1".to_string()), None).unwrap();
    let g2 = kg.create_graph(Some("G2".to_string()), None).unwrap();

    kg.switch_graph(g1.id.clone()).unwrap();
    let b1 = kg
        .add_block("isolated".to_string(), None, Some("P".to_string()), Some(vec![(
            "k".to_string(),
            "v".to_string(),
        )]))
        .unwrap();

    kg.switch_graph(g2.id.clone()).unwrap();
    assert!(matches!(kg.get_node(&b1), Err(KgApiError::NodeNotFound(_))));

    kg.switch_graph(g1.id).unwrap();
    let node = kg.get_node(&b1).unwrap();
    assert_eq!(node.content, "isolated");
    assert!(node.properties.iter().any(|(k, v)| k == "k" && v == "v"));
}

#[test]
fn archive_deletion_records_the_node() {
    let dir = tempfile::tempdir().unwrap();
    let mut kg = fresh_api(&dir);
    kg.create_graph(Some("G1".to_string()), None).unwrap();

    let b1 = kg.add_block("to be archived".to_string(), None, Some("P".to_string()), None).unwrap();
    let before = active_store(&kg).node_count();

    let archive = kg.delete_block(b1.clone()).unwrap();
    assert_eq!(archive.entries.len(), 1);
    assert_eq!(archive.entries[0].pkm_id, b1);
    assert_eq!(archive.entries[0].node.content, "to be archived");
    assert_eq!(archive.archived_blocks, 1);
    assert_eq!(archive.archived_pages, 0);

    let store = active_store(&kg);
    assert!(store.get_node_index(&b1).is_none());
    assert_eq!(store.node_count(), before - 1);

    assert!(matches!(kg.get_node(&b1), Err(KgApiError::NodeNotFound(_))));
}

#[test]
fn registry_destruction_rejects_the_active_graph() {
    let dir = tempfile::tempdir().unwrap();
    let mut kg = fresh_api(&dir);
    let g1 = kg.create_graph(Some("G1".to_string()), None).unwrap();
    let g2 = kg.create_graph(Some("G2".to_string()), None).unwrap();

    kg.switch_graph(g2.id.clone()).unwrap();

    let archived_dir = kg.delete_graph(&g1.id).unwrap();
    assert!(archived_dir.ends_with(&g1.id));
    assert!(kg.app_state.graph_registry.get_graph(&g1.id).is_none());

    // deleting the active graph fails
    assert!(kg.delete_graph(&g2.id).is_err());
    assert!(kg.app_state.graph_registry.get_graph(&g2.id).is_some());
}

#[test]
fn add_block_with_in_flight_duplicate_fails() {
    let dir = tempfile::tempdir().unwrap();
    let mut kg = fresh_api(&dir);
    let g = kg.create_graph(Some("G".to_string()), None).unwrap();

    // put identical content in flight directly on the graph's coordinator
    let ci = kg.app_state.find_coordinator(&g.id).unwrap();
    kg.app_state.transaction_coordinators[ci]
        .1
        .begin_transaction(cymbiont::transaction_log::Operation::CreateNode {
            node_type: "block".to_string(),
            content: "hello".to_string(),
            temp_id: None,
        })
        .unwrap();

    let refused = kg.add_block("hello".to_string(), None, None, None);
    assert!(matches!(refused, Err(KgApiError::DuplicateContent)));
}

#[test]
fn mutations_without_an_active_graph_are_rejected() {
    let dir = tempfile::tempdir().unwrap();
    let mut kg = fresh_api(&dir);
    let r = kg.add_block("x".to_string(), None, None, None);
    assert!(matches!(r, Err(KgApiError::NoActiveGraph)));
}

#[test]
fn update_block_refreshes_content() {
    let dir = tempfile::tempdir().unwrap();
    let mut kg = fresh_api(&dir);
    kg.create_graph(Some("G".to_string()), None).unwrap();

    let b1 = kg.add_block("first".to_string(), None, Some("P".to_string()), None).unwrap();
    kg.update_block(b1.clone(), "second".to_string()).unwrap();
    assert_eq!(kg.get_node(&b1).unwrap().content, "second");

    let missing = kg.update_block("nope".to_string(), "x".to_string());
    assert!(matches!(missing, Err(KgApiError::NodeNotFound(_))));
}

#[test]
fn committed_content_can_be_added_again() {
    let dir = tempfile::tempdir().unwrap();
    let mut kg = fresh_api(&dir);
    kg.create_graph(Some("G".to_string()), None).unwrap();

    let b1 = kg.add_block("same text".to_string(), None, Some("P".to_string()), None).unwrap();
    // the first transaction committed, so its content hash has left the
    // in-flight dedup map and an identical block is accepted again
    let b2 = kg.add_block("same text".to_string(), None, Some("P".to_string()), None).unwrap();
    assert_ne!(b1, b2);
}

#[test]
fn update_preserves_creation_stamp_and_node_count() {
    let dir = tempfile::tempdir().unwrap();
    let mut kg = fresh_api(&dir);
    kg.create_graph(Some("G".to_string()), None).unwrap();

    let b1 = kg.add_block("before".to_string(), None, Some("P".to_string()), None).unwrap();
    let created = kg.get_node(&b1).unwrap().created_at;
    let nodes_before = active_store(&kg).nodes.len();

    kg.update_block(b1.clone(), "after".to_string()).unwrap();

    let node = kg.get_node(&b1).unwrap();
    assert_eq!(node.content, "after");
    assert_eq!(node.created_at, created);
    assert_eq!(active_store(&kg).nodes.len(), nodes_before);
}

#[test]
fn autosave_triggers_after_ten_mutations() {
    let dir = tempfile::tempdir().unwrap();
    let mut kg = fresh_api(&dir);
    kg.create_graph(Some("G".to_string()), None).unwrap();
    {
        let active = kg.get_active_graph().unwrap();
        let mi = kg.app_state.find_manager(&active).unwrap();
        kg.app_state.graph_managers[mi].1.auto_save_enabled = true;
    }
    for i in 0..10 {
        kg.add_block(format!("block {}", i), None, Some("P".to_string()), None).unwrap();
    }
    let active = kg.get_active_graph().unwrap();
    let mi = kg.app_state.find_manager(&active).unwrap();
    assert!(kg.app_state.graph_managers[mi].1.save_requested);
    assert_eq!(kg.app_state.graph_managers[mi].1.operations_since_save, 0);
    assert!(kg.app_state.graph_managers[mi].1.take_save_request());
    assert!(!kg.app_state.graph_managers[mi].1.save_requested);
}

#[test]
fn switch_updates_registry_pointer_and_returns_entry() {
    let dir = tempfile::tempdir().unwrap();
    let mut kg = fresh_api(&dir);
    let g1 = kg.create_graph(Some("One".to_string()), Some("first".to_string())).unwrap();
    let g2 = kg.create_graph(Some("Two".to_string()), None).unwrap();
    assert_eq!(kg.get_active_graph().unwrap(), g1.id);

    let info = kg.switch_graph(g2.id.clone()).unwrap();
    assert_eq!(info.id, g2.id);
    assert_eq!(info.name, "Two");
    assert_eq!(kg.get_active_graph().unwrap(), g2.id);
    assert_eq!(
        kg.app_state.graph_registry.active_graph_id.as_deref(),
        Some(g2.id.as_str())
    );
    assert!(kg.switch_graph("nope".to_string()).is_err());
    assert_eq!(kg.get_active_graph().unwrap(), g2.id);
}
