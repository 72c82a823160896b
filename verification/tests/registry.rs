use cymbiont::graph_registry::GraphRegistry;

#[test]
fn graph_registry_test_new_registry() {
    let registry = GraphRegistry::new("data".to_string());
    assert!(registry.graphs.is_empty());
    assert!(registry.active_graph_id.is_none());
}

#[test]
fn graph_registry_test_register_new_graph() {
    let data_dir = "data";
    let mut registry = GraphRegistry::new(data_dir.to_string());
    let info = registry
        .register_graph(
            None,
            Some("TestGraph".to_string()),
            Some("A test graph".to_string()),
            data_dir,
        )
        .unwrap();

    assert_eq!(info.name, "TestGraph");
    assert!(!info.id.is_empty());
    assert_eq!(info.kg_path, format!("{}/graphs/{}", data_dir, info.id));
    assert_eq!(info.description, Some("A test graph".to_string()));
    assert_eq!(registry.active_graph_id, Some(info.id.clone()));
}

#[test]
fn graph_registry_test_save_and_load() {
    let data_dir = "data";
    let mut registry = GraphRegistry::new(data_dir.to_string());
    let info = registry
        .register_graph(Some("test-id-123".to_string()), Some("TestGraph".to_string()), None, data_dir)
        .unwrap();

    // round-trip the registry through its plain parts, as the saved file holds them
    let loaded = GraphRegistry::from_parts(
        registry.get_all_graphs(),
        registry.get_active_graph_id(),
        data_dir.to_string(),
    );
    let loaded_info = loaded.get_graph("test-id-123").unwrap();
    assert_eq!(loaded_info.name, info.name);
    assert_eq!(loaded_info.id, "test-id-123");
}

#[test]
fn test_register_with_existing_id() {
    let data_dir = "data";
    let mut registry = GraphRegistry::new(data_dir.to_string());

    let info1 = registry
        .register_graph(Some("existing-id".to_string()), Some("Graph One".to_string()), None, data_dir)
        .unwrap();

    let info2 = registry
        .register_graph(
            Some("existing-id".to_string()),
            Some("Updated Name".to_string()),
            Some("New description".to_string()),
            data_dir,
        )
        .unwrap();

    assert_eq!(info1.id, info2.id);
    assert_eq!(info2.name, "Updated Name");
    assert_eq!(info2.description, Some("New description".to_string()));

    assert_eq!(registry.graphs.len(), 1);
}

#[test]
fn test_switch_graph() {
    let data_dir = "data";
    let mut registry = GraphRegistry::new(data_dir.to_string());

    let _graph1 = registry
        .register_graph(Some("graph-1x".to_string()), Some("First Graph".to_string()), None, data_dir)
        .unwrap();

    let graph2 = registry
        .register_graph(Some("graph-2x".to_string()), Some("Second Graph".to_string()), None, data_dir)
        .unwrap();

    assert_eq!(registry.get_active_graph_id(), Some("graph-1x".to_string()));

    let switched = registry.switch_graph("graph-2x").unwrap();
    assert_eq!(switched.id, graph2.id);
    assert_eq!(registry.get_active_graph_id(), Some("graph-2x".to_string()));

    assert!(registry.switch_graph("non-existent").is_err());
}

#[test]
fn removing_the_active_graph_is_rejected() {
    let data_dir = "data";
    let mut registry = GraphRegistry::new(data_dir.to_string());
    registry
        .register_graph(Some("graph-aaa".to_string()), Some("A".to_string()), None, data_dir)
        .unwrap();
    registry
        .register_graph(Some("graph-bbb".to_string()), Some("B".to_string()), None, data_dir)
        .unwrap();

    // the first registered graph is active and cannot be removed
    assert!(registry.remove_graph("graph-aaa").is_err());

    // a non-active graph can; its storage directory is handed back
    let archived = registry.remove_graph("graph-bbb").unwrap();
    assert_eq!(archived, format!("{}/graphs/{}", data_dir, "graph-bbb"));
    assert!(registry.get_graph("graph-bbb").is_none());
}

#[test]
fn register_update_keeps_created_and_updates_description() {
    let dir = tempfile::tempdir().unwrap();
    let data_dir = dir.path().to_str().unwrap().to_string();
    let mut reg = cymbiont::graph_registry::GraphRegistry::new(data_dir.clone());
    let info1 = reg
        .register_graph(
            Some("existing-id".to_string()),
            Some("Graph One".to_string()),
            None,
            &data_dir,
        )
        .unwrap();
    let info2 = reg
        .register_graph(
            Some("existing-id".to_string()),
            Some("Updated Name".to_string()),
            Some("New description".to_string()),
            &data_dir,
        )
        .unwrap();
    assert_eq!(info2.id, "existing-id");
    assert_eq!(info2.name, "Updated Name");
    assert_eq!(info2.description.as_deref(), Some("New description"));
    assert_eq!(info2.created, info1.created);
    assert_eq!(reg.get_all_graphs().len(), 1);
}
