use cymbiont::config::BackendConfig;
use cymbiont::pkm_data::{PKMBlockData, PKMPageData, PKMReference};
use cymbiont::text::{i64_to_dec_string, u64_to_dec_string};
use cymbiont::utils::{find_available_port, parse_datetime};
use cymbiont::websocket::{Command, Dispatch, WsConnection};
use cymbiont::graph_manager::GraphManager;

#[test]
fn test_pkm_reference_struct() {
    let page_ref = PKMReference {
        ref_type: "page".to_string(),
        name: "TestPage".to_string(),
        id: "".to_string(),
    };

    let block_ref = PKMReference {
        ref_type: "block".to_string(),
        name: "".to_string(),
        id: "block-id".to_string(),
    };

    assert_eq!(page_ref.ref_type, "page");
    assert_eq!(page_ref.name, "TestPage");
    assert_eq!(block_ref.ref_type, "block");
    assert_eq!(block_ref.id, "block-id");
}

#[test]
fn pkm_data_test_pkm_reference_struct() {
    let page_ref = PKMReference {
        ref_type: "page".to_string(),
        name: "TestPage".to_string(),
        id: "".to_string(),
    };

    let block_ref = PKMReference {
        ref_type: "block".to_string(),
        name: "".to_string(),
        id: "block-id".to_string(),
    };

    assert_eq!(page_ref.ref_type, "page");
    assert_eq!(page_ref.name, "TestPage");
    assert_eq!(block_ref.ref_type, "block");
    assert_eq!(block_ref.id, "block-id");
}

#[test]
fn test_pkm_block_data_validation() {
    let good = PKMBlockData {
        id: "b-1".to_string(),
        content: "text".to_string(),
        created: "2024-01-01T00:00:00Z".to_string(),
        updated: "2024-01-01T00:00:00Z".to_string(),
        parent: None,
        children: vec![],
        page: None,
        properties: Vec::new(),
        references: vec![],
        reference_content: None,
    };
    assert!(good.validate().is_ok());

    let mut bad = good;
    bad.content = String::new();
    bad.parent = Some(String::new());
    let err = bad.validate().unwrap_err();
    assert!(err.contains("Block content is empty"));
    assert!(err.contains("Parent ID is empty"));
}

#[test]
fn test_pkm_page_data_validation() {
    let good = PKMPageData {
        name: "P".to_string(),
        normalized_name: Some("p".to_string()),
        created: "2024-01-01T00:00:00Z".to_string(),
        updated: "2024-01-01T00:00:00Z".to_string(),
        properties: Vec::new(),
        blocks: vec![],
    };
    assert!(good.validate().is_ok());

    let mut bad = good;
    bad.name = String::new();
    assert!(bad.validate().is_err());
}

#[test]
fn test_parse_datetime_rfc3339() {
    let expected = chrono::DateTime::parse_from_rfc3339("2023-10-20T15:30:45Z")
        .unwrap()
        .timestamp_millis();
    assert_eq!(parse_datetime("2023-10-20T15:30:45Z"), expected);
}

#[test]
fn test_parse_datetime_timestamp() {
    assert_eq!(parse_datetime("1697817045000"), 1697817045000);
    // second-precision stamps are scaled to milliseconds
    assert_eq!(parse_datetime("1697817045"), 1697817045000);
}

#[test]
fn decimal_rendering_is_exact() {
    assert_eq!(u64_to_dec_string(0), "0");
    assert_eq!(u64_to_dec_string(1234567890), "1234567890");
    assert_eq!(i64_to_dec_string(-5), "-5");
    assert_eq!(i64_to_dec_string(i64::MIN), "-9223372036854775808");
}

#[test]
fn find_available_port_picks_the_first_free_one() {
    let config = BackendConfig {
        port: 9000,
        max_port_attempts: 3,
        server_info_file: "cymbiont_server.json".to_string(),
    };
    assert_eq!(find_available_port(&config, &vec![false, false, true, true]), Some(9002));
    assert_eq!(find_available_port(&config, &vec![true, false, false, false]), Some(9000));
    assert_eq!(find_available_port(&config, &vec![false, false, false, false]), None);
}

#[test]
fn unauthenticated_commands_are_rejected() {
    let mut conn = WsConnection::new("c-1".to_string());
    let refused = conn.handle_frame(&Command::CreateBlock {
        content: "x".to_string(),
        parent_id: None,
        page_name: None,
        correlation_id: None,
        temp_id: None,
    });
    assert!(matches!(refused, Dispatch::RejectUnauthenticated));

    let auth = conn.handle_frame(&Command::Auth { token: "opaque".to_string() });
    assert!(matches!(auth, Dispatch::Authenticate));
    assert!(conn.authenticated);

    let heartbeat = conn.handle_frame(&Command::Heartbeat);
    assert!(matches!(heartbeat, Dispatch::Silent));

    let exec = conn.handle_frame(&Command::DeleteGraph { graph_id: "g".to_string() });
    assert!(matches!(exec, Dispatch::Execute));
}

#[test]
fn snapshot_restore_round_trip() {
    let mut store = GraphManager::new_empty(Some("g-1".to_string()));
    let block = PKMBlockData {
        id: "b-1".to_string(),
        content: "round trip".to_string(),
        created: "2024-01-01T00:00:00Z".to_string(),
        updated: "2024-01-01T00:00:00Z".to_string(),
        parent: None,
        children: vec![],
        page: Some("P".to_string()),
        properties: Vec::new(),
        references: vec![],
        reference_content: None,
    };
    store.create_or_update_node_from_pkm_block(&block).unwrap();

    let restored = GraphManager::restore(store.snapshot()).unwrap();
    assert_eq!(restored.node_count(), store.node_count());
    assert_eq!(restored.edge_count(), store.edge_count());
    assert_eq!(
        restored.get_node_index("b-1"),
        store.get_node_index("b-1")
    );
    let n = restored.get_node(restored.get_node_index("b-1").unwrap()).unwrap();
    assert_eq!(n.content, "round trip");
}
