use cymbiont::graph_manager::GraphManager;
use cymbiont::kg_api::{execute_with_transaction, ActionOutcome, StoreAction};
use cymbiont::pkm_data::PKMBlockData;
use cymbiont::transaction::{TransactionCoordinator, TransactionError};
use cymbiont::transaction_log::{
    compute_content_hash, Operation, Transaction, TransactionLog, TransactionState,
};

fn block_data(id: &str, content: &str) -> PKMBlockData {
    PKMBlockData {
        id: id.to_string(),
        content: content.to_string(),
        created: "2024-01-01T00:00:00Z".to_string(),
        updated: "2024-01-01T00:00:00Z".to_string(),
        parent: None,
        children: vec![],
        page: Some("TestPage".to_string()),
        properties: Vec::new(),
        references: vec![],
        reference_content: None,
    }
}

#[test]
fn transaction_log_test_append_and_get_transaction() {
    let temp_dir = tempfile::tempdir().unwrap();
    let mut log = TransactionLog::new(temp_dir.path().to_str().unwrap()).unwrap();

    let operation = Operation::CreateNode {
        node_type: "block".to_string(),
        content: "Test content".to_string(),
        temp_id: Some("temp-123".to_string()),
    };

    let transaction = Transaction::new(operation);
    let tx_id = log.append_transaction(transaction).unwrap();

    let retrieved = log.get_transaction(&tx_id).unwrap();
    assert_eq!(retrieved.id, tx_id);
    assert_eq!(retrieved.state, TransactionState::Active);
    assert!(retrieved.content_hash.is_some());
}

#[test]
fn transaction_log_test_update_transaction_state() {
    let temp_dir = tempfile::tempdir().unwrap();
    let mut log = TransactionLog::new(temp_dir.path().to_str().unwrap()).unwrap();

    let operation = Operation::CreateNode {
        node_type: "block".to_string(),
        content: "Test content".to_string(),
        temp_id: None,
    };

    let transaction = Transaction::new(operation);
    let tx_id = log.append_transaction(transaction).unwrap();

    log.update_transaction_state(&tx_id, TransactionState::Committed).unwrap();
    let final_state = log.get_transaction(&tx_id).unwrap();
    assert_eq!(final_state.state, TransactionState::Committed);

    // a finished transaction cannot move again
    assert!(log.update_transaction_state(&tx_id, TransactionState::Aborted).is_err());
}

#[test]
fn transaction_log_test_pending_transactions() {
    let temp_dir = tempfile::tempdir().unwrap();
    let mut log = TransactionLog::new(temp_dir.path().to_str().unwrap()).unwrap();

    for i in 0..3 {
        let operation = Operation::CreateNode {
            node_type: "block".to_string(),
            content: format!("Content {}", i),
            temp_id: None,
        };
        log.append_transaction(Transaction::new(operation)).unwrap();
    }

    let pending = log.list_pending_transactions().unwrap();
    assert_eq!(pending.len(), 3);

    log.update_transaction_state(&pending[0].id, TransactionState::Committed).unwrap();

    let remaining = log.list_pending_transactions().unwrap();
    assert_eq!(remaining.len(), 2);
}

#[test]
fn transaction_test_transaction_lifecycle() {
    let temp_dir = tempfile::tempdir().unwrap();
    let log = TransactionLog::new(temp_dir.path().to_str().unwrap()).unwrap();
    let mut coordinator = TransactionCoordinator::new(log);

    let operation = Operation::CreateNode {
        node_type: "block".to_string(),
        content: "Test content".to_string(),
        temp_id: Some("temp-123".to_string()),
    };

    let tx_id = coordinator.begin_transaction(operation).unwrap();

    let content_hash = compute_content_hash("Test content");
    assert!(coordinator.is_content_pending(&content_hash));

    coordinator.commit_transaction(&tx_id).unwrap();

    assert!(!coordinator.is_content_pending(&content_hash));
}

#[test]
fn transaction_test_abort_transaction() {
    let temp_dir = tempfile::tempdir().unwrap();
    let log = TransactionLog::new(temp_dir.path().to_str().unwrap()).unwrap();
    let mut coordinator = TransactionCoordinator::new(log);

    let operation = Operation::UpdateNode {
        node_id: "node-123".to_string(),
        content: "Updated content".to_string(),
    };

    let tx_id = coordinator.begin_transaction(operation).unwrap();
    coordinator.abort_transaction(&tx_id, "operation failed in test").unwrap();

    let content_hash = compute_content_hash("Updated content");
    assert!(!coordinator.is_content_pending(&content_hash));
}

#[test]
fn transaction_test_recovery() {
    let temp_dir = tempfile::tempdir().unwrap();

    {
        let log = TransactionLog::new(temp_dir.path().to_str().unwrap()).unwrap();
        let mut coordinator = TransactionCoordinator::new(log);

        for i in 0..3 {
            let operation = Operation::CreateNode {
                node_type: "block".to_string(),
                content: format!("Content {}", i),
                temp_id: None,
            };
            coordinator.begin_transaction(operation).unwrap();
        }
        coordinator.close().unwrap();
    }

    let log = TransactionLog::new(temp_dir.path().to_str().unwrap()).unwrap();
    let mut coordinator = TransactionCoordinator::new(log);
    let recovered = coordinator.recover_pending_transactions().unwrap();
    assert_eq!(recovered.len(), 3);
}

#[test]
fn crash_recovery_reports_the_incomplete_transaction() {
    let temp_dir = tempfile::tempdir().unwrap();
    let tx_id;

    {
        let log = TransactionLog::new(temp_dir.path().to_str().unwrap()).unwrap();
        let mut coordinator = TransactionCoordinator::new(log);
        tx_id = coordinator
            .begin_transaction(Operation::UpdateNode {
                node_id: "B1".to_string(),
                content: "x".to_string(),
            })
            .unwrap();
        // the process ends without commit or abort
        coordinator.close().unwrap();
    }

    let log = TransactionLog::new(temp_dir.path().to_str().unwrap()).unwrap();
    let mut coordinator = TransactionCoordinator::new(log);
    let recovered = coordinator.recover_pending_transactions().unwrap();
    assert_eq!(recovered, vec![tx_id]);
    assert!(coordinator.is_content_pending(&compute_content_hash("x")));
}

#[test]
fn duplicate_content_is_refused_while_in_flight() {
    let temp_dir = tempfile::tempdir().unwrap();
    let log = TransactionLog::new(temp_dir.path().to_str().unwrap()).unwrap();
    let mut coordinator = TransactionCoordinator::new(log);
    let mut store = GraphManager::new_empty(None);

    // a first caller has "hello" in flight
    let first = coordinator
        .begin_transaction(Operation::CreateNode {
            node_type: "block".to_string(),
            content: "hello".to_string(),
            temp_id: None,
        })
        .unwrap();

    // a second caller with the same content is refused
    let refused = execute_with_transaction(
        &mut coordinator,
        &mut store,
        Operation::CreateNode {
            node_type: "block".to_string(),
            content: "hello".to_string(),
            temp_id: None,
        },
        StoreAction::CreateBlock(block_data("b-2", "hello")),
    );
    assert!(matches!(refused, Err(TransactionError::DuplicateContent(_))));

    // after the winner commits, the same content succeeds again
    coordinator.commit_transaction(&first).unwrap();
    let accepted = execute_with_transaction(
        &mut coordinator,
        &mut store,
        Operation::CreateNode {
            node_type: "block".to_string(),
            content: "hello".to_string(),
            temp_id: None,
        },
        StoreAction::CreateBlock(block_data("b-3", "hello")),
    );
    assert!(matches!(accepted, Ok(ActionOutcome::BlockId(_))));
}

#[test]
fn failed_operation_is_aborted_and_store_unchanged() {
    let temp_dir = tempfile::tempdir().unwrap();
    let log = TransactionLog::new(temp_dir.path().to_str().unwrap()).unwrap();
    let mut coordinator = TransactionCoordinator::new(log);
    let mut store = GraphManager::new_empty(None);

    let nodes_before = store.node_count();
    let result = execute_with_transaction(
        &mut coordinator,
        &mut store,
        Operation::UpdateNode { node_id: "missing".to_string(), content: "x".to_string() },
        StoreAction::UpdateBlock { block_id: "missing".to_string(), content: "x".to_string() },
    );
    assert!(matches!(result, Err(TransactionError::OperationFailed(_))));
    assert_eq!(store.node_count(), nodes_before);

    let pending = coordinator.log.list_pending_transactions().unwrap();
    assert!(pending.is_empty());
    assert_eq!(coordinator.log.entries.len(), 1);
    assert_eq!(coordinator.log.entries[0].state, TransactionState::Aborted);
}

#[test]
fn content_hash_has_a_fixed_value_for_empty_content() {
    // the folding hash of no characters is the offset basis, in hex
    assert_eq!(compute_content_hash(""), "cbf29ce484222325");
    // and hashing is deterministic
    assert_eq!(compute_content_hash("hello"), compute_content_hash("hello"));
    assert_ne!(compute_content_hash("hello"), compute_content_hash("hullo"));
}
