//! Public mutation surface of the knowledge graph: every mutation
//! constructs an `Operation` and a store action and routes through
//! `execute_with_transaction`, which refuses duplicate in-flight content,
//! logs the operation, applies it, and commits or aborts the log entry.

use vstd::prelude::*;
use crate::app_state::{keyed_has, AppState};
use crate::graph_manager::{
    block_content_map, block_node_matches, EdgeType, GraphManager, has_triple, in_edges, node_eq,
    NodeArchive, NodeData, NodeType, out_edges, page_node_matches, page_target, ref_established,
    store_extends,
};
use crate::logseq::{spec_block_refs, spec_page_refs, spec_tag_refs};
use crate::reference_resolver::resolve_spec;
use crate::text::lower_of;
use crate::graph_registry::{GraphInfo, GraphRegistryError};
use crate::logseq::extract_references;
use crate::pkm_data::{PKMBlockData, PKMPageData};
use crate::reference_resolver::string_eq;
use crate::text::i64_to_dec_string;
use crate::transaction::{dedup_has, op_content_hash, TransactionCoordinator, TransactionError};
use crate::transaction_log::{
    content_hash_of, Operation, TransactionState,
};
use crate::utils::{new_uuid, now_millis};

verus! {

/// Errors of the mutation surface.
#[derive(Debug)]
pub enum KgApiError {
    GraphError(String),
    NodeNotFound(String),
    DuplicateContent,
    NoActiveGraph,
}

/// A mutation to apply to the active store under a transaction.
pub enum StoreAction {
    CreateBlock(PKMBlockData),
    UpdateBlock { block_id: String, content: String },
    DeleteBlock { block_id: String },
    CreatePage(PKMPageData),
}

/// What a successful action yields.
pub enum ActionOutcome {
    BlockId(String),
    PageHandle(usize),
    Archive(NodeArchive),
}

/// What a successfully applied action does to the store: a created block
/// is filed with its data, an update rewrites the node in place (same
/// handle, new content, references re-resolved against the prior store), a
/// delete removes the block from graph and index, and a page is filed
/// under its lower-cased name.
/// Every reference the content carries is established on the store at the
/// block's handle: each block reference as a `BlockRef` edge to the filed
/// target, each page reference as a `PageRef` edge and each tag as a `Tag`
/// edge to a node filed under the raw or lower-cased name.
/// A block reference is established: the referenced identifier is filed
/// and a `BlockRef` edge runs from the block to it.
pub open spec fn block_ref_established(g: &GraphManager, h: usize, id: Seq<char>) -> bool {
    g.spec_lookup(id) matches Some(t) && has_triple(g.edges@, (h, t, EdgeType::BlockRef))
}

/// A page or tag reference is established: a node is filed under the raw
/// or lower-cased name and an edge of the given kind runs from the block.
pub open spec fn named_ref_established(
    g: &GraphManager,
    h: usize,
    name: Seq<char>,
    kind: EdgeType,
) -> bool {
    exists|t: usize|
        (g.spec_lookup(name) == Some(t) || g.spec_lookup(lower_of(name)) == Some(t))
            && has_triple(g.edges@, (h, t, kind))
}

pub open spec fn refs_established_for(post: &GraphManager, h: usize, content: Seq<char>) -> bool {
    let p = spec_page_refs(content, 0);
    let b = spec_block_refs(content, 0);
    let tg = spec_tag_refs(content, 0);
    &&& (forall|i: int| 0 <= i < b.len() ==> block_ref_established(post, h, #[trigger] b[i]))
    &&& (forall|i: int|
        0 <= i < p.len() ==> named_ref_established(post, h, #[trigger] p[i], EdgeType::PageRef))
    &&& (forall|i: int|
        0 <= i < tg.len() ==> named_ref_established(post, h, #[trigger] tg[i], EdgeType::Tag))
}

pub open spec fn action_applied(
    pre: &GraphManager,
    post: &GraphManager,
    action: &StoreAction,
) -> bool {
    match action {
        StoreAction::CreateBlock(d) => post.spec_lookup(d.id@) matches Some(h) && ({
            &&& (post.nodes@[h as int] matches Some(n) && block_node_matches(n, d))
            &&& store_extends(pre, post)
            &&& (d.parent matches Some(p) ==> ({
                let pt = if p@ == d.id@ {
                    Some(h)
                } else {
                    pre.spec_lookup(p@)
                };
                pt matches Some(t) ==> has_triple(post.edges@, (t, h, EdgeType::ParentChild))
            }))
            &&& (d.page matches Some(pg) ==> page_target(post.pkm_to_node@, pg@) is Some)
            &&& ((d.page matches Some(pg) && d.parent is None) ==> exists|t: usize|
                has_triple(#[trigger] post.edges@, (t, h, EdgeType::PageToBlock)))
            &&& (forall|i: int|
                0 <= i < d.references@.len() ==> ref_established(
                    post,
                    #[trigger] d.references@[i],
                    h,
                ))
        }),
        StoreAction::UpdateBlock { block_id, content } => {
            &&& pre.spec_lookup(block_id@) is Some
            &&& post.spec_lookup(block_id@) == pre.spec_lookup(block_id@)
            &&& store_extends(pre, post)
            &&& (forall|i: int|
                0 <= i < pre.nodes@.len() && i != pre.spec_lookup(block_id@)->0 as int
                    ==> post.nodes@[i] == pre.nodes@[i])
            &&& (post.nodes@[pre.spec_lookup(block_id@)->0 as int] matches Some(n) && (
            pre.nodes@[pre.spec_lookup(block_id@)->0 as int] matches Some(n0) && ({
                &&& n.pkm_id@ == block_id@
                &&& n.node_type == NodeType::Block
                &&& n.content@ == content@
                &&& n.created_at == n0.created_at
                &&& n.id == n0.id
                &&& (n.reference_content matches Some(rc) && rc@ == resolve_spec(
                    content@,
                    block_content_map(pre.nodes@),
                    Set::empty(),
                    Some(block_id@),
                ))
            })))
            &&& refs_established_for(post, pre.spec_lookup(block_id@)->0, content@)
        },
        StoreAction::DeleteBlock { block_id } => pre.spec_lookup(block_id@) is Some
            && post.spec_lookup(block_id@) is None,
        StoreAction::CreatePage(p) => post.spec_lookup(lower_of(p.name@)) matches Some(h) && (
        post.nodes@[h as int] matches Some(n) && page_node_matches(n, p)),
    }
}

/// What a successful action's outcome carries: the created or updated
/// block's identifier, or the archive of the deleted block, read from the
/// pre-state.
pub open spec fn outcome_ok(pre: &GraphManager, action: &StoreAction, outcome: &ActionOutcome) -> bool {
    match action {
        StoreAction::CreateBlock(d) => outcome matches ActionOutcome::BlockId(id) && id@ == d.id@,
        StoreAction::UpdateBlock { block_id, .. } => outcome matches ActionOutcome::BlockId(id)
            && id@ == block_id@,
        StoreAction::DeleteBlock { block_id } => outcome matches ActionOutcome::Archive(a)
            && archive_of(pre, block_id@, a),
        StoreAction::CreatePage(_) => outcome is PageHandle,
    }
}

/// The archive a deleted block leaves behind: exactly that block, its
/// fields, and its incident edges as the store held them.
pub open spec fn archive_of(pre: &GraphManager, block_id: Seq<char>, a: &NodeArchive) -> bool {
    &&& a.entries@.len() == 1
    &&& a.entries@[0].pkm_id@ == block_id
    &&& (pre.spec_lookup(block_id) matches Some(h) && ({
        &&& a.entries@[0].node_index == h
        &&& (pre.nodes@[h as int] matches Some(n0) && node_eq(a.entries@[0].node, n0))
        &&& a.entries@[0].edges_out@ == out_edges(pre.edges@, h)
        &&& a.entries@[0].edges_in@ == in_edges(pre.edges@, h)
    }))
    &&& a.archived_pages + a.archived_blocks == 1
}

/// Apply one store action; errors are returned as text for the transaction
/// log. An update or delete of an unknown block fails and leaves the store
/// untouched; creating a block fails only on a reference of unknown kind.
pub fn apply_store_action(store: &mut GraphManager, action: StoreAction) -> (r: Result<
    ActionOutcome,
    String,
>)
    requires
        old(store).wf(),
    ensures
        final(store).wf(),
        match action {
            StoreAction::UpdateBlock { block_id, .. } => r is Err ==> *final(store) == *old(store)
                && old(store).spec_lookup(block_id@) is None,
            StoreAction::DeleteBlock { block_id } => ({
                &&& (r is Err ==> *final(store) == *old(store) && old(store).spec_lookup(
                    block_id@,
                ) is None)
                &&& (r is Ok ==> old(store).spec_lookup(block_id@) is Some && final(store).spec_lookup(block_id@) is None)
            }),
            StoreAction::CreatePage(_) => r is Ok,
            StoreAction::CreateBlock(_) => true,
        },
        r matches Ok(outcome) ==> action_applied(old(store), final(store), &action) && outcome_ok(
            old(store),
            &action,
            &outcome,
        ),
{
    match action {
        StoreAction::CreateBlock(d) => {
            match store.create_or_update_node_from_pkm_block(&d) {
                Ok(h) => {
                    proof {
                        crate::graph_manager::lemma_index_lookup_valid(
                            store.pkm_to_node@,
                            d.id@,
                        );
                    }
                    Ok(ActionOutcome::BlockId(d.id))
                },
                Err(_) => Err("reference resolution failed".to_owned()),
            }
        },
        StoreAction::UpdateBlock { block_id, content } => {
            let existing: Option<(String, i64)> = match store.get_node_by_pkm_id(
                block_id.as_str(),
            ) {
                Some(n) => Some((n.id.clone(), n.created_at)),
                None => None,
            };
            match existing {
                Some((_, created_at)) => {
                    let reference_content = Some(
                        store.resolve_references(content.as_str(), Some(block_id.as_str())),
                    );
                    let references = extract_references(content.as_str());
                    let updated = PKMBlockData {
                        id: block_id,
                        content,
                        created: i64_to_dec_string(created_at),
                        updated: i64_to_dec_string(now_millis()),
                        parent: None,
                        children: Vec::new(),
                        page: None,
                        properties: Vec::new(),
                        references,
                        reference_content,
                    };
                    proof {
                        reveal_strlit("page");
                        reveal_strlit("block");
                        reveal_strlit("tag");
                        let p = crate::logseq::spec_page_refs(updated.content@, 0);
                        let b = crate::logseq::spec_block_refs(updated.content@, 0);
                        let tg = crate::logseq::spec_tag_refs(updated.content@, 0);
                        assert forall|i: int|
                            0 <= i < updated.references@.len() implies
                            crate::graph_manager::valid_ref_kind(
                            &(#[trigger] updated.references@[i]),
                        ) by {
                            if i < p.len() {
                                assert(updated.references@[i].ref_type@ == "page"@);
                            } else if i < p.len() + b.len() {
                                assert(updated.references@[p.len() + (i - p.len())].ref_type@
                                    == "block"@);
                            } else {
                                assert(updated.references@[p.len() + b.len() + (i - p.len()
                                    - b.len())].ref_type@ == "tag"@);
                            }
                        }
                        assert(crate::graph_manager::all_refs_valid(&updated));
                    }
                    match store.create_or_update_node_from_pkm_block(&updated) {
                        Ok(h) => {
                            proof {
                                assert(old(store).spec_lookup(updated.id@) is Some);
                                assert(h == crate::graph_manager::upsert_handle(
                                    old(store),
                                    updated.id@,
                                ));
                                assert(store.spec_lookup(updated.id@) == Some(h));
                                crate::graph_manager::lemma_index_lookup_valid(
                                    store.pkm_to_node@,
                                    updated.id@,
                                );
                            }
                            let ghost mid = *store;
                            store.set_node_created_at(h, created_at);
                            proof {
                                assert(store.pkm_to_node@ == mid.pkm_to_node@);
                                assert(store.edges@ == mid.edges@);
                                assert(forall|k: Seq<char>|
                                    store.spec_lookup(k) == mid.spec_lookup(k));
                                assert(store_extends(old(store), store)) by {
                                    assert(store.edges@.take(old(store).edges@.len() as int)
                                        == mid.edges@.take(old(store).edges@.len() as int));
                                }
                                let p = spec_page_refs(updated.content@, 0);
                                let b = spec_block_refs(updated.content@, 0);
                                let tg = spec_tag_refs(updated.content@, 0);
                                reveal_strlit("page");
                                reveal_strlit("block");
                                reveal_strlit("tag");
                                assert("page"@.len() == 4 && "block"@.len() == 5 && "tag"@.len()
                                    == 3);
                                assert forall|i: int| 0 <= i < b.len() implies
                                    block_ref_established(store, h, #[trigger] b[i]) by {
                                    let rf = updated.references@[p.len() + i];
                                    assert(ref_established(&mid, rf, h));
                                    assert(rf.ref_type@ == "block"@ && rf.id@ == b[i]);
                                }
                                assert forall|i: int| 0 <= i < p.len() implies
                                    named_ref_established(
                                    store,
                                    h,
                                    #[trigger] p[i],
                                    EdgeType::PageRef,
                                ) by {
                                    let rf = updated.references@[i];
                                    assert(ref_established(&mid, rf, h));
                                    assert(rf.ref_type@ == "page"@ && rf.name@ == p[i]);
                                    let t0 = choose|t: usize|
                                        (mid.spec_lookup(rf.name@) == Some(t) || mid.spec_lookup(
                                            lower_of(rf.name@),
                                        ) == Some(t)) && #[trigger] has_triple(
                                            mid.edges@,
                                            (h, t, EdgeType::PageRef),
                                        );
                                    assert((store.spec_lookup(p[i]) == Some(t0)
                                        || store.spec_lookup(lower_of(p[i])) == Some(t0))
                                        && has_triple(store.edges@, (h, t0, EdgeType::PageRef)));
                                }
                                assert forall|i: int| 0 <= i < tg.len() implies
                                    named_ref_established(
                                    store,
                                    h,
                                    #[trigger] tg[i],
                                    EdgeType::Tag,
                                ) by {
                                    let rf = updated.references@[p.len() + b.len() + i];
                                    assert(ref_established(&mid, rf, h));
                                    assert(rf.ref_type@ == "tag"@ && rf.name@ == tg[i]);
                                    let t0 = choose|t: usize|
                                        (mid.spec_lookup(rf.name@) == Some(t) || mid.spec_lookup(
                                            lower_of(rf.name@),
                                        ) == Some(t)) && #[trigger] has_triple(
                                            mid.edges@,
                                            (h, t, EdgeType::Tag),
                                        );
                                    assert((store.spec_lookup(tg[i]) == Some(t0)
                                        || store.spec_lookup(lower_of(tg[i])) == Some(t0))
                                        && has_triple(store.edges@, (h, t0, EdgeType::Tag)));
                                }
                                assert(h == old(store).spec_lookup(updated.id@)->0);
                                assert(refs_established_for(store, h, updated.content@));
                            }
                            Ok(ActionOutcome::BlockId(updated.id))
                        },
                        Err(_) => {
                            proof {
                                assert(false);
                            }
                            Err("reference resolution failed".to_owned())
                        },
                    }
                },
                None => {
                    let mut m = "Node not found: ".to_owned();
                    m.append(block_id.as_str());
                    Err(m)
                },
            }
        },
        StoreAction::DeleteBlock { block_id } => {
            match store.get_node_index(block_id.as_str()) {
                Some(h) => {
                    let mut batch: Vec<(String, usize)> = Vec::new();
                    batch.push((block_id.clone(), h));
                    proof {
                        crate::graph_manager::lemma_index_lookup_valid(
                            store.pkm_to_node@,
                            block_id@,
                        );
                        assert(crate::graph_manager::handle_in(batch@, h as int)) by {
                            assert((batch@[0]).1 == h);
                        }
                    }
                    let ghost batch_view = batch@;
                    proof {
                        assert(batch_view.drop_last() =~= Seq::<(String, usize)>::empty());
                        assert(h < store.nodes@.len() && store.nodes@[h as int] is Some);
                        assert(batch_view.last() == batch_view[0] && batch_view[0].1 == h);
                        assert(crate::graph_manager::live_args(old(store), batch_view.drop_last())
                            =~= Seq::<(String, usize)>::empty());
                        assert(crate::graph_manager::live_args(old(store), batch_view)
                            =~= Seq::<(String, usize)>::empty().push(batch_view.last()));
                        assert(crate::graph_manager::live_args(old(store), batch_view)
                            =~= seq![batch_view[0]]);
                    }
                    match store.archive_nodes(batch) {
                        Ok(a) => {
                            proof {
                                crate::graph_manager::lemma_index_lookup_valid(
                                    store.pkm_to_node@,
                                    block_id@,
                                );
                                assert(a.entries@.len() == 1);
                                assert(a.entries@[0].pkm_id@ == block_id@);
                                assert(archive_of(old(store), block_id@, &a));
                            }
                            Ok(ActionOutcome::Archive(a))
                        },
                        Err(_) => Err("archive failed".to_owned()),
                    }
                },
                None => {
                    let mut m = "Node not found: ".to_owned();
                    m.append(block_id.as_str());
                    Err(m)
                },
            }
        },
        StoreAction::CreatePage(p) => {
            match store.create_or_update_node_from_pkm_page(&p) {
                Ok(h) => Ok(ActionOutcome::PageHandle(h)),
                Err(_) => Err("page upsert failed".to_owned()),
            }
        },
    }
}

/// The unified mutation primitive: refuse content already in flight, begin
/// a transaction for the operation, apply the action, and commit on
/// success or abort on failure — so log state and store state cannot
/// diverge, and a refused or failed mutation leaves no pending entry
/// behind.
#[verifier::rlimit(100)]
#[verifier::rlimit(100)]
#[verifier::spinoff_prover]
pub fn execute_with_transaction(
    coordinator: &mut TransactionCoordinator,
    store: &mut GraphManager,
    operation: Operation,
    action: StoreAction,
) -> (r: Result<ActionOutcome, TransactionError>)
    requires
        old(coordinator).wf(),
        old(store).wf(),
    ensures
        final(coordinator).wf(),
        final(store).wf(),
        ({
            let dup = op_content_hash(&operation) matches Some(h) && dedup_has(
                old(coordinator).pending_operations@,
                h,
            );
            &&& ((r matches Err(e) && e is DuplicateContent) <==> dup)
            &&& (dup ==> *final(store) == *old(store) && *final(coordinator) == *old(coordinator))
        }),
        r matches Err(e) ==> (e matches TransactionError::OperationFailed(m) ==> ({
            &&& final(coordinator).log.entries@.len() == old(coordinator).log.entries@.len() + 1
            &&& final(coordinator).log.entries@.last().state == TransactionState::Aborted
            &&& final(coordinator).log.entries@.last().operation == operation
            &&& (final(coordinator).log.entries@.last().error_message matches Some(em) && em@
                == m@)
            &&& !crate::transaction_log::pending_has(
                final(coordinator).log.pending@,
                final(coordinator).log.entries@.last().id@,
            )
        })),
        ((r matches Err(e) && e is OperationFailed) && (match action {
            StoreAction::UpdateBlock { .. } => true,
            StoreAction::DeleteBlock { .. } => true,
            _ => false,
        })) ==> *final(store) == *old(store),
        ((r matches Err(e) && e is LogError) && (match action {
            StoreAction::UpdateBlock { .. } => true,
            StoreAction::DeleteBlock { .. } => true,
            _ => false,
        })) ==> (*final(store) == *old(store) || action_applied(old(store), final(store), &action)),
        r matches Ok(outcome) ==> ({
            &&& final(coordinator).log.entries@.len() == old(coordinator).log.entries@.len() + 1
            &&& final(coordinator).log.entries@.last().state == TransactionState::Committed
            &&& final(coordinator).log.entries@.last().operation == operation
            &&& !crate::transaction_log::pending_has(
                final(coordinator).log.pending@,
                final(coordinator).log.entries@.last().id@,
            )
            &&& action_applied(old(store), final(store), &action)
            &&& outcome_ok(old(store), &action, &outcome)
        }),
        (r matches Err(e) && e is LogError) ==> (final(coordinator).log.entries@ == old(
            coordinator,
        ).log.entries@ || (final(coordinator).log.entries@.len() == old(coordinator).log.entries@.len() + 1 && final(coordinator).log.entries@.last().operation == operation && final(coordinator).log.entries@.last().state == TransactionState::Active)),
        (r is Ok || (r matches Err(e) && e is OperationFailed)) ==> (match op_content_hash(
            &operation,
        ) {
            Some(h) => !dedup_has(final(coordinator).pending_operations@, h) && (forall|
                k: Seq<char>,
            |
                k != h ==> dedup_has(final(coordinator).pending_operations@, k) == dedup_has(
                    old(coordinator).pending_operations@,
                    k,
                )),
            None => final(coordinator).pending_operations@ == old(coordinator).pending_operations@,
        }),
{
    // in-flight dedup gate
    let dup_hash: Option<String> = match &operation {
        Operation::CreateNode { content, .. } => Some(
            crate::transaction_log::compute_content_hash(content.as_str()),
        ),
        Operation::UpdateNode { content, .. } => Some(
            crate::transaction_log::compute_content_hash(content.as_str()),
        ),
        Operation::DeleteNode { .. } => None,
    };
    match dup_hash {
        Some(h) => {
            if coordinator.is_content_pending(h.as_str()) {
                return Err(TransactionError::DuplicateContent(h));
            }
        },
        None => {},
    }
    let ghost op_view = operation;
    let tx_id = match coordinator.begin_transaction(operation) {
        Ok(id) => id,
        Err(e) => {
            return Err(e);
        },
    };
    let ghost begun = *coordinator;
    let r = run_logged_action(coordinator, store, tx_id, action);
    let ghost rg = r;
    proof {
        if rg is Ok || (rg matches Err(e) && e is OperationFailed) {
            assert(begun.log.entries@.last().operation == op_view);
            match op_content_hash(&op_view) {
                Some(h) => {
                    assert(!dedup_has(coordinator.pending_operations@, h));
                    assert forall|k: Seq<char>| k != h implies dedup_has(
                        coordinator.pending_operations@,
                        k,
                    ) == dedup_has(old(coordinator).pending_operations@, k) by {
                        assert(dedup_has(coordinator.pending_operations@, k) == dedup_has(
                            begun.pending_operations@,
                            k,
                        ));
                        assert(dedup_has(begun.pending_operations@, k) == dedup_has(
                            old(coordinator).pending_operations@,
                            k,
                        ));
                    }
                },
                None => {},
            }
        }
    }
    r
}

/// Apply the action of a just-begun transaction and settle the log entry:
/// commit on success, abort on failure.
#[verifier::rlimit(100)]
fn run_logged_action(
    coordinator: &mut TransactionCoordinator,
    store: &mut GraphManager,
    tx_id: String,
    action: StoreAction,
) -> (r: Result<ActionOutcome, TransactionError>)
    requires
        old(coordinator).wf(),
        old(store).wf(),
        old(coordinator).log.entries@.len() > 0,
        old(coordinator).log.entries@.last().id@ == tx_id@,
        old(coordinator).log.entries@.last().state
            == crate::transaction_log::TransactionState::Active,
        crate::transaction_log::tx_hash_ok(&old(coordinator).log.entries@.last()),
    ensures
        final(coordinator).wf(),
        final(store).wf(),
        !(r matches Err(e) && e is DuplicateContent),
        (r is Ok || (r matches Err(e) && e is OperationFailed))
            ==> crate::transaction::dedup_released(
            old(coordinator),
            final(coordinator),
            op_content_hash(&old(coordinator).log.entries@.last().operation),
        ),
        (r matches Err(e) && e is LogError) ==> final(coordinator).log.entries@ == old(
            coordinator,
        ).log.entries@,
        r matches Err(e) ==> (e matches TransactionError::OperationFailed(m) ==> ({
            &&& final(coordinator).log.entries@.len() == old(coordinator).log.entries@.len()
            &&& final(coordinator).log.entries@.last().state == TransactionState::Aborted
            &&& final(coordinator).log.entries@.last().operation == old(coordinator).log.entries@.last().operation
            &&& (final(coordinator).log.entries@.last().error_message matches Some(em) && em@
                == m@)
            &&& !crate::transaction_log::pending_has(
                final(coordinator).log.pending@,
                final(coordinator).log.entries@.last().id@,
            )
        })),
        ((r matches Err(e) && e is OperationFailed) && (match action {
            StoreAction::UpdateBlock { .. } => true,
            StoreAction::DeleteBlock { .. } => true,
            _ => false,
        })) ==> *final(store) == *old(store),
        ((r matches Err(e) && e is LogError) && (match action {
            StoreAction::UpdateBlock { .. } => true,
            StoreAction::DeleteBlock { .. } => true,
            _ => false,
        })) ==> (*final(store) == *old(store) || action_applied(old(store), final(store), &action)),
        r matches Ok(outcome) ==> ({
            &&& final(coordinator).log.entries@.len() == old(coordinator).log.entries@.len()
            &&& final(coordinator).log.entries@.last().state == TransactionState::Committed
            &&& final(coordinator).log.entries@.last().operation == old(coordinator).log.entries@.last().operation
            &&& !crate::transaction_log::pending_has(
                final(coordinator).log.pending@,
                final(coordinator).log.entries@.last().id@,
            )
            &&& action_applied(old(store), final(store), &action)
            &&& outcome_ok(old(store), &action, &outcome)
        }),
{
    let ghost begun = *coordinator;
    match apply_store_action(store, action) {
        Ok(value) => {
            match coordinator.commit_transaction(tx_id.as_str()) {
                Ok(()) => {
                    proof {
                        lemma_finish_last(
                            &begun,
                            coordinator,
                            tx_id@,
                            TransactionState::Committed,
                            None,
                        );
                        let j0 = begun.log.entries@.len() - 1;
                        assert(begun.log.entries@[j0].id@ == tx_id@);
                        assert(crate::transaction::dedup_released(
                            &begun,
                            coordinator,
                            op_content_hash(&begun.log.entries@[j0].operation),
                        ));
                    }
                    Ok(value)
                },
                Err(e) => Err(e),
            }
        },
        Err(message) => {
            match coordinator.abort_transaction(tx_id.as_str(), message.as_str()) {
                Ok(()) => {
                    proof {
                        lemma_finish_last(
                            &begun,
                            coordinator,
                            tx_id@,
                            TransactionState::Aborted,
                            Some(message@),
                        );
                        let j0 = begun.log.entries@.len() - 1;
                        assert(begun.log.entries@[j0].id@ == tx_id@);
                        assert(crate::transaction::dedup_released(
                            &begun,
                            coordinator,
                            op_content_hash(&begun.log.entries@[j0].operation),
                        ));
                    }
                    Err(TransactionError::OperationFailed(message))
                },
                Err(e) => Err(e),
            }
        },
    }
}

/// After finishing the just-begun transaction, the log's last entry is the
/// finished one: the log's ids are distinct, so the witness entry is the
/// last.
proof fn lemma_finish_last(
    begun: &TransactionCoordinator,
    done: &TransactionCoordinator,
    tx_id: Seq<char>,
    target: TransactionState,
    error: Option<Seq<char>>,
)
    requires
        begun.wf(),
        begun.log.entries@.len() > 0,
        begun.log.entries@.last().id@ == tx_id,
        done.log.entries@.len() == begun.log.entries@.len(),
        exists|j: int|
            #[trigger] crate::transaction_log::transition_witness(
                begun.log.entries@,
                done.log.entries@,
                tx_id,
                target,
                error,
                j,
            ),
    ensures
        done.log.entries@.last().state == target,
        done.log.entries@.last().operation == begun.log.entries@.last().operation,
        done.log.entries@.last().id@ == tx_id,
        error matches Some(m) ==> (done.log.entries@.last().error_message matches Some(em) && em@
            == m),
{
    let j = choose|j: int|
        #[trigger] crate::transaction_log::transition_witness(
            begun.log.entries@,
            done.log.entries@,
            tx_id,
            target,
            error,
            j,
        );
    if j != begun.log.entries@.len() - 1 {
        assert(begun.log.entries@[j].id@ == begun.log.entries@[begun.log.entries@.len()
            - 1].id@);
        assert(false);
    }
}


/// The loaded store of the active graph, if an active graph is set and
/// loaded.
pub open spec fn active_store_of(s: &AppState) -> Option<GraphManager> {
    match s.active_graph_id {
        Some(a) => crate::app_state::keyed_lookup(s.graph_managers@, a@),
        None => None,
    }
}

/// The coordinator of the active graph, if set and loaded.
pub open spec fn active_coordinator_of(s: &AppState) -> Option<TransactionCoordinator> {
    match s.active_graph_id {
        Some(a) => crate::app_state::keyed_lookup(s.transaction_coordinators@, a@),
        None => None,
    }
}

/// A block landed on the active graph: the active store files it under
/// the identifier with the given content and the reference expansion
/// computed against the prior store, and the active log gained one
/// committed entry recording the creation.
pub open spec fn block_added(
    pre: &AppState,
    post: &AppState,
    id: Seq<char>,
    content: Seq<char>,
    parent: Option<Seq<char>>,
    page: Option<Seq<char>>,
) -> bool {
    &&& (active_store_of(pre) matches Some(m0) ==> (active_store_of(post) matches Some(m1) && (
    m1.spec_lookup(id) matches Some(h) && ({
        &&& (m1.nodes@[h as int] matches Some(n) && ({
            &&& n.pkm_id@ == id
            &&& n.node_type == NodeType::Block
            &&& n.content@ == content
            &&& (n.reference_content matches Some(rc) && rc@ == resolve_spec(
                content,
                block_content_map(m0.nodes@),
                Set::empty(),
                Some(id),
            ))
        }))
        &&& store_extends(&m0, &m1)
        &&& refs_established_for(&m1, h, content)
        &&& page_target(
            m1.pkm_to_node@,
            (match page {
                Some(pg) => pg,
                None => "untitled"@,
            }),
        ) is Some
        &&& (parent is None ==> exists|t: usize|
            has_triple(#[trigger] m1.edges@, (t, h, EdgeType::PageToBlock)))
        &&& (parent matches Some(pid) ==> ({
            let pt = if pid == id {
                Some(h)
            } else {
                m0.spec_lookup(pid)
            };
            pt matches Some(t) ==> has_triple(m1.edges@, (t, h, EdgeType::ParentChild))
        }))
    }))))
    &&& (active_coordinator_of(pre) matches Some(c0) ==> (active_coordinator_of(
        post,
    ) matches Some(c1) && ({
        &&& c1.log.entries@.len() == c0.log.entries@.len() + 1
        &&& c1.log.entries@.last().state == TransactionState::Committed
        &&& (c1.log.entries@.last().operation matches Operation::CreateNode {
            content: logged,
            ..
        } && logged@ == content)
        &&& !crate::transaction_log::pending_has(c1.log.pending@, c1.log.entries@.last().id@)
    })))
}

/// A block was rewritten in place on the active graph: same handle, new
/// content with its expansion computed against the prior store, creation
/// stamp and internal id preserved, every other node untouched, the new
/// content's references established, and the active log gained one
/// committed entry recording the update.
pub open spec fn block_updated(
    pre: &AppState,
    post: &AppState,
    block_id: Seq<char>,
    content: Seq<char>,
) -> bool {
    &&& (active_store_of(pre) matches Some(m0) ==> (active_store_of(post) matches Some(m1) && ({
        &&& m0.spec_lookup(block_id) is Some
        &&& m1.spec_lookup(block_id) == m0.spec_lookup(block_id)
        &&& store_extends(&m0, &m1)
        &&& (forall|i: int|
            0 <= i < m0.nodes@.len() && i != m0.spec_lookup(block_id)->0 as int ==> m1.nodes@[i]
                == m0.nodes@[i])
        &&& refs_established_for(&m1, m0.spec_lookup(block_id)->0, content)
        &&& (m1.nodes@[m0.spec_lookup(block_id)->0 as int] matches Some(n) && (
        m0.nodes@[m0.spec_lookup(block_id)->0 as int] matches Some(n0) && ({
            &&& n.pkm_id@ == block_id
            &&& n.node_type == NodeType::Block
            &&& n.content@ == content
            &&& n.created_at == n0.created_at
            &&& n.id == n0.id
            &&& (n.reference_content matches Some(rc) && rc@ == resolve_spec(
                content,
                block_content_map(m0.nodes@),
                Set::empty(),
                Some(block_id),
            ))
        })))
    })))
    &&& (active_coordinator_of(pre) matches Some(c0) ==> (active_coordinator_of(
        post,
    ) matches Some(c1) && ({
        &&& c1.log.entries@.len() == c0.log.entries@.len() + 1
        &&& c1.log.entries@.last().state == TransactionState::Committed
        &&& (c1.log.entries@.last().operation matches Operation::UpdateNode {
            node_id: nid,
            content: cc,
        } && nid@ == block_id && cc@ == content)
        &&& !crate::transaction_log::pending_has(c1.log.pending@, c1.log.entries@.last().id@)
    })))
}

/// A block left the active graph: its identifier no longer resolves and
/// the active log gained one committed entry recording the deletion.
pub open spec fn block_deleted(pre: &AppState, post: &AppState, block_id: Seq<char>) -> bool {
    &&& (active_store_of(pre) matches Some(m0) ==> (active_store_of(post) matches Some(m1) && ({
        &&& m0.spec_lookup(block_id) is Some
        &&& m1.spec_lookup(block_id) is None
    })))
    &&& (active_coordinator_of(pre) matches Some(c0) ==> (active_coordinator_of(
        post,
    ) matches Some(c1) && ({
        &&& c1.log.entries@.len() == c0.log.entries@.len() + 1
        &&& c1.log.entries@.last().state == TransactionState::Committed
        &&& (c1.log.entries@.last().operation matches Operation::DeleteNode { node_id: nid }
            && nid@ == block_id)
        &&& !crate::transaction_log::pending_has(c1.log.pending@, c1.log.entries@.last().id@)
    })))
}

/// A page landed on the active graph: filed under its lower-cased name
/// with the raw name as identifier and content, and the active log gained
/// one committed entry recording the creation.
pub open spec fn page_created(pre: &AppState, post: &AppState, name: Seq<char>) -> bool {
    &&& (active_store_of(pre) matches Some(m0) ==> (active_store_of(post) matches Some(m1) && (
    m1.spec_lookup(lower_of(name)) matches Some(h) && (m1.nodes@[h as int] matches Some(n) && ({
        &&& n.pkm_id@ == name
        &&& n.node_type == NodeType::Page
        &&& n.content@ == name
        &&& n.reference_content is None
    })))))
    &&& (active_coordinator_of(pre) matches Some(c0) ==> (active_coordinator_of(
        post,
    ) matches Some(c1) && ({
        &&& c1.log.entries@.len() == c0.log.entries@.len() + 1
        &&& c1.log.entries@.last().state == TransactionState::Committed
        &&& (c1.log.entries@.last().operation matches Operation::CreateNode {
            node_type: nt,
            content: logged,
            ..
        } && nt@ == "page"@ && logged@ == name)
        &&& !crate::transaction_log::pending_has(c1.log.pending@, c1.log.entries@.last().id@)
    })))
}

/// From a routed mutation, conclude the duplicate-content refusal: it
/// happens exactly when the operation's content hash is in flight on the
/// active coordinator, and then the loaded stores and logs are untouched.
pub proof fn lemma_dup_refusal(
    pre: &AppState,
    post: &AppState,
    op: &Operation,
    action: &StoreAction,
    r: &Result<ActionOutcome, KgApiError>,
)
    requires
        routed_post(pre, post, op, action, r),
        active_store_of(pre) is Some,
        active_coordinator_of(pre) is Some,
    ensures
        active_coordinator_of(pre) matches Some(c0) ==> ({
            &&& ((r matches Err(e) && e is DuplicateContent) <==> (op_content_hash(
                op,
            ) matches Some(hh) && dedup_has(c0.pending_operations@, hh)))
            &&& ((r matches Err(e) && e is DuplicateContent) ==> post.graph_managers@
                == pre.graph_managers@ && post.transaction_coordinators@
                == pre.transaction_coordinators@)
        }),
{
    reveal(routed_post);
}

/// From a routed, successful block creation, conclude `block_added`.
pub proof fn lemma_block_added(
    pre: &AppState,
    post: &AppState,
    op: &Operation,
    d: &PKMBlockData,
    r: &Result<ActionOutcome, KgApiError>,
    page: Option<Seq<char>>,
)
    requires
        routed_post(pre, post, op, &StoreAction::CreateBlock(*d), r),
        r is Ok,
        active_store_of(pre) is Some,
        active_coordinator_of(pre) is Some,
        active_store_of(pre) matches Some(m0) ==> (d.reference_content matches Some(rc) && rc@
            == resolve_spec(d.content@, block_content_map(m0.nodes@), Set::empty(), Some(d.id@))),
        op matches Operation::CreateNode { content: c2, .. } && c2@ == d.content@,
        d.page is Some,
        page matches Some(pg) ==> (d.page matches Some(pp) && pp@ == pg),
        page is None ==> (d.page matches Some(pp) && pp@ == "untitled"@),
        ({
            let p = spec_page_refs(d.content@, 0);
            let b = spec_block_refs(d.content@, 0);
            let tg = spec_tag_refs(d.content@, 0);
            &&& d.references@.len() == p.len() + b.len() + tg.len()
            &&& (forall|i: int|
                0 <= i < p.len() ==> (#[trigger] d.references@[i]).ref_type@ == "page"@
                    && d.references@[i].name@ == p[i])
            &&& (forall|i: int|
                0 <= i < b.len() ==> (#[trigger] d.references@[p.len() + i]).ref_type@ == "block"@
                    && d.references@[p.len() + i].id@ == b[i])
            &&& (forall|i: int|
                0 <= i < tg.len() ==> (#[trigger] d.references@[p.len() + b.len() + i]).ref_type@
                    == "tag"@ && d.references@[p.len() + b.len() + i].name@ == tg[i])
        }),
    ensures
        block_added(
            pre,
            post,
            d.id@,
            d.content@,
            match d.parent {
                Some(pp) => Some(pp@),
                None => None,
            },
            page,
        ),
{
    reveal(routed_post);
    let m0 = active_store_of(pre)->0;
    let m1 = active_store_of(post)->0;
    let h = m1.spec_lookup(d.id@)->0;
    let p = spec_page_refs(d.content@, 0);
    let b = spec_block_refs(d.content@, 0);
    let tg = spec_tag_refs(d.content@, 0);
    reveal_strlit("page");
    reveal_strlit("block");
    reveal_strlit("tag");
    assert("page"@.len() == 4 && "block"@.len() == 5 && "tag"@.len() == 3);
    assert forall|i: int| 0 <= i < b.len() implies block_ref_established(
        &m1,
        h,
        #[trigger] b[i],
    ) by {
        let rf = d.references@[p.len() + i];
        assert(ref_established(&m1, rf, h));
        assert(rf.ref_type@ == "block"@ && rf.id@ == b[i]);
    }
    assert forall|i: int| 0 <= i < p.len() implies named_ref_established(
        &m1,
        h,
        #[trigger] p[i],
        EdgeType::PageRef,
    ) by {
        let rf = d.references@[i];
        assert(ref_established(&m1, rf, h));
        assert(rf.ref_type@ == "page"@ && rf.name@ == p[i]);
        let t0 = choose|t: usize|
            (m1.spec_lookup(rf.name@) == Some(t) || m1.spec_lookup(lower_of(rf.name@)) == Some(t))
                && #[trigger] has_triple(m1.edges@, (h, t, EdgeType::PageRef));
        assert((m1.spec_lookup(p[i]) == Some(t0) || m1.spec_lookup(lower_of(p[i])) == Some(t0))
            && has_triple(m1.edges@, (h, t0, EdgeType::PageRef)));
    }
    assert forall|i: int| 0 <= i < tg.len() implies named_ref_established(
        &m1,
        h,
        #[trigger] tg[i],
        EdgeType::Tag,
    ) by {
        let rf = d.references@[p.len() + b.len() + i];
        assert(ref_established(&m1, rf, h));
        assert(rf.ref_type@ == "tag"@ && rf.name@ == tg[i]);
        let t0 = choose|t: usize|
            (m1.spec_lookup(rf.name@) == Some(t) || m1.spec_lookup(lower_of(rf.name@)) == Some(t))
                && #[trigger] has_triple(m1.edges@, (h, t, EdgeType::Tag));
        assert((m1.spec_lookup(tg[i]) == Some(t0) || m1.spec_lookup(lower_of(tg[i])) == Some(t0))
            && has_triple(m1.edges@, (h, t0, EdgeType::Tag)));
    }
    assert(refs_established_for(&m1, h, d.content@));
}

/// What a failed mutation leaves in the log: either nothing was appended
/// (the log refused the attempt outright), or exactly this operation's
/// entry was appended and is aborted with a recorded reason — or, when the
/// log device failed while settling, still `Active`.
pub open spec fn failed_attempt_logged(
    c0: &TransactionCoordinator,
    c1: &TransactionCoordinator,
    op: &Operation,
) -> bool {
    ||| c1.log.entries@ == c0.log.entries@
    ||| (c1.log.entries@.len() == c0.log.entries@.len() + 1 && c1.log.entries@.last().operation
        == *op && ({
        ||| (c1.log.entries@.last().state == TransactionState::Aborted
            && c1.log.entries@.last().error_message is Some && !crate::transaction_log::pending_has(
            c1.log.pending@,
            c1.log.entries@.last().id@,
        ))
        ||| c1.log.entries@.last().state == TransactionState::Active
    }))
}

/// From a routed, successful mutation, conclude that the operation's
/// content hash has left the active coordinator's dedup map and no other
/// hash was disturbed.
pub proof fn lemma_dedup_release(
    pre: &AppState,
    post: &AppState,
    op: &Operation,
    action: &StoreAction,
    r: &Result<ActionOutcome, KgApiError>,
)
    requires
        routed_post(pre, post, op, action, r),
        r is Ok,
        active_store_of(pre) is Some,
        active_coordinator_of(pre) is Some,
    ensures
        active_coordinator_of(pre) matches Some(c0) ==> (active_coordinator_of(
            post,
        ) matches Some(c1) && crate::transaction::dedup_released(&c0, &c1, op_content_hash(op))),
{
    reveal(routed_post);
}

/// What a mutation routed at the active graph owes: the duplicate-content
/// refusal decided by the active coordinator's dedup map, the applied
/// action and the committed entry on success, and the untouched or fully
/// applied store on an update or delete that fails.
#[verifier::opaque]
pub open spec fn routed_post(
    pre: &AppState,
    post: &AppState,
    operation: &Operation,
    action: &StoreAction,
    r: &Result<ActionOutcome, KgApiError>,
) -> bool {
    active_store_of(pre) matches Some(m0) ==> (active_coordinator_of(pre) matches Some(c0) ==> ({
        &&& ((r matches Err(e) && e is DuplicateContent) <==> (op_content_hash(operation) matches Some(hh)
            && dedup_has(c0.pending_operations@, hh)))
        &&& ((r matches Err(e) && e is DuplicateContent) ==> post.graph_managers@
            == pre.graph_managers@ && post.transaction_coordinators@
            == pre.transaction_coordinators@)
        &&& (r matches Ok(outcome) ==> ({
            &&& (active_store_of(post) matches Some(m1) && action_applied(&m0, &m1, action)
                && outcome_ok(&m0, action, outcome))
            &&& (active_coordinator_of(post) matches Some(c1) && ({
                &&& c1.log.entries@.len() == c0.log.entries@.len() + 1
                &&& c1.log.entries@.last().state == TransactionState::Committed
                &&& c1.log.entries@.last().operation == *operation
                &&& !crate::transaction_log::pending_has(
                    c1.log.pending@,
                    c1.log.entries@.last().id@,
                )
                &&& crate::transaction::dedup_released(&c0, &c1, op_content_hash(operation))
            }))
        }))
        &&& ((r is Err && (match action {
            StoreAction::UpdateBlock { .. } => true,
            StoreAction::DeleteBlock { .. } => true,
            _ => false,
        })) ==> (active_store_of(post) matches Some(m1) && (m1 == m0 || action_applied(
            &m0,
            &m1,
            action,
        ))))
        &&& ((r matches Err(e) && e is GraphError) ==> (active_coordinator_of(
            post,
        ) matches Some(c1) && failed_attempt_logged(&c0, &c1, operation)))
    }))
}

/// Assemble the record of a new block: fresh timestamps, the references
/// extracted from the content, and — when the active store is loaded — the
/// reference expansion computed against it.
fn assemble_block_data(
    store: Option<&GraphManager>,
    block_id: String,
    content: &String,
    parent_id: Option<String>,
    page_name: Option<String>,
    properties: Option<Vec<(String, String)>>,
) -> (d: PKMBlockData)
    ensures
        d.id == block_id,
        d.content@ == content@,
        store matches Some(m0) ==> (d.reference_content matches Some(rc) && rc@ == resolve_spec(
            content@,
            block_content_map(m0.nodes@),
            Set::empty(),
            Some(block_id@),
        )),
        d.parent == parent_id,
        d.page is Some,
        page_name matches Some(p) ==> d.page == Some(p),
        page_name is None ==> (d.page matches Some(pp) && pp@ == "untitled"@),
        ({
            let p = spec_page_refs(content@, 0);
            let b = spec_block_refs(content@, 0);
            let tg = spec_tag_refs(content@, 0);
            &&& d.references@.len() == p.len() + b.len() + tg.len()
            &&& (forall|i: int|
                0 <= i < p.len() ==> (#[trigger] d.references@[i]).ref_type@ == "page"@
                    && d.references@[i].name@ == p[i])
            &&& (forall|i: int|
                0 <= i < b.len() ==> (#[trigger] d.references@[p.len() + i]).ref_type@ == "block"@
                    && d.references@[p.len() + i].id@ == b[i])
            &&& (forall|i: int|
                0 <= i < tg.len() ==> (#[trigger] d.references@[p.len() + b.len() + i]).ref_type@
                    == "tag"@ && d.references@[p.len() + b.len() + i].name@ == tg[i])
        }),
{
    let reference_content: Option<String> = match store {
        Some(m) => Some(m.resolve_references(content.as_str(), Some(block_id.as_str()))),
        None => None,
    };
    let references = extract_references(content.as_str());
    let now_text = i64_to_dec_string(now_millis());
    PKMBlockData {
        id: block_id,
        content: content.clone(),
        created: now_text.clone(),
        updated: now_text,
        parent: parent_id,
        children: Vec::new(),
        page: Some(
            match page_name {
                Some(p) => p,
                None => "untitled".to_owned(),
            },
        ),
        properties: match properties {
            Some(p) => p,
            None => Vec::new(),
        },
        references,
        reference_content,
    }
}

/// High-level API for knowledge graph operations, owning the application
/// state and routing every mutation through the transaction primitive
/// against the active graph.
pub struct KgApi {
    pub app_state: AppState,
}

impl KgApi {
    pub fn new(app_state: AppState) -> (r: Self)
        ensures
            r.app_state == app_state,
    {
        KgApi { app_state }
    }

    /// The currently active graph id.
    pub fn get_active_graph(&self) -> (r: Option<String>)
        ensures
            r == self.app_state.active_graph_id,
    {
        self.app_state.get_active_graph_manager()
    }

    /// All registered graphs.
    pub fn list_graphs(&self) -> (r: Vec<GraphInfo>)
        ensures
            r@ == self.app_state.graph_registry.graphs@,
    {
        self.app_state.graph_registry.get_all_graphs()
    }

    /// Run one mutation against the active graph under a transaction.
    fn run_on_active(&mut self, operation: Operation, action: StoreAction) -> (r: Result<
        ActionOutcome,
        KgApiError,
    >)
        requires
            old(self).app_state.wf(),
        ensures
            final(self).app_state.wf(),
            final(self).app_state.active_graph_id == old(self).app_state.active_graph_id,
            final(self).app_state.graph_registry == old(self).app_state.graph_registry,
            old(self).app_state.active_graph_id is None <==> (r matches Err(e)
                && e is NoActiveGraph),
            old(self).app_state.active_graph_id is None ==> *final(self) == *old(self),
            old(self).app_state.active_graph_id is None ==> *final(self) == *old(self),
            (old(self).app_state.active_graph_id is Some && active_store_of(
                &old(self).app_state,
            ) is None) ==> ((r matches Err(e) && e is GraphError) && *final(self) == *old(self)),
            routed_post(&old(self).app_state, &final(self).app_state, &operation, &action, &r),
            !(r matches Err(e) && e is NodeNotFound),
            r is Ok ==> active_store_of(&old(self).app_state) is Some && active_coordinator_of(
                &old(self).app_state,
            ) is Some,
    {
        proof {
            reveal(routed_post);
        }
        let active = match &self.app_state.active_graph_id {
            Some(a) => a.clone(),
            None => {
                return Err(KgApiError::NoActiveGraph);
            },
        };
        let mi = match self.app_state.find_manager(active.as_str()) {
            Some(i) => i,
            None => {
                proof {
                    crate::app_state::lemma_keyed_lookup_absent(
                        self.app_state.graph_managers@,
                        active@,
                    );
                }
                return Err(KgApiError::GraphError("Graph manager not found".to_owned()));
            },
        };
        let ci = match self.app_state.find_coordinator(active.as_str()) {
            Some(i) => i,
            None => {
                proof {
                    crate::app_state::lemma_keyed_lookup_at(
                        self.app_state.graph_managers@,
                        mi as int,
                    );
                    crate::app_state::lemma_keyed_lookup_absent(
                        self.app_state.transaction_coordinators@,
                        active@,
                    );
                }
                return Err(
                    KgApiError::GraphError("Transaction coordinator not found".to_owned()),
                );
            },
        };
        proof {
            crate::app_state::lemma_keyed_lookup_at(self.app_state.graph_managers@, mi as int);
            crate::app_state::lemma_keyed_lookup_at(
                self.app_state.transaction_coordinators@,
                ci as int,
            );
            assert(active_store_of(&old(self).app_state) == Some(
                self.app_state.graph_managers@[mi as int].1,
            ));
            assert(active_coordinator_of(&old(self).app_state) == Some(
                self.app_state.transaction_coordinators@[ci as int].1,
            ));
        }
        let ghost managers_pre = self.app_state.graph_managers@;
        let ghost coords_pre = self.app_state.transaction_coordinators@;
        let outcome: Result<ActionOutcome, TransactionError> = ({
            let coord_pair = &mut self.app_state.transaction_coordinators[ci];
            let mgr_pair = &mut self.app_state.graph_managers[mi];
            execute_with_transaction(&mut coord_pair.1, &mut mgr_pair.1, operation, action)
        });
        proof {
            assert(self.app_state.graph_managers@[mi as int].0 == managers_pre[mi as int].0);
            assert(self.app_state.transaction_coordinators@[ci as int].0 == coords_pre[ci as int].0);
            assert forall|i: int|
                0 <= i < self.app_state.graph_managers@.len() implies (
            #[trigger] self.app_state.graph_managers@[i]).1.wf() by {
                if i != mi as int {
                    assert(self.app_state.graph_managers@[i] == managers_pre[i]);
                }
            }
            assert forall|i: int|
                0 <= i < self.app_state.transaction_coordinators@.len() implies (
            #[trigger] self.app_state.transaction_coordinators@[i]).1.wf() by {
                if i != ci as int {
                    assert(self.app_state.transaction_coordinators@[i] == coords_pre[i]);
                }
            }
            assert forall|i: int, j: int|
                0 <= i < j < self.app_state.graph_managers@.len() implies (
            #[trigger] self.app_state.graph_managers@[i]).0@ != (
            #[trigger] self.app_state.graph_managers@[j]).0@ by {
                assert(self.app_state.graph_managers@[i].0 == managers_pre[i].0);
                assert(self.app_state.graph_managers@[j].0 == managers_pre[j].0);
            }
            assert forall|i: int, j: int|
                0 <= i < j < self.app_state.transaction_coordinators@.len() implies (
            #[trigger] self.app_state.transaction_coordinators@[i]).0@ != (
            #[trigger] self.app_state.transaction_coordinators@[j]).0@ by {
                assert(self.app_state.transaction_coordinators@[i].0 == coords_pre[i].0);
                assert(self.app_state.transaction_coordinators@[j].0 == coords_pre[j].0);
            }
            assert forall|i: int|
                0 <= i < self.app_state.graph_managers@.len() implies crate::app_state::keyed_has(
                self.app_state.transaction_coordinators@,
                (#[trigger] self.app_state.graph_managers@[i]).0@,
            ) by {
                assert(self.app_state.graph_managers@[i].0 == managers_pre[i].0);
                let w = choose|w: int|
                    0 <= w < coords_pre.len() && (#[trigger] coords_pre[w]).0@
                        == managers_pre[i].0@;
                assert(self.app_state.transaction_coordinators@[w].0 == coords_pre[w].0);
            }
            // the active views before and after the call are the touched
            // entries
            crate::app_state::lemma_keyed_lookup_update(
                managers_pre,
                self.app_state.graph_managers@,
                mi as int,
            );
            crate::app_state::lemma_keyed_lookup_update(
                coords_pre,
                self.app_state.transaction_coordinators@,
                ci as int,
            );
            assert(active_store_of(&self.app_state) == Some(
                self.app_state.graph_managers@[mi as int].1,
            ));
            assert(active_coordinator_of(&self.app_state) == Some(
                self.app_state.transaction_coordinators@[ci as int].1,
            ));
            match &outcome {
                Err(TransactionError::DuplicateContent(_)) => {
                    assert forall|i: int|
                        0 <= i < managers_pre.len() implies self.app_state.graph_managers@[i]
                        == managers_pre[i] by {}
                    assert(self.app_state.graph_managers@ =~= managers_pre);
                    assert forall|i: int|
                        0 <= i < coords_pre.len() implies
                        self.app_state.transaction_coordinators@[i] == coords_pre[i] by {}
                    assert(self.app_state.transaction_coordinators@ =~= coords_pre);
                },
                _ => {},
            }
        }
        match outcome {
            Ok(v) => Ok(v),
            Err(TransactionError::DuplicateContent(_)) => Err(KgApiError::DuplicateContent),
            Err(TransactionError::OperationFailed(m)) => Err(KgApiError::GraphError(m)),
            Err(TransactionError::LogError(_)) => Err(
                KgApiError::GraphError("transaction log failure".to_owned()),
            ),
        }
    }

    /// Add a new block to the active graph: a fresh identifier, resolved
    /// reference content, extracted references, logged and applied under a
    /// transaction. Content identical to an in-flight block is refused and
    /// leaves every store and log untouched.
    #[verifier::rlimit(100)]
    #[verifier::spinoff_prover]
    pub fn add_block(
        &mut self,
        content: String,
        parent_id: Option<String>,
        page_name: Option<String>,
        properties: Option<Vec<(String, String)>>,
    ) -> (r: Result<String, KgApiError>)
        requires
            old(self).app_state.wf(),
        ensures
            final(self).app_state.wf(),
            final(self).app_state.active_graph_id == old(self).app_state.active_graph_id,
            final(self).app_state.graph_registry == old(self).app_state.graph_registry,
            old(self).app_state.active_graph_id is None <==> (r matches Err(e)
                && e is NoActiveGraph),
            old(self).app_state.active_graph_id is None ==> *final(self) == *old(self),
            active_store_of(&old(self).app_state) matches Some(m0) ==> (active_coordinator_of(
                &old(self).app_state,
            ) matches Some(c0) ==> ({
                &&& ((r matches Err(e) && e is DuplicateContent) <==> dedup_has(
                    c0.pending_operations@,
                    content_hash_of(content@),
                ))
                &&& ((r matches Err(e) && e is DuplicateContent)
                    ==> final(self).app_state.graph_managers@ == old(self).app_state.graph_managers@ && final(self).app_state.transaction_coordinators@
                    == old(self).app_state.transaction_coordinators@)
                &&& (r matches Ok(id) ==> id@.len() == 36 && block_added(
                    &old(self).app_state,
                    &final(self).app_state,
                    id@,
                    content@,
                    (match parent_id {
                        Some(pp) => Some(pp@),
                        None => None,
                    }),
                    (match page_name {
                        Some(pg) => Some(pg@),
                        None => None,
                    }),
                ))
                &&& (r is Ok ==> (active_coordinator_of(&final(self).app_state) matches Some(c1)
                    && crate::transaction::dedup_released(
                    &c0,
                    &c1,
                    Some(content_hash_of(content@)),
                )))
            })),
            r matches Ok(id) ==> (id@.len() == 36 && block_added(
                &old(self).app_state,
                &final(self).app_state,
                id@,
                content@,
                (match parent_id {
                    Some(pp) => Some(pp@),
                    None => None,
                }),
                (match page_name {
                    Some(pg) => Some(pg@),
                    None => None,
                }),
            )),
    {
        let active = match &self.app_state.active_graph_id {
            Some(a) => a.clone(),
            None => {
                return Err(KgApiError::NoActiveGraph);
            },
        };
        let block_id = new_uuid();
        let ghost page_view: Option<Seq<char>> = match &page_name {
            Some(pg) => Some(pg@),
            None => None,
        };
        let data = ({
            let loaded: Option<&GraphManager> = match self.app_state.find_manager(
                active.as_str(),
            ) {
                Some(mi) => {
                    proof {
                        crate::app_state::lemma_keyed_lookup_at(
                            self.app_state.graph_managers@,
                            mi as int,
                        );
                    }
                    Some(&self.app_state.graph_managers[mi].1)
                },
                None => {
                    proof {
                        crate::app_state::lemma_keyed_lookup_absent(
                            self.app_state.graph_managers@,
                            active@,
                        );
                    }
                    None
                },
            };
            assemble_block_data(loaded, block_id.clone(), &content, parent_id, page_name, properties)
        });
        let operation = Operation::CreateNode {
            node_type: "block".to_owned(),
            content,
            temp_id: None,
        };
        let ghost data_view = data;
        let ghost op_view = operation;
        let r0 = self.run_on_active(operation, StoreAction::CreateBlock(data));
        proof {
            if active_store_of(&old(self).app_state) is Some && active_coordinator_of(
                &old(self).app_state,
            ) is Some {
                lemma_dup_refusal(
                    &old(self).app_state,
                    &self.app_state,
                    &op_view,
                    &StoreAction::CreateBlock(data_view),
                    &r0,
                );
                assert(op_content_hash(&op_view) == Some(content_hash_of(content@)));
            }
        }
        match r0 {
            Ok(_) => {
                proof {
                    lemma_block_added(
                        &old(self).app_state,
                        &self.app_state,
                        &op_view,
                        &data_view,
                        &r0,
                        page_view,
                    );
                    lemma_dedup_release(
                        &old(self).app_state,
                        &self.app_state,
                        &op_view,
                        &StoreAction::CreateBlock(data_view),
                        &r0,
                    );
                    assert(data_view.id@ == block_id@ && data_view.content@ == content@);
                }
                Ok(block_id)
            },
            Err(e) => Err(e),
        }
    }

    /// Update an existing block's content; unknown blocks are refused with
    /// a not-found error after the attempt is logged and aborted.
    #[verifier::rlimit(100)]
    #[verifier::spinoff_prover]
    pub fn update_block(&mut self, block_id: String, content: String) -> (r: Result<
        (),
        KgApiError,
    >)
        requires
            old(self).app_state.wf(),
        ensures
            final(self).app_state.wf(),
            final(self).app_state.active_graph_id == old(self).app_state.active_graph_id,
            final(self).app_state.graph_registry == old(self).app_state.graph_registry,
            old(self).app_state.active_graph_id is None <==> (r matches Err(e)
                && e is NoActiveGraph),
            old(self).app_state.active_graph_id is None ==> *final(self) == *old(self),
            active_store_of(&old(self).app_state) matches Some(m0) ==> (active_coordinator_of(
                &old(self).app_state,
            ) matches Some(c0) ==> ({
                &&& ((r matches Err(e) && e is DuplicateContent) <==> dedup_has(
                    c0.pending_operations@,
                    content_hash_of(content@),
                ))
                &&& ((r matches Err(e) && e is DuplicateContent) ==> final(self).app_state.graph_managers@ == old(self).app_state.graph_managers@ && final(self).app_state.transaction_coordinators@ == old(self).app_state.transaction_coordinators@)
                &&& ((r matches Err(e) && e is NodeNotFound) <==> (m0.spec_lookup(
                    block_id@,
                ) is None && !dedup_has(c0.pending_operations@, content_hash_of(content@))))
                &&& (r matches Err(e) ==> (e matches KgApiError::NodeNotFound(nid) ==> (nid@
                    == block_id@ && (active_store_of(&final(self).app_state) matches Some(m1)
                    && m1 == m0) && (active_coordinator_of(&final(self).app_state) matches Some(
                    c1,
                ) && failed_attempt_logged(&c0, &c1, &(Operation::UpdateNode {
                    node_id: block_id,
                    content,
                }))))))
                &&& (r is Ok ==> ({
                    &&& (active_store_of(&final(self).app_state) matches Some(m1) && ({
                        &&& m0.spec_lookup(block_id@) is Some
                        &&& m1.spec_lookup(block_id@) == m0.spec_lookup(block_id@)
                        &&& store_extends(&m0, &m1)
                        &&& (forall|i: int|
                            0 <= i < m0.nodes@.len() && i != m0.spec_lookup(block_id@)->0 as int
                                ==> m1.nodes@[i] == m0.nodes@[i])
                        &&& refs_established_for(&m1, m0.spec_lookup(block_id@)->0, content@)
                        &&& (m1.nodes@[m0.spec_lookup(block_id@)->0 as int] matches Some(n) && (
                        m0.nodes@[m0.spec_lookup(block_id@)->0 as int] matches Some(n0) && ({
                            &&& n.pkm_id@ == block_id@
                            &&& n.node_type == NodeType::Block
                            &&& n.content@ == content@
                            &&& n.created_at == n0.created_at
                            &&& n.id == n0.id
                            &&& (n.reference_content matches Some(rc) && rc@ == resolve_spec(
                                content@,
                                block_content_map(m0.nodes@),
                                Set::empty(),
                                Some(block_id@),
                            ))
                        })))
                    }))
                    &&& (active_coordinator_of(&final(self).app_state) matches Some(c1) && ({
                        &&& c1.log.entries@.len() == c0.log.entries@.len() + 1
                        &&& c1.log.entries@.last().state == TransactionState::Committed
                        &&& (c1.log.entries@.last().operation matches Operation::UpdateNode {
                            node_id: nid,
                            content: cc,
                        } && nid@ == block_id@ && cc@ == content@)
                        &&& !crate::transaction_log::pending_has(
                            c1.log.pending@,
                            c1.log.entries@.last().id@,
                        )
                        &&& crate::transaction::dedup_released(
                            &c0,
                            &c1,
                            Some(content_hash_of(content@)),
                        )
                    }))
                }))
            })),
            r is Ok ==> block_updated(
                &old(self).app_state,
                &final(self).app_state,
                block_id@,
                content@,
            ),
    {
        let missing: bool = match &self.app_state.active_graph_id {
            Some(a) => {
                let acopy = a.clone();
                match self.app_state.find_manager(acopy.as_str()) {
                    Some(mi) => {
                        proof {
                            crate::app_state::lemma_keyed_lookup_at(
                                self.app_state.graph_managers@,
                                mi as int,
                            );
                        }
                        let store = &self.app_state.graph_managers[mi].1;
                        store.get_node_index(block_id.as_str()).is_none()
                    },
                    None => {
                        proof {
                            crate::app_state::lemma_keyed_lookup_absent(
                                self.app_state.graph_managers@,
                                acopy@,
                            );
                        }
                        false
                    },
                }
            },
            None => false,
        };
        let operation = Operation::UpdateNode { node_id: block_id.clone(), content: content.clone() };
        let ghost op_view = operation;
        let ghost act_view = StoreAction::UpdateBlock { block_id, content };
        let not_found_id = block_id.clone();
        let r0 = self.run_on_active(
            operation,
            StoreAction::UpdateBlock { block_id, content },
        );
        proof {
            reveal(routed_post);
            assert(op_content_hash(&op_view) == Some(content_hash_of(content@)));
        }
        match r0 {
            Ok(_) => Ok(()),
            Err(KgApiError::GraphError(m)) => {
                if missing {
                    Err(KgApiError::NodeNotFound(not_found_id))
                } else {
                    Err(KgApiError::GraphError(m))
                }
            },
            Err(e) => Err(e),
        }
    }

    /// Delete a block: archive it with its edges and remove it from the
    /// graph and the index; unknown blocks are refused with not-found.
    #[verifier::rlimit(100)]
    #[verifier::spinoff_prover]
    pub fn delete_block(&mut self, block_id: String) -> (r: Result<NodeArchive, KgApiError>)
        requires
            old(self).app_state.wf(),
        ensures
            final(self).app_state.wf(),
            final(self).app_state.active_graph_id == old(self).app_state.active_graph_id,
            final(self).app_state.graph_registry == old(self).app_state.graph_registry,
            old(self).app_state.active_graph_id is None <==> (r matches Err(e)
                && e is NoActiveGraph),
            old(self).app_state.active_graph_id is None ==> *final(self) == *old(self),
            active_store_of(&old(self).app_state) matches Some(m0) ==> (active_coordinator_of(
                &old(self).app_state,
            ) matches Some(c0) ==> ({
                &&& !(r matches Err(e) && e is DuplicateContent)
                &&& ((r matches Err(e) && e is NodeNotFound) <==> m0.spec_lookup(
                    block_id@,
                ) is None)
                &&& (r matches Err(e) ==> (e matches KgApiError::NodeNotFound(nid) ==> (nid@
                    == block_id@ && (active_store_of(&final(self).app_state) matches Some(m1)
                    && m1 == m0) && (active_coordinator_of(&final(self).app_state) matches Some(
                    c1,
                ) && failed_attempt_logged(&c0, &c1, &(Operation::DeleteNode {
                    node_id: block_id,
                }))))))
                &&& (r matches Ok(a) ==> ({
                    &&& m0.spec_lookup(block_id@) is Some
                    &&& archive_of(&m0, block_id@, &a)
                    &&& (active_store_of(&final(self).app_state) matches Some(m1)
                        && m1.spec_lookup(block_id@) is None)
                    &&& (active_coordinator_of(&final(self).app_state) matches Some(c1) && ({
                        &&& c1.log.entries@.len() == c0.log.entries@.len() + 1
                        &&& c1.log.entries@.last().state == TransactionState::Committed
                        &&& (c1.log.entries@.last().operation matches Operation::DeleteNode {
                            node_id: nid,
                        } && nid@ == block_id@)
                        &&& !crate::transaction_log::pending_has(
                            c1.log.pending@,
                            c1.log.entries@.last().id@,
                        )
                        &&& c1.pending_operations@ == c0.pending_operations@
                    }))
                }))
            })),
            r is Ok ==> block_deleted(&old(self).app_state, &final(self).app_state, block_id@),
    {
        let missing: bool = match &self.app_state.active_graph_id {
            Some(a) => {
                let acopy = a.clone();
                match self.app_state.find_manager(acopy.as_str()) {
                    Some(mi) => {
                        proof {
                            crate::app_state::lemma_keyed_lookup_at(
                                self.app_state.graph_managers@,
                                mi as int,
                            );
                        }
                        let store = &self.app_state.graph_managers[mi].1;
                        store.get_node_index(block_id.as_str()).is_none()
                    },
                    None => {
                        proof {
                            crate::app_state::lemma_keyed_lookup_absent(
                                self.app_state.graph_managers@,
                                acopy@,
                            );
                        }
                        false
                    },
                }
            },
            None => false,
        };
        let operation = Operation::DeleteNode { node_id: block_id.clone() };
        let ghost op_view = operation;
        let ghost act_view = StoreAction::DeleteBlock { block_id };
        let not_found_id = block_id.clone();
        let r0 = self.run_on_active(operation, StoreAction::DeleteBlock { block_id });
        proof {
            reveal(routed_post);
            assert(op_content_hash(&op_view) is None);
        }
        match r0 {
            Ok(ActionOutcome::Archive(a)) => Ok(a),
            Ok(_) => Err(KgApiError::GraphError("unexpected outcome".to_owned())),
            Err(KgApiError::GraphError(m)) => {
                if missing {
                    Err(KgApiError::NodeNotFound(not_found_id))
                } else {
                    Err(KgApiError::GraphError(m))
                }
            },
            Err(e) => Err(e),
        }
    }

    /// Create (or refresh) a page on the active graph.
    #[verifier::rlimit(100)]
    #[verifier::spinoff_prover]
    pub fn create_page(
        &mut self,
        page_name: String,
        properties: Option<Vec<(String, String)>>,
    ) -> (r: Result<(), KgApiError>)
        requires
            old(self).app_state.wf(),
        ensures
            final(self).app_state.wf(),
            final(self).app_state.active_graph_id == old(self).app_state.active_graph_id,
            final(self).app_state.graph_registry == old(self).app_state.graph_registry,
            old(self).app_state.active_graph_id is None <==> (r matches Err(e)
                && e is NoActiveGraph),
            old(self).app_state.active_graph_id is None ==> *final(self) == *old(self),
            active_store_of(&old(self).app_state) matches Some(m0) ==> (active_coordinator_of(
                &old(self).app_state,
            ) matches Some(c0) ==> ({
                &&& ((r matches Err(e) && e is DuplicateContent) <==> dedup_has(
                    c0.pending_operations@,
                    content_hash_of(page_name@),
                ))
                &&& ((r matches Err(e) && e is DuplicateContent) ==> final(self).app_state.graph_managers@ == old(self).app_state.graph_managers@ && final(self).app_state.transaction_coordinators@ == old(self).app_state.transaction_coordinators@)
                &&& !(r matches Err(e) && e is NodeNotFound)
                &&& (r is Ok ==> ({
                    &&& (active_store_of(&final(self).app_state) matches Some(m1) && (
                    m1.spec_lookup(lower_of(page_name@)) matches Some(h) && (
                    m1.nodes@[h as int] matches Some(n) && ({
                        &&& n.pkm_id@ == page_name@
                        &&& n.node_type == NodeType::Page
                        &&& n.content@ == page_name@
                        &&& n.reference_content is None
                        &&& n.properties@ == (match properties {
                            Some(pv) => pv@,
                            None => Seq::<(String, String)>::empty(),
                        })
                    }))))
                    &&& (active_coordinator_of(&final(self).app_state) matches Some(c1) && ({
                        &&& c1.log.entries@.len() == c0.log.entries@.len() + 1
                        &&& c1.log.entries@.last().state == TransactionState::Committed
                        &&& (c1.log.entries@.last().operation matches Operation::CreateNode {
                            node_type: nt,
                            content: logged,
                            ..
                        } && nt@ == "page"@ && logged@ == page_name@)
                        &&& !crate::transaction_log::pending_has(
                            c1.log.pending@,
                            c1.log.entries@.last().id@,
                        )
                        &&& crate::transaction::dedup_released(
                            &c0,
                            &c1,
                            Some(content_hash_of(page_name@)),
                        )
                    }))
                }))
            })),
            r is Ok ==> page_created(&old(self).app_state, &final(self).app_state, page_name@),
    {
        let now_text = i64_to_dec_string(now_millis());
        let lowered = crate::text::to_lowercase(page_name.as_str());
        let data = PKMPageData {
            name: page_name.clone(),
            normalized_name: Some(lowered),
            created: now_text.clone(),
            updated: now_text,
            properties: match properties {
                Some(p) => p,
                None => Vec::new(),
            },
            blocks: Vec::new(),
        };
        let operation = Operation::CreateNode {
            node_type: "page".to_owned(),
            content: page_name,
            temp_id: None,
        };
        let ghost op_view = operation;
        let ghost data_view = data;
        let r0 = self.run_on_active(operation, StoreAction::CreatePage(data));
        proof {
            reveal(routed_post);
            assert(op_content_hash(&op_view) == Some(content_hash_of(page_name@)));
            assert(data_view.name@ == page_name@);
        }
        match r0 {
            Ok(_) => Ok(()),
            Err(e) => Err(e),
        }
    }

    /// Read a node of the active graph by external id (no transaction).
    pub fn get_node(&self, node_id: &str) -> (r: Result<NodeData, KgApiError>)
        requires
            self.app_state.wf(),
        ensures
            self.app_state.active_graph_id is None <==> (r matches Err(e) && e is NoActiveGraph),
            (self.app_state.active_graph_id is Some && active_store_of(&self.app_state) is None)
                ==> (r matches Err(e) && e is GraphError),
            active_store_of(&self.app_state) matches Some(m0) ==> (match m0.spec_lookup(node_id@) {
                Some(h) => r matches Ok(n) && (m0.nodes@[h as int] matches Some(s)
                    && crate::graph_manager::node_eq(n, s)),
                None => r matches Err(e) && (e matches KgApiError::NodeNotFound(nid) && nid@
                    == node_id@),
            }),
    {
        let active = match &self.app_state.active_graph_id {
            Some(a) => a.clone(),
            None => {
                return Err(KgApiError::NoActiveGraph);
            },
        };
        let mi = match self.app_state.find_manager(active.as_str()) {
            Some(i) => i,
            None => {
                proof {
                    crate::app_state::lemma_keyed_lookup_absent(
                        self.app_state.graph_managers@,
                        active@,
                    );
                }
                return Err(KgApiError::GraphError("Graph manager not found".to_owned()));
            },
        };
        proof {
            crate::app_state::lemma_keyed_lookup_at(self.app_state.graph_managers@, mi as int);
        }
        let store = &self.app_state.graph_managers[mi].1;
        match store.get_node_by_pkm_id(node_id) {
            Some(n) => Ok(crate::graph_manager::clone_node(n)),
            None => Err(KgApiError::NodeNotFound(node_id.to_owned())),
        }
    }

    /// Switch to a graph: materialize its store and coordinator if needed,
    /// point the active id at it and record the switch in the registry.
    pub fn switch_graph(&mut self, graph_id: String) -> (r: Result<GraphInfo, KgApiError>)
        requires
            old(self).app_state.wf(),
        ensures
            final(self).app_state.wf(),
            r is Ok ==> ({
                &&& (final(self).app_state.active_graph_id matches Some(a) && a@ == graph_id@)
                &&& (final(self).app_state.graph_registry.active_graph_id matches Some(ra) && ra@
                    == graph_id@)
                &&& crate::graph_registry::registry_has(
                    old(self).app_state.graph_registry.graphs@,
                    graph_id@,
                )
                &&& keyed_has(final(self).app_state.graph_managers@, graph_id@)
                &&& keyed_has(final(self).app_state.transaction_coordinators@, graph_id@)
                &&& (forall|k: Seq<char>|
                    k != graph_id@ ==> crate::app_state::keyed_lookup(
                        final(self).app_state.graph_managers@,
                        k,
                    ) == crate::app_state::keyed_lookup(old(self).app_state.graph_managers@, k)
                        && crate::app_state::keyed_lookup(
                        final(self).app_state.transaction_coordinators@,
                        k,
                    ) == crate::app_state::keyed_lookup(
                        old(self).app_state.transaction_coordinators@,
                        k,
                    ))
                &&& (forall|k: Seq<char>|
                    crate::graph_registry::registry_has(
                        final(self).app_state.graph_registry.graphs@,
                        k,
                    ) == crate::graph_registry::registry_has(
                        old(self).app_state.graph_registry.graphs@,
                        k,
                    ))
            }),
            r matches Ok(info) ==> (info.id@ == graph_id@ && (exists|i: int|
                0 <= i < old(self).app_state.graph_registry.graphs@.len() && (#[trigger] old(self).app_state.graph_registry.graphs@[i]).id@ == graph_id@ && ({
                    &&& info.name == old(self).app_state.graph_registry.graphs@[i].name
                    &&& info.kg_path == old(self).app_state.graph_registry.graphs@[i].kg_path
                    &&& info.created == old(self).app_state.graph_registry.graphs@[i].created
                    &&& info.description == old(self).app_state.graph_registry.graphs@[i].description
                }))),
            !crate::graph_registry::registry_has(
                old(self).app_state.graph_registry.graphs@,
                graph_id@,
            ) ==> r is Err,
            r is Err ==> ({
                &&& final(self).app_state.active_graph_id == old(self).app_state.active_graph_id
                &&& final(self).app_state.graph_registry.active_graph_id == old(self).app_state.graph_registry.active_graph_id
                &&& final(self).app_state.graph_registry.graphs@ == old(self).app_state.graph_registry.graphs@
                &&& (r matches Err(e) && e is GraphError)
            }),
    {
        if let Err(_) = self.app_state.get_or_create_graph_manager(graph_id.as_str(), None) {
            return Err(KgApiError::GraphError("Failed to open transaction log".to_owned()));
        }
        let info = match self.app_state.graph_registry.switch_graph(graph_id.as_str()) {
            Ok(info) => info,
            Err(_) => {
                let mut m = "Failed to switch graph: ".to_owned();
                m.append(graph_id.as_str());
                return Err(KgApiError::GraphError(m));
            },
        };
        self.app_state.set_active_graph(graph_id);
        Ok(info)
    }

    /// Register and materialize a new graph; the registry snapshot is
    /// persisted by the embedding binary.
    pub fn create_graph(&mut self, name: Option<String>, description: Option<String>) -> (r:
        Result<GraphInfo, KgApiError>)
        requires
            old(self).app_state.wf(),
        ensures
            final(self).app_state.wf(),
            r matches Ok(info) ==> ({
                &&& info.id@.len() == 36
                &&& (name matches Some(n) ==> info.name == n)
                &&& (name is None ==> info.name@ == "Graph "@ + info.id@.subrange(0, 8))
                &&& (description matches Some(dd) ==> info.description == Some(dd))
                &&& crate::graph_registry::registry_has(
                    final(self).app_state.graph_registry.graphs@,
                    info.id@,
                )
                &&& keyed_has(final(self).app_state.graph_managers@, info.id@)
                &&& keyed_has(final(self).app_state.transaction_coordinators@, info.id@)
                &&& (old(self).app_state.active_graph_id is None ==> (final(self).app_state.active_graph_id matches Some(a) && a@ == info.id@))
                &&& (old(self).app_state.active_graph_id is Some ==> final(self).app_state.active_graph_id == old(self).app_state.active_graph_id)
                &&& (!crate::graph_registry::registry_has(
                    old(self).app_state.graph_registry.graphs@,
                    info.id@,
                ) ==> (final(self).app_state.graph_registry.graphs@ == old(self).app_state.graph_registry.graphs@.push(info) && info.kg_path@ == old(self).app_state.data_dir@ + "/graphs/"@ + info.id@))
            }),
            r is Err ==> (r matches Err(e) && e is GraphError),
    {
        let data_dir = self.app_state.data_dir.clone();
        let info = match self.app_state.graph_registry.register_graph(
            None,
            name,
            description,
            data_dir.as_str(),
        ) {
            Ok(info) => info,
            Err(_) => {
                return Err(KgApiError::GraphError("Failed to register graph".to_owned()));
            },
        };
        if let Err(_) = self.app_state.get_or_create_graph_manager(info.id.as_str(), None) {
            return Err(KgApiError::GraphError("Failed to open transaction log".to_owned()));
        }
        if self.app_state.active_graph_id.is_none() {
            self.app_state.set_active_graph(info.id.clone());
        }
        Ok(info)
    }

    /// Delete a graph: rejected when the id is the active graph or is
    /// unknown, and then nothing is removed; otherwise the entry leaves the
    /// registry and the loaded stores and coordinators, and the storage
    /// directory is returned for the embedding binary to archive.
    pub fn delete_graph(&mut self, graph_id: &str) -> (r: Result<String, KgApiError>)
        requires
            old(self).app_state.wf(),
        ensures
            final(self).app_state.wf(),
            final(self).app_state.active_graph_id == old(self).app_state.active_graph_id,
            r is Ok <==> (crate::graph_registry::registry_has(
                old(self).app_state.graph_registry.graphs@,
                graph_id@,
            ) && !(old(self).app_state.active_graph_id matches Some(a) && a@ == graph_id@) && !(
            old(self).app_state.graph_registry.active_graph_id matches Some(ra) && ra@
                == graph_id@)),
            r matches Ok(dir) ==> ({
                &&& !crate::graph_registry::registry_has(
                    final(self).app_state.graph_registry.graphs@,
                    graph_id@,
                )
                &&& (forall|k: Seq<char>|
                    k != graph_id@ ==> crate::graph_registry::registry_has(
                        final(self).app_state.graph_registry.graphs@,
                        k,
                    ) == crate::graph_registry::registry_has(
                        old(self).app_state.graph_registry.graphs@,
                        k,
                    ))
                &&& !keyed_has(final(self).app_state.graph_managers@, graph_id@)
                &&& (exists|i: int|
                    0 <= i < old(self).app_state.graph_registry.graphs@.len() && (#[trigger] old(self).app_state.graph_registry.graphs@[i]).id@ == graph_id@ && dir@ == old(self).app_state.graph_registry.graphs@[i].kg_path@)
            }),
            r is Err ==> final(self).app_state.graph_registry.graphs@ == old(self).app_state.graph_registry.graphs@ && final(self).app_state.graph_registry.active_graph_id == old(self).app_state.graph_registry.active_graph_id && final(self).app_state.graph_managers@
                == old(self).app_state.graph_managers@ && final(self).app_state.transaction_coordinators@ == old(self).app_state.transaction_coordinators@,
    {
        let is_active = match &self.app_state.active_graph_id {
            Some(a) => {
                let key = graph_id.to_owned();
                string_eq(a, &key)
            },
            None => false,
        };
        if is_active {
            return Err(
                KgApiError::GraphError("Cannot delete the currently active graph".to_owned()),
            );
        }
        let archived = match self.app_state.graph_registry.remove_graph(graph_id) {
            Ok(dir) => dir,
            Err(_) => {
                let mut m = "Failed to remove graph: ".to_owned();
                m.append(graph_id);
                return Err(KgApiError::GraphError(m));
            },
        };
        remove_keyed_manager(&mut self.app_state.graph_managers, graph_id);
        remove_keyed_coordinator(&mut self.app_state.transaction_coordinators, graph_id);
        proof {
            assert forall|i: int|
                0 <= i < self.app_state.graph_managers@.len() implies crate::app_state::keyed_has(
                self.app_state.transaction_coordinators@,
                (#[trigger] self.app_state.graph_managers@[i]).0@,
            ) by {
                assert(crate::app_state::keyed_has(
                    old(self).app_state.graph_managers@,
                    self.app_state.graph_managers@[i].0@,
                ));
                let w = choose|w: int|
                    0 <= w < old(self).app_state.transaction_coordinators@.len() && (
                    #[trigger] old(self).app_state.transaction_coordinators@[w]).0@
                        == self.app_state.graph_managers@[i].0@;
                assert(self.app_state.graph_managers@[i].0@ != graph_id@);
                assert(crate::app_state::keyed_has(
                    self.app_state.transaction_coordinators@,
                    self.app_state.graph_managers@[i].0@,
                ));
            }
        }
        Ok(archived)
    }
}

/// Removes the store filed under a key, preserving the others.
#[verifier::loop_isolation(false)]
fn remove_keyed_manager(v: &mut Vec<(String, GraphManager)>, key: &str)
    requires
        forall|i: int, j: int|
            0 <= i < j < old(v)@.len() ==> (#[trigger] old(v)@[i]).0@ != (#[trigger] old(v)@[j]).0@,
        forall|i: int| 0 <= i < old(v)@.len() ==> (#[trigger] old(v)@[i]).1.wf(),
    ensures
        forall|i: int, j: int|
            0 <= i < j < final(v)@.len() ==> (#[trigger] final(v)@[i]).0@ != (#[trigger] final(v)@[j]).0@,
        forall|i: int| 0 <= i < final(v)@.len() ==> (#[trigger] final(v)@[i]).1.wf(),
        !crate::app_state::keyed_has(final(v)@, key@),
        forall|i: int|
            0 <= i < final(v)@.len() ==> crate::app_state::keyed_has(
                old(v)@,
                (#[trigger] final(v)@[i]).0@,
            ) && (#[trigger] final(v)@[i]).0@ != key@,
{
    let keystr = key.to_owned();
    let mut i: usize = 0;
    while i < v.len()
        invariant
            0 <= i <= v@.len(),
            v@ == old(v)@,
            forall|k: int| 0 <= k < i ==> (#[trigger] v@[k]).0@ != keystr@,
            keystr@ == key@,
        decreases v@.len() - i,
    {
        if string_eq(&v[i].0, &keystr) {
            let ghost pre = v@;
            v.remove(i);
            proof {
                assert forall|a: int| 0 <= a < v@.len() implies ((#[trigger] v@[a]).1.wf()
                    && crate::app_state::keyed_has(pre, v@[a].0@) && v@[a].0@ != key@) by {
                    let ja = if a < i as int {
                        a
                    } else {
                        a + 1
                    };
                    assert(v@[a] == pre[ja]);
                }
                assert forall|a: int, b: int| 0 <= a < b < v@.len() implies (
                #[trigger] v@[a]).0@ != (#[trigger] v@[b]).0@ by {
                    let ja = if a < i as int {
                        a
                    } else {
                        a + 1
                    };
                    let jb = if b < i as int {
                        b
                    } else {
                        b + 1
                    };
                    assert(v@[a] == pre[ja]);
                    assert(v@[b] == pre[jb]);
                }
                if crate::app_state::keyed_has(v@, key@) {
                    let w = choose|w: int| 0 <= w < v@.len() && (#[trigger] v@[w]).0@ == key@;
                    assert(v@[w].0@ != key@);
                }
            }
            return ;
        }
        i = i + 1;
    }
    proof {
        if crate::app_state::keyed_has(v@, key@) {
            let w = choose|w: int| 0 <= w < v@.len() && (#[trigger] v@[w]).0@ == key@;
        }
        assert forall|a: int| 0 <= a < v@.len() implies (crate::app_state::keyed_has(
            old(v)@,
            (#[trigger] v@[a]).0@,
        ) && v@[a].0@ != key@) by {}
    }
}

/// Removes the coordinator filed under a key, preserving the others.
#[verifier::loop_isolation(false)]
fn remove_keyed_coordinator(v: &mut Vec<(String, TransactionCoordinator)>, key: &str)
    requires
        forall|i: int, j: int|
            0 <= i < j < old(v)@.len() ==> (#[trigger] old(v)@[i]).0@ != (#[trigger] old(v)@[j]).0@,
        forall|i: int| 0 <= i < old(v)@.len() ==> (#[trigger] old(v)@[i]).1.wf(),
    ensures
        forall|i: int, j: int|
            0 <= i < j < final(v)@.len() ==> (#[trigger] final(v)@[i]).0@ != (#[trigger] final(v)@[j]).0@,
        forall|i: int| 0 <= i < final(v)@.len() ==> (#[trigger] final(v)@[i]).1.wf(),
        forall|k: Seq<char>|
            k != key@ ==> crate::app_state::keyed_has(final(v)@, k) == crate::app_state::keyed_has(
                old(v)@,
                k,
            ),
{
    let keystr = key.to_owned();
    let mut i: usize = 0;
    while i < v.len()
        invariant
            0 <= i <= v@.len(),
            v@ == old(v)@,
            forall|k: int| 0 <= k < i ==> (#[trigger] v@[k]).0@ != keystr@,
            keystr@ == key@,
        decreases v@.len() - i,
    {
        if string_eq(&v[i].0, &keystr) {
            let ghost pre = v@;
            v.remove(i);
            proof {
                assert forall|a: int| 0 <= a < v@.len() implies ((#[trigger] v@[a]).1.wf()) by {
                    let ja = if a < i as int {
                        a
                    } else {
                        a + 1
                    };
                    assert(v@[a] == pre[ja]);
                }
                assert forall|a: int, b: int| 0 <= a < b < v@.len() implies (
                #[trigger] v@[a]).0@ != (#[trigger] v@[b]).0@ by {
                    let ja = if a < i as int {
                        a
                    } else {
                        a + 1
                    };
                    let jb = if b < i as int {
                        b
                    } else {
                        b + 1
                    };
                    assert(v@[a] == pre[ja]);
                    assert(v@[b] == pre[jb]);
                }
                assert forall|k: Seq<char>| k != key@ implies crate::app_state::keyed_has(v@, k)
                    == crate::app_state::keyed_has(pre, k) by {
                    if crate::app_state::keyed_has(pre, k) {
                        let w = choose|w: int| 0 <= w < pre.len() && (#[trigger] pre[w]).0@ == k;
                        if w < i as int {
                            assert(v@[w] == pre[w]);
                        } else {
                            assert(w > i);
                            assert(v@[w - 1] == pre[w]);
                        }
                    }
                    if crate::app_state::keyed_has(v@, k) {
                        let w = choose|w: int| 0 <= w < v@.len() && (#[trigger] v@[w]).0@ == k;
                        let jw = if w < i as int {
                            w
                        } else {
                            w + 1
                        };
                        assert(pre[jw] == v@[w]);
                    }
                }
            }
            return ;
        }
        i = i + 1;
    }
}

} // verus!
