//! Transaction coordinator: lifecycle of transactions over one log, plus
//! the in-memory dedup gate for in-flight content. Beginning a transaction
//! with content registers its hash; committing or aborting releases it.

use vstd::prelude::*;
use crate::transaction_log::{
    active_in, clone_transaction, compute_content_hash, content_hash_of, has_tx, pending_has,
    pending_txs, string_vec_has, Operation, Transaction, TransactionLog, TransactionLogError,
    TransactionState, tx_hash_ok, tx_updated,
};
use crate::reference_resolver::string_eq;

verus! {

/// Errors of the coordinator.
#[derive(Debug)]
pub enum TransactionError {
    LogError(TransactionLogError),
    DuplicateContent(String),
    OperationFailed(String),
}

/// Whether the dedup map holds an entry for this content hash.
pub open spec fn dedup_has(map: Seq<(String, String)>, hash: Seq<char>) -> bool {
    exists|i: int| 0 <= i < map.len() && (#[trigger] map[i]).0@ == hash
}

/// The finished transaction's content hash has left the dedup map and no
/// other hash was disturbed.
pub open spec fn dedup_frame(
    pre: &TransactionCoordinator,
    post: &TransactionCoordinator,
    tx_id: Seq<char>,
) -> bool {
    forall|j: int|
        0 <= j < pre.log.entries@.len() && (#[trigger] pre.log.entries@[j]).id@ == tx_id ==> (
        match pre.log.entries@[j].content_hash {
            Some(hs) => !dedup_has(post.pending_operations@, hs@) && (forall|k: Seq<char>|
                k != hs@ ==> dedup_has(post.pending_operations@, k) == dedup_has(
                    pre.pending_operations@,
                    k,
                )),
            None => post.pending_operations@ == pre.pending_operations@,
        })
}

/// The view of an optional borrowed reason.
pub open spec fn reason_view(reason: Option<&str>) -> Option<Seq<char>> {
    match reason {
        Some(m) => Some(m@),
        None => None,
    }
}

/// A finished operation's hash has left the dedup map and every other
/// hash kept its standing; an operation without a hash leaves the map
/// exactly as it was.
pub open spec fn dedup_released(
    pre: &TransactionCoordinator,
    post: &TransactionCoordinator,
    h: Option<Seq<char>>,
) -> bool {
    match h {
        Some(hs) => !dedup_has(post.pending_operations@, hs) && (forall|k: Seq<char>|
            k != hs ==> dedup_has(post.pending_operations@, k) == dedup_has(
                pre.pending_operations@,
                k,
            )),
        None => post.pending_operations@ == pre.pending_operations@,
    }
}

/// The content hash an operation carries, if any.
pub open spec fn op_content_hash(op: &Operation) -> Option<Seq<char>> {
    match op {
        Operation::CreateNode { content, .. } => Some(content_hash_of(content@)),
        Operation::UpdateNode { content, .. } => Some(content_hash_of(content@)),
        Operation::DeleteNode { .. } => None,
    }
}

/// High-level transaction lifecycle over one log; also the in-memory dedup
/// gate for in-flight content.
pub struct TransactionCoordinator {
    pub log: TransactionLog,
    /// `content_hash -> transaction_id` for operations currently `Active`.
    pub pending_operations: Vec<(String, String)>,
}

impl TransactionCoordinator {
    pub open spec fn wf(&self) -> bool {
        self.log.wf()
    }

    pub fn new(log: TransactionLog) -> (r: Self)
        ensures
            r.log == log,
            r.pending_operations@.len() == 0,
            log.wf() ==> r.wf(),
    {
        TransactionCoordinator { log, pending_operations: Vec::new() }
    }

    /// Close the underlying transaction log.
    pub fn close(&mut self) -> (r: Result<(), TransactionError>)
        ensures
            final(self).log.entries@ == old(self).log.entries@,
            final(self).log.pending@ == old(self).log.pending@,
            final(self).pending_operations@ == old(self).pending_operations@,
            final(self).wf() == old(self).wf(),
    {
        match self.log.close() {
            Ok(()) => Ok(()),
            Err(e) => Err(TransactionError::LogError(e)),
        }
    }

    /// O(1)-intent dedup probe: whether this content hash is in flight.
    #[verifier::loop_isolation(false)]
    pub fn is_content_pending(&self, content_hash: &str) -> (r: bool)
        ensures
            r == dedup_has(self.pending_operations@, content_hash@),
    {
        let key = content_hash.to_owned();
        let mut i: usize = 0;
        while i < self.pending_operations.len()
            invariant
                0 <= i <= self.pending_operations@.len(),
                forall|k: int|
                    0 <= k < i ==> (#[trigger] self.pending_operations@[k]).0@ != key@,
            decreases self.pending_operations@.len() - i,
        {
            let p = &self.pending_operations[i];
            if string_eq(&p.0, &key) {
                proof {
                    assert((self.pending_operations@[i as int]).0@ == key@);
                }
                return true;
            }
            i = i + 1;
        }
        false
    }

    /// Begin a transaction for an operation: construct it (Active, hashed
    /// content registered in the dedup map) and append it to the log.
    #[verifier::rlimit(100)]
    pub fn begin_transaction(&mut self, operation: Operation) -> (r: Result<
        String,
        TransactionError,
    >)
        requires
            old(self).wf(),
        ensures
            final(self).wf(),
            match r {
                Ok(id) => ({
                    &&& final(self).log.entries@.len() == old(self).log.entries@.len() + 1
                    &&& final(self).log.entries@.take(old(self).log.entries@.len() as int) == old(self).log.entries@
                    &&& ({
                        let t = final(self).log.entries@.last();
                        &&& t.id == id
                        &&& t.operation == operation
                        &&& t.state == TransactionState::Active
                        &&& tx_hash_ok(&t)
                    })
                    &&& pending_has(final(self).log.pending@, id@)
                    &&& (op_content_hash(&operation) matches Some(h) ==> dedup_has(
                        final(self).pending_operations@,
                        h,
                    ))
                    &&& (match op_content_hash(&operation) {
                        Some(h) => forall|k: Seq<char>|
                            k != h ==> dedup_has(final(self).pending_operations@, k) == dedup_has(
                                old(self).pending_operations@,
                                k,
                            ),
                        None => final(self).pending_operations@ == old(self).pending_operations@,
                    })
                }),
                Err(e) => final(self).log.entries@ == old(self).log.entries@ && final(self).log.pending@ == old(self).log.pending@ && e is LogError,
            },
    {
        let transaction = Transaction::new(operation);
        let has_hash = transaction.content_hash.is_some();
        let hash_copy: Option<String> = match &transaction.content_hash {
            Some(h) => Some(h.clone()),
            None => None,
        };
        if crate::transaction_log::log_has_tx(&self.log.entries, &transaction.id) {
            let mut m = "transaction id collision: ".to_owned();
            m.append(transaction.id.as_str());
            return Err(
                TransactionError::LogError(TransactionLogError::SerializationError(m)),
            );
        }
        let tx_id = transaction.id.clone();
        let ghost txg = transaction;
        let ghost ops_pre = self.pending_operations@;
        match hash_copy {
            Some(h) => {
                self.pending_operations.push((h, tx_id.clone()));
            },
            None => {},
        }
        match self.log.append_transaction(transaction) {
            Ok(id) => {
                proof {
                    assert(self.log.entries@.take(old(self).log.entries@.len() as int) =~= old(self).log.entries@);
                    assert(self.log.entries@.last() == txg);
                    assert(tx_hash_ok(&txg));
                    match op_content_hash(&txg.operation) {
                        Some(hh) => {
                            assert(txg.content_hash matches Some(ch) && ch@ == hh);
                            let w = self.pending_operations@.len() - 1;
                            assert((self.pending_operations@[w]).0@ == hh);
                            assert(dedup_has(self.pending_operations@, hh));
                            let ops_now = self.pending_operations@;
                            assert(ops_now.len() == ops_pre.len() + 1);
                            assert forall|k: Seq<char>| k != hh implies dedup_has(ops_now, k)
                                == dedup_has(ops_pre, k) by {
                                if dedup_has(ops_pre, k) {
                                    let i0 = choose|i: int|
                                        0 <= i < ops_pre.len() && (#[trigger] ops_pre[i]).0@ == k;
                                    assert(ops_now[i0] == ops_pre[i0]);
                                    assert(dedup_has(ops_now, k));
                                }
                                if dedup_has(ops_now, k) {
                                    let i1 = choose|i: int|
                                        0 <= i < ops_now.len() && (#[trigger] ops_now[i]).0@ == k;
                                    assert(ops_now[ops_pre.len() as int].0@ == hh);
                                    assert(i1 < ops_pre.len());
                                    assert(ops_pre[i1] == ops_now[i1]);
                                    assert(dedup_has(ops_pre, k));
                                }
                            }
                        },
                        None => {
                            assert(self.pending_operations@ == ops_pre);
                        },
                    }
                }
                Ok(id)
            },
            Err(e) => Err(TransactionError::LogError(e)),
        }
    }

    /// Commit a transaction: release its content hash from the dedup map
    /// and mark it `Committed` in the log.
    pub fn commit_transaction(&mut self, tx_id: &str) -> (r: Result<(), TransactionError>)
        requires
            old(self).wf(),
        ensures
            final(self).wf(),
            r is Ok ==> ({
                &&& !pending_has(final(self).log.pending@, tx_id@)
                &&& final(self).log.entries@.len() == old(self).log.entries@.len()
                &&& dedup_frame(old(self), final(self), tx_id@)
                &&& exists|j: int|
                    #[trigger] crate::transaction_log::transition_witness(
                        old(self).log.entries@,
                        final(self).log.entries@,
                        tx_id@,
                        TransactionState::Committed,
                        None,
                        j,
                    )
            }),
            r matches Err(e) ==> final(self).log.entries@ == old(self).log.entries@ && final(self).log.pending@ == old(self).log.pending@ && e is LogError && ((
            e matches TransactionError::LogError(le) ==> ({
                &&& (le is TransactionNotFound <==> !has_tx(old(self).log.entries@, tx_id@))
                &&& (le is InvalidStateTransition <==> (exists|j: int|
                    0 <= j < old(self).log.entries@.len() && (#[trigger] old(self).log.entries@[j]).id@ == tx_id@ && old(self).log.entries@[j].state
                        != TransactionState::Active))
                &&& (le is TransactionNotFound ==> final(self).pending_operations@ == old(self).pending_operations@)
            }))),
    {
        self.finish_transaction(tx_id, TransactionState::Committed, None)
    }

    /// Abort a transaction with a reason: release its content hash and mark
    /// it `Aborted`, the reason recorded in the entry's `error_message`.
    pub fn abort_transaction(&mut self, tx_id: &str, reason: &str) -> (r: Result<
        (),
        TransactionError,
    >)
        requires
            old(self).wf(),
        ensures
            final(self).wf(),
            r is Ok ==> ({
                &&& !pending_has(final(self).log.pending@, tx_id@)
                &&& final(self).log.entries@.len() == old(self).log.entries@.len()
                &&& dedup_frame(old(self), final(self), tx_id@)
                &&& exists|j: int|
                    #[trigger] crate::transaction_log::transition_witness(
                        old(self).log.entries@,
                        final(self).log.entries@,
                        tx_id@,
                        TransactionState::Aborted,
                        Some(reason@),
                        j,
                    )
            }),
            r matches Err(e) ==> final(self).log.entries@ == old(self).log.entries@ && final(self).log.pending@ == old(self).log.pending@ && e is LogError && ((
            e matches TransactionError::LogError(le) ==> ({
                &&& (le is TransactionNotFound <==> !has_tx(old(self).log.entries@, tx_id@))
                &&& (le is InvalidStateTransition <==> (exists|j: int|
                    0 <= j < old(self).log.entries@.len() && (#[trigger] old(self).log.entries@[j]).id@ == tx_id@ && old(self).log.entries@[j].state
                        != TransactionState::Active))
                &&& (le is TransactionNotFound ==> final(self).pending_operations@ == old(self).pending_operations@)
            }))),
    {
        self.finish_transaction(tx_id, TransactionState::Aborted, Some(reason))
    }

    /// Shared tail of commit and abort.
    fn finish_transaction(
        &mut self,
        tx_id: &str,
        target: TransactionState,
        reason: Option<&str>,
    ) -> (r: Result<(), TransactionError>)
        requires
            old(self).wf(),
            target == TransactionState::Committed || target == TransactionState::Aborted,
        ensures
            final(self).wf(),
            r is Ok ==> ({
                &&& !pending_has(final(self).log.pending@, tx_id@)
                &&& final(self).log.entries@.len() == old(self).log.entries@.len()
                &&& dedup_frame(old(self), final(self), tx_id@)
                &&& exists|j: int|
                    #[trigger] crate::transaction_log::transition_witness(
                        old(self).log.entries@,
                        final(self).log.entries@,
                        tx_id@,
                        target,
                        reason_view(reason),
                        j,
                    )
            }),
            r matches Err(e) ==> final(self).log.entries@ == old(self).log.entries@ && final(self).log.pending@ == old(self).log.pending@ && e is LogError && ((
            e matches TransactionError::LogError(le) ==> ({
                &&& (le is TransactionNotFound <==> !has_tx(old(self).log.entries@, tx_id@))
                &&& (le is InvalidStateTransition <==> (exists|j: int|
                    0 <= j < old(self).log.entries@.len() && (#[trigger] old(self).log.entries@[j]).id@ == tx_id@ && old(self).log.entries@[j].state
                        != TransactionState::Active))
                &&& (le is TransactionNotFound ==> final(self).pending_operations@ == old(self).pending_operations@)
            }))),
    {
        let transaction = match self.log.get_transaction(tx_id) {
            Ok(t) => t,
            Err(e) => {
                return Err(TransactionError::LogError(e));
            },
        };
        match &transaction.content_hash {
            Some(h) => {
                remove_dedup_entries(&mut self.pending_operations, h);
            },
            None => {},
        }
        let message: Option<String> = match reason {
            Some(m) => Some(m.to_owned()),
            None => None,
        };
        match self.log.apply_transition(tx_id, target, message) {
            Ok(()) => {
                proof {
                    let j = choose|j: int|
                        #[trigger] crate::transaction_log::transition_witness(
                            old(self).log.entries@,
                            self.log.entries@,
                            tx_id@,
                            target,
                            reason_view(reason),
                            j,
                        );
                    // the fetched transaction is the witness entry, so the
                    // dedup removal covered exactly its hash
                    let i = choose|i: int|
                        0 <= i < old(self).log.entries@.len() && #[trigger] old(self).log.entries@[i] == transaction && old(self).log.entries@[i].id@
                            == tx_id@;
                    assert forall|w: int|
                        0 <= w < old(self).log.entries@.len() && (#[trigger] old(self).log.entries@[w]).id@ == tx_id@ implies old(self).log.entries@[w]
                        == transaction by {
                        assert(old(self).log.entries@[w].id@ == old(self).log.entries@[i].id@);
                    }
                }
                Ok(())
            },
            Err(e) => Err(TransactionError::LogError(e)),
        }
    }

    /// Re-register the content hashes of the log's pending transactions and
    /// return their ids for application-level retry. Called once on
    /// startup; every pending transaction is `Active` by the log invariant.
    pub fn recover_pending_transactions(&mut self) -> (r: Result<Vec<String>, TransactionError>)
        requires
            old(self).wf(),
        ensures
            final(self).wf(),
            final(self).log == old(self).log,
            r matches Ok(v) ==> ({
                let pend = pending_txs(old(self).log.entries@, old(self).log.pending@);
                &&& v@.len() == pend.len()
                &&& (forall|i: int| 0 <= i < v@.len() ==> (#[trigger] v@[i])@ == pend[i].id@)
                &&& (forall|i: int|
                    0 <= i < pend.len() ==> ((#[trigger] pend[i]).content_hash matches Some(h)
                        ==> dedup_has(final(self).pending_operations@, h@)))
            }),
    {
        let pending = match self.log.list_pending_transactions() {
            Ok(v) => v,
            Err(e) => {
                return Err(TransactionError::LogError(e));
            },
        };
        let ghost pend = pending_txs(self.log.entries@, self.log.pending@);
        let mut recovered: Vec<String> = Vec::new();
        let mut i: usize = 0;
        while i < pending.len()
            invariant
                0 <= i <= pending@.len(),
                pending@ == pend,
                recovered@.len() == i,
                self.log == old(self).log,
                forall|k: int| 0 <= k < i ==> (#[trigger] recovered@[k])@ == pend[k].id@,
                forall|k: int|
                    0 <= k < i ==> ((#[trigger] pend[k]).content_hash matches Some(h)
                        ==> dedup_has(self.pending_operations@, h@)),
            decreases pending@.len() - i,
        {
            let ghost ops_pre = self.pending_operations@;
            let t = &pending[i];
            match &t.content_hash {
                Some(h) => {
                    self.pending_operations.push((h.clone(), t.id.clone()));
                    proof {
                        assert((self.pending_operations@.last()).0@ == h@);
                    }
                },
                None => {},
            }
            recovered.push(t.id.clone());
            proof {
                assert forall|k: int|
                    0 <= k < i + 1 implies ((#[trigger] pend[k]).content_hash matches Some(h)
                    ==> dedup_has(self.pending_operations@, h@)) by {
                    if k < i {
                        match pend[k].content_hash {
                            Some(h) => {
                                let w = choose|w: int|
                                    0 <= w < ops_pre.len() && (#[trigger] ops_pre[w]).0@ == h@;
                                assert(self.pending_operations@[w] == ops_pre[w]);
                            },
                            None => {},
                        }
                    }
                }
            }
            i = i + 1;
        }
        Ok(recovered)
    }
}

/// Removes every dedup entry carrying the hash.
fn remove_dedup_entries(map: &mut Vec<(String, String)>, hash: &String)
    ensures
        !dedup_has(final(map)@, hash@),
        forall|k: Seq<char>| k != hash@ ==> dedup_has(final(map)@, k) == dedup_has(old(map)@, k),
{
    let mut kept: Vec<(String, String)> = Vec::new();
    let mut i: usize = 0;
    while i < map.len()
        invariant
            0 <= i <= map@.len(),
            forall|k: int| 0 <= k < kept@.len() ==> (#[trigger] kept@[k]).0@ != hash@,
            forall|k: int|
                0 <= k < kept@.len() ==> exists|w: int|
                    0 <= w < i && (#[trigger] kept@[k]) == map@[w],
            forall|w: int|
                0 <= w < i && (#[trigger] map@[w]).0@ != hash@ ==> dedup_has(kept@, map@[w].0@),
        decreases map@.len() - i,
    {
        let p = &map[i];
        if !string_eq(&p.0, hash) {
            let ghost kept_pre = kept@;
            kept.push((p.0.clone(), p.1.clone()));
            proof {
                assert((kept@[kept@.len() - 1]).0@ == (map@[i as int]).0@);
                assert(dedup_has(kept@, map@[i as int].0@));
                assert forall|w: int|
                    0 <= w < i && (#[trigger] map@[w]).0@ != hash@ implies dedup_has(
                    kept@,
                    map@[w].0@,
                ) by {
                    let z = choose|z: int|
                        0 <= z < kept_pre.len() && (#[trigger] kept_pre[z]).0@ == map@[w].0@;
                    assert(kept@[z] == kept_pre[z]);
                }
            }
        }
        proof {
            assert forall|w: int|
                0 <= w < i + 1 && (#[trigger] map@[w]).0@ != hash@ implies dedup_has(
                kept@,
                map@[w].0@,
            ) by {
                if w < i {
                    assert(dedup_has(kept@, map@[w].0@));
                }
            }
        }
        i = i + 1;
    }
    let ghost old_map = map@;
    *map = kept;
    proof {
        assert forall|k: Seq<char>| k != hash@ implies dedup_has(map@, k) == dedup_has(
            old_map,
            k,
        ) by {
            if dedup_has(old_map, k) {
                let w = choose|w: int| 0 <= w < old_map.len() && (#[trigger] old_map[w]).0@ == k;
            }
            if dedup_has(map@, k) {
                let a = choose|a: int| 0 <= a < map@.len() && (#[trigger] map@[a]).0@ == k;
                let w = choose|w: int| 0 <= w < old_map.len() && map@[a] == #[trigger] old_map[w];
            }
        }
    }
}

} // verus!
