//! Application state: the composition root owning the loaded graph stores,
//! their transaction coordinators (in lockstep), the registry and the
//! active-graph pointer. The embedding binary performs the file work;
//! everything that decides lives here.

use vstd::prelude::*;
use crate::config::Config;
use crate::graph_manager::GraphManager;
use crate::graph_registry::GraphRegistry;
use crate::reference_resolver::string_eq;
use crate::transaction::TransactionCoordinator;
use crate::transaction_log::{TransactionLog, TransactionLogError};

verus! {

/// Whether a keyed list holds this key.
pub open spec fn keyed_has<T>(v: Seq<(String, T)>, k: Seq<char>) -> bool {
    exists|i: int| 0 <= i < v.len() && (#[trigger] v[i]).0@ == k
}

/// The value filed under a key; the latest entry wins (keys are distinct
/// wherever this is used).
pub open spec fn keyed_lookup<T>(v: Seq<(String, T)>, k: Seq<char>) -> Option<T>
    decreases v.len(),
{
    if v.len() == 0 {
        None
    } else if v.last().0@ == k {
        Some(v.last().1)
    } else {
        keyed_lookup(v.drop_last(), k)
    }
}

/// Under distinct keys, any entry carrying the key is the lookup's result.
pub proof fn lemma_keyed_lookup_at<T>(v: Seq<(String, T)>, i: int)
    requires
        forall|a: int, b: int| 0 <= a < b < v.len() ==> (#[trigger] v[a]).0@ != (#[trigger] v[b]).0@,
        0 <= i < v.len(),
    ensures
        keyed_lookup(v, v[i].0@) == Some(v[i].1),
    decreases v.len(),
{
    if i < v.len() - 1 {
        assert(v.last().0@ != v[i].0@);
        assert(forall|a: int, b: int|
            0 <= a < b < v.drop_last().len() ==> (#[trigger] v.drop_last()[a]).0@ != (
            #[trigger] v.drop_last()[b]).0@);
        lemma_keyed_lookup_at(v.drop_last(), i);
    }
}

/// A key absent from every entry has no lookup result.
pub proof fn lemma_keyed_lookup_absent<T>(v: Seq<(String, T)>, k: Seq<char>)
    requires
        !keyed_has(v, k),
    ensures
        keyed_lookup(v, k) is None,
    decreases v.len(),
{
    if v.len() > 0 {
        assert(v[v.len() - 1].0@ != k);
        assert forall|i: int| 0 <= i < v.drop_last().len() implies (#[trigger] v.drop_last()[i]).0@
            != k by {
            assert(v[i] == v.drop_last()[i]);
        }
        lemma_keyed_lookup_absent(v.drop_last(), k);
    }
}

/// Updating one entry in place moves only its key's lookup.
pub proof fn lemma_keyed_lookup_update<T>(pre: Seq<(String, T)>, post: Seq<(String, T)>, i: int)
    requires
        forall|a: int, b: int|
            0 <= a < b < pre.len() ==> (#[trigger] pre[a]).0@ != (#[trigger] pre[b]).0@,
        0 <= i < pre.len(),
        post.len() == pre.len(),
        post[i].0@ == pre[i].0@,
        forall|a: int| 0 <= a < pre.len() && a != i ==> post[a] == pre[a],
    ensures
        keyed_lookup(post, pre[i].0@) == Some(post[i].1),
        forall|k: Seq<char>|
            k != pre[i].0@ ==> #[trigger] keyed_lookup(post, k) == keyed_lookup(pre, k),
    decreases pre.len(),
{
    assert forall|a: int, b: int| 0 <= a < b < post.len() implies (#[trigger] post[a]).0@ != (
    #[trigger] post[b]).0@ by {
        if a != i && b != i {
            assert(post[a] == pre[a]);
            assert(post[b] == pre[b]);
        }
    }
    lemma_keyed_lookup_at(post, i);
    assert forall|k: Seq<char>| k != pre[i].0@ implies #[trigger] keyed_lookup(post, k)
        == keyed_lookup(pre, k) by {
        lemma_keyed_lookup_frame(pre, post, i, k);
    }
}

/// Helper for the frame half of `lemma_keyed_lookup_update`.
proof fn lemma_keyed_lookup_frame<T>(pre: Seq<(String, T)>, post: Seq<(String, T)>, i: int, k: Seq<char>)
    requires
        0 <= i < pre.len(),
        post.len() == pre.len(),
        post[i].0@ == pre[i].0@,
        forall|a: int| 0 <= a < pre.len() && a != i ==> post[a] == pre[a],
        k != pre[i].0@,
    ensures
        keyed_lookup(post, k) == keyed_lookup(pre, k),
    decreases pre.len(),
{
    if pre.len() > 0 {
        if i == pre.len() - 1 {
            assert(post.last().0@ == pre.last().0@);
            assert(post.drop_last() =~= pre.drop_last());
        } else {
            assert(post.last() == pre.last());
            if pre.last().0@ != k {
                assert forall|a: int|
                    0 <= a < pre.drop_last().len() && a != i implies post.drop_last()[a]
                    == pre.drop_last()[a] by {
                    assert(post[a] == pre[a]);
                }
                lemma_keyed_lookup_frame(pre.drop_last(), post.drop_last(), i, k);
            }
        }
    }
}

/// Central application state coordinating all components.
pub struct AppState {
    /// Loaded graph stores, keyed by graph id.
    pub graph_managers: Vec<(String, GraphManager)>,
    /// Transaction coordinators, keyed by graph id, in lockstep with the
    /// stores.
    pub transaction_coordinators: Vec<(String, TransactionCoordinator)>,
    pub graph_registry: GraphRegistry,
    pub active_graph_id: Option<String>,
    pub config: Config,
    /// Resolved data directory.
    pub data_dir: String,
}

impl AppState {
    /// Every loaded store and coordinator is well-formed, keys are
    /// distinct, and stores and coordinators exist in lockstep.
    pub open spec fn wf(&self) -> bool {
        &&& self.graph_registry.wf()
        &&& (forall|i: int|
            0 <= i < self.graph_managers@.len() ==> (#[trigger] self.graph_managers@[i]).1.wf())
        &&& (forall|i: int|
            0 <= i < self.transaction_coordinators@.len() ==> (#[trigger] self.transaction_coordinators@[i]).1.wf())
        &&& (forall|i: int, j: int|
            0 <= i < j < self.graph_managers@.len() ==> (#[trigger] self.graph_managers@[i]).0@
                != (#[trigger] self.graph_managers@[j]).0@)
        &&& (forall|i: int, j: int|
            0 <= i < j < self.transaction_coordinators@.len() ==> (
            #[trigger] self.transaction_coordinators@[i]).0@ != (
            #[trigger] self.transaction_coordinators@[j]).0@)
        &&& (forall|i: int|
            0 <= i < self.graph_managers@.len() ==> keyed_has(
                self.transaction_coordinators@,
                (#[trigger] self.graph_managers@[i]).0@,
            ))
    }

    /// Compose a fresh state around a loaded registry; the active pointer
    /// is taken from the registry.
    pub fn new(config: Config, data_dir: String, graph_registry: GraphRegistry) -> (r: Self)
        requires
            graph_registry.wf(),
        ensures
            r.wf(),
            r.graph_managers@.len() == 0,
            r.transaction_coordinators@.len() == 0,
            r.active_graph_id == graph_registry.active_graph_id,
            r.data_dir == data_dir,
    {
        let active = graph_registry.get_active_graph_id();
        AppState {
            graph_managers: Vec::new(),
            transaction_coordinators: Vec::new(),
            graph_registry,
            active_graph_id: active,
            config,
            data_dir,
        }
    }

    /// Index of the loaded store for a graph id.
    #[verifier::loop_isolation(false)]
    pub fn find_manager(&self, graph_id: &str) -> (r: Option<usize>)
        ensures
            match r {
                Some(i) => i < self.graph_managers@.len() && self.graph_managers@[i as int].0@
                    == graph_id@,
                None => !keyed_has(self.graph_managers@, graph_id@),
            },
    {
        let key = graph_id.to_owned();
        let mut i: usize = 0;
        while i < self.graph_managers.len()
            invariant
                0 <= i <= self.graph_managers@.len(),
                forall|k: int| 0 <= k < i ==> (#[trigger] self.graph_managers@[k]).0@ != key@,
            decreases self.graph_managers@.len() - i,
        {
            if string_eq(&self.graph_managers[i].0, &key) {
                return Some(i);
            }
            i = i + 1;
        }
        None
    }

    /// Index of the coordinator for a graph id.
    #[verifier::loop_isolation(false)]
    pub fn find_coordinator(&self, graph_id: &str) -> (r: Option<usize>)
        ensures
            match r {
                Some(i) => i < self.transaction_coordinators@.len()
                    && self.transaction_coordinators@[i as int].0@ == graph_id@,
                None => !keyed_has(self.transaction_coordinators@, graph_id@),
            },
    {
        let key = graph_id.to_owned();
        let mut i: usize = 0;
        while i < self.transaction_coordinators.len()
            invariant
                0 <= i <= self.transaction_coordinators@.len(),
                forall|k: int|
                    0 <= k < i ==> (#[trigger] self.transaction_coordinators@[k]).0@ != key@,
            decreases self.transaction_coordinators@.len() - i,
        {
            if string_eq(&self.transaction_coordinators[i].0, &key) {
                return Some(i);
            }
            i = i + 1;
        }
        None
    }

    /// Lazily materialize the store and coordinator for a graph: return at
    /// once when loaded, else install the given store (or an empty one) and
    /// open the graph's transaction log. The embedding binary creates the
    /// directories and supplies any snapshot it read from disk.
    pub fn get_or_create_graph_manager(
        &mut self,
        graph_id: &str,
        initial: Option<GraphManager>,
    ) -> (r: Result<(), TransactionLogError>)
        requires
            old(self).wf(),
            initial matches Some(m) ==> m.wf(),
        ensures
            final(self).wf(),
            final(self).graph_registry == old(self).graph_registry,
            final(self).active_graph_id == old(self).active_graph_id,
            r is Ok ==> keyed_has(final(self).graph_managers@, graph_id@) && keyed_has(
                final(self).transaction_coordinators@,
                graph_id@,
            ),
            keyed_has(old(self).graph_managers@, graph_id@) ==> r is Ok && *final(self) == *old(
                self,
            ),
            r is Ok ==> (forall|k: Seq<char>|
                k != graph_id@ ==> keyed_lookup(final(self).graph_managers@, k) == keyed_lookup(
                    old(self).graph_managers@,
                    k,
                ) && keyed_lookup(final(self).transaction_coordinators@, k) == keyed_lookup(
                    old(self).transaction_coordinators@,
                    k,
                )),
            r is Err ==> *final(self) == *old(self),
    {
        if let Some(i) = self.find_manager(graph_id) {
            proof {
                assert(keyed_has(self.graph_managers@, graph_id@));
                assert(keyed_has(self.transaction_coordinators@, graph_id@));
            }
            return Ok(());
        }
        let manager: GraphManager = match initial {
            Some(m) => m,
            None => GraphManager::new_empty(Some(graph_id.to_owned())),
        };
        let mut log_dir = self.data_dir.clone();
        log_dir.append("/graphs/");
        log_dir.append(graph_id);
        log_dir.append("/transaction_log");
        let log = match TransactionLog::new(log_dir.as_str()) {
            Ok(l) => l,
            Err(e) => {
                return Err(e);
            },
        };
        let coordinator = TransactionCoordinator::new(log);
        let ghost managers_pre = self.graph_managers@;
        let ghost coords_pre = self.transaction_coordinators@;
        let had_coordinator = self.find_coordinator(graph_id);
        self.graph_managers.push((graph_id.to_owned(), manager));
        match had_coordinator {
            Some(_) => {},
            None => {
                self.transaction_coordinators.push((graph_id.to_owned(), coordinator));
            },
        }
        proof {
            assert((self.graph_managers@.last()).0@ == graph_id@);
            assert(keyed_has(self.graph_managers@, graph_id@));
            assert forall|i: int| 0 <= i < self.graph_managers@.len() implies keyed_has(
                self.transaction_coordinators@,
                (#[trigger] self.graph_managers@[i]).0@,
            ) by {
                if i < self.graph_managers@.len() - 1 {
                    assert(self.graph_managers@[i] == managers_pre[i]);
                    let w = choose|w: int|
                        0 <= w < coords_pre.len() && (#[trigger] coords_pre[w]).0@
                            == managers_pre[i].0@;
                    assert(self.transaction_coordinators@[w].0@ == managers_pre[i].0@);
                } else {
                    match had_coordinator {
                        Some(c) => {
                            assert(self.transaction_coordinators@[c as int].0@ == graph_id@);
                        },
                        None => {
                            assert((self.transaction_coordinators@.last()).0@ == graph_id@);
                        },
                    }
                }
            }
            assert(keyed_has(self.transaction_coordinators@, graph_id@));
            assert(self.graph_managers@.drop_last() =~= managers_pre);
            match had_coordinator {
                Some(_) => {
                    assert(self.transaction_coordinators@ == coords_pre);
                },
                None => {
                    assert(self.transaction_coordinators@.drop_last() =~= coords_pre);
                },
            }
        }
        Ok(())
    }

    /// The active graph id, if any.
    pub fn get_active_graph_manager(&self) -> (r: Option<String>)
        ensures
            r == self.active_graph_id,
    {
        match &self.active_graph_id {
            Some(a) => Some(a.clone()),
            None => None,
        }
    }

    /// Set the active graph id.
    pub fn set_active_graph(&mut self, graph_id: String)
        ensures
            final(self).active_graph_id == Some(graph_id),
            final(self).graph_managers@ == old(self).graph_managers@,
            final(self).transaction_coordinators@ == old(self).transaction_coordinators@,
            final(self).graph_registry == old(self).graph_registry,
            final(self).wf() == old(self).wf(),
    {
        self.active_graph_id = Some(graph_id);
        proof {
            assert(self.graph_registry == old(self).graph_registry);
            assert(self.graph_managers@ == old(self).graph_managers@);
            assert(self.transaction_coordinators@ == old(self).transaction_coordinators@);
            if old(self).wf() {
                assert(self.wf());
            }
            if self.wf() {
                assert(old(self).wf());
            }
        }
    }

    /// Close every loaded transaction log, flushing it. Part of shutdown;
    /// the embedding binary saves the stores and the registry around it.
    pub fn close_all_logs(&mut self)
        requires
            old(self).wf(),
        ensures
            final(self).wf(),
            final(self).graph_managers@ == old(self).graph_managers@,
            final(self).graph_registry == old(self).graph_registry,
            final(self).active_graph_id == old(self).active_graph_id,
    {
        let mut i: usize = 0;
        while i < self.transaction_coordinators.len()
            invariant
                old(self).wf(),
                0 <= i <= self.transaction_coordinators@.len(),
                self.graph_managers@ == old(self).graph_managers@,
                self.graph_registry == old(self).graph_registry,
                self.active_graph_id == old(self).active_graph_id,
                self.transaction_coordinators@.len() == old(self).transaction_coordinators@.len(),
                forall|k: int|
                    0 <= k < self.transaction_coordinators@.len() ==> (
                    #[trigger] self.transaction_coordinators@[k]).0
                        == old(self).transaction_coordinators@[k].0,
                forall|k: int|
                    0 <= k < self.transaction_coordinators@.len() ==> (
                    #[trigger] self.transaction_coordinators@[k]).1.wf(),
            decreases self.transaction_coordinators@.len() - i,
        {
            let pair = &mut self.transaction_coordinators[i];
            let _ = pair.1.close();
            i = i + 1;
        }
        proof {
            assert forall|i: int| 0 <= i < self.graph_managers@.len() implies keyed_has(
                self.transaction_coordinators@,
                (#[trigger] self.graph_managers@[i]).0@,
            ) by {
                let w = choose|w: int|
                    0 <= w < old(self).transaction_coordinators@.len() && (#[trigger] old(self).transaction_coordinators@[w]).0@ == self.graph_managers@[i].0@;
                assert(self.transaction_coordinators@[w].0 == old(self).transaction_coordinators@[w].0);
            }
            assert forall|a: int, b: int|
                0 <= a < b < self.transaction_coordinators@.len() implies (
            #[trigger] self.transaction_coordinators@[a]).0@ != (
            #[trigger] self.transaction_coordinators@[b]).0@ by {
                assert(self.transaction_coordinators@[a].0 == old(self).transaction_coordinators@[a].0);
                assert(self.transaction_coordinators@[b].0 == old(self).transaction_coordinators@[b].0);
            }
        }
    }
}

} // verus!
