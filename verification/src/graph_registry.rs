//! Graph registry: the authoritative map from graph id to metadata, plus
//! the active-graph pointer. The embedding binary persists it as
//! `graph_registry.json` and performs the directory moves; the registry
//! decides identity, lifecycle and which removals are legal.

use vstd::prelude::*;
use crate::reference_resolver::string_eq;
use crate::utils::{new_uuid, now_millis};

verus! {

/// Graph registry errors.
#[derive(Debug)]
pub enum GraphRegistryError {
    Io(String),
    Json(String),
    ValidationError(String),
}

/// Information about a registered graph.
pub struct GraphInfo {
    /// Stable identifier.
    pub id: String,
    /// Friendly display name.
    pub name: String,
    /// Storage directory, always `{data_dir}/graphs/{id}`.
    pub kg_path: String,
    /// Unix milliseconds.
    pub created: i64,
    pub last_accessed: i64,
    pub description: Option<String>,
}

impl Clone for GraphInfo {
    fn clone(&self) -> (r: Self)
        ensures
            r == *self,
    {
        GraphInfo {
            id: self.id.clone(),
            name: self.name.clone(),
            kg_path: self.kg_path.clone(),
            created: self.created,
            last_accessed: self.last_accessed,
            description: match &self.description {
                Some(s) => Some(s.clone()),
                None => None,
            },
        }
    }
}

/// Whether some registered graph carries this id.
pub open spec fn registry_has(graphs: Seq<GraphInfo>, id: Seq<char>) -> bool {
    exists|i: int| 0 <= i < graphs.len() && (#[trigger] graphs[i]).id@ == id
}

/// Registry of all known graphs and the active pointer.
pub struct GraphRegistry {
    /// The registered graphs, ids distinct.
    pub graphs: Vec<GraphInfo>,
    /// Currently active graph id; unset or a registered id.
    pub active_graph_id: Option<String>,
    /// Base data directory.
    pub data_dir: String,
}

impl GraphRegistry {
    /// Ids are distinct and the active pointer, when set, is registered.
    pub open spec fn wf(&self) -> bool {
        &&& (forall|i: int, j: int|
            0 <= i < j < self.graphs@.len() ==> (#[trigger] self.graphs@[i]).id@ != (
            #[trigger] self.graphs@[j]).id@)
        &&& (self.active_graph_id matches Some(a) ==> registry_has(self.graphs@, a@))
    }

    /// Create a new empty registry.
    pub fn new(data_dir: String) -> (r: Self)
        ensures
            r.wf(),
            r.graphs@.len() == 0,
            r.active_graph_id is None,
            r.data_dir == data_dir,
    {
        GraphRegistry { graphs: Vec::new(), active_graph_id: None, data_dir }
    }

    /// Rebuild a registry from loaded data, repairing what a stale or
    /// damaged file may hold: duplicate ids are dropped (first wins) and an
    /// unregistered active pointer is cleared.
    pub fn from_parts(graphs: Vec<GraphInfo>, active_graph_id: Option<String>, data_dir: String) -> (r: Self)
        ensures
            r.wf(),
            r.data_dir == data_dir,
            forall|i: int|
                0 <= i < r.graphs@.len() ==> registry_has(graphs@, (#[trigger] r.graphs@[i]).id@),
            (forall|a: int, b: int|
                0 <= a < b < graphs@.len() ==> (#[trigger] graphs@[a]).id@ != (
                #[trigger] graphs@[b]).id@) ==> ({
                &&& r.graphs@ == graphs@
                &&& (match active_graph_id {
                    Some(aa) => if registry_has(graphs@, aa@) {
                        r.active_graph_id == active_graph_id
                    } else {
                        r.active_graph_id is None
                    },
                    None => r.active_graph_id is None,
                })
            }),
    {
        let ghost distinct_in = forall|a: int, b: int|
            0 <= a < b < graphs@.len() ==> (#[trigger] graphs@[a]).id@ != (
            #[trigger] graphs@[b]).id@;
        let mut kept: Vec<GraphInfo> = Vec::new();
        let mut i: usize = 0;
        while i < graphs.len()
            invariant
                0 <= i <= graphs@.len(),
                distinct_in == (forall|a: int, b: int|
                    0 <= a < b < graphs@.len() ==> (#[trigger] graphs@[a]).id@ != (
                    #[trigger] graphs@[b]).id@),
                forall|a: int, b: int|
                    0 <= a < b < kept@.len() ==> (#[trigger] kept@[a]).id@ != (
                    #[trigger] kept@[b]).id@,
                forall|a: int|
                    0 <= a < kept@.len() ==> registry_has(graphs@, (#[trigger] kept@[a]).id@),
                distinct_in ==> kept@ == graphs@.take(i as int),
            decreases graphs@.len() - i,
        {
            let g = &graphs[i];
            if !registry_has_exec(&kept, &g.id) {
                kept.push(g.clone());
                proof {
                    assert((kept@.last()).id@ == (graphs@[i as int]).id@);
                    assert(registry_has(graphs@, kept@.last().id@));
                    if distinct_in {
                        assert(kept@.drop_last() == graphs@.take(i as int));
                        assert(kept@ =~= graphs@.take(i as int + 1));
                    }
                }
            } else {
                proof {
                    if distinct_in {
                        let w = choose|w: int|
                            0 <= w < kept@.len() && (#[trigger] kept@[w]).id@ == g.id@;
                        assert(kept@[w] == graphs@.take(i as int)[w]);
                        assert(graphs@[w].id@ == graphs@[i as int].id@);
                        assert(false);
                    }
                }
            }
            i = i + 1;
        }
        proof {
            if distinct_in {
                assert(kept@ == graphs@.take(graphs@.len() as int));
                assert(kept@ =~= graphs@);
            }
        }
        let active: Option<String> = match &active_graph_id {
            Some(a) => {
                if registry_has_exec(&kept, a) {
                    Some(a.clone())
                } else {
                    None
                }
            },
            None => None,
        };
        GraphRegistry { graphs: kept, active_graph_id: active, data_dir }
    }

    /// Get graph info by id.
    pub fn get_graph(&self, id: &str) -> (r: Option<&GraphInfo>)
        ensures
            match r {
                Some(info) => registry_has(self.graphs@, id@) && exists|i: int|
                    0 <= i < self.graphs@.len() && #[trigger] self.graphs@[i] == *info
                        && self.graphs@[i].id@ == id@,
                None => !registry_has(self.graphs@, id@),
            },
    {
        let key = id.to_owned();
        match registry_find(&self.graphs, &key) {
            Some(i) => Some(&self.graphs[i]),
            None => None,
        }
    }

    /// All registered graphs.
    pub fn get_all_graphs(&self) -> (r: Vec<GraphInfo>)
        ensures
            r@ == self.graphs@,
    {
        let mut out: Vec<GraphInfo> = Vec::new();
        let mut i: usize = 0;
        while i < self.graphs.len()
            invariant
                0 <= i <= self.graphs@.len(),
                out@ =~= self.graphs@.take(i as int),
            decreases self.graphs@.len() - i,
        {
            out.push(self.graphs[i].clone());
            proof {
                assert(out@ =~= self.graphs@.take(i as int + 1));
            }
            i = i + 1;
        }
        proof {
            assert(self.graphs@.take(self.graphs@.len() as int) =~= self.graphs@);
        }
        out
    }

    /// The currently active graph id.
    pub fn get_active_graph_id(&self) -> (r: Option<String>)
        ensures
            r == self.active_graph_id,
    {
        match &self.active_graph_id {
            Some(a) => Some(a.clone()),
            None => None,
        }
    }

    /// Register a new knowledge graph, or refresh an existing one: a known
    /// id keeps its handle and storage but takes the given name (or the
    /// default), the given description when present, and a fresh
    /// last-accessed stamp. The first registered graph becomes active.
    pub fn register_graph(
        &mut self,
        id: Option<String>,
        name: Option<String>,
        description: Option<String>,
        data_dir: &str,
    ) -> (r: Result<GraphInfo, GraphRegistryError>)
        requires
            old(self).wf(),
            match id {
                Some(s) => name is None ==> s@.len() >= 8,
                None => true,
            },
        ensures
            final(self).wf(),
            final(self).active_graph_id is Some,
            old(self).active_graph_id is Some ==> final(self).active_graph_id == old(self).active_graph_id,
            r matches Ok(info) ==> ({
                &&& (id matches Some(s) ==> info.id@ == s@)
                &&& (name matches Some(n) ==> info.name == n)
                &&& (name is None ==> info.name@ == "Graph "@ + info.id@.subrange(0, 8))
                &&& registry_has(final(self).graphs@, info.id@)
                &&& (match id {
                    Some(s) => if registry_has(old(self).graphs@, s@) {
                        final(self).graphs@.len() == old(self).graphs@.len()
                    } else {
                        final(self).graphs@.len() == old(self).graphs@.len() + 1
                    },
                    None => old(self).graphs@.len() <= final(self).graphs@.len() <= old(self).graphs@.len() + 1,
                })
                &&& (!registry_has(old(self).graphs@, info.id@) ==> info.kg_path@ == data_dir@
                    + "/graphs/"@ + info.id@)
                &&& (old(self).active_graph_id is None ==> (final(self).active_graph_id matches Some(a) && a@ == info.id@))
                &&& (id is None ==> info.id@.len() == 36)
                &&& (description matches Some(dd) ==> info.description == Some(dd))
                &&& (forall|k: Seq<char>|
                    k != info.id@ ==> registry_has(final(self).graphs@, k) == registry_has(
                        old(self).graphs@,
                        k,
                    ))
                &&& (if registry_has(old(self).graphs@, info.id@) {
                    exists|i: int|
                        0 <= i < old(self).graphs@.len() && (#[trigger] old(self).graphs@[i]).id@
                            == info.id@ && final(self).graphs@ == old(self).graphs@.update(i, info)
                            && info.created == old(self).graphs@[i].created && info.kg_path
                            == old(self).graphs@[i].kg_path && (description is None
                            ==> info.description == old(self).graphs@[i].description)
                } else {
                    final(self).graphs@ == old(self).graphs@.push(info) && info.created
                        == info.last_accessed && (description is None ==> info.description is None)
                })
            }),
            r is Ok,
    {
        proof {
            reveal_strlit("Graph ");
            assert("Graph "@.len() == 6);
        }
        let graph_id: String = match &id {
            Some(s) => s.clone(),
            None => new_uuid(),
        };
        let graph_name: String = match &name {
            Some(n) => n.clone(),
            None => {
                let mut base = "Graph ".to_owned();
                let prefix = prefix8(&graph_id);
                base.append(prefix.as_str());
                base
            },
        };
        let now = now_millis();
        match registry_find(&self.graphs, &graph_id) {
            Some(i) => {
                let ghost pre = self.graphs@;
                let entry = &mut self.graphs[i];
                entry.name = graph_name;
                entry.last_accessed = now;
                match description {
                    Some(d) => {
                        entry.description = Some(d);
                    },
                    None => {},
                }
                let snapshot = self.graphs[i].clone();
                proof {
                    assert(self.graphs@[i as int].id@ == graph_id@);
                    assert(registry_has(self.graphs@, snapshot.id@));
                    assert forall|a: int, b: int|
                        0 <= a < b < self.graphs@.len() implies (#[trigger] self.graphs@[a]).id@
                        != (#[trigger] self.graphs@[b]).id@ by {
                        if a != i as int {
                            assert(self.graphs@[a] == pre[a]);
                        }
                        if b != i as int {
                            assert(self.graphs@[b] == pre[b]);
                        }
                    }
                    match &self.active_graph_id {
                        Some(a) => {
                            let w = choose|w: int|
                                0 <= w < pre.len() && (#[trigger] pre[w]).id@ == a@;
                            assert(self.graphs@[w].id@ == a@);
                        },
                        None => {},
                    }
                }
                proof {
                    assert(self.graphs@ =~= pre.update(i as int, snapshot));
                    assert(snapshot.created == pre[i as int].created);
                    assert(registry_has(pre, snapshot.id@));
                    assert forall|k: Seq<char>| k != snapshot.id@ implies registry_has(
                        self.graphs@,
                        k,
                    ) == registry_has(pre, k) by {
                        if registry_has(pre, k) {
                            let w = choose|w: int|
                                0 <= w < pre.len() && (#[trigger] pre[w]).id@ == k;
                            assert(w != i as int);
                            assert(self.graphs@[w] == pre[w]);
                            assert(registry_has(self.graphs@, k));
                        }
                        if registry_has(self.graphs@, k) {
                            let w = choose|w: int|
                                0 <= w < self.graphs@.len() && (#[trigger] self.graphs@[w]).id@
                                    == k;
                            assert(w != i as int);
                            assert(self.graphs@[w] == pre[w]);
                            assert(registry_has(pre, k));
                        }
                    }
                }
                if self.active_graph_id.is_none() {
                    self.active_graph_id = Some(snapshot.id.clone());
                    proof {
                        assert(registry_has(self.graphs@, snapshot.id@));
                    }
                }
                Ok(snapshot)
            },
            None => {
                let mut kg_path = data_dir.to_owned();
                kg_path.append("/graphs/");
                kg_path.append(graph_id.as_str());
                let info = GraphInfo {
                    id: graph_id,
                    name: graph_name,
                    kg_path,
                    created: now,
                    last_accessed: now,
                    description,
                };
                let snapshot = info.clone();
                let ghost pre = self.graphs@;
                self.graphs.push(info);
                proof {
                    assert((self.graphs@.last()).id@ == snapshot.id@);
                    assert(registry_has(self.graphs@, snapshot.id@));
                    assert forall|a: int, b: int|
                        0 <= a < b < self.graphs@.len() implies (#[trigger] self.graphs@[a]).id@
                        != (#[trigger] self.graphs@[b]).id@ by {
                        if b == self.graphs@.len() - 1 {
                            assert(self.graphs@[a] == pre[a]);
                            assert(!registry_has(pre, self.graphs@[b].id@));
                        }
                    }
                    match &self.active_graph_id {
                        Some(a) => {
                            let w = choose|w: int|
                                0 <= w < pre.len() && (#[trigger] pre[w]).id@ == a@;
                            assert(self.graphs@[w].id@ == a@);
                        },
                        None => {},
                    }
                }
                proof {
                    assert(self.graphs@ =~= pre.push(snapshot));
                    assert forall|k: Seq<char>| k != snapshot.id@ implies registry_has(
                        self.graphs@,
                        k,
                    ) == registry_has(pre, k) by {
                        if registry_has(pre, k) {
                            let w = choose|w: int|
                                0 <= w < pre.len() && (#[trigger] pre[w]).id@ == k;
                            assert(self.graphs@[w] == pre[w]);
                            assert(registry_has(self.graphs@, k));
                        }
                        if registry_has(self.graphs@, k) {
                            let w = choose|w: int|
                                0 <= w < self.graphs@.len() && (#[trigger] self.graphs@[w]).id@
                                    == k;
                            assert(w < pre.len());
                            assert(self.graphs@[w] == pre[w]);
                            assert(registry_has(pre, k));
                        }
                    }
                }
                if self.active_graph_id.is_none() {
                    self.active_graph_id = Some(snapshot.id.clone());
                }
                Ok(snapshot)
            },
        }
    }

    /// Switch the active graph; fails with a validation error exactly when
    /// the id is unknown.
    pub fn switch_graph(&mut self, graph_id: &str) -> (r: Result<GraphInfo, GraphRegistryError>)
        requires
            old(self).wf(),
        ensures
            final(self).wf(),
            r is Ok <==> registry_has(old(self).graphs@, graph_id@),
            r matches Ok(info) ==> ({
                &&& info.id@ == graph_id@
                &&& (final(self).active_graph_id matches Some(a) && a@ == graph_id@)
                &&& (exists|i: int|
                    0 <= i < old(self).graphs@.len() && (#[trigger] old(self).graphs@[i]).id@
                        == graph_id@ && ({
                        &&& final(self).graphs@ == old(self).graphs@.update(i, info)
                        &&& info.name == old(self).graphs@[i].name
                        &&& info.kg_path == old(self).graphs@[i].kg_path
                        &&& info.created == old(self).graphs@[i].created
                        &&& info.description == old(self).graphs@[i].description
                    }))
                &&& (forall|k: Seq<char>|
                    registry_has(final(self).graphs@, k) == registry_has(old(self).graphs@, k))
            }),
            r is Err ==> final(self).graphs@ == old(self).graphs@ && final(self).active_graph_id
                == old(self).active_graph_id && (r matches Err(e) && e is ValidationError),
    {
        let key = graph_id.to_owned();
        match registry_find(&self.graphs, &key) {
            Some(i) => {
                let ghost pre = self.graphs@;
                let now = now_millis();
                let entry = &mut self.graphs[i];
                entry.last_accessed = now;
                let info = self.graphs[i].clone();
                self.active_graph_id = Some(info.id.clone());
                proof {
                    assert(self.graphs@ =~= pre.update(i as int, info));
                    assert(self.graphs@[i as int].id@ == graph_id@);
                    assert forall|a: int, b: int|
                        0 <= a < b < self.graphs@.len() implies (#[trigger] self.graphs@[a]).id@
                        != (#[trigger] self.graphs@[b]).id@ by {
                        if a != i as int {
                            assert(self.graphs@[a] == pre[a]);
                        }
                        if b != i as int {
                            assert(self.graphs@[b] == pre[b]);
                        }
                    }
                    assert(registry_has(self.graphs@, info.id@));
                    assert forall|k: Seq<char>| registry_has(self.graphs@, k) == registry_has(
                        pre,
                        k,
                    ) by {
                        if registry_has(pre, k) {
                            let w = choose|w: int|
                                0 <= w < pre.len() && (#[trigger] pre[w]).id@ == k;
                            if w == i as int {
                                assert(self.graphs@[w].id@ == k);
                            } else {
                                assert(self.graphs@[w] == pre[w]);
                            }
                            assert(registry_has(self.graphs@, k));
                        }
                        if registry_has(self.graphs@, k) {
                            let w = choose|w: int|
                                0 <= w < self.graphs@.len() && (#[trigger] self.graphs@[w]).id@
                                    == k;
                            if w == i as int {
                                assert(pre[w].id@ == k);
                            } else {
                                assert(self.graphs@[w] == pre[w]);
                            }
                            assert(registry_has(pre, k));
                        }
                    }
                }
                Ok(info)
            },
            None => {
                let mut m = "Graph '".to_owned();
                m.append(graph_id);
                m.append("' not found in registry");
                Err(GraphRegistryError::ValidationError(m))
            },
        }
    }

    /// Remove a graph: rejected when the id is unknown or is the active
    /// graph. On success the entry is gone and the storage directory to be
    /// archived is returned for the embedding binary to move.
    pub fn remove_graph(&mut self, graph_id: &str) -> (r: Result<String, GraphRegistryError>)
        requires
            old(self).wf(),
        ensures
            final(self).wf(),
            final(self).active_graph_id == old(self).active_graph_id,
            r is Ok <==> (registry_has(old(self).graphs@, graph_id@) && !(old(self).active_graph_id matches Some(a) && a@ == graph_id@)),
            r matches Ok(dir) ==> ({
                &&& !registry_has(final(self).graphs@, graph_id@)
                &&& (forall|k: Seq<char>|
                    k != graph_id@ ==> registry_has(final(self).graphs@, k) == registry_has(
                        old(self).graphs@,
                        k,
                    ))
                &&& (exists|i: int|
                    0 <= i < old(self).graphs@.len() && (#[trigger] old(self).graphs@[i]).id@
                        == graph_id@ && dir@ == old(self).graphs@[i].kg_path@)
            }),
            r is Err ==> final(self).graphs@ == old(self).graphs@ && (r matches Err(e)
                && e is ValidationError),
    {
        let key = graph_id.to_owned();
        let is_active = match &self.active_graph_id {
            Some(a) => string_eq(a, &key),
            None => false,
        };
        if is_active {
            let mut m = "Cannot remove the active graph '".to_owned();
            m.append(graph_id);
            m.append("'");
            return Err(GraphRegistryError::ValidationError(m));
        }
        match registry_find(&self.graphs, &key) {
            Some(i) => {
                let archived_dir = self.graphs[i].kg_path.clone();
                let ghost pre = self.graphs@;
                self.graphs.remove(i);
                proof {
                    assert forall|a: int, b: int|
                        0 <= a < b < self.graphs@.len() implies (#[trigger] self.graphs@[a]).id@
                        != (#[trigger] self.graphs@[b]).id@ by {
                        let ja = if a < i as int {
                            a
                        } else {
                            a + 1
                        };
                        let jb = if b < i as int {
                            b
                        } else {
                            b + 1
                        };
                        assert(self.graphs@[a] == pre[ja]);
                        assert(self.graphs@[b] == pre[jb]);
                    }
                    assert forall|k: Seq<char>| k != graph_id@ implies registry_has(
                        self.graphs@,
                        k,
                    ) == registry_has(pre, k) by {
                        if registry_has(pre, k) {
                            let w = choose|w: int|
                                0 <= w < pre.len() && (#[trigger] pre[w]).id@ == k;
                            if w < i as int {
                                assert(self.graphs@[w] == pre[w]);
                            } else {
                                assert(w > i);
                                assert(self.graphs@[w - 1] == pre[w]);
                            }
                        }
                        if registry_has(self.graphs@, k) {
                            let w = choose|w: int|
                                0 <= w < self.graphs@.len() && (#[trigger] self.graphs@[w]).id@
                                    == k;
                            let jw = if w < i as int {
                                w
                            } else {
                                w + 1
                            };
                            assert(pre[jw] == self.graphs@[w]);
                        }
                    }
                    if registry_has(self.graphs@, graph_id@) {
                        let w = choose|w: int|
                            0 <= w < self.graphs@.len() && (#[trigger] self.graphs@[w]).id@
                                == graph_id@;
                        let jw = if w < i as int {
                            w
                        } else {
                            w + 1
                        };
                        assert(pre[jw] == self.graphs@[w]);
                        assert(pre[jw].id@ == pre[i as int].id@);
                        assert(false);
                    }
                    match &self.active_graph_id {
                        Some(a) => {
                            assert(a@ != graph_id@);
                            assert(registry_has(pre, a@));
                            assert(registry_has(self.graphs@, a@));
                        },
                        None => {},
                    }
                }
                Ok(archived_dir)
            },
            None => {
                let mut m = "Graph '".to_owned();
                m.append(graph_id);
                m.append("' not found");
                Err(GraphRegistryError::ValidationError(m))
            },
        }
    }
}

/// Index of the entry carrying this id, if any.
fn registry_find(graphs: &Vec<GraphInfo>, id: &String) -> (r: Option<usize>)
    ensures
        match r {
            Some(i) => i < graphs@.len() && graphs@[i as int].id@ == id@,
            None => !registry_has(graphs@, id@),
        },
{
    let mut i: usize = 0;
    while i < graphs.len()
        invariant
            0 <= i <= graphs@.len(),
            forall|k: int| 0 <= k < i ==> (#[trigger] graphs@[k]).id@ != id@,
        decreases graphs@.len() - i,
    {
        if string_eq(&graphs[i].id, id) {
            return Some(i);
        }
        i = i + 1;
    }
    None
}

/// Whether the list holds an entry with this id.
fn registry_has_exec(graphs: &Vec<GraphInfo>, id: &String) -> (r: bool)
    ensures
        r == registry_has(graphs@, id@),
{
    let mut i: usize = 0;
    while i < graphs.len()
        invariant
            0 <= i <= graphs@.len(),
            forall|k: int| 0 <= k < i ==> (#[trigger] graphs@[k]).id@ != id@,
        decreases graphs@.len() - i,
    {
        if string_eq(&graphs[i].id, id) {
            proof {
                assert((graphs@[i as int]).id@ == id@);
            }
            return true;
        }
        i = i + 1;
    }
    false
}

/// The first eight characters of an identifier.
fn prefix8(s: &String) -> (r: String)
    requires
        s@.len() >= 8,
    ensures
        r@ == s@.subrange(0, 8),
{
    let chars = crate::text::string_to_chars(s.as_str());
    let mut out: Vec<char> = Vec::new();
    let mut i: usize = 0;
    while i < 8
        invariant
            0 <= i <= 8,
            chars@ == s@,
            chars@.len() >= 8,
            out@ =~= s@.subrange(0, i as int),
        decreases 8 - i,
    {
        out.push(chars[i]);
        proof {
            assert(out@ =~= s@.subrange(0, i as int + 1));
        }
        i = i + 1;
    }
    crate::text::chars_to_string(&out)
}

} // verus!
