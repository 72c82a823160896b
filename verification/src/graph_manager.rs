//! The in-memory typed multigraph for one knowledge graph: nodes live in an
//! arena whose indices are stable handles (removal never moves other
//! nodes), a dual index maps external identifiers to handles (page names
//! under their lower-cased form), and duplicate `(source, target, type)`
//! edges are suppressed. Persistence is by snapshot: the embedding binary
//! writes and reads the serialized form; autosave bookkeeping lives here.

use vstd::prelude::*;
use crate::pkm_data::{PKMBlockData, PKMPageData, PKMReference};
use crate::reference_resolver::{resolve_spec, string_eq};
use crate::text::{lower_of, string_to_chars, to_lowercase};
use crate::utils::{new_uuid, now_millis, parse_datetime};

verus! {

/// Type of node in the knowledge graph.
#[derive(Clone, Copy, PartialEq, Eq, Structural, Debug)]
pub enum NodeType {
    Page,
    Block,
}

/// Type of edge between nodes. Edges carry no weight here: the ranking
/// weight is a floating-point constant and stays outside the verified
/// store.
#[derive(Clone, Copy, PartialEq, Eq, Structural, Debug)]
pub enum EdgeType {
    PageRef,
    BlockRef,
    Tag,
    Property,
    ParentChild,
    PageToBlock,
}

/// Data stored in each graph node.
pub struct NodeData {
    /// Internal unique identifier, minted at creation and stable under
    /// updates.
    pub id: String,
    /// External identifier: block UUID for blocks, page name for pages.
    pub pkm_id: String,
    pub node_type: NodeType,
    pub content: String,
    /// Expanded content with block references resolved.
    pub reference_content: Option<String>,
    pub properties: Vec<(String, String)>,
    /// Unix milliseconds.
    pub created_at: i64,
    pub updated_at: i64,
}

/// Data stored in each graph edge.
pub struct EdgeData {
    pub edge_type: EdgeType,
}

impl Default for EdgeData {
    fn default() -> (r: Self)
        ensures
            r.edge_type == EdgeType::ParentChild,
    {
        EdgeData { edge_type: EdgeType::ParentChild }
    }
}

/// A directed typed edge between two handles.
pub struct Edge {
    pub source: usize,
    pub target: usize,
    pub data: EdgeData,
}

/// Errors of the graph store.
#[derive(Debug)]
pub enum GraphError {
    Io(String),
    Serialization(String),
    ReferenceResolution(String),
    DateTimeParseError(String),
}

pub type GraphResult<T> = Result<T, GraphError>;

/// The index key a node is filed under: pages under their lower-cased
/// name, blocks under their identifier as is.
pub open spec fn node_key(n: NodeData) -> Seq<char> {
    match n.node_type {
        NodeType::Page => lower_of(n.pkm_id@),
        NodeType::Block => n.pkm_id@,
    }
}

/// Handle under a key; the latest entry wins.
pub open spec fn spec_index_lookup(m: Seq<(String, usize)>, k: Seq<char>) -> Option<usize>
    decreases m.len(),
{
    if m.len() == 0 {
        None
    } else if m.last().0@ == k {
        Some(m.last().1)
    } else {
        spec_index_lookup(m.drop_last(), k)
    }
}

/// Where a page reference lands: the raw name when some node is filed
/// under it, else the lower-cased name.
pub open spec fn page_target(m: Seq<(String, usize)>, name: Seq<char>) -> Option<usize> {
    if spec_index_lookup(m, name) is Some {
        spec_index_lookup(m, name)
    } else {
        spec_index_lookup(m, lower_of(name))
    }
}

/// The handle a page upsert of this name lands on: the node filed under
/// the lower-cased name, else under the raw name, else the next fresh one.
pub open spec fn page_upsert_handle(g: &GraphManager, name: Seq<char>) -> usize {
    match spec_index_lookup(g.pkm_to_node@, lower_of(name)) {
        Some(h) => h,
        None => match spec_index_lookup(g.pkm_to_node@, name) {
            Some(h) => h,
            None => g.nodes@.len() as usize,
        },
    }
}

/// No two entries of the index carry the same key.
pub open spec fn distinct_keys(m: Seq<(String, usize)>) -> bool {
    forall|i: int, j: int|
        0 <= i < j < m.len() ==> (#[trigger] m[i]).0@ != (#[trigger] m[j]).0@
}

/// An edge reduced to its identifying triple.
pub open spec fn edge_triple(e: Edge) -> (usize, usize, EdgeType) {
    (e.source, e.target, e.data.edge_type)
}

/// Whether an edge with this triple exists.
pub open spec fn has_triple(es: Seq<Edge>, t: (usize, usize, EdgeType)) -> bool {
    exists|i: int| 0 <= i < es.len() && edge_triple(#[trigger] es[i]) == t
}

/// Live nodes in the arena.
pub open spec fn count_live(nodes: Seq<Option<NodeData>>) -> nat
    decreases nodes.len(),
{
    if nodes.len() == 0 {
        0
    } else {
        count_live(nodes.drop_last()) + if nodes.last() is Some {
            1nat
        } else {
            0nat
        }
    }
}

/// Manages the knowledge graph of one registered graph.
pub struct GraphManager {
    /// Graph ID for multi-graph support.
    pub graph_id: Option<String>,
    /// Node arena; a slot keeps its position after removal, so indices are
    /// stable handles.
    pub nodes: Vec<Option<NodeData>>,
    /// The edge list.
    pub edges: Vec<Edge>,
    /// Mapping from external identifiers to handles.
    pub pkm_to_node: Vec<(String, usize)>,
    /// Unix-millisecond stamps kept for schema compatibility.
    pub last_incremental_sync: Option<i64>,
    pub last_full_sync: Option<i64>,
    /// When the graph was last saved (for time-based saves).
    pub last_save_time: i64,
    /// Mutations since the last save (for operation-based saves).
    pub operations_since_save: usize,
    /// Whether autosave triggers fire (disabled during bulk imports).
    pub auto_save_enabled: bool,
    /// Raised when an autosave trigger fired; the embedding binary writes
    /// the snapshot and lowers it.
    pub save_requested: bool,
}

impl GraphManager {
    /// The dual-index invariant: keys are distinct, every entry points to a
    /// live node filed under exactly that key, and every live node can be
    /// found under its key.
    pub open spec fn inv_index(&self) -> bool {
        &&& forall|i: int, j: int|
            0 <= i < j < self.pkm_to_node@.len() ==> (#[trigger] self.pkm_to_node@[i]).0@ != (
            #[trigger] self.pkm_to_node@[j]).0@
        &&& forall|i: int|
            0 <= i < self.pkm_to_node@.len() ==> {
                let e = #[trigger] self.pkm_to_node@[i];
                &&& (e.1 as int) < self.nodes@.len()
                &&& self.nodes@[e.1 as int] is Some
                &&& node_key(self.nodes@[e.1 as int]->0) == e.0@
            }
    }

    /// Every live node is indexed under its key, at its own handle.
    pub open spec fn inv_nodes_indexed(&self) -> bool {
        forall|h: int|
            0 <= h < self.nodes@.len() && (#[trigger] self.nodes@[h]) is Some
                ==> spec_index_lookup(self.pkm_to_node@, node_key(self.nodes@[h]->0)) == Some(
                h as usize,
            )
    }

    /// Edges connect live nodes and no `(source, target, type)` triple
    /// repeats.
    pub open spec fn inv_edges(&self) -> bool {
        &&& forall|i: int|
            0 <= i < self.edges@.len() ==> {
                let e = #[trigger] self.edges@[i];
                &&& (e.source as int) < self.nodes@.len()
                &&& (e.target as int) < self.nodes@.len()
                &&& self.nodes@[e.source as int] is Some
                &&& self.nodes@[e.target as int] is Some
            }
        &&& forall|i: int, j: int|
            0 <= i < j < self.edges@.len() ==> edge_triple(#[trigger] self.edges@[i]) != edge_triple(
                #[trigger] self.edges@[j],
            )
    }

    /// The store's whole well-formedness: the dual-index and edge
    /// invariants together.
    pub open spec fn wf(&self) -> bool {
        self.inv_index() && self.inv_nodes_indexed() && self.inv_edges()
    }

    /// Handle filed under a key, if any.
    pub open spec fn spec_lookup(&self, k: Seq<char>) -> Option<usize> {
        spec_index_lookup(self.pkm_to_node@, k)
    }

    /// Create an empty store. The embedding binary loads any existing
    /// snapshot through `restore`.
    pub fn new_empty(graph_id: Option<String>) -> (r: Self)
        ensures
            r.wf(),
            r.nodes@.len() == 0,
            r.edges@.len() == 0,
            r.pkm_to_node@.len() == 0,
            r.operations_since_save == 0,
            r.auto_save_enabled,
            !r.save_requested,
            r.graph_id == graph_id,
    {
        GraphManager {
            graph_id,
            nodes: Vec::new(),
            edges: Vec::new(),
            pkm_to_node: Vec::new(),
            last_incremental_sync: None,
            last_full_sync: None,
            last_save_time: now_millis(),
            operations_since_save: 0,
            auto_save_enabled: true,
            save_requested: false,
        }
    }

    /// Look an external identifier up in the index.
    #[verifier::loop_isolation(false)]
    pub fn get_node_index(&self, pkm_id: &str) -> (r: Option<usize>)
        ensures
            r == self.spec_lookup(pkm_id@),
    {
        let key = pkm_id.to_owned();
        let m = &self.pkm_to_node;
        let mut i: usize = m.len();
        while i > 0
            invariant
                i <= m@.len(),
                forall|j: int| i <= j < m@.len() ==> (#[trigger] m@[j]).0@ != key@,
            decreases i,
        {
            let p = &m[i - 1];
            if string_eq(&p.0, &key) {
                proof {
                    lemma_index_skip_tail(m@, key@, i as int);
                    assert(m@.take(i as int).last() == m@[i - 1]);
                }
                return Some(p.1);
            }
            i = i - 1;
        }
        proof {
            lemma_index_skip_tail(m@, key@, 0);
            assert(m@.take(0) =~= Seq::<(String, usize)>::empty());
        }
        None
    }

    /// Get a node by its PKM ID.
    pub fn get_node_by_pkm_id(&self, pkm_id: &str) -> (r: Option<&NodeData>)
        requires
            self.wf(),
        ensures
            match r {
                Some(n) => self.spec_lookup(pkm_id@) matches Some(h) && self.nodes@[h as int]
                    == Some(*n),
                None => self.spec_lookup(pkm_id@) is None,
            },
    {
        match self.get_node_index(pkm_id) {
            Some(h) => {
                proof {
                    lemma_index_lookup_valid(self.pkm_to_node@, pkm_id@);
                }
                match &self.nodes[h] {
                    Some(n) => Some(n),
                    None => {
                        proof {
                            assert(false);
                        }
                        None
                    },
                }
            },
            None => None,
        }
    }

    /// Get a node by its handle.
    pub fn get_node(&self, idx: usize) -> (r: Option<&NodeData>)
        ensures
            match r {
                Some(n) => idx < self.nodes@.len() && self.nodes@[idx as int] == Some(*n),
                None => idx >= self.nodes@.len() || self.nodes@[idx as int] is None,
            },
    {
        if idx < self.nodes.len() {
            match &self.nodes[idx] {
                Some(n) => Some(n),
                None => None,
            }
        } else {
            None
        }
    }

    /// Live nodes in the store.
    #[verifier::loop_isolation(false)]
    pub fn node_count(&self) -> (r: usize)
        ensures
            r == count_live(self.nodes@),
    {
        let mut count: usize = 0;
        let mut i: usize = 0;
        while i < self.nodes.len()
            invariant
                0 <= i <= self.nodes@.len(),
                count == count_live(self.nodes@.take(i as int)),
                count <= i,
            decreases self.nodes@.len() - i,
        {
            proof {
                assert(self.nodes@.take(i as int + 1).drop_last() =~= self.nodes@.take(i as int));
            }
            if self.nodes[i].is_some() {
                count = count + 1;
            }
            i = i + 1;
        }
        proof {
            assert(self.nodes@.take(self.nodes@.len() as int) =~= self.nodes@);
        }
        count
    }

    /// Edges in the store.
    pub fn edge_count(&self) -> (r: usize)
        ensures
            r == self.edges@.len(),
    {
        self.edges.len()
    }

    /// Whether an edge of this type connects the two handles.
    #[verifier::loop_isolation(false)]
    pub fn has_edge(&self, source: usize, target: usize, edge_type: &EdgeType) -> (r: bool)
        ensures
            r == has_triple(self.edges@, (source, target, *edge_type)),
    {
        let mut i: usize = 0;
        while i < self.edges.len()
            invariant
                0 <= i <= self.edges@.len(),
                forall|j: int|
                    0 <= j < i ==> edge_triple(#[trigger] self.edges@[j]) != (
                    source,
                    target,
                    *edge_type,
                ),
            decreases self.edges@.len() - i,
        {
            let e = &self.edges[i];
            if e.source == source && e.target == target && e.data.edge_type == *edge_type {
                return true;
            }
            i = i + 1;
        }
        false
    }

    /// Add an edge unless the same triple is already present.
    fn add_edge_if_absent(&mut self, source: usize, target: usize, edge_type: EdgeType)
        requires
            old(self).wf(),
            source < old(self).nodes@.len(),
            target < old(self).nodes@.len(),
            old(self).nodes@[source as int] is Some,
            old(self).nodes@[target as int] is Some,
        ensures
            final(self).wf(),
            final(self).nodes@ == old(self).nodes@,
            final(self).pkm_to_node@ == old(self).pkm_to_node@,
            final(self).edges@ == if has_triple(old(self).edges@, (source, target, edge_type)) {
                old(self).edges@
            } else {
                old(self).edges@.push(
                    Edge { source, target, data: EdgeData { edge_type } },
                )
            },
            has_triple(final(self).edges@, (source, target, edge_type)),
            unchanged_bookkeeping(old(self), final(self)),
            final(self).operations_since_save == old(self).operations_since_save,
            final(self).save_requested == old(self).save_requested,
    {
        if !self.has_edge(source, target, &edge_type) {
            let e = Edge { source, target, data: EdgeData { edge_type } };
            proof {
                assert(edge_triple(e) == (source, target, edge_type));
            }
            self.edges.push(e);
            proof {
                assert(edge_triple(self.edges@.last()) == (source, target, edge_type));
                assert(has_triple(self.edges@, (source, target, edge_type)));
            }
        }
    }

    /// Ensure a page exists in the graph, creating a placeholder if
    /// necessary; returns its handle. A found page leaves the store
    /// untouched; a created one is a fresh node filed under the
    /// lower-cased name, with the raw name as its content.
    pub fn ensure_page_exists(&mut self, page_name: &str) -> (h: usize)
        requires
            old(self).wf(),
        ensures
            final(self).wf(),
            final(self).edges@ == old(self).edges@,
            unchanged_bookkeeping(old(self), final(self)),
            final(self).operations_since_save == old(self).operations_since_save,
            final(self).save_requested == old(self).save_requested,
            page_target(final(self).pkm_to_node@, page_name@) == Some(h),
            final(self).nodes@.take(old(self).nodes@.len() as int) == old(self).nodes@,
            match page_target(old(self).pkm_to_node@, page_name@) {
                Some(t) => h == t && final(self).nodes@ == old(self).nodes@ && final(self).pkm_to_node@ == old(self).pkm_to_node@,
                None => {
                    &&& h == old(self).nodes@.len()
                    &&& final(self).nodes@.len() == old(self).nodes@.len() + 1
                    &&& final(self).nodes@.take(old(self).nodes@.len() as int) == old(self).nodes@
                    &&& (final(self).nodes@[h as int] matches Some(n) && n.pkm_id@ == page_name@
                        && n.node_type == NodeType::Page && n.content@ == page_name@
                        && n.reference_content is None && n.properties@.len() == 0)
                    &&& final(self).pkm_to_node@.len() == old(self).pkm_to_node@.len() + 1
                    &&& final(self).pkm_to_node@.take(old(self).pkm_to_node@.len() as int) == old(self).pkm_to_node@
                    &&& final(self).pkm_to_node@.last().0@ == lower_of(page_name@) && final(self).pkm_to_node@.last().1 == h
                    &&& (forall|k: Seq<char>|
                        k != lower_of(page_name@) ==> #[trigger] spec_index_lookup(
                            final(self).pkm_to_node@,
                            k,
                        ) == spec_index_lookup(old(self).pkm_to_node@, k))
                    &&& spec_index_lookup(final(self).pkm_to_node@, lower_of(page_name@)) == Some(h)
                },
            },
    {
        if let Some(idx) = self.get_node_index(page_name) {
            return idx;
        }
        let normalized = to_lowercase(page_name);
        let normalized_copy = normalized.clone();
        if let Some(idx) = self.get_node_index(normalized.as_str()) {
            return idx;
        }
        let now = now_millis();
        let node = NodeData {
            id: new_uuid(),
            pkm_id: page_name.to_owned(),
            node_type: NodeType::Page,
            content: page_name.to_owned(),
            reference_content: None,
            properties: Vec::new(),
            created_at: now,
            updated_at: now,
        };
        let h = self.nodes.len();
        let ghost pre = *self;
        self.nodes.push(Some(node));
        self.pkm_to_node.push((normalized_copy, h));
        proof {
            assert(self.nodes@ =~= pre.nodes@.push(Some(self.nodes@.last()->0)));
            assert(self.pkm_to_node@ =~= pre.pkm_to_node@.push((self.pkm_to_node@.last().0, h)));
            assert(node_key(self.nodes@.last()->0) == lower_of(page_name@));
            lemma_store_extend(pre, *self, h);
            assert(self.nodes@.take(pre.nodes@.len() as int) =~= pre.nodes@);
            assert(self.pkm_to_node@.take(pre.pkm_to_node@.len() as int) =~= pre.pkm_to_node@);
            assert(page_target(self.pkm_to_node@, page_name@) == Some(h));
        }
        h
    }

    /// Resolve a PKM reference and add the corresponding edge. `page` and
    /// `tag` references ensure the target page exists; `block` references
    /// mint an empty placeholder block when the target is unknown;
    /// `property` references carry no edge; any other kind is rejected and
    /// leaves the store untouched.
    pub fn resolve_and_add_reference(&mut self, source_idx: usize, reference: &PKMReference) -> (r:
        GraphResult<()>)
        requires
            old(self).wf(),
            source_idx < old(self).nodes@.len(),
            old(self).nodes@[source_idx as int] is Some,
        ensures
            final(self).wf(),
            unchanged_bookkeeping(old(self), final(self)),
            final(self).operations_since_save == old(self).operations_since_save,
            final(self).save_requested == old(self).save_requested,
            r is Ok <==> valid_ref_kind(reference),
            store_extends(old(self), final(self)),
            final(self).nodes@.take(old(self).nodes@.len() as int) == old(self).nodes@,
            r is Err ==> final(self).nodes@ == old(self).nodes@ && final(self).pkm_to_node@ == old(self).pkm_to_node@ && final(self).edges@ == old(self).edges@,
            reference.ref_type@ == "property"@ ==> final(self).nodes@ == old(self).nodes@ && final(self).pkm_to_node@ == old(self).pkm_to_node@ && final(self).edges@ == old(self).edges@,
            (reference.ref_type@ == "page"@ || reference.ref_type@ == "tag"@) ==> ({
                let t = ref_page_handle(old(self), reference.name@);
                let ty = if reference.ref_type@ == "page"@ {
                    EdgeType::PageRef
                } else {
                    EdgeType::Tag
                };
                &&& has_triple(final(self).edges@, (source_idx, t, ty))
                &&& (forall|i: int|
                    old(self).edges@.len() <= i < final(self).edges@.len() ==> edge_triple(
                        #[trigger] final(self).edges@[i],
                    ) == (source_idx, t, ty) && !has_triple(old(self).edges@, (source_idx, t, ty)))
                &&& (page_target(old(self).pkm_to_node@, reference.name@) is Some ==> final(self).nodes@ == old(self).nodes@ && final(self).pkm_to_node@ == old(self).pkm_to_node@)
                &&& (page_target(old(self).pkm_to_node@, reference.name@) is None ==> final(self).nodes@.len() == old(self).nodes@.len() + 1 && (forall|k: Seq<char>|
                    k != lower_of(reference.name@) ==> #[trigger] spec_index_lookup(
                        final(self).pkm_to_node@,
                        k,
                    ) == spec_index_lookup(old(self).pkm_to_node@, k)))
                &&& page_target(final(self).pkm_to_node@, reference.name@) == Some(t)
            }),
            reference.ref_type@ == "block"@ ==> ({
                let t = ref_block_handle(old(self), reference.id@);
                &&& has_triple(final(self).edges@, (source_idx, t, EdgeType::BlockRef))
                &&& (forall|i: int|
                    old(self).edges@.len() <= i < final(self).edges@.len() ==> edge_triple(
                        #[trigger] final(self).edges@[i],
                    ) == (source_idx, t, EdgeType::BlockRef) && !has_triple(
                        old(self).edges@,
                        (source_idx, t, EdgeType::BlockRef),
                    ))
                &&& (old(self).spec_lookup(reference.id@) is Some ==> final(self).nodes@ == old(self).nodes@ && final(self).pkm_to_node@ == old(self).pkm_to_node@)
                &&& (old(self).spec_lookup(reference.id@) is None ==> ({
                    &&& final(self).nodes@.len() == old(self).nodes@.len() + 1
                    &&& (final(self).nodes@[t as int] matches Some(n) && n.pkm_id@
                        == reference.id@ && n.node_type == NodeType::Block && n.content@.len() == 0
                        && n.reference_content is None && n.properties@.len() == 0)
                    &&& (forall|k: Seq<char>|
                        k != reference.id@ ==> #[trigger] spec_index_lookup(
                            final(self).pkm_to_node@,
                            k,
                        ) == spec_index_lookup(old(self).pkm_to_node@, k))
                }))
                &&& final(self).spec_lookup(reference.id@) == Some(t)
            }),
    {
        proof {
            reveal_strlit("page");
            reveal_strlit("block");
            reveal_strlit("tag");
            reveal_strlit("property");
            assert("page"@.len() == 4);
            assert("block"@.len() == 5);
            assert("tag"@.len() == 3);
            assert("property"@.len() == 8);
        }
        let ghost g0 = *self;
        let page_kind = "page".to_owned();
        let block_kind = "block".to_owned();
        let tag_kind = "tag".to_owned();
        let property_kind = "property".to_owned();
        if string_eq(&reference.ref_type, &page_kind) || string_eq(&reference.ref_type, &tag_kind) {
            let ty = if string_eq(&reference.ref_type, &page_kind) {
                EdgeType::PageRef
            } else {
                EdgeType::Tag
            };
            let target_idx = self.ensure_page_exists(reference.name.as_str());
            proof {
                lemma_index_lookup_valid(self.pkm_to_node@, reference.name@);
                lemma_index_lookup_valid(self.pkm_to_node@, lower_of(reference.name@));
                assert(target_idx < self.nodes@.len() && self.nodes@[target_idx as int] is Some);
                assert(self.nodes@[source_idx as int] == g0.nodes@[source_idx as int]);
            }
            self.add_edge_if_absent(source_idx, target_idx, ty);
            proof {
                assert(self.edges@.take(g0.edges@.len() as int) =~= g0.edges@);
            }
            Ok(())
        } else if string_eq(&reference.ref_type, &block_kind) {
            let target_idx = match self.get_node_index(reference.id.as_str()) {
                Some(idx) => {
                    proof {
                        lemma_index_lookup_valid(self.pkm_to_node@, reference.id@);
                    }
                    idx
                },
                None => {
                    let now = now_millis();
                    let node = NodeData {
                        id: new_uuid(),
                        pkm_id: reference.id.clone(),
                        node_type: NodeType::Block,
                        content: String::new(),
                        reference_content: None,
                        properties: Vec::new(),
                        created_at: now,
                        updated_at: now,
                    };
                    let h = self.nodes.len();
                    let ghost pre = *self;
                    self.nodes.push(Some(node));
                    self.pkm_to_node.push((reference.id.clone(), h));
                    proof {
                        assert(self.nodes@ =~= pre.nodes@.push(Some(self.nodes@.last()->0)));
                        assert(self.pkm_to_node@ =~= pre.pkm_to_node@.push(
                            (self.pkm_to_node@.last().0, h),
                        ));
                        assert(node_key(self.nodes@.last()->0) == reference.id@);
                        lemma_store_extend(pre, *self, h);
                        assert(self.nodes@[h as int] is Some);
                    }
                    h
                },
            };
            proof {
                assert(target_idx < self.nodes@.len() && self.nodes@[target_idx as int] is Some);
                assert(self.nodes@[source_idx as int] == g0.nodes@[source_idx as int]);
            }
            self.add_edge_if_absent(source_idx, target_idx, EdgeType::BlockRef);
            proof {
                assert(self.edges@.take(g0.edges@.len() as int) =~= g0.edges@);
            }
            Ok(())
        } else if string_eq(&reference.ref_type, &property_kind) {
            proof {
                assert(self.edges@.take(self.edges@.len() as int) =~= self.edges@);
            }
            Ok(())
        } else {
            proof {
                assert(self.edges@.take(self.edges@.len() as int) =~= self.edges@);
            }
            let mut message = "Unknown reference type: ".to_owned();
            message.append(reference.ref_type.as_str());
            Err(GraphError::ReferenceResolution(message))
        }
    }

    /// Create or update a node from PKM block data: the node is installed
    /// under its identifier (reusing the handle and internal id of an
    /// existing node), a `ParentChild` edge is added when the parent is
    /// known, a `PageToBlock` edge ties a root block to its ensured page,
    /// and every reference is resolved. Fails exactly when a reference
    /// carries an unknown kind; the node itself is installed first, so a
    /// failing reference leaves it in place.
    #[verifier::rlimit(80)]
    pub fn create_or_update_node_from_pkm_block(&mut self, block_data: &PKMBlockData) -> (r:
        GraphResult<usize>)
        requires
            old(self).wf(),
        ensures
            final(self).wf(),
            unchanged_bookkeeping(old(self), final(self)),
            store_extends(old(self), final(self)),
            r is Ok ==> ({
                ||| (final(self).operations_since_save == 0 && final(self).save_requested)
                ||| final(self).operations_since_save == old(self).operations_since_save + 1
                ||| (old(self).operations_since_save == usize::MAX
                    && final(self).operations_since_save == usize::MAX)
            }),
            (r is Ok && old(self).auto_save_enabled && old(self).operations_since_save
                < usize::MAX && old(self).operations_since_save + 1 >= 10) ==> (final(self).operations_since_save == 0 && final(self).save_requested),
            r is Ok ==> final(self).nodes@.len() <= old(self).nodes@.len() + (
            if old(self).spec_lookup(block_data.id@) is Some {
                0int
            } else {
                1int
            }) + (match block_data.page {
                Some(pg) => if old(self).spec_lookup(block_data.id@) is Some && page_target(
                    old(self).pkm_to_node@,
                    pg@,
                ) is Some {
                    0int
                } else {
                    1int
                },
                None => 1int,
            }) + block_data.references@.len(),
            r is Ok ==> (forall|ii: int|
                old(self).edges@.len() <= ii < final(self).edges@.len() ==> !has_triple(
                    old(self).edges@,
                    edge_triple(#[trigger] final(self).edges@[ii]),
                )),
            (r is Ok <==> all_refs_valid(block_data)),
            forall|i: int|
                0 <= i < old(self).nodes@.len() && i != upsert_handle(old(self), block_data.id@)
                    ==> final(self).nodes@[i] == old(self).nodes@[i],
            r matches Ok(h) ==> ({
                &&& h == upsert_handle(old(self), block_data.id@)
                &&& final(self).spec_lookup(block_data.id@) == Some(h)
                &&& (final(self).nodes@[h as int] matches Some(n) && block_node_matches(
                    n,
                    block_data,
                ) && (old(self).spec_lookup(block_data.id@) matches Some(h0) ==> n.id == old(self).nodes@[h0 as int]->0.id))
                &&& (block_data.parent matches Some(p) ==> ({
                    let pt = if p@ == block_data.id@ {
                        Some(h)
                    } else {
                        old(self).spec_lookup(p@)
                    };
                    pt matches Some(t) ==> has_triple(
                        final(self).edges@,
                        (t, h, EdgeType::ParentChild),
                    )
                }))
                &&& (block_data.page matches Some(pg) ==> page_target(
                    final(self).pkm_to_node@,
                    pg@,
                ) is Some)
                &&& ((block_data.page matches Some(pg) && block_data.parent is None)
                    ==> exists|t: usize|
                    has_triple(#[trigger] final(self).edges@, (t, h, EdgeType::PageToBlock)))
                &&& (forall|i: int|
                    0 <= i < block_data.references@.len() ==> ref_established(
                        final(self),
                        #[trigger] block_data.references@[i],
                        h,
                    ))
                &&& (forall|i: int|
                    0 <= i < block_data.references@.len() ==> placeholder_established(
                        old(self),
                        final(self),
                        #[trigger] block_data.references@[i],
                        block_data,
                    ))
            }),
    {
        proof {
            reveal_strlit("page");
            reveal_strlit("block");
            reveal_strlit("tag");
            reveal_strlit("property");
            assert("page"@.len() == 4);
            assert("block"@.len() == 5);
            assert("tag"@.len() == 3);
            assert("property"@.len() == 8);
        }
        let ghost g0 = *self;
        let existing = self.get_node_index(block_data.id.as_str());
        let internal_id: String = match existing {
            Some(h0) => {
                proof {
                    lemma_index_lookup_valid(self.pkm_to_node@, block_data.id@);
                }
                match &self.nodes[h0] {
                    Some(n) => n.id.clone(),
                    None => {
                        proof {
                            assert(false);
                        }
                        new_uuid()
                    },
                }
            },
            None => new_uuid(),
        };
        let created_at = parse_datetime(block_data.created.as_str());
        let updated_at = parse_datetime(block_data.updated.as_str());
        let node = NodeData {
            id: internal_id,
            pkm_id: block_data.id.clone(),
            node_type: NodeType::Block,
            content: block_data.content.clone(),
            reference_content: match &block_data.reference_content {
                Some(s) => Some(s.clone()),
                None => None,
            },
            properties: clone_pairs(&block_data.properties),
            created_at,
            updated_at,
        };
        let h: usize = match existing {
            Some(h0) => {
                proof {
                    lemma_index_lookup_valid(self.pkm_to_node@, block_data.id@);
                }
                let ghost pre = *self;
                let slot = &mut self.nodes[h0];
                *slot = Some(node);
                proof {
                    assert(node_key(self.nodes@[h0 as int]->0) == node_key(
                        pre.nodes@[h0 as int]->0,
                    ));
                    lemma_store_update(pre, *self, h0);
                }
                h0
            },
            None => {
                let hn = self.nodes.len();
                let ghost pre = *self;
                self.nodes.push(Some(node));
                self.pkm_to_node.push((block_data.id.clone(), hn));
                proof {
                    assert(self.nodes@ =~= pre.nodes@.push(Some(self.nodes@.last()->0)));
                    assert(self.pkm_to_node@ =~= pre.pkm_to_node@.push(
                        (self.pkm_to_node@.last().0, hn),
                    ));
                    assert(node_key(self.nodes@.last()->0) == block_data.id@);
                    lemma_store_extend(pre, *self, hn);
                }
                hn
            },
        };
        let ghost g1 = *self;
        proof {
            assert(g1.nodes@[h as int] matches Some(n) && block_node_matches(n, block_data));
            assert(self.spec_lookup(block_data.id@) == Some(h));
            assert(store_extends(&g0, &g1)) by {
                assert(g1.edges@.take(g0.edges@.len() as int) =~= g0.edges@);
            };
        }
        // parent-child relationship
        if let Some(parent_id) = &block_data.parent {
            if let Some(parent_idx) = self.get_node_index(parent_id.as_str()) {
                proof {
                    lemma_index_lookup_valid(self.pkm_to_node@, parent_id@);
                }
                self.add_edge_if_absent(parent_idx, h, EdgeType::ParentChild);
            }
        }
        let ghost g2 = *self;
        proof {
            assert(store_extends(&g1, &g2)) by {
                assert(g2.edges@.take(g1.edges@.len() as int) =~= g1.edges@);
            };
            lemma_store_extends_trans(&g0, &g1, &g2);
            assert(parent_edge_ok(&g0, &g2, block_data, h)) by {
                match block_data.parent {
                    Some(p) => {
                        let pt = if p@ == block_data.id@ {
                            Some(h)
                        } else {
                            g0.spec_lookup(p@)
                        };
                        match pt {
                            Some(t) => {
                                assert(g1.spec_lookup(p@) == Some(t));
                            },
                            None => {},
                        }
                    },
                    None => {},
                }
            };
        }
        // page relationship
        if let Some(page_name) = &block_data.page {
            let page_idx = self.ensure_page_exists(page_name.as_str());
            proof {
                lemma_index_lookup_valid(self.pkm_to_node@, page_name@);
                lemma_index_lookup_valid(self.pkm_to_node@, lower_of(page_name@));
                assert(self.nodes@.take(g2.nodes@.len() as int)[h as int] == self.nodes@[h as int]);
            }
            if block_data.parent.is_none() {
                self.add_edge_if_absent(page_idx, h, EdgeType::PageToBlock);
            }
        }
        proof {
            assert(store_extends(&g2, self)) by {
                assert(self.edges@.take(g2.edges@.len() as int) =~= g2.edges@);
                if self.nodes@.len() > g2.nodes@.len() {
                    assert(self.nodes@.take(g2.nodes@.len() as int)
                        == g2.nodes@);
                }
            };
            lemma_store_extends_trans(&g0, &g2, self);
            assert forall|k: int| 0 <= k < g2.nodes@.len() implies self.nodes@[k]
                == g2.nodes@[k] by {
                assert(self.nodes@.take(g2.nodes@.len() as int)[k] == self.nodes@[k]);
            }
            assert(self.nodes@[h as int] == g1.nodes@[h as int]);
            assert(parent_edge_ok(&g0, self, block_data, h)) by {
                match block_data.parent {
                    Some(p) => {
                        let pt = if p@ == block_data.id@ {
                            Some(h)
                        } else {
                            g0.spec_lookup(p@)
                        };
                        match pt {
                            Some(t) => {
                                lemma_has_triple_extend(
                                    g2.edges@,
                                    self.edges@,
                                    (t, h, EdgeType::ParentChild),
                                );
                            },
                            None => {},
                        }
                    },
                    None => {},
                }
            };
            assert(new_nodes_are_placeholders(&g0, self, block_data)) by {
                assert forall|k: Seq<char>|
                    ((#[trigger] self.spec_lookup(k)) is Some && g0.spec_lookup(k) is None && k
                        != block_data.id@ && page_key_free(block_data, k)) implies
                    is_block_placeholder(self, self.spec_lookup(k)->0, k) by {
                    match block_data.page {
                        Some(pg) => {
                            assert(k != lower_of(pg@));
                            assert(g2.spec_lookup(k) == g0.spec_lookup(k));
                            assert(self.spec_lookup(k) == g2.spec_lookup(k));
                            assert(false);
                        },
                        None => {
                            assert(self.spec_lookup(k) == g0.spec_lookup(k));
                            assert(false);
                        },
                    }
                }
            };
        }
        proof {
            assert forall|k: int| 0 <= k < g0.nodes@.len() && k != h as int implies self.nodes@[k]
                == g0.nodes@[k] by {
                assert(g1.nodes@[k] == g0.nodes@[k]);
                assert(g2.nodes@[k] == g1.nodes@[k]);
                assert(self.nodes@[k] == g2.nodes@[k]);
            }
        }
        proof {
            assert(g1.edges@ == g0.edges@);
            assert(self.edges@.take(g2.edges@.len() as int) =~= g2.edges@);
            assert forall|ii: int| g0.edges@.len() <= ii < self.edges@.len() implies !has_triple(
                g0.edges@,
                edge_triple(#[trigger] self.edges@[ii]),
            ) by {
                let tr = edge_triple(self.edges@[ii]);
                if has_triple(g0.edges@, tr) {
                    lemma_has_triple_extend(g0.edges@, g2.edges@, tr);
                    if ii < g2.edges@.len() {
                        assert(self.edges@[ii] == g2.edges@[ii]);
                    } else {
                        lemma_has_triple_extend(g2.edges@, self.edges@, tr);
                    }
                    assert(false);
                }
            }
        }
        // references
        let mut i: usize = 0;
        while i < block_data.references.len()
            invariant
                old(self).wf(),
                self.wf(),
                0 <= i <= block_data.references@.len(),
                h == upsert_handle(old(self), block_data.id@),
                h < self.nodes@.len(),
                self.spec_lookup(block_data.id@) == Some(h),
                g1.nodes@[h as int] is Some,
                self.nodes@[h as int] == g1.nodes@[h as int],
                store_extends(old(self), self),
                unchanged_bookkeeping(old(self), self),
                self.operations_since_save == old(self).operations_since_save,
                self.save_requested == old(self).save_requested,
                forall|k: int|
                    0 <= k < old(self).nodes@.len() && k != h as int ==> self.nodes@[k] == old(self).nodes@[k],
                new_nodes_are_placeholders(old(self), self, block_data),
                parent_edge_ok(old(self), self, block_data, h),
                page_edge_ok(self, block_data, h),
                page_key_ok(self, block_data),
                forall|j: int|
                    0 <= j < i ==> valid_ref_kind(&block_data.references@[j]) && ref_established(
                        self,
                        #[trigger] block_data.references@[j],
                        h,
                    ),
                self.nodes@.len() <= old(self).nodes@.len() + (
                if old(self).spec_lookup(block_data.id@) is Some {
                    0int
                } else {
                    1int
                }) + (match block_data.page {
                    Some(pg) => if old(self).spec_lookup(block_data.id@) is Some && page_target(
                        old(self).pkm_to_node@,
                        pg@,
                    ) is Some {
                        0int
                    } else {
                        1int
                    },
                    None => 1int,
                }) + i,
                forall|ii: int|
                    old(self).edges@.len() <= ii < self.edges@.len() ==> !has_triple(
                        old(self).edges@,
                        edge_triple(#[trigger] self.edges@[ii]),
                    ),
            decreases block_data.references@.len() - i,
        {
            let ghost s_pre = *self;
            let rr = &block_data.references[i];
            match self.resolve_and_add_reference(h, rr) {
                Ok(()) => {},
                Err(e) => {
                    proof {
                        assert(!valid_ref_kind(&block_data.references@[i as int]));
                        assert(!all_refs_valid(block_data));
                    }
                    return Err(e);
                },
            }
            proof {
                let ghost rri = block_data.references@[i as int];
                lemma_store_extends_trans(old(self), &s_pre, self);
                assert forall|ii: int|
                    old(self).edges@.len() <= ii < self.edges@.len() implies !has_triple(
                    old(self).edges@,
                    edge_triple(#[trigger] self.edges@[ii]),
                ) by {
                    let tr = edge_triple(self.edges@[ii]);
                    if ii < s_pre.edges@.len() {
                        assert(self.edges@.take(s_pre.edges@.len() as int) == s_pre.edges@);
                        assert(self.edges@[ii] == s_pre.edges@[ii]);
                    } else {
                        assert(!has_triple(s_pre.edges@, tr));
                        if has_triple(old(self).edges@, tr) {
                            lemma_has_triple_extend(old(self).edges@, s_pre.edges@, tr);
                            assert(false);
                        }
                    }
                }
                assert forall|k: int| 0 <= k < s_pre.nodes@.len() implies self.nodes@[k]
                    == s_pre.nodes@[k] by {
                    assert(self.nodes@.take(s_pre.nodes@.len() as int)[k] == self.nodes@[k]);
                }
                assert(parent_edge_ok(old(self), self, block_data, h)) by {
                    match block_data.parent {
                        Some(p) => {
                            let pt = if p@ == block_data.id@ {
                                Some(h)
                            } else {
                                old(self).spec_lookup(p@)
                            };
                            match pt {
                                Some(t) => {
                                    lemma_has_triple_extend(
                                        s_pre.edges@,
                                        self.edges@,
                                        (t, h, EdgeType::ParentChild),
                                    );
                                },
                                None => {},
                            }
                        },
                        None => {},
                    }
                };
                assert(page_edge_ok(self, block_data, h)) by {
                    if block_data.page is Some && block_data.parent is None {
                        let t = choose|t: usize|
                            #[trigger] has_triple(s_pre.edges@, (t, h, EdgeType::PageToBlock));
                        lemma_has_triple_extend(
                            s_pre.edges@,
                            self.edges@,
                            (t, h, EdgeType::PageToBlock),
                        );
                    }
                };
                assert(new_nodes_are_placeholders(old(self), self, block_data)) by {
                    assert forall|k: Seq<char>|
                        ((#[trigger] self.spec_lookup(k)) is Some && old(self).spec_lookup(
                            k,
                        ) is None && k != block_data.id@ && page_key_free(block_data, k)) implies
                        is_block_placeholder(self, self.spec_lookup(k)->0, k) by {
                        lemma_index_lookup_valid(self.pkm_to_node@, k);
                        lemma_index_lookup_valid(s_pre.pkm_to_node@, k);
                        if rri.ref_type@ == "block"@ && k == rri.id@ && s_pre.spec_lookup(
                            k,
                        ) is None {
                            // the placeholder this very step minted
                            assert(is_block_placeholder(self, self.spec_lookup(k)->0, k));
                        } else {
                            // the key was already filed before this step
                            assert(s_pre.spec_lookup(k) is Some);
                            assert(self.spec_lookup(k) == s_pre.spec_lookup(k));
                            assert(is_block_placeholder(&s_pre, s_pre.spec_lookup(k)->0, k));
                        }
                    }
                };
                assert forall|j: int|
                    0 <= j < i + 1 implies valid_ref_kind(&block_data.references@[j])
                    && ref_established(self, #[trigger] block_data.references@[j], h) by {
                    let rf = block_data.references@[j];
                    if j < i {
                        if rf.ref_type@ == "block"@ {
                            let t = s_pre.spec_lookup(rf.id@)->0;
                            assert(has_triple(s_pre.edges@, (h, t, EdgeType::BlockRef)));
                            lemma_has_triple_extend(
                                s_pre.edges@,
                                self.edges@,
                                (h, t, EdgeType::BlockRef),
                            );
                            assert(self.spec_lookup(rf.id@) == Some(t));
                        } else if rf.ref_type@ == "page"@ || rf.ref_type@ == "tag"@ {
                            let ty = if rf.ref_type@ == "page"@ {
                                EdgeType::PageRef
                            } else {
                                EdgeType::Tag
                            };
                            let t = choose|t: usize|
                                (s_pre.spec_lookup(rf.name@) == Some(t) || s_pre.spec_lookup(
                                    lower_of(rf.name@),
                                ) == Some(t)) && #[trigger] has_triple(s_pre.edges@, (h, t, ty));
                            lemma_has_triple_extend(s_pre.edges@, self.edges@, (h, t, ty));
                            assert((self.spec_lookup(rf.name@) == Some(t) || self.spec_lookup(
                                lower_of(rf.name@),
                            ) == Some(t)) && has_triple(self.edges@, (h, t, ty)));
                        }
                    } else {
                        if rf.ref_type@ == "page"@ || rf.ref_type@ == "tag"@ {
                            let ty = if rf.ref_type@ == "page"@ {
                                EdgeType::PageRef
                            } else {
                                EdgeType::Tag
                            };
                            let t = ref_page_handle(&s_pre, rf.name@);
                            assert(page_target(self.pkm_to_node@, rf.name@) == Some(t));
                            assert((self.spec_lookup(rf.name@) == Some(t) || self.spec_lookup(
                                lower_of(rf.name@),
                            ) == Some(t)) && has_triple(self.edges@, (h, t, ty)));
                        }
                    }
                }
            }
            i = i + 1;
        }
        proof {
            assert forall|i2: int| 0 <= i2 < block_data.references@.len() implies
                placeholder_established(
                old(self),
                self,
                #[trigger] block_data.references@[i2],
                block_data,
            ) by {
                let rf = block_data.references@[i2];
                if rf.ref_type@ == "block"@ && rf.id@ != block_data.id@ && old(self).spec_lookup(
                    rf.id@,
                ) is None && page_key_free(block_data, rf.id@) {
                    assert(ref_established(self, rf, h));
                }
            }
        }
        // operation counter and autosave trigger
        if self.operations_since_save < usize::MAX {
            self.operations_since_save = self.operations_since_save + 1;
        }
        self.save_if_needed();
        Ok(h)
    }

    /// Create or update a node from PKM page data. The page is filed under
    /// its lower-cased name; a node already filed under the lower-cased or
    /// the raw name is updated in place (a raw-keyed entry is re-filed under
    /// the lower-cased name), and a `PageToBlock` edge is added for every
    /// root block that resolves to a handle.
    #[verifier::rlimit(60)]
    pub fn create_or_update_node_from_pkm_page(&mut self, page_data: &PKMPageData) -> (r:
        GraphResult<usize>)
        requires
            old(self).wf(),
        ensures
            final(self).wf(),
            unchanged_bookkeeping(old(self), final(self)),
            ({
                ||| (final(self).operations_since_save == 0 && final(self).save_requested)
                ||| final(self).operations_since_save == old(self).operations_since_save + 1
                ||| (old(self).operations_since_save == usize::MAX
                    && final(self).operations_since_save == usize::MAX)
            }),
            (old(self).auto_save_enabled && old(self).operations_since_save < usize::MAX && old(self).operations_since_save + 1 >= 10) ==> (final(self).operations_since_save == 0 && final(self).save_requested),
            r is Ok,
            r matches Ok(h) ==> ({
                &&& h == page_upsert_handle(old(self), page_data.name@)
                &&& final(self).spec_lookup(lower_of(page_data.name@)) == Some(h)
                &&& (final(self).nodes@[h as int] matches Some(n) && page_node_matches(
                    n,
                    page_data,
                ))
                &&& (forall|k: int|
                    0 <= k < old(self).nodes@.len() && k != h as int ==> final(self).nodes@[k]
                        == old(self).nodes@[k])
                &&& (forall|j: int|
                    0 <= j < page_data.blocks@.len() ==> ({
                        let b = #[trigger] page_data.blocks@[j];
                        final(self).spec_lookup(b@) matches Some(t) ==> (t != h ==> has_triple(
                            final(self).edges@,
                            (h, t, EdgeType::PageToBlock),
                        ))
                    }))
                &&& (forall|i: int|
                    old(self).edges@.len() <= i < final(self).edges@.len() ==> (#[trigger] final(self).edges@[i]).source == h && final(self).edges@[i].data.edge_type
                        == EdgeType::PageToBlock)
                &&& final(self).edges@.take(old(self).edges@.len() as int) == old(self).edges@
            }),
    {
        let ghost g0 = *self;
        let name = page_data.name.as_str();
        let lowered = to_lowercase(name);
        let h: usize = match self.get_node_index(lowered.as_str()) {
            Some(h0) => {
                proof {
                    lemma_index_lookup_valid(self.pkm_to_node@, lowered@);
                }
                let node = self.build_page_node(page_data, h0);
                let ghost pre = *self;
                let slot = &mut self.nodes[h0];
                *slot = Some(node);
                proof {
                    assert(node_key(self.nodes@[h0 as int]->0) == node_key(
                        pre.nodes@[h0 as int]->0,
                    ));
                    lemma_store_update(pre, *self, h0);
                }
                h0
            },
            None => {
                match self.get_node_index(name) {
                    Some(h0) => {
                        proof {
                            lemma_index_lookup_valid(self.pkm_to_node@, name@);
                        }
                        let node = self.build_page_node(page_data, h0);
                        self.rekey_node(h0, node, lowered.clone());
                        h0
                    },
                    None => {
                        let node = self.build_page_node_fresh(page_data);
                        let hn = self.nodes.len();
                        let ghost pre = *self;
                        self.nodes.push(Some(node));
                        self.pkm_to_node.push((lowered.clone(), hn));
                        proof {
                            assert(self.nodes@ =~= pre.nodes@.push(Some(self.nodes@.last()->0)));
                            assert(self.pkm_to_node@ =~= pre.pkm_to_node@.push(
                                (self.pkm_to_node@.last().0, hn),
                            ));
                            assert(node_key(self.nodes@.last()->0) == lower_of(page_data.name@));
                            lemma_store_extend(pre, *self, hn);
                        }
                        hn
                    },
                }
            },
        };
        let ghost g1 = *self;
        proof {
            assert(self.edges@.take(g0.edges@.len() as int) =~= g0.edges@);
            assert(g1.nodes@[h as int] matches Some(n) && page_node_matches(n, page_data));
        }
        // tie known root blocks to the page
        let mut j: usize = 0;
        while j < page_data.blocks.len()
            invariant
                self.wf(),
                0 <= j <= page_data.blocks@.len(),
                h < self.nodes@.len(),
                self.nodes@[h as int] is Some,
                self.nodes@ == g1.nodes@,
                self.pkm_to_node@ == g1.pkm_to_node@,
                unchanged_bookkeeping(&g1, self),
                self.operations_since_save == g1.operations_since_save,
                self.save_requested == g1.save_requested,
                self.edges@.take(g1.edges@.len() as int) == g1.edges@,
                g1.edges@.len() <= self.edges@.len(),
                g1.edges@.take(g0.edges@.len() as int) == g0.edges@,
                g0.edges@.len() <= g1.edges@.len(),
                forall|i: int|
                    g0.edges@.len() <= i < self.edges@.len() ==> (#[trigger] self.edges@[i]).source
                        == h && self.edges@[i].data.edge_type == EdgeType::PageToBlock,
                forall|jj: int|
                    0 <= jj < j ==> ({
                        let b = #[trigger] page_data.blocks@[jj];
                        self.spec_lookup(b@) matches Some(t) ==> (t != h ==> has_triple(
                            self.edges@,
                            (h, t, EdgeType::PageToBlock),
                        ))
                    }),
            decreases page_data.blocks@.len() - j,
        {
            let ghost s_pre = *self;
            let b = &page_data.blocks[j];
            if let Some(t) = self.get_node_index(b.as_str()) {
                proof {
                    lemma_index_lookup_valid(self.pkm_to_node@, b@);
                }
                self.add_edge_if_absent(h, t, EdgeType::PageToBlock);
            }
            proof {
                assert(self.edges@.take(g1.edges@.len() as int) =~= g1.edges@);
                assert(self.edges@.take(s_pre.edges@.len() as int) =~= s_pre.edges@);
                assert forall|jj: int| 0 <= jj < j + 1 implies ({
                    let b2 = #[trigger] page_data.blocks@[jj];
                    self.spec_lookup(b2@) matches Some(t2) ==> (t2 != h ==> has_triple(
                        self.edges@,
                        (h, t2, EdgeType::PageToBlock),
                    ))
                }) by {
                    let b2 = page_data.blocks@[jj];
                    if jj < j {
                        match self.spec_lookup(b2@) {
                            Some(t2) => {
                                if t2 != h && has_triple(
                                    s_pre.edges@,
                                    (h, t2, EdgeType::PageToBlock),
                                ) {
                                    lemma_has_triple_extend(
                                        s_pre.edges@,
                                        self.edges@,
                                        (h, t2, EdgeType::PageToBlock),
                                    );
                                }
                            },
                            None => {},
                        }
                    }
                }
            }
            j = j + 1;
        }
        if self.operations_since_save < usize::MAX {
            self.operations_since_save = self.operations_since_save + 1;
        }
        self.save_if_needed();
        proof {
            assert(self.edges@.take(g0.edges@.len() as int) =~= g0.edges@);
        }
        Ok(h)
    }

    /// Builds the page node for an update, preserving the internal id of
    /// the node at `h0`.
    fn build_page_node(&self, page_data: &PKMPageData, h0: usize) -> (n: NodeData)
        requires
            self.wf(),
            h0 < self.nodes@.len(),
            self.nodes@[h0 as int] is Some,
        ensures
            page_node_matches(n, page_data),
            n.id == self.nodes@[h0 as int]->0.id,
    {
        let existing_id = match &self.nodes[h0] {
            Some(n) => n.id.clone(),
            None => {
                proof {
                    assert(false);
                }
                new_uuid()
            },
        };
        NodeData {
            id: existing_id,
            pkm_id: page_data.name.clone(),
            node_type: NodeType::Page,
            content: page_data.name.clone(),
            reference_content: None,
            properties: clone_pairs(&page_data.properties),
            created_at: parse_datetime(page_data.created.as_str()),
            updated_at: parse_datetime(page_data.updated.as_str()),
        }
    }

    /// Builds a fresh page node with a new internal id.
    fn build_page_node_fresh(&self, page_data: &PKMPageData) -> (n: NodeData)
        ensures
            page_node_matches(n, page_data),
    {
        NodeData {
            id: new_uuid(),
            pkm_id: page_data.name.clone(),
            node_type: NodeType::Page,
            content: page_data.name.clone(),
            reference_content: None,
            properties: clone_pairs(&page_data.properties),
            created_at: parse_datetime(page_data.created.as_str()),
            updated_at: parse_datetime(page_data.updated.as_str()),
        }
    }

    /// Replaces the node at `h0` with one filed under a new key, removing
    /// the old entry and filing the new one.
    fn rekey_node(&mut self, h0: usize, node: NodeData, new_key: String)
        requires
            old(self).wf(),
            h0 < old(self).nodes@.len(),
            old(self).nodes@[h0 as int] is Some,
            node_key(node) == new_key@,
            old(self).spec_lookup(new_key@) is None,
            old(self).spec_lookup(node_key(old(self).nodes@[h0 as int]->0)) == Some(h0),
        ensures
            final(self).wf(),
            final(self).edges@ == old(self).edges@,
            unchanged_bookkeeping(old(self), final(self)),
            final(self).operations_since_save == old(self).operations_since_save,
            final(self).save_requested == old(self).save_requested,
            final(self).nodes@ == old(self).nodes@.update(h0 as int, Some(node)),
            final(self).spec_lookup(new_key@) == Some(h0),
            forall|k: Seq<char>|
                k != new_key@ && k != node_key(old(self).nodes@[h0 as int]->0)
                    ==> #[trigger] spec_index_lookup(final(self).pkm_to_node@, k)
                    == spec_index_lookup(old(self).pkm_to_node@, k),
    {
        let ghost oldkey = node_key(old(self).nodes@[h0 as int]->0);
        // locate the entry filed for this node
        let mut ei: usize = 0;
        while ei < self.pkm_to_node.len() && self.pkm_to_node[ei].1 != h0
            invariant
                ei <= self.pkm_to_node@.len(),
                forall|i: int| 0 <= i < ei ==> (#[trigger] self.pkm_to_node@[i]).1 != h0,
            decreases self.pkm_to_node@.len() - ei,
        {
            ei = ei + 1;
        }
        proof {
            lemma_index_lookup_valid(self.pkm_to_node@, oldkey);
            let i = choose|i: int|
                0 <= i < self.pkm_to_node@.len() && (#[trigger] self.pkm_to_node@[i]).0@ == oldkey
                    && self.pkm_to_node@[i].1 == h0;
            assert(ei < self.pkm_to_node@.len());
            assert(self.pkm_to_node@[ei as int].1 == h0);
            assert(self.pkm_to_node@[ei as int].0@ == oldkey);
        }
        let ghost pre = *self;
        let slot = &mut self.nodes[h0];
        *slot = Some(node);
        self.pkm_to_node.remove(ei);
        self.pkm_to_node.push((new_key, h0));
        proof {
            lemma_store_rekey(pre, *self, h0, ei as int);
        }
    }
    /// Archive the given `(pkm_id, handle)` pairs: record each live node
    /// with its incident edges, then remove those nodes, their index
    /// entries and every incident edge, and force a save. An empty list
    /// leaves the store untouched.
    #[verifier::rlimit(60)]
    pub fn archive_nodes(&mut self, nodes: Vec<(String, usize)>) -> (r: GraphResult<NodeArchive>)
        requires
            old(self).wf(),
        ensures
            final(self).wf(),
            unchanged_bookkeeping(old(self), final(self)),
            r is Ok,
            nodes@.len() == 0 ==> final(self).nodes@ == old(self).nodes@ && final(self).edges@
                == old(self).edges@ && final(self).pkm_to_node@ == old(self).pkm_to_node@,
            nodes@.len() > 0 ==> ({
                &&& final(self).nodes@.len() == old(self).nodes@.len()
                &&& (forall|i: int|
                    0 <= i < old(self).nodes@.len() ==> #[trigger] final(self).nodes@[i] == (
                    if handle_in(nodes@, i) {
                        None
                    } else {
                        old(self).nodes@[i]
                    }))
                &&& final(self).edges@ == kept_edges(old(self).edges@, nodes@)
                &&& final(self).pkm_to_node@ == kept_index(old(self).pkm_to_node@, nodes@)
                &&& final(self).save_requested
            }),
            r matches Ok(a) ==> ({
                let live = live_args(old(self), nodes@);
                &&& a.entries@.len() == live.len()
                &&& (forall|j: int|
                    0 <= j < live.len() ==> ({
                        let e = #[trigger] a.entries@[j];
                        &&& e.pkm_id == live[j].0
                        &&& e.node_index == live[j].1
                        &&& (old(self).nodes@[live[j].1 as int] matches Some(n0) && node_eq(e.node, n0))
                        &&& e.edges_out@ == out_edges(old(self).edges@, live[j].1)
                        &&& e.edges_in@ == in_edges(old(self).edges@, live[j].1)
                    }))
                &&& a.archived_pages + a.archived_blocks == live.len()
                &&& a.graph_id == old(self).graph_id
            }),
    {
        let ghost g0 = *self;
        if nodes.len() == 0 {
            return Ok(
                NodeArchive {
                    timestamp: now_millis(),
                    graph_id: clone_opt_string(&self.graph_id),
                    archived_pages: 0,
                    archived_blocks: 0,
                    entries: Vec::new(),
                },
            );
        }
        // record the live nodes with their incident edges
        let mut entries: Vec<ArchivedNode> = Vec::new();
        let mut archived_pages: usize = 0;
        let mut archived_blocks: usize = 0;
        let mut j: usize = 0;
        while j < nodes.len()
            invariant
                *self == *old(self),
                self.wf(),
                0 <= j <= nodes@.len(),
                entries@.len() == live_args(self, nodes@.take(j as int)).len(),
                entries@.len() <= j,
                archived_pages + archived_blocks == entries@.len(),
                forall|q: int|
                    0 <= q < entries@.len() ==> ({
                        let e = #[trigger] entries@[q];
                        let live = live_args(self, nodes@.take(j as int));
                        &&& e.pkm_id == live[q].0
                        &&& e.node_index == live[q].1
                        &&& (self.nodes@[live[q].1 as int] matches Some(n0) && node_eq(e.node, n0))
                        &&& e.edges_out@ == out_edges(self.edges@, live[q].1)
                        &&& e.edges_in@ == in_edges(self.edges@, live[q].1)
                    }),
            decreases nodes@.len() - j,
        {
            proof {
                assert(nodes@.take(j as int + 1).drop_last() =~= nodes@.take(j as int));
                assert(nodes@.take(j as int + 1).last() == nodes@[j as int]);
            }
            let pair = &nodes[j];
            let idx = pair.1;
            let ghost live_pre = live_args(self, nodes@.take(j as int));
            if idx < self.nodes.len() {
                let node_clone: Option<NodeData> = match &self.nodes[idx] {
                    Some(n) => Some(clone_node(n)),
                    None => None,
                };
                match node_clone {
                    Some(n) => {
                        match n.node_type {
                            NodeType::Page => {
                                archived_pages = archived_pages + 1;
                            },
                            NodeType::Block => {
                                archived_blocks = archived_blocks + 1;
                            },
                        }
                        let eout = self.collect_out_edges(idx);
                        let ein = self.collect_in_edges(idx);
                        entries.push(
                            ArchivedNode {
                                pkm_id: pair.0.clone(),
                                node_index: idx,
                                node: n,
                                edges_out: eout,
                                edges_in: ein,
                            },
                        );
                        proof {
                            assert(live_args(self, nodes@.take(j as int + 1)) =~= live_pre.push(
                                (nodes@[j as int].0, nodes@[j as int].1),
                            ));
                            assert(nodes@[j as int].0 == pair.0);
                        }
                    },
                    None => {
                        proof {
                            assert(live_args(self, nodes@.take(j as int + 1)) =~= live_pre);
                        }
                    },
                }
            } else {
                proof {
                    assert(live_args(self, nodes@.take(j as int + 1)) =~= live_pre);
                }
            }
            j = j + 1;
        }
        proof {
            assert(nodes@.take(nodes@.len() as int) =~= nodes@);
        }
        let archive = NodeArchive {
            timestamp: now_millis(),
            graph_id: clone_opt_string(&self.graph_id),
            archived_pages,
            archived_blocks,
            entries,
        };
        // remove the incident edges
        let ghost pre = *self;
        let mut kept: Vec<Edge> = Vec::new();
        let mut e: usize = 0;
        while e < self.edges.len()
            invariant
                *self == pre,
                0 <= e <= self.edges@.len(),
                kept@ =~= kept_edges(self.edges@.take(e as int), nodes@),
            decreases self.edges@.len() - e,
        {
            proof {
                assert(self.edges@.take(e as int + 1).drop_last() =~= self.edges@.take(e as int));
                assert(self.edges@.take(e as int + 1).last() == self.edges@[e as int]);
            }
            let ed = &self.edges[e];
            if !(handle_in_exec(&nodes, ed.source) || handle_in_exec(&nodes, ed.target)) {
                kept.push(
                    Edge {
                        source: ed.source,
                        target: ed.target,
                        data: EdgeData { edge_type: ed.data.edge_type },
                    },
                );
                proof {
                    assert(self.edges@[e as int] == Edge {
                        source: self.edges@[e as int].source,
                        target: self.edges@[e as int].target,
                        data: EdgeData { edge_type: self.edges@[e as int].data.edge_type },
                    });
                }
            }
            e = e + 1;
        }
        proof {
            assert(self.edges@.take(self.edges@.len() as int) =~= self.edges@);
        }
        self.edges = kept;
        // remove the index entries
        let mut kept_idx: Vec<(String, usize)> = Vec::new();
        let mut q: usize = 0;
        while q < self.pkm_to_node.len()
            invariant
                self.pkm_to_node@ == pre.pkm_to_node@,
                self.nodes@ == pre.nodes@,
                0 <= q <= self.pkm_to_node@.len(),
                kept_idx@ =~= kept_index(self.pkm_to_node@.take(q as int), nodes@),
            decreases self.pkm_to_node@.len() - q,
        {
            proof {
                assert(self.pkm_to_node@.take(q as int + 1).drop_last() =~= self.pkm_to_node@.take(
                    q as int,
                ));
                assert(self.pkm_to_node@.take(q as int + 1).last() == self.pkm_to_node@[q as int]);
            }
            let entry = &self.pkm_to_node[q];
            if !handle_in_exec(&nodes, entry.1) {
                kept_idx.push((entry.0.clone(), entry.1));
                proof {
                    assert(self.pkm_to_node@[q as int] == (
                        self.pkm_to_node@[q as int].0,
                        self.pkm_to_node@[q as int].1,
                    ));
                }
            }
            q = q + 1;
        }
        proof {
            assert(self.pkm_to_node@.take(self.pkm_to_node@.len() as int) =~= self.pkm_to_node@);
        }
        self.pkm_to_node = kept_idx;
        // clear the node slots
        let mut w: usize = 0;
        while w < nodes.len()
            invariant
                0 <= w <= nodes@.len(),
                unchanged_bookkeeping(&pre, self),
                self.nodes@.len() == pre.nodes@.len(),
                self.edges@ == kept_edges(pre.edges@, nodes@),
                self.pkm_to_node@ == kept_index(pre.pkm_to_node@, nodes@),
                forall|i: int|
                    0 <= i < pre.nodes@.len() ==> #[trigger] self.nodes@[i] == (if handle_in(
                        nodes@.take(w as int),
                        i,
                    ) {
                        None
                    } else {
                        pre.nodes@[i]
                    }),
            decreases nodes@.len() - w,
        {
            let pair = &nodes[w];
            let idx = pair.1;
            let ghost nodes_before = self.nodes@;
            if idx < self.nodes.len() {
                let slot = &mut self.nodes[idx];
                *slot = None;
            }
            proof {
                assert forall|i: int| 0 <= i < pre.nodes@.len() implies #[trigger] self.nodes@[i]
                    == (if handle_in(nodes@.take(w as int + 1), i) {
                    None
                } else {
                    pre.nodes@[i]
                }) by {
                    if handle_in(nodes@.take(w as int), i) {
                        let z = choose|z: int|
                            0 <= z < nodes@.take(w as int).len() && (#[trigger] nodes@.take(
                                w as int,
                            )[z]).1 == i;
                        assert(nodes@.take(w as int + 1)[z] == nodes@.take(w as int)[z]);
                        assert(handle_in(nodes@.take(w as int + 1), i));
                        assert(nodes_before[i] is None);
                        if i == idx as int {
                            assert(self.nodes@[i] is None);
                        } else {
                            assert(self.nodes@[i] == nodes_before[i]);
                        }
                    } else if handle_in(nodes@.take(w as int + 1), i) {
                        let z = choose|z: int|
                            0 <= z < nodes@.take(w as int + 1).len() && (#[trigger] nodes@.take(
                                w as int + 1,
                            )[z]).1 == i;
                        assert(z == w);
                        assert(i == nodes@[w as int].1);
                        assert(i == idx as int);
                        assert(self.nodes@[i] is None);
                    } else {
                        assert(i != idx as int || !(idx < pre.nodes@.len())) by {
                            if i == idx as int && idx < pre.nodes@.len() {
                                assert(nodes@.take(w as int + 1)[w as int].1 == i);
                                assert(handle_in(nodes@.take(w as int + 1), i));
                            }
                        }
                        assert(self.nodes@[i] == nodes_before[i]);
                    }
                }
            }
            w = w + 1;
        }
        proof {
            assert(nodes@.take(nodes@.len() as int) =~= nodes@);
            lemma_archive_wf(pre, *self, nodes@);
        }
        // force a save
        self.save_requested = true;
        self.operations_since_save = 0;
        self.last_save_time = now_millis();
        Ok(archive)
    }

    /// Outgoing edges of a handle, as `(target, type)` pairs in edge order.
    fn collect_out_edges(&self, h: usize) -> (r: Vec<(usize, EdgeType)>)
        ensures
            r@ == out_edges(self.edges@, h),
    {
        let mut out: Vec<(usize, EdgeType)> = Vec::new();
        let mut i: usize = 0;
        while i < self.edges.len()
            invariant
                0 <= i <= self.edges@.len(),
                out@ =~= out_edges(self.edges@.take(i as int), h),
            decreases self.edges@.len() - i,
        {
            proof {
                assert(self.edges@.take(i as int + 1).drop_last() =~= self.edges@.take(i as int));
                assert(self.edges@.take(i as int + 1).last() == self.edges@[i as int]);
            }
            let e = &self.edges[i];
            if e.source == h {
                out.push((e.target, e.data.edge_type));
            }
            i = i + 1;
        }
        proof {
            assert(self.edges@.take(self.edges@.len() as int) =~= self.edges@);
        }
        out
    }

    /// Incoming edges of a handle, as `(source, type)` pairs in edge order.
    fn collect_in_edges(&self, h: usize) -> (r: Vec<(usize, EdgeType)>)
        ensures
            r@ == in_edges(self.edges@, h),
    {
        let mut out: Vec<(usize, EdgeType)> = Vec::new();
        let mut i: usize = 0;
        while i < self.edges.len()
            invariant
                0 <= i <= self.edges@.len(),
                out@ =~= in_edges(self.edges@.take(i as int), h),
            decreases self.edges@.len() - i,
        {
            proof {
                assert(self.edges@.take(i as int + 1).drop_last() =~= self.edges@.take(i as int));
                assert(self.edges@.take(i as int + 1).last() == self.edges@[i as int]);
            }
            let e = &self.edges[i];
            if e.target == h {
                out.push((e.source, e.data.edge_type));
            }
            i = i + 1;
        }
        proof {
            assert(self.edges@.take(self.edges@.len() as int) =~= self.edges@);
        }
        out
    }

    /// A map of block ID to block content for reference resolution.
    pub fn build_block_content_map(&self) -> (r: Vec<(String, String)>)
        ensures
            r@ == block_content_map(self.nodes@),
    {
        let mut out: Vec<(String, String)> = Vec::new();
        let mut i: usize = 0;
        while i < self.nodes.len()
            invariant
                0 <= i <= self.nodes@.len(),
                out@ =~= block_content_map(self.nodes@.take(i as int)),
            decreases self.nodes@.len() - i,
        {
            proof {
                assert(self.nodes@.take(i as int + 1).drop_last() =~= self.nodes@.take(i as int));
                assert(self.nodes@.take(i as int + 1).last() == self.nodes@[i as int]);
            }
            match &self.nodes[i] {
                Some(n) => {
                    match n.node_type {
                        NodeType::Block => {
                            out.push((n.pkm_id.clone(), n.content.clone()));
                        },
                        NodeType::Page => {},
                    }
                },
                None => {},
            }
            i = i + 1;
        }
        proof {
            assert(self.nodes@.take(self.nodes@.len() as int) =~= self.nodes@);
        }
        out
    }

    /// Resolve block references in content against this store's blocks and
    /// return the expanded version.
    pub fn resolve_references(&self, content: &str, current_block_id: Option<&str>) -> (r: String)
        ensures
            r@ == resolve_spec(
                content@,
                block_content_map(self.nodes@),
                Set::empty(),
                match current_block_id {
                    Some(c) => Some(c@),
                    None => None,
                },
            ),
    {
        let block_map = self.build_block_content_map();
        let mut visited: Vec<String> = Vec::new();
        crate::reference_resolver::resolve_block_references(
            content,
            &block_map,
            &mut visited,
            current_block_id,
        )
    }

    /// The targets of the edges leaving a handle, in edge order.
    pub fn neighbors(&self, h: usize) -> (r: Vec<usize>)
        ensures
            r@ == spec_neighbors(self.edges@, h),
    {
        let mut out: Vec<usize> = Vec::new();
        let mut i: usize = 0;
        while i < self.edges.len()
            invariant
                0 <= i <= self.edges@.len(),
                out@ =~= spec_neighbors(self.edges@.take(i as int), h),
            decreases self.edges@.len() - i,
        {
            proof {
                assert(self.edges@.take(i as int + 1).drop_last() =~= self.edges@.take(i as int));
                assert(self.edges@.take(i as int + 1).last() == self.edges@[i as int]);
            }
            let e = &self.edges[i];
            if e.source == h {
                out.push(e.target);
            }
            i = i + 1;
        }
        proof {
            assert(self.edges@.take(self.edges@.len() as int) =~= self.edges@);
        }
        out
    }

    /// The types of the edges from `source` to `target`, in edge order.
    pub fn edges_connecting(&self, source: usize, target: usize) -> (r: Vec<EdgeType>)
        ensures
            r@ == connecting(self.edges@, source, target),
    {
        let mut out: Vec<EdgeType> = Vec::new();
        let mut i: usize = 0;
        while i < self.edges.len()
            invariant
                0 <= i <= self.edges@.len(),
                out@ =~= connecting(self.edges@.take(i as int), source, target),
            decreases self.edges@.len() - i,
        {
            proof {
                assert(self.edges@.take(i as int + 1).drop_last() =~= self.edges@.take(i as int));
                assert(self.edges@.take(i as int + 1).last() == self.edges@[i as int]);
            }
            let e = &self.edges[i];
            if e.source == source && e.target == target {
                out.push(e.data.edge_type);
            }
            i = i + 1;
        }
        proof {
            assert(self.edges@.take(self.edges@.len() as int) =~= self.edges@);
        }
        out
    }

    /// The serialized form of the store: the embedding binary writes it to
    /// `knowledge_graph.json` and reads it back through `restore`.
    pub fn snapshot(&self) -> (s: GraphSnapshot)
        ensures
            s.graph_id == self.graph_id,
            s.edges@ == self.edges@,
            s.pkm_to_node@ == self.pkm_to_node@,
            s.nodes@.len() == self.nodes@.len(),
            forall|i: int|
                0 <= i < self.nodes@.len() ==> opt_node_eq(#[trigger] s.nodes@[i], self.nodes@[i]),
            s.last_incremental_sync == self.last_incremental_sync,
            s.last_full_sync == self.last_full_sync,
            s.version == 1,
    {
        let mut nodes: Vec<Option<NodeData>> = Vec::new();
        let mut i: usize = 0;
        while i < self.nodes.len()
            invariant
                0 <= i <= self.nodes@.len(),
                nodes@.len() == i,
                forall|j: int|
                    0 <= j < i ==> opt_node_eq(#[trigger] nodes@[j], self.nodes@[j]),
            decreases self.nodes@.len() - i,
        {
            match &self.nodes[i] {
                Some(n) => {
                    nodes.push(Some(clone_node(n)));
                },
                None => {
                    nodes.push(None);
                },
            }
            i = i + 1;
        }
        let mut edges: Vec<Edge> = Vec::new();
        let mut j: usize = 0;
        while j < self.edges.len()
            invariant
                0 <= j <= self.edges@.len(),
                edges@ =~= self.edges@.take(j as int),
            decreases self.edges@.len() - j,
        {
            let e = &self.edges[j];
            edges.push(Edge { source: e.source, target: e.target, data: EdgeData { edge_type: e.data.edge_type } });
            proof {
                assert(self.edges@[j as int] == Edge {
                    source: self.edges@[j as int].source,
                    target: self.edges@[j as int].target,
                    data: EdgeData { edge_type: self.edges@[j as int].data.edge_type },
                });
                assert(edges@ =~= self.edges@.take(j as int + 1));
            }
            j = j + 1;
        }
        proof {
            assert(self.edges@.take(self.edges@.len() as int) =~= self.edges@);
        }
        let mut index: Vec<(String, usize)> = Vec::new();
        let mut q: usize = 0;
        while q < self.pkm_to_node.len()
            invariant
                0 <= q <= self.pkm_to_node@.len(),
                index@ =~= self.pkm_to_node@.take(q as int),
            decreases self.pkm_to_node@.len() - q,
        {
            let e = &self.pkm_to_node[q];
            index.push((e.0.clone(), e.1));
            proof {
                assert(self.pkm_to_node@[q as int] == (
                    self.pkm_to_node@[q as int].0,
                    self.pkm_to_node@[q as int].1,
                ));
                assert(index@ =~= self.pkm_to_node@.take(q as int + 1));
            }
            q = q + 1;
        }
        proof {
            assert(self.pkm_to_node@.take(self.pkm_to_node@.len() as int) =~= self.pkm_to_node@);
        }
        GraphSnapshot {
            graph_id: clone_opt_string(&self.graph_id),
            nodes,
            edges,
            pkm_to_node: index,
            last_incremental_sync: self.last_incremental_sync,
            last_full_sync: self.last_full_sync,
            version: 1,
        }
    }

    /// Rebuild a store from a snapshot read back from disk. The data is
    /// untrusted: it is accepted exactly when it satisfies the store's
    /// invariants; otherwise the caller starts with an empty store, as a
    /// failed load is non-fatal.
    pub fn restore(snapshot: GraphSnapshot) -> (r: Option<GraphManager>)
        ensures
            match r {
                Some(g) => ({
                    &&& g.wf()
                    &&& g.nodes@ == snapshot.nodes@
                    &&& g.edges@ == snapshot.edges@
                    &&& g.pkm_to_node@ == snapshot.pkm_to_node@
                    &&& g.graph_id == snapshot.graph_id
                    &&& g.last_incremental_sync == snapshot.last_incremental_sync
                    &&& g.last_full_sync == snapshot.last_full_sync
                    &&& g.auto_save_enabled
                    &&& !g.save_requested
                    &&& g.operations_since_save == 0
                }),
                None => true,
            },
            r is Some <==> wf_snapshot_data(&snapshot),
    {
        let g = GraphManager {
            graph_id: snapshot.graph_id,
            nodes: snapshot.nodes,
            edges: snapshot.edges,
            pkm_to_node: snapshot.pkm_to_node,
            last_incremental_sync: snapshot.last_incremental_sync,
            last_full_sync: snapshot.last_full_sync,
            last_save_time: now_millis(),
            operations_since_save: 0,
            auto_save_enabled: true,
            save_requested: false,
        };
        if g.check_well_formed() {
            Some(g)
        } else {
            None
        }
    }

    /// Decide the store's well-formedness from its data alone.
    #[verifier::loop_isolation(false)]
    #[verifier::rlimit(80)]
    pub fn check_well_formed(&self) -> (r: bool)
        ensures
            r == self.wf(),
    {
        // index entries: bounds, liveness, key agreement, distinct keys
        let mut i: usize = 0;
        while i < self.pkm_to_node.len()
            invariant
                0 <= i <= self.pkm_to_node@.len(),
                forall|a: int|
                    0 <= a < i ==> ({
                        let e = #[trigger] self.pkm_to_node@[a];
                        &&& (e.1 as int) < self.nodes@.len()
                        &&& self.nodes@[e.1 as int] is Some
                        &&& node_key(self.nodes@[e.1 as int]->0) == e.0@
                    }),
                forall|a: int, b: int|
                    0 <= a < b < i ==> (#[trigger] self.pkm_to_node@[a]).0@ != (
                    #[trigger] self.pkm_to_node@[b]).0@,
            decreases self.pkm_to_node@.len() - i,
        {
            let e = &self.pkm_to_node[i];
            if !(e.1 < self.nodes.len()) {
                return false;
            }
            let key_ok: bool = match &self.nodes[e.1] {
                Some(n) => {
                    match n.node_type {
                        NodeType::Page => {
                            let lowered = to_lowercase(n.pkm_id.as_str());
                            string_eq(&e.0, &lowered)
                        },
                        NodeType::Block => string_eq(&e.0, &n.pkm_id),
                    }
                },
                None => {
                    return false;
                },
            };
            if !key_ok {
                return false;
            }
            let mut b: usize = 0;
            while b < i
                invariant
                    0 <= b <= i < self.pkm_to_node@.len(),
                    forall|a: int|
                        0 <= a < b ==> (#[trigger] self.pkm_to_node@[a]).0@
                            != self.pkm_to_node@[i as int].0@,
                decreases i - b,
            {
                let prev = &self.pkm_to_node[b];
                if string_eq(&prev.0, &e.0) {
                    return false;
                }
                b = b + 1;
            }
            i = i + 1;
        }
        // every live node is found under its key at its own handle
        let mut h: usize = 0;
        while h < self.nodes.len()
            invariant
                0 <= h <= self.nodes@.len(),
                forall|a: int|
                    0 <= a < h && (#[trigger] self.nodes@[a]) is Some ==> spec_index_lookup(
                        self.pkm_to_node@,
                        node_key(self.nodes@[a]->0),
                    ) == Some(a as usize),
            decreases self.nodes@.len() - h,
        {
            let found: Option<usize> = match &self.nodes[h] {
                Some(n) => {
                    match n.node_type {
                        NodeType::Page => {
                            let lowered = to_lowercase(n.pkm_id.as_str());
                            self.get_node_index(lowered.as_str())
                        },
                        NodeType::Block => self.get_node_index(n.pkm_id.as_str()),
                    }
                },
                None => None,
            };
            if self.nodes[h].is_some() {
                match found {
                    Some(fh) => {
                        if fh != h {
                            return false;
                        }
                    },
                    None => {
                        return false;
                    },
                }
            }
            h = h + 1;
        }
        // edges: bounds, liveness, distinct triples
        let mut x: usize = 0;
        while x < self.edges.len()
            invariant
                0 <= x <= self.edges@.len(),
                forall|a: int|
                    0 <= a < x ==> ({
                        let e = #[trigger] self.edges@[a];
                        &&& (e.source as int) < self.nodes@.len()
                        &&& (e.target as int) < self.nodes@.len()
                        &&& self.nodes@[e.source as int] is Some
                        &&& self.nodes@[e.target as int] is Some
                    }),
                forall|a: int, b: int|
                    0 <= a < b < x ==> edge_triple(#[trigger] self.edges@[a]) != edge_triple(
                        #[trigger] self.edges@[b],
                    ),
            decreases self.edges@.len() - x,
        {
            let e = &self.edges[x];
            if !(e.source < self.nodes.len() && e.target < self.nodes.len()) {
                return false;
            }
            if self.nodes[e.source].is_none() || self.nodes[e.target].is_none() {
                return false;
            }
            let mut y: usize = 0;
            while y < x
                invariant
                    0 <= y <= x < self.edges@.len(),
                    forall|a: int|
                        0 <= a < y ==> edge_triple(#[trigger] self.edges@[a]) != edge_triple(
                            self.edges@[x as int],
                        ),
                decreases x - y,
            {
                let p = &self.edges[y];
                if p.source == e.source && p.target == e.target && p.data.edge_type
                    == e.data.edge_type {
                    return false;
                }
                y = y + 1;
            }
            x = x + 1;
        }
        true
    }

    pub fn disable_auto_save(&mut self)
        ensures
            !final(self).auto_save_enabled,
            final(self).nodes@ == old(self).nodes@,
            final(self).edges@ == old(self).edges@,
            final(self).pkm_to_node@ == old(self).pkm_to_node@,
            final(self).wf() == old(self).wf(),
    {
        self.auto_save_enabled = false;
    }

    /// Enable automatic saves (the default state).
    pub fn enable_auto_save(&mut self)
        ensures
            final(self).auto_save_enabled,
            final(self).nodes@ == old(self).nodes@,
            final(self).edges@ == old(self).edges@,
            final(self).pkm_to_node@ == old(self).pkm_to_node@,
            final(self).wf() == old(self).wf(),
    {
        self.auto_save_enabled = true;
    }

    /// Whether an autosave is due: five minutes since the last save, or ten
    /// mutations since the last save.
    pub fn should_save(&self) -> (r: bool)
        ensures
            self.operations_since_save >= 10 ==> r,
    {
        let now = now_millis();
        let elapsed_ms: i128 = now as i128 - self.last_save_time as i128;
        if elapsed_ms >= 5i128 * 60 * 1000 {
            return true;
        }
        self.operations_since_save >= 10
    }

    /// Fire the autosave trigger when due: reset the counters and raise
    /// `save_requested` for the embedding binary to write the snapshot.
    fn save_if_needed(&mut self)
        ensures
            final(self).nodes@ == old(self).nodes@,
            final(self).edges@ == old(self).edges@,
            final(self).pkm_to_node@ == old(self).pkm_to_node@,
            final(self).wf() == old(self).wf(),
            unchanged_bookkeeping(old(self), final(self)),
            old(self).auto_save_enabled && old(self).operations_since_save >= 10 ==> final(self).operations_since_save == 0 && final(self).save_requested,
            final(self).operations_since_save == old(self).operations_since_save || (final(self).operations_since_save == 0 && final(self).save_requested),
            old(self).save_requested ==> final(self).save_requested,
    {
        if self.auto_save_enabled && self.should_save() {
            self.save_requested = true;
            self.operations_since_save = 0;
            self.last_save_time = now_millis();
        }
    }

    /// Lower the save request; the embedding binary calls this after
    /// writing the snapshot.
    pub fn take_save_request(&mut self) -> (r: bool)
        ensures
            r == old(self).save_requested,
            !final(self).save_requested,
            final(self).nodes@ == old(self).nodes@,
            final(self).edges@ == old(self).edges@,
            final(self).pkm_to_node@ == old(self).pkm_to_node@,
            final(self).wf() == old(self).wf(),
    {
        let r = self.save_requested;
        self.save_requested = false;
        r
    }

    /// Restore a node's creation stamp in place: every other field, the
    /// index, the edges and the counters stay exactly as they are.
    pub fn set_node_created_at(&mut self, h: usize, v: i64)
        requires
            old(self).wf(),
            h < old(self).nodes@.len(),
            old(self).nodes@[h as int] is Some,
        ensures
            final(self).wf(),
            final(self).edges@ == old(self).edges@,
            final(self).pkm_to_node@ == old(self).pkm_to_node@,
            final(self).nodes@.len() == old(self).nodes@.len(),
            unchanged_bookkeeping(old(self), final(self)),
            final(self).operations_since_save == old(self).operations_since_save,
            final(self).save_requested == old(self).save_requested,
            final(self).last_save_time == old(self).last_save_time,
            forall|i: int|
                0 <= i < old(self).nodes@.len() && i != h ==> final(self).nodes@[i] == old(self).nodes@[i],
            (final(self).nodes@[h as int] matches Some(n) && (old(self).nodes@[h as int] matches Some(n0) && ({
                &&& n.created_at == v
                &&& n.id == n0.id
                &&& n.pkm_id == n0.pkm_id
                &&& n.node_type == n0.node_type
                &&& n.content == n0.content
                &&& n.reference_content == n0.reference_content
                &&& n.properties@ == n0.properties@
                &&& n.updated_at == n0.updated_at
            }))),
    {
        let ghost pre = *self;
        let replacement: Option<NodeData> = match &self.nodes[h] {
            Some(n) => {
                let mut c = clone_node(n);
                c.created_at = v;
                Some(c)
            },
            None => None,
        };
        let slot = &mut self.nodes[h];
        *slot = replacement;
        proof {
            assert(self.nodes@[h as int] is Some);
            assert(node_key(self.nodes@[h as int]->0) == node_key(pre.nodes@[h as int]->0));
            assert(self.nodes@ == pre.nodes@.update(h as int, self.nodes@[h as int]));
            lemma_store_update(pre, *self, h);
        }
    }
}

/// Whether every reference of the block carries a known kind.
pub open spec fn all_refs_valid(d: &PKMBlockData) -> bool {
    forall|i: int| 0 <= i < d.references@.len() ==> valid_ref_kind(&(#[trigger] d.references@[i]))
}

/// The handle an upsert of this identifier lands on: the existing node's,
/// or the next fresh one.
pub open spec fn upsert_handle(g: &GraphManager, id: Seq<char>) -> usize {
    match spec_index_lookup(g.pkm_to_node@, id) {
        Some(h) => h,
        None => g.nodes@.len() as usize,
    }
}

/// What the installed node owes to the block data: same identifier and
/// content, block type, the same resolved content and properties, and
/// timestamps honouring the RFC 3339 reading of the given stamps.
pub open spec fn block_node_matches(n: NodeData, d: &PKMBlockData) -> bool {
    &&& n.pkm_id@ == d.id@
    &&& n.node_type == NodeType::Block
    &&& n.content@ == d.content@
    &&& (match (n.reference_content, d.reference_content) {
        (Some(a), Some(b)) => a@ == b@,
        (None, None) => true,
        _ => false,
    })
    &&& n.properties@ == d.properties@
    &&& (crate::utils::rfc3339_millis_of(d.created@) matches Some(ms) ==> n.created_at == ms)
    &&& (crate::utils::rfc3339_millis_of(d.updated@) matches Some(ms) ==> n.updated_at == ms)
}

/// What the installed page node owes to the page data.
pub open spec fn page_node_matches(n: NodeData, d: &PKMPageData) -> bool {
    &&& n.pkm_id@ == d.name@
    &&& n.node_type == NodeType::Page
    &&& n.content@ == d.name@
    &&& n.reference_content is None
    &&& n.properties@ == d.properties@
    &&& (crate::utils::rfc3339_millis_of(d.created@) matches Some(ms) ==> n.created_at == ms)
    &&& (crate::utils::rfc3339_millis_of(d.updated@) matches Some(ms) ==> n.updated_at == ms)
}

/// What resolving one reference leaves behind: the target filed and the
/// typed edge from the block present.
pub open spec fn ref_established(g: &GraphManager, rf: PKMReference, h: usize) -> bool {
    if rf.ref_type@ == "block"@ {
        g.spec_lookup(rf.id@) matches Some(t) && has_triple(g.edges@, (h, t, EdgeType::BlockRef))
    } else if rf.ref_type@ == "page"@ {
        exists|t: usize|
            (g.spec_lookup(rf.name@) == Some(t) || g.spec_lookup(lower_of(rf.name@)) == Some(t))
                && #[trigger] has_triple(g.edges@, (h, t, EdgeType::PageRef))
    } else if rf.ref_type@ == "tag"@ {
        exists|t: usize|
            (g.spec_lookup(rf.name@) == Some(t) || g.spec_lookup(lower_of(rf.name@)) == Some(t))
                && #[trigger] has_triple(g.edges@, (h, t, EdgeType::Tag))
    } else {
        true
    }
}

/// Whether the block's page and its page or tag references stay clear of a
/// key, so that nothing but a block placeholder can be created under it.
pub open spec fn page_key_free(d: &PKMBlockData, k: Seq<char>) -> bool {
    &&& (d.page matches Some(pg) ==> lower_of(pg@) != k)
    &&& (forall|j: int|
        0 <= j < d.references@.len() ==> (((#[trigger] d.references@[j]).ref_type@ == "page"@
            || d.references@[j].ref_type@ == "tag"@) ==> lower_of(d.references@[j].name@) != k))
}

/// A minimal block node standing in for a forward reference: empty
/// content, the referenced identifier as its own.
pub open spec fn is_block_placeholder(g: &GraphManager, t: usize, k: Seq<char>) -> bool {
    t < g.nodes@.len() && (g.nodes@[t as int] matches Some(n) && n.node_type == NodeType::Block
        && n.pkm_id@ == k && n.content@.len() == 0)
}

/// Every key the upsert filed beyond the pre-state (other than the block's
/// own, and clear of page keys) holds a block placeholder.
pub open spec fn new_nodes_are_placeholders(
    g0: &GraphManager,
    g: &GraphManager,
    d: &PKMBlockData,
) -> bool {
    forall|k: Seq<char>|
        ((#[trigger] g.spec_lookup(k)) is Some && g0.spec_lookup(k) is None && k != d.id@
            && page_key_free(d, k)) ==> is_block_placeholder(g, g.spec_lookup(k)->0, k)
}

/// What a block reference with an unknown target owes: a placeholder block
/// filed under the referenced identifier.
pub open spec fn placeholder_established(
    g0: &GraphManager,
    g: &GraphManager,
    rf: PKMReference,
    d: &PKMBlockData,
) -> bool {
    (rf.ref_type@ == "block"@ && rf.id@ != d.id@ && g0.spec_lookup(rf.id@) is None && page_key_free(
        d,
        rf.id@,
    )) ==> (g.spec_lookup(rf.id@) is Some && is_block_placeholder(g, g.spec_lookup(rf.id@)->0, rf.id@))
}

/// The parent edge the upsert owes, when the parent is resolvable against
/// the pre-state (or is the block itself).
pub open spec fn parent_edge_ok(g0: &GraphManager, g: &GraphManager, d: &PKMBlockData, h: usize) -> bool {
    d.parent matches Some(p) ==> ({
        let pt = if p@ == d.id@ {
            Some(h)
        } else {
            g0.spec_lookup(p@)
        };
        pt matches Some(t) ==> has_triple(g.edges@, (t, h, EdgeType::ParentChild))
    })
}

/// The page edge a root block owes.
pub open spec fn page_edge_ok(g: &GraphManager, d: &PKMBlockData, h: usize) -> bool {
    (d.page matches Some(pg) && d.parent is None) ==> exists|t: usize|
        #[trigger] has_triple(g.edges@, (t, h, EdgeType::PageToBlock))
}

/// The page key a block with a page owes.
pub open spec fn page_key_ok(g: &GraphManager, d: &PKMBlockData) -> bool {
    d.page matches Some(pg) ==> page_target(g.pkm_to_node@, pg@) is Some
}

/// An edge present in a prefix-preserved extension stays present.
pub proof fn lemma_has_triple_extend(a: Seq<Edge>, b: Seq<Edge>, t: (usize, usize, EdgeType))
    requires
        a.len() <= b.len(),
        b.take(a.len() as int) == a,
        has_triple(a, t),
    ensures
        has_triple(b, t),
{
    let i = choose|i: int| 0 <= i < a.len() && edge_triple(#[trigger] a[i]) == t;
    assert(b.take(a.len() as int)[i] == b[i]);
    assert(edge_triple(b[i]) == t);
}

/// `store_extends` composes.
pub proof fn lemma_store_extends_trans(a: &GraphManager, b: &GraphManager, c: &GraphManager)
    requires
        store_extends(a, b),
        store_extends(b, c),
    ensures
        store_extends(a, c),
{
    assert(c.edges@.take(a.edges@.len() as int) =~= c.edges@.take(b.edges@.len() as int).take(
        a.edges@.len() as int,
    ));
    assert forall|k: Seq<char>| #[trigger]
        spec_index_lookup(a.pkm_to_node@, k) is Some implies spec_index_lookup(c.pkm_to_node@, k)
        == spec_index_lookup(a.pkm_to_node@, k) by {
        assert(spec_index_lookup(b.pkm_to_node@, k) == spec_index_lookup(a.pkm_to_node@, k));
    }
}

/// Rewriting one live slot with a node of the same key preserves the
/// invariants.
proof fn lemma_store_update(pre: GraphManager, post: GraphManager, h: usize)
    requires
        pre.wf(),
        h < pre.nodes@.len(),
        pre.nodes@[h as int] is Some,
        post.nodes@[h as int] is Some,
        post.nodes@ == pre.nodes@.update(h as int, post.nodes@[h as int]),
        node_key(post.nodes@[h as int]->0) == node_key(pre.nodes@[h as int]->0),
        post.pkm_to_node@ == pre.pkm_to_node@,
        post.edges@ == pre.edges@,
    ensures
        post.wf(),
{
    assert forall|i: int| 0 <= i < post.pkm_to_node@.len() implies {
        let e = #[trigger] post.pkm_to_node@[i];
        &&& (e.1 as int) < post.nodes@.len()
        &&& post.nodes@[e.1 as int] is Some
        &&& node_key(post.nodes@[e.1 as int]->0) == e.0@
    } by {
        let e = post.pkm_to_node@[i];
        if e.1 as int != h as int {
            assert(post.nodes@[e.1 as int] == pre.nodes@[e.1 as int]);
        }
    }
    assert forall|hh: int|
        0 <= hh < post.nodes@.len() && (#[trigger] post.nodes@[hh]) is Some implies
        spec_index_lookup(post.pkm_to_node@, node_key(post.nodes@[hh]->0)) == Some(hh as usize) by {
        if hh != h as int {
            assert(post.nodes@[hh] == pre.nodes@[hh]);
        }
    }
}

/// Whether a reference kind is one the store understands.
pub open spec fn valid_ref_kind(r: &PKMReference) -> bool {
    r.ref_type@ == "page"@ || r.ref_type@ == "block"@ || r.ref_type@ == "tag"@ || r.ref_type@
        == "property"@
}

/// Where a `page` or `tag` reference lands in a given store state: the
/// existing raw-or-lower-cased hit, or the next fresh handle.
pub open spec fn ref_page_handle(g: &GraphManager, name: Seq<char>) -> usize {
    match page_target(g.pkm_to_node@, name) {
        Some(t) => t,
        None => g.nodes@.len() as usize,
    }
}

/// Where a `block` reference lands in a given store state: the existing
/// node, or the next fresh handle for the placeholder.
pub open spec fn ref_block_handle(g: &GraphManager, id: Seq<char>) -> usize {
    match spec_index_lookup(g.pkm_to_node@, id) {
        Some(t) => t,
        None => g.nodes@.len() as usize,
    }
}

/// A mutation only ever extends the arena and the index (node slots may be
/// rewritten, but handles and filed keys survive), and existing lookups
/// keep their handles.
pub open spec fn store_extends(a: &GraphManager, b: &GraphManager) -> bool {
    &&& a.nodes@.len() <= b.nodes@.len()
    &&& a.pkm_to_node@.len() <= b.pkm_to_node@.len()
    &&& a.edges@.len() <= b.edges@.len()
    &&& b.edges@.take(a.edges@.len() as int) == a.edges@
    &&& forall|k: Seq<char>|
        #[trigger] spec_index_lookup(a.pkm_to_node@, k) is Some ==> spec_index_lookup(
            b.pkm_to_node@,
            k,
        ) == spec_index_lookup(a.pkm_to_node@, k)
}

/// The counters and flags a structural mutation leaves alone (except the
/// operation counter, which it may advance).
pub open spec fn unchanged_bookkeeping(a: &GraphManager, b: &GraphManager) -> bool {
    &&& a.graph_id == b.graph_id
    &&& a.last_incremental_sync == b.last_incremental_sync
    &&& a.last_full_sync == b.last_full_sync
    &&& a.auto_save_enabled == b.auto_save_enabled
}

/// Dropping a non-matching tail does not change a lookup.
pub proof fn lemma_index_skip_tail(m: Seq<(String, usize)>, k: Seq<char>, i: int)
    requires
        0 <= i <= m.len(),
        forall|j: int| i <= j < m.len() ==> (#[trigger] m[j]).0@ != k,
    ensures
        spec_index_lookup(m, k) == spec_index_lookup(m.take(i), k),
    decreases m.len() - i,
{
    if i < m.len() {
        assert(m.last().0@ != k);
        assert(m.drop_last() =~= m.take(m.len() - 1));
        lemma_index_skip_tail(m.drop_last(), k, i);
        assert(m.drop_last().take(i) =~= m.take(i));
    } else {
        assert(m.take(i) =~= m);
    }
}

/// A successful lookup returns an entry of the index.
pub proof fn lemma_index_lookup_valid(m: Seq<(String, usize)>, k: Seq<char>)
    ensures
        spec_index_lookup(m, k) matches Some(h) ==> exists|i: int|
            0 <= i < m.len() && (#[trigger] m[i]).0@ == k && m[i].1 == h,
    decreases m.len(),
{
    if m.len() > 0 {
        if m.last().0@ == k {
            assert(m[m.len() - 1].0@ == k);
        } else {
            lemma_index_lookup_valid(m.drop_last(), k);
            match spec_index_lookup(m, k) {
                Some(h) => {
                    let i = choose|i: int|
                        0 <= i < m.drop_last().len() && (#[trigger] m.drop_last()[i]).0@ == k
                            && m.drop_last()[i].1 == h;
                    assert(m[i].0@ == k && m[i].1 == h);
                },
                None => {},
            }
        }
    }
}

/// Pushing an entry under a fresh key preserves existing lookups.
pub proof fn lemma_index_lookup_push(m: Seq<(String, usize)>, e: (String, usize), k: Seq<char>)
    ensures
        spec_index_lookup(m.push(e), k) == if e.0@ == k {
            Some(e.1)
        } else {
            spec_index_lookup(m, k)
        },
{
    assert(m.push(e).drop_last() =~= m);
    assert(m.push(e).last() == e);
}

/// Adding a fresh node with a fresh key preserves the invariants.
proof fn lemma_store_extend(pre: GraphManager, post: GraphManager, h: usize)
    requires
        pre.wf(),
        h == pre.nodes@.len(),
        post.nodes@ == pre.nodes@.push(Some(post.nodes@.last()->0)),
        post.nodes@.last() is Some,
        post.pkm_to_node@ == pre.pkm_to_node@.push((post.pkm_to_node@.last().0, h)),
        post.pkm_to_node@.last().0@ == node_key(post.nodes@.last()->0),
        spec_index_lookup(pre.pkm_to_node@, node_key(post.nodes@.last()->0)) is None,
        post.edges@ == pre.edges@,
    ensures
        post.wf(),
        spec_index_lookup(post.pkm_to_node@, node_key(post.nodes@.last()->0)) == Some(h),
        forall|k: Seq<char>|
            k != node_key(post.nodes@.last()->0) ==> #[trigger] spec_index_lookup(
                post.pkm_to_node@,
                k,
            ) == spec_index_lookup(pre.pkm_to_node@, k),
{
    let newkey = node_key(post.nodes@.last()->0);
    lemma_index_lookup_valid(pre.pkm_to_node@, newkey);
    assert forall|k: Seq<char>| true implies #[trigger] spec_index_lookup(post.pkm_to_node@, k) == (
    if k == newkey {
        Some(h)
    } else {
        spec_index_lookup(pre.pkm_to_node@, k)
    }) by {
        lemma_index_lookup_push(pre.pkm_to_node@, (post.pkm_to_node@.last().0, h), k);
    }
    // distinct keys: the new key is absent from the old index
    assert forall|i: int, j: int| 0 <= i < j < post.pkm_to_node@.len() implies (
    #[trigger] post.pkm_to_node@[i]).0@ != (#[trigger] post.pkm_to_node@[j]).0@ by {
        if j == post.pkm_to_node@.len() - 1 {
            if post.pkm_to_node@[i].0@ == newkey {
                assert(spec_index_lookup(pre.pkm_to_node@, newkey) is None);
                lemma_index_lookup_some(pre.pkm_to_node@, i);
            }
        }
    }
    // entries point at live nodes under the right keys
    assert forall|i: int| 0 <= i < post.pkm_to_node@.len() implies {
        let e = #[trigger] post.pkm_to_node@[i];
        &&& (e.1 as int) < post.nodes@.len()
        &&& post.nodes@[e.1 as int] is Some
        &&& node_key(post.nodes@[e.1 as int]->0) == e.0@
    } by {
        if i < post.pkm_to_node@.len() - 1 {
            assert(post.pkm_to_node@[i] == pre.pkm_to_node@[i]);
            assert(post.nodes@[post.pkm_to_node@[i].1 as int] == pre.nodes@[pre.pkm_to_node@[i].1 as int]);
        }
    }
    // every live node is still found under its key
    assert forall|hh: int|
        0 <= hh < post.nodes@.len() && (#[trigger] post.nodes@[hh]) is Some implies
        spec_index_lookup(post.pkm_to_node@, node_key(post.nodes@[hh]->0)) == Some(hh as usize) by {
        if hh < post.nodes@.len() - 1 {
            assert(post.nodes@[hh] == pre.nodes@[hh]);
            assert(node_key(post.nodes@[hh]->0) != newkey);
        }
    }
}

/// One archived node with its incident edges.
pub struct ArchivedNode {
    pub pkm_id: String,
    pub node_index: usize,
    pub node: NodeData,
    /// `(target, type)` of each outgoing edge.
    pub edges_out: Vec<(usize, EdgeType)>,
    /// `(source, type)` of each incoming edge.
    pub edges_in: Vec<(usize, EdgeType)>,
}

/// The record `archive_nodes` produces; the embedding binary writes it as
/// a timestamped JSON file under the graph's archive directory.
pub struct NodeArchive {
    pub timestamp: i64,
    pub graph_id: Option<String>,
    pub archived_pages: usize,
    pub archived_blocks: usize,
    pub entries: Vec<ArchivedNode>,
}

/// Whether some archive argument names this handle.
pub open spec fn handle_in(args: Seq<(String, usize)>, h: int) -> bool {
    exists|j: int| 0 <= j < args.len() && (#[trigger] args[j]).1 == h
}

/// The archive arguments that name a live node, in order.
pub open spec fn live_args(g: &GraphManager, args: Seq<(String, usize)>) -> Seq<(String, usize)>
    decreases args.len(),
{
    if args.len() == 0 {
        Seq::empty()
    } else {
        let rest = live_args(g, args.drop_last());
        let a = args.last();
        if a.1 < g.nodes@.len() && g.nodes@[a.1 as int] is Some {
            rest.push(a)
        } else {
            rest
        }
    }
}

/// `(target, type)` of the edges leaving `h`, in edge order.
pub open spec fn out_edges(es: Seq<Edge>, h: usize) -> Seq<(usize, EdgeType)>
    decreases es.len(),
{
    if es.len() == 0 {
        Seq::empty()
    } else {
        let rest = out_edges(es.drop_last(), h);
        if es.last().source == h {
            rest.push((es.last().target, es.last().data.edge_type))
        } else {
            rest
        }
    }
}

/// `(source, type)` of the edges entering `h`, in edge order.
pub open spec fn in_edges(es: Seq<Edge>, h: usize) -> Seq<(usize, EdgeType)>
    decreases es.len(),
{
    if es.len() == 0 {
        Seq::empty()
    } else {
        let rest = in_edges(es.drop_last(), h);
        if es.last().target == h {
            rest.push((es.last().source, es.last().data.edge_type))
        } else {
            rest
        }
    }
}

/// The edges that survive an archive: those touching no archived handle.
pub open spec fn kept_edges(es: Seq<Edge>, args: Seq<(String, usize)>) -> Seq<Edge>
    decreases es.len(),
{
    if es.len() == 0 {
        Seq::empty()
    } else {
        let rest = kept_edges(es.drop_last(), args);
        if !handle_in(args, es.last().source as int) && !handle_in(args, es.last().target as int) {
            rest.push(es.last())
        } else {
            rest
        }
    }
}

/// The index entries that survive an archive.
pub open spec fn kept_index(m: Seq<(String, usize)>, args: Seq<(String, usize)>) -> Seq<
    (String, usize),
>
    decreases m.len(),
{
    if m.len() == 0 {
        Seq::empty()
    } else {
        let rest = kept_index(m.drop_last(), args);
        if !handle_in(args, m.last().1 as int) {
            rest.push(m.last())
        } else {
            rest
        }
    }
}

fn handle_in_exec(args: &Vec<(String, usize)>, h: usize) -> (r: bool)
    ensures
        r == handle_in(args@, h as int),
{
    let mut j: usize = 0;
    while j < args.len()
        invariant
            0 <= j <= args@.len(),
            forall|i: int| 0 <= i < j ==> (#[trigger] args@[i]).1 != h,
        decreases args@.len() - j,
    {
        if args[j].1 == h {
            proof {
                assert((args@[j as int]).1 == h);
            }
            return true;
        }
        j = j + 1;
    }
    false
}

/// Field-by-field equality of two nodes (properties compared by view).
pub open spec fn node_eq(a: NodeData, b: NodeData) -> bool {
    &&& a.id == b.id
    &&& a.pkm_id == b.pkm_id
    &&& a.node_type == b.node_type
    &&& a.content == b.content
    &&& a.reference_content == b.reference_content
    &&& a.properties@ == b.properties@
    &&& a.created_at == b.created_at
    &&& a.updated_at == b.updated_at
}

/// Clones a node, field by field.
pub fn clone_node(n: &NodeData) -> (r: NodeData)
    ensures
        node_eq(r, *n),
{
    NodeData {
        id: n.id.clone(),
        pkm_id: n.pkm_id.clone(),
        node_type: n.node_type,
        content: n.content.clone(),
        reference_content: match &n.reference_content {
            Some(s) => Some(s.clone()),
            None => None,
        },
        properties: clone_pairs(&n.properties),
        created_at: n.created_at,
        updated_at: n.updated_at,
    }
}

fn clone_opt_string(o: &Option<String>) -> (r: Option<String>)
    ensures
        r == *o,
{
    match o {
        Some(s) => Some(s.clone()),
        None => None,
    }
}

/// Elements surviving an archive come from the unfiltered edge list and
/// touch no archived handle; distinct triples stay distinct.
proof fn lemma_kept_edges_props(es: Seq<Edge>, args: Seq<(String, usize)>)
    requires
        forall|i: int, j: int|
            0 <= i < j < es.len() ==> edge_triple(#[trigger] es[i]) != edge_triple(
                #[trigger] es[j],
            ),
    ensures
        forall|j: int|
            0 <= j < kept_edges(es, args).len() ==> es.contains(#[trigger] kept_edges(es, args)[j])
                && !handle_in(args, kept_edges(es, args)[j].source as int) && !handle_in(
                args,
                kept_edges(es, args)[j].target as int,
            ),
        forall|i: int, j: int|
            0 <= i < j < kept_edges(es, args).len() ==> edge_triple(
                #[trigger] kept_edges(es, args)[i],
            ) != edge_triple(#[trigger] kept_edges(es, args)[j]),
    decreases es.len(),
{
    if es.len() > 0 {
        assert(forall|i: int, j: int|
            0 <= i < j < es.drop_last().len() ==> edge_triple(#[trigger] es.drop_last()[i])
                != edge_triple(#[trigger] es.drop_last()[j]));
        lemma_kept_edges_props(es.drop_last(), args);
        let rest = kept_edges(es.drop_last(), args);
        assert forall|j: int| 0 <= j < rest.len() implies es.contains(#[trigger] rest[j]) by {
            let w = choose|w: int| 0 <= w < es.drop_last().len() && es.drop_last()[w] == rest[j];
            assert(es[w] == rest[j]);
        }
        if !handle_in(args, es.last().source as int) && !handle_in(
            args,
            es.last().target as int,
        ) {
            assert(es.contains(es.last())) by {
                assert(es[es.len() - 1] == es.last());
            }
            // the appended edge's triple differs from every kept one
            assert forall|i: int| 0 <= i < rest.len() implies edge_triple(rest[i]) != edge_triple(
                es.last(),
            ) by {
                let w = choose|w: int|
                    0 <= w < es.drop_last().len() && es.drop_last()[w] == rest[i];
                assert(es[w] == rest[i]);
                assert(edge_triple(es[w]) != edge_triple(es[es.len() - 1]));
            }
        }
    }
}

/// Elements surviving an archive in the index come from the unfiltered
/// entries and point at no archived handle.
proof fn lemma_kept_index_elems(m: Seq<(String, usize)>, args: Seq<(String, usize)>)
    ensures
        forall|j: int|
            0 <= j < kept_index(m, args).len() ==> m.contains(#[trigger] kept_index(m, args)[j])
                && !handle_in(args, kept_index(m, args)[j].1 as int),
        forall|j: int|
            0 <= j < kept_index(m, args).len() ==> (exists|w: int|
                0 <= w < m.len() && m[w] == #[trigger] kept_index(m, args)[j]),
    decreases m.len(),
{
    if m.len() > 0 {
        lemma_kept_index_elems(m.drop_last(), args);
        let rest = kept_index(m.drop_last(), args);
        assert forall|j: int| 0 <= j < rest.len() implies m.contains(#[trigger] rest[j]) && (
        exists|w: int| 0 <= w < m.len() && #[trigger] m[w] == rest[j]) by {
            let w = choose|w: int| 0 <= w < m.drop_last().len() && #[trigger] m.drop_last()[w]
                == rest[j];
            assert(m[w] == rest[j]);
        }
        if !handle_in(args, m.last().1 as int) {
            assert(m[m.len() - 1] == m.last());
        }
    }
}

/// Effect of an archive on index lookups, under distinct keys.
proof fn lemma_kept_index_lookup(m: Seq<(String, usize)>, args: Seq<(String, usize)>, k: Seq<char>)
    requires
        distinct_keys(m),
    ensures
        spec_index_lookup(kept_index(m, args), k) == (match spec_index_lookup(m, k) {
            Some(h) => if handle_in(args, h as int) {
                None
            } else {
                Some(h)
            },
            None => None::<usize>,
        }),
    decreases m.len(),
{
    if m.len() > 0 {
        assert(forall|a: int, b: int|
            0 <= a < b < m.drop_last().len() ==> (#[trigger] m.drop_last()[a]).0@ != (
            #[trigger] m.drop_last()[b]).0@);
        lemma_kept_index_lookup(m.drop_last(), args, k);
        let rest = kept_index(m.drop_last(), args);
        if !handle_in(args, m.last().1 as int) {
            lemma_index_lookup_push(rest, m.last(), k);
        } else {
            if m.last().0@ == k {
                // no earlier entry can carry this key
                lemma_index_lookup_valid(m.drop_last(), k);
                if spec_index_lookup(m.drop_last(), k) is Some {
                    let j = choose|j: int|
                        0 <= j < m.drop_last().len() && (#[trigger] m.drop_last()[j]).0@ == k
                            && m.drop_last()[j].1 == spec_index_lookup(m.drop_last(), k)->0;
                    assert(m[j].0@ == k);
                    assert((m[j]).0@ == (m[m.len() - 1]).0@);
                    assert(false);
                }
            }
        }
    }
}

/// Removing archived nodes with their index entries and incident edges
/// preserves the invariants.
proof fn lemma_archive_wf(pre: GraphManager, post: GraphManager, args: Seq<(String, usize)>)
    requires
        pre.wf(),
        post.nodes@.len() == pre.nodes@.len(),
        forall|i: int|
            0 <= i < pre.nodes@.len() ==> #[trigger] post.nodes@[i] == (if handle_in(args, i) {
                None
            } else {
                pre.nodes@[i]
            }),
        post.edges@ == kept_edges(pre.edges@, args),
        post.pkm_to_node@ == kept_index(pre.pkm_to_node@, args),
    ensures
        post.wf(),
{
    lemma_kept_edges_props(pre.edges@, args);
    lemma_kept_index_elems(pre.pkm_to_node@, args);
    // index entries point at live nodes under the right keys
    assert forall|i: int| 0 <= i < post.pkm_to_node@.len() implies {
        let e = #[trigger] post.pkm_to_node@[i];
        &&& (e.1 as int) < post.nodes@.len()
        &&& post.nodes@[e.1 as int] is Some
        &&& node_key(post.nodes@[e.1 as int]->0) == e.0@
    } by {
        let e = post.pkm_to_node@[i];
        let w = choose|w: int|
            0 <= w < pre.pkm_to_node@.len() && #[trigger] pre.pkm_to_node@[w] == e;
        assert(!handle_in(args, e.1 as int));
        assert(post.nodes@[e.1 as int] == pre.nodes@[e.1 as int]);
    }
    // distinct keys survive the filtering
    assert forall|a: int, b: int| 0 <= a < b < post.pkm_to_node@.len() implies (
    #[trigger] post.pkm_to_node@[a]).0@ != (#[trigger] post.pkm_to_node@[b]).0@ by {
        lemma_kept_index_distinct(pre.pkm_to_node@, args);
    }
    // every surviving node is found under its key
    assert forall|h: int|
        0 <= h < post.nodes@.len() && (#[trigger] post.nodes@[h]) is Some implies
        spec_index_lookup(post.pkm_to_node@, node_key(post.nodes@[h]->0)) == Some(h as usize) by {
        assert(!handle_in(args, h));
        assert(post.nodes@[h] == pre.nodes@[h]);
        assert(pre.nodes@[h] is Some);
        vstd::std_specs::vec::axiom_spec_len(&pre.nodes);
        assert(spec_index_lookup(pre.pkm_to_node@, node_key(pre.nodes@[h]->0)) == Some(
            h as usize,
        ));
        lemma_kept_index_lookup(pre.pkm_to_node@, args, node_key(pre.nodes@[h]->0));
    }
    // surviving edges connect surviving nodes
    assert forall|i: int| 0 <= i < post.edges@.len() implies {
        let e = #[trigger] post.edges@[i];
        &&& (e.source as int) < post.nodes@.len()
        &&& (e.target as int) < post.nodes@.len()
        &&& post.nodes@[e.source as int] is Some
        &&& post.nodes@[e.target as int] is Some
    } by {
        let e = post.edges@[i];
        assert(pre.edges@.contains(e));
        let w = choose|w: int| 0 <= w < pre.edges@.len() && pre.edges@[w] == e;
        assert(post.nodes@[e.source as int] == pre.nodes@[e.source as int]);
        assert(post.nodes@[e.target as int] == pre.nodes@[e.target as int]);
    }
}

/// Distinct keys survive the archive filtering.
proof fn lemma_kept_index_distinct(m: Seq<(String, usize)>, args: Seq<(String, usize)>)
    requires
        distinct_keys(m),
    ensures
        distinct_keys(kept_index(m, args)),
    decreases m.len(),
{
    if m.len() > 0 {
        assert(forall|a: int, b: int|
            0 <= a < b < m.drop_last().len() ==> (#[trigger] m.drop_last()[a]).0@ != (
            #[trigger] m.drop_last()[b]).0@);
        lemma_kept_index_distinct(m.drop_last(), args);
        lemma_kept_index_elems(m.drop_last(), args);
        let rest = kept_index(m.drop_last(), args);
        if !handle_in(args, m.last().1 as int) {
            assert forall|a: int, b: int|
                0 <= a < b < rest.push(m.last()).len() implies (#[trigger] rest.push(
                m.last(),
            )[a]).0@ != (#[trigger] rest.push(m.last())[b]).0@ by {
                if b == rest.len() {
                    let w = choose|w: int|
                        0 <= w < m.drop_last().len() && #[trigger] m.drop_last()[w] == rest[a];
                    assert(m[w] == rest[a]);
                    assert((m[w]).0@ != (m[m.len() - 1]).0@);
                }
            }
        }
    }
}

/// `(pkm_id, content)` of every block node, in handle order.
pub open spec fn block_content_map(nodes: Seq<Option<NodeData>>) -> Seq<(String, String)>
    decreases nodes.len(),
{
    if nodes.len() == 0 {
        Seq::empty()
    } else {
        let rest = block_content_map(nodes.drop_last());
        match nodes.last() {
            Some(n) => if n.node_type == NodeType::Block {
                rest.push((n.pkm_id, n.content))
            } else {
                rest
            },
            None => rest,
        }
    }
}

/// Targets of the edges leaving `h`, in edge order.
pub open spec fn spec_neighbors(es: Seq<Edge>, h: usize) -> Seq<usize>
    decreases es.len(),
{
    if es.len() == 0 {
        Seq::empty()
    } else {
        let rest = spec_neighbors(es.drop_last(), h);
        if es.last().source == h {
            rest.push(es.last().target)
        } else {
            rest
        }
    }
}

/// Types of the edges from `source` to `target`, in edge order.
pub open spec fn connecting(es: Seq<Edge>, source: usize, target: usize) -> Seq<EdgeType>
    decreases es.len(),
{
    if es.len() == 0 {
        Seq::empty()
    } else {
        let rest = connecting(es.drop_last(), source, target);
        if es.last().source == source && es.last().target == target {
            rest.push(es.last().data.edge_type)
        } else {
            rest
        }
    }
}

/// Equality of optional nodes, nodes compared field by field.
pub open spec fn opt_node_eq(a: Option<NodeData>, b: Option<NodeData>) -> bool {
    match (a, b) {
        (Some(x), Some(y)) => node_eq(x, y),
        (None, None) => true,
        _ => false,
    }
}

/// The serialized form of a store.
pub struct GraphSnapshot {
    pub graph_id: Option<String>,
    pub nodes: Vec<Option<NodeData>>,
    pub edges: Vec<Edge>,
    pub pkm_to_node: Vec<(String, usize)>,
    pub last_incremental_sync: Option<i64>,
    pub last_full_sync: Option<i64>,
    /// Schema version; currently 1. A loader warns on higher versions.
    pub version: u32,
}

/// Whether snapshot data satisfies the store invariants, stated over a
/// store holding exactly that data.
pub open spec fn wf_snapshot_data(s: &GraphSnapshot) -> bool {
    exists|g: GraphManager|
        (#[trigger] g.wf()) && g.nodes@ == s.nodes@ && g.edges@ == s.edges@ && g.pkm_to_node@
            == s.pkm_to_node@
}

/// A well-formed store's snapshot always restores to an identical store:
/// saving and loading reconstitute the node set, edge set and index.
pub proof fn lemma_snapshot_restores(g: &GraphManager, s: &GraphSnapshot)
    requires
        g.wf(),
        s.nodes@.len() == g.nodes@.len(),
        forall|i: int| 0 <= i < g.nodes@.len() ==> opt_node_eq(#[trigger] s.nodes@[i], g.nodes@[i]),
        s.edges@ == g.edges@,
        s.pkm_to_node@ == g.pkm_to_node@,
    ensures
        wf_snapshot_data(s),
{
    let g2 = GraphManager {
        graph_id: g.graph_id,
        nodes: s.nodes,
        edges: s.edges,
        pkm_to_node: s.pkm_to_node,
        last_incremental_sync: g.last_incremental_sync,
        last_full_sync: g.last_full_sync,
        last_save_time: g.last_save_time,
        operations_since_save: g.operations_since_save,
        auto_save_enabled: g.auto_save_enabled,
        save_requested: g.save_requested,
    };
    lemma_wf_node_eq(g, &g2);
    assert(g2.wf());
}

/// Well-formedness transfers across stores whose nodes agree field by
/// field and whose edges and index agree exactly.
proof fn lemma_wf_node_eq(a: &GraphManager, b: &GraphManager)
    requires
        a.wf(),
        b.nodes@.len() == a.nodes@.len(),
        forall|i: int| 0 <= i < a.nodes@.len() ==> opt_node_eq(#[trigger] b.nodes@[i], a.nodes@[i]),
        b.edges@ == a.edges@,
        b.pkm_to_node@ == a.pkm_to_node@,
    ensures
        b.wf(),
{
    assert forall|i: int| 0 <= i < b.pkm_to_node@.len() implies {
        let e = #[trigger] b.pkm_to_node@[i];
        &&& (e.1 as int) < b.nodes@.len()
        &&& b.nodes@[e.1 as int] is Some
        &&& node_key(b.nodes@[e.1 as int]->0) == e.0@
    } by {
        let e = b.pkm_to_node@[i];
        assert(opt_node_eq(b.nodes@[e.1 as int], a.nodes@[e.1 as int]));
        assert(node_key(b.nodes@[e.1 as int]->0) == node_key(a.nodes@[e.1 as int]->0));
    }
    assert forall|h: int|
        0 <= h < b.nodes@.len() && (#[trigger] b.nodes@[h]) is Some implies spec_index_lookup(
        b.pkm_to_node@,
        node_key(b.nodes@[h]->0),
    ) == Some(h as usize) by {
        assert(opt_node_eq(b.nodes@[h], a.nodes@[h]));
        assert(a.nodes@[h] is Some);
        assert(node_key(b.nodes@[h]->0) == node_key(a.nodes@[h]->0));
    }
    assert forall|i: int| 0 <= i < b.edges@.len() implies {
        let e = #[trigger] b.edges@[i];
        &&& (e.source as int) < b.nodes@.len()
        &&& (e.target as int) < b.nodes@.len()
        &&& b.nodes@[e.source as int] is Some
        &&& b.nodes@[e.target as int] is Some
    } by {
        let e = b.edges@[i];
        assert(opt_node_eq(b.nodes@[e.source as int], a.nodes@[e.source as int]));
        assert(opt_node_eq(b.nodes@[e.target as int], a.nodes@[e.target as int]));
    }
}

/// Upserting the same block again lands on the same handle: after one
/// upsert has filed the block, the handle of the next upsert of the same
/// identifier is the filed one. (The upsert's own contract rules out
/// duplicated edges: every edge it appends carries a triple that was
/// absent from the store before the call.)
pub proof fn lemma_upsert_handle_idempotent(g1: &GraphManager, id: Seq<char>, h1: usize)
    requires
        g1.spec_lookup(id) == Some(h1),
    ensures
        upsert_handle(g1, id) == h1,
{
}

/// Clones a vector of string pairs.
fn clone_pairs(v: &Vec<(String, String)>) -> (r: Vec<(String, String)>)
    ensures
        r@ == v@,
{
    let mut out: Vec<(String, String)> = Vec::new();
    let mut i: usize = 0;
    while i < v.len()
        invariant
            0 <= i <= v@.len(),
            out@ =~= v@.take(i as int),
        decreases v@.len() - i,
    {
        let p = &v[i];
        out.push((p.0.clone(), p.1.clone()));
        proof {
            assert(out@ =~= v@.take(i as int + 1));
        }
        i = i + 1;
    }
    proof {
        assert(v@.take(v@.len() as int) =~= v@);
    }
    out
}

/// Effect of removing one entry on lookups, under distinct keys.
pub proof fn lemma_index_lookup_remove(m: Seq<(String, usize)>, i: int, k: Seq<char>)
    requires
        distinct_keys(m),
        0 <= i < m.len(),
    ensures
        spec_index_lookup(m.remove(i), k) == if m[i].0@ == k {
            None
        } else {
            spec_index_lookup(m, k)
        },
    decreases m.len(),
{
    if i == m.len() - 1 {
        assert(m.remove(i) =~= m.drop_last());
        if m[i].0@ == k {
            lemma_index_lookup_valid(m.drop_last(), k);
            if spec_index_lookup(m.drop_last(), k) is Some {
                let j = choose|j: int|
                    0 <= j < m.drop_last().len() && (#[trigger] m.drop_last()[j]).0@ == k
                        && m.drop_last()[j].1 == spec_index_lookup(m.drop_last(), k)->0;
                assert(m[j].0@ == k);
            }
        }
    } else {
        assert(m.remove(i).last() == m.last());
        assert(m.remove(i).drop_last() =~= m.drop_last().remove(i));
        if m.last().0@ != k {
            assert(forall|a: int, b: int|
                0 <= a < b < m.drop_last().len() ==> (#[trigger] m.drop_last()[a]).0@ != (
                #[trigger] m.drop_last()[b]).0@);
            lemma_index_lookup_remove(m.drop_last(), i, k);
        }
    }
}

/// Rewriting one live slot under a fresh key, removing its old entry and
/// filing the new one, preserves the invariants.
proof fn lemma_store_rekey(pre: GraphManager, post: GraphManager, h: usize, ei: int)
    requires
        pre.wf(),
        h < pre.nodes@.len(),
        pre.nodes@[h as int] is Some,
        0 <= ei < pre.pkm_to_node@.len(),
        pre.pkm_to_node@[ei].1 == h,
        pre.pkm_to_node@[ei].0@ == node_key(pre.nodes@[h as int]->0),
        post.nodes@ == pre.nodes@.update(h as int, post.nodes@[h as int]),
        post.nodes@[h as int] is Some,
        spec_index_lookup(pre.pkm_to_node@, node_key(post.nodes@[h as int]->0)) is None,
        post.pkm_to_node@ == pre.pkm_to_node@.remove(ei).push((post.pkm_to_node@.last().0, h)),
        post.pkm_to_node@.last().0@ == node_key(post.nodes@[h as int]->0),
        post.edges@ == pre.edges@,
    ensures
        post.wf(),
        spec_index_lookup(post.pkm_to_node@, node_key(post.nodes@[h as int]->0)) == Some(h),
        forall|k: Seq<char>|
            k != node_key(post.nodes@[h as int]->0) && k != pre.pkm_to_node@[ei].0@
                ==> #[trigger] spec_index_lookup(post.pkm_to_node@, k) == spec_index_lookup(
                pre.pkm_to_node@,
                k,
            ),
{
    let oldkey = pre.pkm_to_node@[ei].0@;
    let newkey = node_key(post.nodes@[h as int]->0);
    let removed = pre.pkm_to_node@.remove(ei);
    // lookups through remove and push
    assert forall|k: Seq<char>| true implies #[trigger] spec_index_lookup(post.pkm_to_node@, k)
        == (if k == newkey {
        Some(h)
    } else if k == oldkey {
        None
    } else {
        spec_index_lookup(pre.pkm_to_node@, k)
    }) by {
        lemma_index_lookup_push(removed, (post.pkm_to_node@.last().0, h), k);
        lemma_index_lookup_remove(pre.pkm_to_node@, ei, k);
        if k == newkey {
            assert(oldkey != newkey);
        }
    }
    // no other entry points at h
    assert forall|j: int|
        0 <= j < pre.pkm_to_node@.len() && j != ei implies (#[trigger] pre.pkm_to_node@[j]).1
            != h by {
        if pre.pkm_to_node@[j].1 == h {
            assert(pre.pkm_to_node@[j].0@ == node_key(pre.nodes@[h as int]->0));
        }
    }
    // distinct keys
    lemma_index_lookup_valid(pre.pkm_to_node@, newkey);
    assert forall|a: int, b: int| 0 <= a < b < post.pkm_to_node@.len() implies (
    #[trigger] post.pkm_to_node@[a]).0@ != (#[trigger] post.pkm_to_node@[b]).0@ by {
        if b == post.pkm_to_node@.len() - 1 {
            let ja = if a < ei {
                a
            } else {
                a + 1
            };
            assert(post.pkm_to_node@[a] == pre.pkm_to_node@[ja]);
            if pre.pkm_to_node@[ja].0@ == newkey {
                lemma_index_lookup_some(pre.pkm_to_node@, ja);
            }
        } else {
            let ja = if a < ei {
                a
            } else {
                a + 1
            };
            let jb = if b < ei {
                b
            } else {
                b + 1
            };
            assert(post.pkm_to_node@[a] == pre.pkm_to_node@[ja]);
            assert(post.pkm_to_node@[b] == pre.pkm_to_node@[jb]);
        }
    }
    // entries point at live nodes under the right keys
    assert forall|i: int| 0 <= i < post.pkm_to_node@.len() implies {
        let e = #[trigger] post.pkm_to_node@[i];
        &&& (e.1 as int) < post.nodes@.len()
        &&& post.nodes@[e.1 as int] is Some
        &&& node_key(post.nodes@[e.1 as int]->0) == e.0@
    } by {
        if i < post.pkm_to_node@.len() - 1 {
            let ji = if i < ei {
                i
            } else {
                i + 1
            };
            assert(post.pkm_to_node@[i] == pre.pkm_to_node@[ji]);
            assert(pre.pkm_to_node@[ji].1 != h);
            assert(post.nodes@[pre.pkm_to_node@[ji].1 as int] == pre.nodes@[pre.pkm_to_node@[ji].1 as int]);
        }
    }
    // every live node is still found under its key
    assert forall|hh: int|
        0 <= hh < post.nodes@.len() && (#[trigger] post.nodes@[hh]) is Some implies
        spec_index_lookup(post.pkm_to_node@, node_key(post.nodes@[hh]->0)) == Some(hh as usize) by {
        if hh != h as int {
            assert(post.nodes@[hh] == pre.nodes@[hh]);
            assert(pre.nodes@[hh] is Some);
            let kk = node_key(pre.nodes@[hh]->0);
            assert(spec_index_lookup(pre.pkm_to_node@, kk) == Some(hh as usize));
            assert(pre.nodes@[h as int] is Some);
            assert(spec_index_lookup(pre.pkm_to_node@, oldkey) == Some(h));
            if kk == oldkey {
                assert(spec_index_lookup(pre.pkm_to_node@, kk) == spec_index_lookup(
                    pre.pkm_to_node@,
                    oldkey,
                ));
                vstd::std_specs::vec::axiom_spec_len(&pre.nodes);
                assert(pre.nodes@.len() <= usize::MAX);
                assert(hh as usize == h);
                assert(false);
            }
            assert(kk != newkey);
            assert(spec_index_lookup(post.pkm_to_node@, kk) == Some(hh as usize));
        }
    }
}

/// A key that occurs in the index is found by lookup.
pub proof fn lemma_index_lookup_some(m: Seq<(String, usize)>, i: int)
    requires
        0 <= i < m.len(),
    ensures
        spec_index_lookup(m, m[i].0@) is Some,
    decreases m.len(),
{
    if m.last().0@ != m[i].0@ {
        assert(i < m.len() - 1);
        assert(m.drop_last()[i] == m[i]);
        lemma_index_lookup_some(m.drop_last(), i);
    }
}

} // verus!
