//! Relationships between pages and the in-memory graph that holds them.
//!
//! A relationship is an undirected fact between two pages, stored with its
//! endpoints in canonical order and a predicate in each direction. It is
//! never moved between pages: it is born, stamped superseded or retconned
//! at a session (reversibly), has its knowledge changed, or is deleted.
//! The graph holds every row, live and invalidated, as an undirected
//! multigraph (a `petgraph` stable graph) indexed by page and by id.
use std::collections::HashMap;
use vstd::prelude::*;
use vstd::std_specs::iter::IteratorSpec;

use crate::ids::{PageId, RelationshipId, SessionId};
use crate::persist::SendFailure;

verus! {

broadcast use vstd::std_specs::hash::group_hash_axioms;

// ---------------------------------------------------------------------------
// The relationship and its row
// ---------------------------------------------------------------------------

/// When a fact became true (or was ended): before the campaign began, or at
/// a session.
#[derive(Debug, Clone, Copy, PartialEq, Eq, Structural)]
pub enum Origin {
    Prior,
    Session(SessionId),
}

/// Who knows a fact: everyone, or the GM alone until (perhaps) a session
/// reveals it.
#[derive(Debug, Clone, Copy, PartialEq, Eq, Structural)]
pub enum Knowledge {
    Public,
    Secret { revealed_at: Option<SessionId> },
}

/// The knowledge a row's two columns describe; a public row carrying a
/// reveal session describes none.
pub open spec fn knowledge_of(is_secret: bool, revealed_at: Option<SessionId>) -> Option<Knowledge> {
    if is_secret {
        Some(Knowledge::Secret { revealed_at })
    } else if revealed_at is None {
        Some(Knowledge::Public)
    } else {
        None
    }
}

/// The reveal session of a knowledge value (none for public knowledge).
pub open spec fn reveal_of(k: Knowledge) -> Option<SessionId> {
    match k {
        Knowledge::Public => None,
        Knowledge::Secret { revealed_at } => revealed_at,
    }
}

impl Knowledge {
    /// Rebuild the knowledge from its two columns; `None` for the pair the
    /// table's check constraint forbids (public with a reveal session).
    pub fn from_columns(is_secret: bool, revealed_at: Option<SessionId>) -> (k: Option<Knowledge>)
        ensures
            k == knowledge_of(is_secret, revealed_at),
    {
        if is_secret {
            Some(Knowledge::Secret { revealed_at })
        } else {
            match revealed_at {
                None => Some(Knowledge::Public),
                Some(_) => None,
            }
        }
    }

    /// The `is_secret` column.
    pub fn is_secret(&self) -> (b: bool)
        ensures
            b == !(*self == Knowledge::Public),
    {
        match self {
            Knowledge::Public => false,
            Knowledge::Secret { .. } => true,
        }
    }

    /// The `reveal_session_id` column.
    pub fn reveal_session_id(&self) -> (r: Option<SessionId>)
        ensures
            r == reveal_of(*self),
    {
        match self {
            Knowledge::Public => None,
            Knowledge::Secret { revealed_at } => *revealed_at,
        }
    }
}

/// A relationship between two pages, endpoints in canonical order.
#[derive(Debug, Clone, PartialEq, Eq)]
pub struct Relationship {
    pub id: RelationshipId,
    pub page_a: PageId,
    pub page_b: PageId,
    pub predicate_a_to_b: String,
    pub predicate_b_to_a: String,
    pub origin: Origin,
    /// Ended at this session (a later fact replaced it).
    pub superseded: Option<SessionId>,
    /// Declared never to have been true, as of this session.
    pub retcon: Option<SessionId>,
    pub knowledge: Knowledge,
    /// Creation time, in milliseconds since the Unix epoch.
    pub created_at: i64,
}

/// A fact is live when it is neither superseded nor retconned.
pub open spec fn is_live(r: Relationship) -> bool {
    r.superseded is None && r.retcon is None
}

/// A `relationships` row as read from the database.
#[derive(Debug, Clone, PartialEq, Eq)]
pub struct RelationshipRow {
    pub id: RelationshipId,
    pub page_a: PageId,
    pub page_b: PageId,
    pub predicate_a_to_b: String,
    pub predicate_b_to_a: String,
    pub origin_session_id: Option<SessionId>,
    pub superseded_session_id: Option<SessionId>,
    pub retcon_session_id: Option<SessionId>,
    pub is_secret: bool,
    pub reveal_session_id: Option<SessionId>,
    pub created_at: i64,
}

/// A copy of a row.
fn copy_row(r: &RelationshipRow) -> (c: RelationshipRow)
    ensures
        c == *r,
{
    RelationshipRow {
        id: r.id,
        page_a: r.page_a,
        page_b: r.page_b,
        predicate_a_to_b: r.predicate_a_to_b.clone(),
        predicate_b_to_a: r.predicate_b_to_a.clone(),
        origin_session_id: r.origin_session_id,
        superseded_session_id: r.superseded_session_id,
        retcon_session_id: r.retcon_session_id,
        is_secret: r.is_secret,
        reveal_session_id: r.reveal_session_id,
        created_at: r.created_at,
    }
}

/// The table's check constraint: a public row carries no reveal session.
pub open spec fn row_ok(m: RelationshipRow) -> bool {
    m.is_secret || m.reveal_session_id is None
}

/// The origin a nullable session column describes.
pub open spec fn origin_of(session: Option<SessionId>) -> Origin {
    match session {
        Some(s) => Origin::Session(s),
        None => Origin::Prior,
    }
}

/// The relationship a row describes.
pub open spec fn row_relationship(m: RelationshipRow) -> Relationship {
    Relationship {
        id: m.id,
        page_a: m.page_a,
        page_b: m.page_b,
        predicate_a_to_b: m.predicate_a_to_b,
        predicate_b_to_a: m.predicate_b_to_a,
        origin: origin_of(m.origin_session_id),
        superseded: m.superseded_session_id,
        retcon: m.retcon_session_id,
        knowledge: if m.is_secret {
            Knowledge::Secret { revealed_at: m.reveal_session_id }
        } else {
            Knowledge::Public
        },
        created_at: m.created_at,
    }
}

/// Reconstitute an origin from its nullable session column: no session is
/// `Prior` (true before the campaign began).
pub fn origin_from(session: Option<SessionId>) -> (o: Origin)
    ensures
        o == origin_of(session),
{
    match session {
        Some(s) => Origin::Session(s),
        None => Origin::Prior,
    }
}

/// The relationship a row describes. The table's check constraint
/// guarantees a public row carries no reveal session.
pub fn relationship_from_model(m: RelationshipRow) -> (r: Relationship)
    requires
        row_ok(m),
    ensures
        r == row_relationship(m),
{
    let knowledge = if m.is_secret {
        Knowledge::Secret { revealed_at: m.reveal_session_id }
    } else {
        Knowledge::Public
    };
    let origin = origin_from(m.origin_session_id);
    Relationship {
        id: m.id,
        page_a: m.page_a,
        page_b: m.page_b,
        predicate_a_to_b: m.predicate_a_to_b,
        predicate_b_to_a: m.predicate_b_to_a,
        origin,
        superseded: m.superseded_session_id,
        retcon: m.retcon_session_id,
        knowledge,
        created_at: m.created_at,
    }
}

// ---------------------------------------------------------------------------
// The petgraph stable graph
// ---------------------------------------------------------------------------

#[verifier::external_type_specification]
#[verifier::external_body]
#[verifier::reject_recursive_types(N)]
#[verifier::reject_recursive_types(E)]
#[verifier::reject_recursive_types(Ty)]
#[verifier::reject_recursive_types(Ix)]
pub struct ExStableGraph<N, E, Ty, Ix>(petgraph::stable_graph::StableGraph<N, E, Ty, Ix>);

#[verifier::external_type_specification]
#[verifier::external_body]
pub struct ExUndirected(petgraph::Undirected);

/// The relationship graph: nodes are pages, edges relationships, indexed
/// by `usize` (whose index space petgraph never exhausts).
pub type PageGraph = petgraph::stable_graph::StableGraph<u128, Relationship, petgraph::Undirected, usize>;

/// The nodes of a graph: node index to the page it stands for.
pub uninterp spec fn graph_nodes(g: PageGraph) -> Map<usize, u128>;

/// The edges of a graph: edge index to its two endpoints and weight.
pub uninterp spec fn graph_edges(g: PageGraph) -> Map<usize, (usize, usize, Relationship)>;

/// The edge map of a graph without edges.
pub open spec fn no_edges() -> Map<usize, (usize, usize, Relationship)> {
    Map::empty()
}

/// `StableGraph::default`: a graph with no nodes and no edges.
#[verifier::external_body]
fn graph_new() -> (fresh: PageGraph)
    ensures
        graph_nodes(fresh).is_empty(),
        graph_edges(fresh).is_empty(),
{
    PageGraph::default()
}

/// `StableGraph::add_node`: a node under an index no live node holds.
#[verifier::external_body]
fn graph_add_node(g: &mut PageGraph, page: u128) -> (idx: usize)
    ensures
        !graph_nodes(*old(g)).contains_key(idx),
        graph_nodes(*final(g)) == graph_nodes(*old(g)).insert(idx, page),
        graph_edges(*final(g)) == graph_edges(*old(g)),
{
    g.add_node(page).index()
}

/// `StableGraph::add_edge` between two existing nodes (it panics on a
/// missing one): an edge under an index no live edge holds.
#[verifier::external_body]
fn graph_add_edge(g: &mut PageGraph, a: usize, b: usize, weight: Relationship) -> (e: usize)
    requires
        graph_nodes(*old(g)).contains_key(a),
        graph_nodes(*old(g)).contains_key(b),
    ensures
        !graph_edges(*old(g)).contains_key(e),
        graph_edges(*final(g)) == graph_edges(*old(g)).insert(e, (a, b, weight)),
        graph_nodes(*final(g)) == graph_nodes(*old(g)),
{
    g.add_edge(petgraph::stable_graph::NodeIndex::new(a), petgraph::stable_graph::NodeIndex::new(b), weight).index()
}

/// `StableGraph::remove_edge`: removes a live edge and hands back its
/// weight; `None` (and no change) for any other index.
#[verifier::external_body]
fn graph_remove_edge(g: &mut PageGraph, e: usize) -> (w: Option<Relationship>)
    ensures
        graph_nodes(*final(g)) == graph_nodes(*old(g)),
        graph_edges(*final(g)) == graph_edges(*old(g)).remove(e),
        w == (if graph_edges(*old(g)).contains_key(e) { Some(graph_edges(*old(g))[e].2) } else { None }),
{
    g.remove_edge(petgraph::stable_graph::EdgeIndex::new(e))
}

/// `StableGraph::edge_weight`: the weight of a live edge.
#[verifier::external_body]
fn graph_edge_weight(g: &PageGraph, e: usize) -> (w: Option<&Relationship>)
    ensures
        w == (if graph_edges(*g).contains_key(e) { Some(&graph_edges(*g)[e].2) } else { None }),
{
    g.edge_weight(petgraph::stable_graph::EdgeIndex::new(e))
}

/// `StableGraph::edge_weight_mut`, assigned: replaces the weight of a live
/// edge (endpoints unchanged) and answers whether there was one.
#[verifier::external_body]
fn graph_set_edge_weight(g: &mut PageGraph, e: usize, weight: Relationship) -> (found: bool)
    ensures
        found == graph_edges(*old(g)).contains_key(e),
        graph_nodes(*final(g)) == graph_nodes(*old(g)),
        graph_edges(*final(g)) == (if found {
            graph_edges(*old(g)).insert(e, (graph_edges(*old(g))[e].0, graph_edges(*old(g))[e].1, weight))
        } else {
            graph_edges(*old(g))
        }),
{
    match g.edge_weight_mut(petgraph::stable_graph::EdgeIndex::new(e)) {
        Some(w) => {
            *w = weight;
            true
        },
        None => false,
    }
}

/// `StableGraph::edges` of a node in an undirected graph: the indices of
/// the live edges with that node as an endpoint, and no others.
#[verifier::external_body]
fn graph_edges_of(g: &PageGraph, node: usize) -> (es: Vec<usize>)
    ensures
        forall|i: int| 0 <= i < es@.len() ==> {
            let e = #[trigger] es@[i];
            graph_edges(*g).contains_key(e) && (graph_edges(*g)[e].0 == node || graph_edges(*g)[e].1 == node)
        },
        forall|e: usize| #[trigger] graph_edges(*g).contains_key(e)
            && (graph_edges(*g)[e].0 == node || graph_edges(*g)[e].1 == node) ==> es@.contains(e),
{
    g.edges(petgraph::stable_graph::NodeIndex::new(node)).map(|r| petgraph::visit::EdgeRef::id(&r).index()).collect()
}

// ---------------------------------------------------------------------------
// The store
// ---------------------------------------------------------------------------

/// The relationships in memory, keyed by page (the node of each page an
/// edge touches) and by id (the edge of each relationship).
pub struct RelationshipStore {
    graph: PageGraph,
    nodes: HashMap<u128, usize>,
    edges_by_id: HashMap<u128, usize>,
}

impl RelationshipStore {
    /// The relationships held, by id.
    pub closed spec fn relationships(&self) -> Map<u128, Relationship> {
        Map::new(
            |id: u128| self.edges_by_id@.contains_key(id),
            |id: u128| graph_edges(self.graph)[self.edges_by_id@[id]].2,
        )
    }

    /// The page of each node and the node of each page agree; every edge is
    /// the edge of exactly the relationship it carries, between the nodes of
    /// that relationship's pages.
    pub closed spec fn wf(&self) -> bool {
        let gn = graph_nodes(self.graph);
        let ge = graph_edges(self.graph);
        &&& forall|p: u128| #[trigger] self.nodes@.contains_key(p) ==>
                gn.contains_key(self.nodes@[p]) && gn[self.nodes@[p]] == p
        &&& forall|n: usize| #[trigger] gn.contains_key(n) ==>
                self.nodes@.contains_key(gn[n]) && self.nodes@[gn[n]] == n
        &&& forall|id: u128| #[trigger] self.edges_by_id@.contains_key(id) ==> {
                let e = self.edges_by_id@[id];
                &&& ge.contains_key(e)
                &&& ge[e].2.id.0 == id
            }
        &&& forall|e: usize| #[trigger] ge.contains_key(e) ==> {
                let r = ge[e].2;
                &&& self.edges_by_id@.contains_key(r.id.0)
                &&& self.edges_by_id@[r.id.0] == e
                &&& self.nodes@.contains_key(r.page_a.0)
                &&& self.nodes@.contains_key(r.page_b.0)
                &&& ge[e].0 == self.nodes@[r.page_a.0]
                &&& ge[e].1 == self.nodes@[r.page_b.0]
            }
    }

    /// An empty store.
    pub fn new() -> (s: RelationshipStore)
        ensures
            s.wf(),
            s.relationships() == Map::<u128, Relationship>::empty(),
    {
        let s = RelationshipStore { graph: graph_new(), nodes: HashMap::new(), edges_by_id: HashMap::new() };
        proof {
            assert(s.relationships() =~= Map::<u128, Relationship>::empty());
        }
        s
    }

    /// The node of a page, created on first sight.
    fn node(&mut self, page: PageId) -> (n: usize)
        requires
            old(self).wf(),
        ensures
            final(self).wf(),
            final(self).relationships() == old(self).relationships(),
            final(self).nodes@.contains_key(page.0),
            final(self).nodes@[page.0] == n,
            forall|p: u128| #[trigger] old(self).nodes@.contains_key(p) ==>
                final(self).nodes@.contains_key(p) && final(self).nodes@[p] == old(self).nodes@[p],
            final(self).edges_by_id@ == old(self).edges_by_id@,
            graph_edges(final(self).graph) == graph_edges(old(self).graph),
    {
        match self.nodes.get(&page.0) {
            Some(idx) => *idx,
            None => {
                let idx = graph_add_node(&mut self.graph, page.0);
                self.nodes.insert(page.0, idx);
                proof {
                    assert(self.relationships() =~= old(self).relationships());
                }
                idx
            },
        }
    }

    /// Add a relationship whose id is not held yet.
    pub fn insert(&mut self, rel: Relationship)
        requires
            old(self).wf(),
            !old(self).relationships().contains_key(rel.id.0),
        ensures
            final(self).wf(),
            final(self).relationships() == old(self).relationships().insert(rel.id.0, rel),
    {
        let a = self.node(rel.page_a);
        let b = self.node(rel.page_b);
        let id = rel.id.0;
        let ghost r = rel;
        let e = graph_add_edge(&mut self.graph, a, b, rel);
        self.edges_by_id.insert(id, e);
        proof {
            assert(self.relationships() =~= old(self).relationships().insert(id, r));
        }
    }

    /// Replace the relationship with the same id in place (its endpoints
    /// never change); nothing happens when no relationship has that id.
    fn replace(&mut self, rel: Relationship)
        requires
            old(self).wf(),
            old(self).relationships().contains_key(rel.id.0) ==> {
                let cur = old(self).relationships()[rel.id.0];
                cur.page_a == rel.page_a && cur.page_b == rel.page_b
            },
        ensures
            final(self).wf(),
            final(self).relationships() == (if old(self).relationships().contains_key(rel.id.0) {
                old(self).relationships().insert(rel.id.0, rel)
            } else {
                old(self).relationships()
            }),
    {
        let id = rel.id.0;
        let ghost r = rel;
        match self.edges_by_id.get(&id) {
            Some(e) => {
                let e = *e;
                let _ = graph_set_edge_weight(&mut self.graph, e, rel);
                proof {
                    assert(self.relationships() =~= old(self).relationships().insert(id, r));
                }
            },
            None => {},
        }
    }

    /// The number of edges in the graph: each edge is the edge of exactly
    /// one relationship id.
    pub closed spec fn edge_count(&self) -> nat {
        self.edges_by_id@.dom().len()
    }

    /// The edges are counted by the relationships held.
    pub proof fn lemma_edge_count(&self)
        ensures
            self.relationships().dom().finite(),
            self.edge_count() == self.relationships().dom().len(),
    {
        broadcast use vstd::std_specs::hash::axiom_hashmap_view_finite_dom;
        assert(self.relationships().dom() =~= self.edges_by_id@.dom());
    }

    /// Insert a relationship, or replace the one with the same id: a new id
    /// adds exactly one edge, a held one adds none.
    pub fn upsert(&mut self, rel: Relationship)
        requires
            old(self).wf(),
            old(self).relationships().contains_key(rel.id.0) ==> {
                let cur = old(self).relationships()[rel.id.0];
                cur.page_a == rel.page_a && cur.page_b == rel.page_b
            },
        ensures
            final(self).wf(),
            final(self).relationships() == old(self).relationships().insert(rel.id.0, rel),
            final(self).edge_count() == old(self).edge_count()
                + (if old(self).relationships().contains_key(rel.id.0) { 0int } else { 1int }),
    {
        if self.edges_by_id.contains_key(&rel.id.0) {
            self.replace(rel);
        } else {
            self.insert(rel);
        }
        proof {
            old(self).lemma_edge_count();
            self.lemma_edge_count();
        }
    }

    /// Forget a relationship; nothing happens for an id not held.
    pub fn remove(&mut self, rel_id: RelationshipId)
        requires
            old(self).wf(),
        ensures
            final(self).wf(),
            final(self).relationships() == old(self).relationships().remove(rel_id.0),
    {
        match self.edges_by_id.remove(&rel_id.0) {
            Some(e) => {
                let _ = graph_remove_edge(&mut self.graph, e);
                proof {
                    assert(self.relationships() =~= old(self).relationships().remove(rel_id.0));
                }
            },
            None => {
                proof {
                    assert(self.relationships() =~= old(self).relationships().remove(rel_id.0));
                }
            },
        }
    }

    /// The relationship with an id, if held.
    pub fn get(&self, rel_id: RelationshipId) -> (r: Option<&Relationship>)
        requires
            self.wf(),
        ensures
            r == (if self.relationships().contains_key(rel_id.0) {
                Some(&self.relationships()[rel_id.0])
            } else {
                None
            }),
    {
        match self.edges_by_id.get(&rel_id.0) {
            Some(e) => graph_edge_weight(&self.graph, *e),
            None => None,
        }
    }

    /// Every relationship touching a page.
    pub fn edges_touching(&self, page: PageId) -> (rs: Vec<&Relationship>)
        requires
            self.wf(),
        ensures
            forall|i: int| 0 <= i < rs@.len() ==> {
                let r = *#[trigger] rs@[i];
                &&& self.relationships().contains_key(r.id.0)
                &&& self.relationships()[r.id.0] == r
                &&& (r.page_a == page || r.page_b == page)
            },
            forall|id: u128| #[trigger] self.relationships().contains_key(id)
                && (self.relationships()[id].page_a == page || self.relationships()[id].page_b == page)
                ==> exists|i: int| 0 <= i < rs@.len() && rs@[i].id.0 == id,
    {
        let mut out: Vec<&Relationship> = Vec::new();
        let node = match self.nodes.get(&page.0) {
            None => {
                proof {
                    assert forall|id: u128| #[trigger] self.relationships().contains_key(id)
                        && (self.relationships()[id].page_a == page || self.relationships()[id].page_b == page)
                        implies false by {
                        let e = self.edges_by_id@[id];
                        assert(graph_edges(self.graph).contains_key(e));
                    }
                }
                return out;
            },
            Some(n) => *n,
        };
        let es = graph_edges_of(&self.graph, node);
        let n = es.len();
        let mut i: usize = 0;
        while i < n
            invariant
                self.wf(),
                n == es@.len(),
                0 <= i <= n,
                self.nodes@.contains_key(page.0),
                self.nodes@[page.0] == node,
                forall|j: int| 0 <= j < n ==> {
                    let e = #[trigger] es@[j];
                    graph_edges(self.graph).contains_key(e)
                        && (graph_edges(self.graph)[e].0 == node || graph_edges(self.graph)[e].1 == node)
                },
                out@.len() == i,
                forall|j: int| 0 <= j < i ==> *#[trigger] out@[j] == graph_edges(self.graph)[es@[j]].2,
            decreases n - i,
        {
            let w = graph_edge_weight(&self.graph, es[i]).unwrap();
            out.push(w);
            i = i + 1;
        }
        proof {
            let ge = graph_edges(self.graph);
            assert forall|j: int| 0 <= j < out@.len() implies {
                let r = *#[trigger] out@[j];
                &&& self.relationships().contains_key(r.id.0)
                &&& self.relationships()[r.id.0] == r
                &&& (r.page_a == page || r.page_b == page)
            } by {
                let e = es@[j];
                assert(ge.contains_key(e));
                let r = ge[e].2;
                assert(self.edges_by_id@[r.id.0] == e);
                if ge[e].0 == node {
                    assert(self.nodes@[r.page_a.0] == node);
                    assert(graph_nodes(self.graph)[node] == r.page_a.0);
                    assert(graph_nodes(self.graph)[node] == page.0);
                } else {
                    assert(self.nodes@[r.page_b.0] == node);
                    assert(graph_nodes(self.graph)[node] == r.page_b.0);
                    assert(graph_nodes(self.graph)[node] == page.0);
                }
            }
            assert forall|id: u128| #[trigger] self.relationships().contains_key(id)
                && (self.relationships()[id].page_a == page || self.relationships()[id].page_b == page)
                implies exists|j: int| 0 <= j < out@.len() && out@[j].id.0 == id by {
                let e = self.edges_by_id@[id];
                assert(ge.contains_key(e));
                assert(es@.contains(e));
                let j = choose|j: int| 0 <= j < es@.len() && es@[j] == e;
                assert(out@[j].id.0 == id);
            }
        }
        out
    }

    /// Every relationship held, each once.
    pub fn all_edges(&self) -> (rs: Vec<&Relationship>)
        requires
            self.wf(),
        ensures
            rs@.len() == self.relationships().dom().len(),
            forall|i: int| 0 <= i < rs@.len() ==> {
                let r = *#[trigger] rs@[i];
                self.relationships().contains_key(r.id.0) && self.relationships()[r.id.0] == r
            },
            forall|id: u128| #[trigger] self.relationships().contains_key(id)
                ==> exists|i: int| 0 <= i < rs@.len() && rs@[i].id.0 == id,
    {
        let ghost ks = vstd::std_specs::hash::spec_keys_iter(&self.edges_by_id).remaining();
        proof {
            crate::ids::lemma_keys_listed(ks, self.edges_by_id@.dom());
            assert(ks.len() == self.edges_by_id@.dom().len());
            assert(self.relationships().dom() =~= self.edges_by_id@.dom());
        }
        let mut out: Vec<&Relationship> = Vec::new();
        for k in it: self.edges_by_id.keys()
            invariant
                self.wf(),
                it.seq() == ks,
                forall|i: int| 0 <= i < ks.len() ==> self.edges_by_id@.contains_key(*#[trigger] ks[i]),
                out@.len() == it.index(),
                forall|i: int| 0 <= i < out@.len() ==> *#[trigger] out@[i] == self.relationships()[*ks[i]],
        {
            proof {
                assert(*k == *ks[it.index()]);
            }
            let e = *self.edges_by_id.get(k).unwrap();
            let w = graph_edge_weight(&self.graph, e).unwrap();
            out.push(w);
        }
        proof {
            assert forall|i: int| 0 <= i < out@.len() implies {
                let r = *#[trigger] out@[i];
                self.relationships().contains_key(r.id.0) && self.relationships()[r.id.0] == r
            } by {
                assert(self.edges_by_id@.contains_key(*ks[i]));
            }
            assert forall|id: u128| #[trigger] self.relationships().contains_key(id)
                implies exists|i: int| 0 <= i < out@.len() && out@[i].id.0 == id by {
                let j = choose|j: int| 0 <= j < ks.len() && *ks[j] == id;
                assert(out@[j].id.0 == id);
            }
        }
        out
    }
}


// ---------------------------------------------------------------------------
// Writes and their outcomes
// ---------------------------------------------------------------------------

/// Which reversible factuality stamp a [`RelationshipWrite::SetStamp`]
/// targets.
#[derive(Debug, Clone, Copy, PartialEq, Eq, Structural)]
pub enum StampColumn {
    Superseded,
    Retcon,
}

/// A relationship about to be born: its id is minted by the graph, its
/// creation time by the writer.
#[derive(Debug, Clone, PartialEq, Eq)]
pub struct NewRelationship {
    pub id: RelationshipId,
    pub page_a: PageId,
    pub page_b: PageId,
    pub predicate_a_to_b: String,
    pub predicate_b_to_a: String,
    pub origin: Origin,
    pub superseded: Option<SessionId>,
    pub retcon: Option<SessionId>,
    pub knowledge: Knowledge,
}

/// One single-statement relationship write; a batch of them runs in one
/// transaction.
#[derive(Debug, Clone, PartialEq, Eq)]
pub enum RelationshipWrite {
    Create(NewRelationship),
    /// Stamp (`Some`) or clear (`None`) one factuality axis.
    SetStamp { rel_id: RelationshipId, column: StampColumn, at: Option<SessionId> },
    SetKnowledge { rel_id: RelationshipId, knowledge: Knowledge },
    Delete { rel_id: RelationshipId },
}

/// What one write committed: the row as it now stands, or the id removed.
#[derive(Debug, Clone, PartialEq, Eq)]
pub enum RelationshipWriteOutcome {
    Upserted(RelationshipRow),
    Removed(RelationshipId),
}

/// Why a relationship write batch failed.
#[derive(Debug, Clone, PartialEq, Eq)]
pub enum RelationshipWriteError {
    /// The write would make a second live copy of a fact.
    DuplicateLiveFact,
    NotFound,
    Db(String),
}

/// How a database failure is classified for a relationship write.
#[derive(Debug, Clone, PartialEq, Eq)]
pub enum DbFailure {
    /// A unique constraint tripped: for relationships, only the live-fact
    /// index can.
    UniqueViolation(String),
    Other(String),
}

/// A failed relationship write: a unique violation is a duplicate live
/// fact; anything else is a database error.
pub fn map_relationship_write_error(e: DbFailure) -> (r: RelationshipWriteError)
    ensures
        r == (match e {
            DbFailure::UniqueViolation(_) => RelationshipWriteError::DuplicateLiveFact,
            DbFailure::Other(m) => RelationshipWriteError::Db(m),
        }),
{
    match e {
        DbFailure::UniqueViolation(_) => RelationshipWriteError::DuplicateLiveFact,
        DbFailure::Other(m) => RelationshipWriteError::Db(m),
    }
}

// ---------------------------------------------------------------------------
// The graph's decisions
// ---------------------------------------------------------------------------

/// The store after one committed outcome.
pub open spec fn reflect_one(m: Map<u128, Relationship>, o: RelationshipWriteOutcome) -> Map<u128, Relationship> {
    match o {
        RelationshipWriteOutcome::Upserted(row) => m.insert(row.id.0, row_relationship(row)),
        RelationshipWriteOutcome::Removed(id) => m.remove(id.0),
    }
}

/// The store after a batch of committed outcomes, in order.
pub open spec fn reflect_all(m: Map<u128, Relationship>, os: Seq<RelationshipWriteOutcome>) -> Map<u128, Relationship>
    decreases os.len(),
{
    if os.len() == 0 {
        m
    } else {
        reflect_all(reflect_one(m, os[0]), os.drop_first())
    }
}

/// A committed row can be reflected: it satisfies the table's check, and
/// if the store already holds its id, the endpoints are the same.
pub open spec fn reflectable(m: Map<u128, Relationship>, o: RelationshipWriteOutcome) -> bool {
    match o {
        RelationshipWriteOutcome::Upserted(row) => row_ok(row) && (m.contains_key(row.id.0) ==> {
            &&& m[row.id.0].page_a == row.page_a
            &&& m[row.id.0].page_b == row.page_b
        }),
        RelationshipWriteOutcome::Removed(_) => true,
    }
}

/// The store after a batch reflected in order, each outcome that can be
/// reflected at its turn being reflected and any other skipped.
pub open spec fn reflect_checked(m: Map<u128, Relationship>, os: Seq<RelationshipWriteOutcome>) -> Map<u128, Relationship>
    decreases os.len(),
{
    if os.len() == 0 {
        m
    } else if reflectable(m, os[0]) {
        reflect_checked(reflect_one(m, os[0]), os.drop_first())
    } else {
        reflect_checked(m, os.drop_first())
    }
}

/// Every outcome of a batch can be reflected in turn.
pub open spec fn all_reflectable(m: Map<u128, Relationship>, os: Seq<RelationshipWriteOutcome>) -> bool
    decreases os.len(),
{
    os.len() == 0 || (reflectable(m, os[0]) && all_reflectable(reflect_one(m, os[0]), os.drop_first()))
}

impl RelationshipStore {
    /// Reflect one committed outcome: upsert its row, or remove its id.
    pub fn reflect_outcome(&mut self, o: RelationshipWriteOutcome)
        requires
            old(self).wf(),
            reflectable(old(self).relationships(), o),
        ensures
            final(self).wf(),
            final(self).relationships() == reflect_one(old(self).relationships(), o),
    {
        match o {
            RelationshipWriteOutcome::Upserted(row) => {
                let rel = relationship_from_model(row);
                self.upsert(rel);
            },
            RelationshipWriteOutcome::Removed(id) => self.remove(id),
        }
    }

    /// Reflect a committed batch, in order, so the store only ever holds
    /// committed state.
    pub fn reflect(&mut self, outcomes: Vec<RelationshipWriteOutcome>)
        requires
            old(self).wf(),
            all_reflectable(old(self).relationships(), outcomes@),
        ensures
            final(self).wf(),
            final(self).relationships() == reflect_all(old(self).relationships(), outcomes@),
    {
        let ghost all = outcomes@;
        let mut i: usize = 0;
        let n = outcomes.len();
        let mut rest = outcomes;
        while i < n
            invariant
                self.wf(),
                n == all.len(),
                0 <= i <= n,
                rest@ == all.subrange(i as int, n as int),
                all_reflectable(self.relationships(), all.subrange(i as int, n as int)),
                reflect_all(old(self).relationships(), all) == reflect_all(self.relationships(), all.subrange(i as int, n as int)),
            decreases n - i,
        {
            let o = rest.remove(0);
            proof {
                assert(o == all[i as int]);
                let tail = all.subrange(i as int, n as int);
                assert(tail[0] == o);
                assert(tail.drop_first() =~= all.subrange(i + 1, n as int));
            }
            self.reflect_outcome(o);
            i = i + 1;
        }
        proof {
            assert(all.subrange(n as int, n as int).len() == 0);
        }
    }

    /// Reflect a committed batch, in order, checking each outcome first: an
    /// outcome that cannot be reflected (a row breaking the table's check,
    /// or moving a held relationship to other pages, neither of which the
    /// table allows) is skipped. Returns whether every outcome was
    /// reflected; when all can be, the store holds exactly the committed
    /// state.
    pub fn reflect_committed(&mut self, outcomes: Vec<RelationshipWriteOutcome>) -> (all: bool)
        requires
            old(self).wf(),
        ensures
            final(self).wf(),
            final(self).relationships() == reflect_checked(old(self).relationships(), outcomes@),
            all == all_reflectable(old(self).relationships(), outcomes@),
            all ==> final(self).relationships() == reflect_all(old(self).relationships(), outcomes@),
    {
        let ghost all_os = outcomes@;
        let n = outcomes.len();
        let mut rest = outcomes;
        let mut i: usize = 0;
        let mut all = true;
        while i < n
            invariant
                self.wf(),
                n == all_os.len(),
                0 <= i <= n,
                rest@ == all_os.subrange(i as int, n as int),
                reflect_checked(old(self).relationships(), all_os) == reflect_checked(self.relationships(), all_os.subrange(i as int, n as int)),
                all_reflectable(old(self).relationships(), all_os) == (all && all_reflectable(self.relationships(), all_os.subrange(i as int, n as int))),
                all ==> reflect_all(old(self).relationships(), all_os) == reflect_all(self.relationships(), all_os.subrange(i as int, n as int)),
            decreases n - i,
        {
            let o = rest.remove(0);
            proof {
                let tail = all_os.subrange(i as int, n as int);
                assert(tail[0] == o);
                assert(tail.drop_first() =~= all_os.subrange(i + 1, n as int));
            }
            let ok = match &o {
                RelationshipWriteOutcome::Upserted(row) => {
                    let checked = row.is_secret || row.reveal_session_id.is_none();
                    checked && match self.get(row.id) {
                        Some(cur) => cur.page_a == row.page_a && cur.page_b == row.page_b,
                        None => true,
                    }
                },
                RelationshipWriteOutcome::Removed(_) => true,
            };
            if ok {
                self.reflect_outcome(o);
            } else {
                all = false;
            }
            i = i + 1;
        }
        proof {
            assert(all_os.subrange(n as int, n as int).len() == 0);
        }
        all
    }

    /// Load every stored row into the store. The rows come from the
    /// relationships table, whose primary key makes their ids distinct.
    pub fn load(rows: Vec<RelationshipRow>) -> (s: RelationshipStore)
        requires
            forall|i: int| 0 <= i < rows@.len() ==> row_ok(#[trigger] rows@[i]),
            forall|i: int, j: int| 0 <= i < j < rows@.len() ==> (#[trigger] rows@[i]).id != (#[trigger] rows@[j]).id,
        ensures
            s.wf(),
            forall|i: int| 0 <= i < rows@.len() ==> {
                let r = #[trigger] rows@[i];
                s.relationships().contains_key(r.id.0) && s.relationships()[r.id.0] == row_relationship(r)
            },
            forall|id: u128| #[trigger] s.relationships().contains_key(id) ==> exists|i: int| 0 <= i < rows@.len() && rows@[i].id.0 == id,
    {
        let mut s = RelationshipStore::new();
        let ghost all = rows@;
        let n = rows.len();
        let mut i: usize = 0;
        let mut rest = rows;
        while i < n
            invariant
                s.wf(),
                n == all.len(),
                0 <= i <= n,
                rest@ == all.subrange(i as int, n as int),
                forall|j: int| 0 <= j < n ==> row_ok(#[trigger] all[j]),
                forall|j: int, k: int| 0 <= j < k < n ==> (#[trigger] all[j]).id != (#[trigger] all[k]).id,
                forall|j: int| 0 <= j < i ==> {
                    let r = #[trigger] all[j];
                    s.relationships().contains_key(r.id.0) && s.relationships()[r.id.0] == row_relationship(r)
                },
                forall|id: u128| #[trigger] s.relationships().contains_key(id) ==> exists|j: int| 0 <= j < i && all[j].id.0 == id,
            decreases n - i,
        {
            let row = rest.remove(0);
            proof {
                assert(row == all[i as int]);
                if s.relationships().contains_key(row.id.0) {
                    let j = choose|j: int| 0 <= j < i && all[j].id.0 == row.id.0;
                    assert(all[j].id != all[i as int].id);
                }
            }
            let rel = relationship_from_model(row);
            s.insert(rel);
            i = i + 1;
        }
        s
    }
}

/// The sessions a relationship references: its origin, its superseded and
/// retcon stamps and its reveal, in that order, each where present.
pub open spec fn referenced_sessions_of(r: Relationship) -> Seq<SessionId> {
    (match r.origin {
        Origin::Session(s) => seq![s],
        Origin::Prior => Seq::<SessionId>::empty(),
    }) + (match r.superseded {
        Some(s) => seq![s],
        None => Seq::<SessionId>::empty(),
    }) + (match r.retcon {
        Some(s) => seq![s],
        None => Seq::<SessionId>::empty(),
    }) + (match reveal_of(r.knowledge) {
        Some(s) => seq![s],
        None => Seq::<SessionId>::empty(),
    })
}

/// Append the sessions a relationship references, for one batched read of
/// their ordinals.
pub fn referenced_sessions(rel: &Relationship, out: &mut Vec<SessionId>)
    ensures
        final(out)@ == old(out)@ + referenced_sessions_of(*rel),
{
    let ghost start = out@;
    if let Origin::Session(s) = rel.origin {
        out.push(s);
    }
    if let Some(s) = rel.superseded {
        out.push(s);
    }
    if let Some(s) = rel.retcon {
        out.push(s);
    }
    if let Some(s) = rel.knowledge.reveal_session_id() {
        out.push(s);
    }
    proof {
        assert(out@ =~= start + referenced_sessions_of(*rel));
    }
}

// ---------------------------------------------------------------------------
// Creating relationships and applying ops
// ---------------------------------------------------------------------------

/// Why two pages cannot be related as asked.
#[derive(Debug, Clone, Copy, PartialEq, Eq, Structural)]
pub enum EdgeError {
    SelfEdge,
    EmptyPredicate,
}

/// A relationship's endpoints in canonical order (lower page id first),
/// with the predicate read in each direction.
#[derive(Debug, Clone, PartialEq, Eq)]
pub struct CanonicalEdge {
    pub page_a: PageId,
    pub page_b: PageId,
    pub predicate_a_to_b: String,
    pub predicate_b_to_a: String,
}

/// How a relationship is born already ended (a retrofit or correction).
#[derive(Debug, Clone, Copy, PartialEq, Eq, Structural)]
pub enum Ending {
    Superseded(SessionId),
    Retconned(SessionId),
}

/// The canonical edge for a relationship asked from `subject` toward
/// `other`: the lower page id first, each predicate following its
/// direction.
pub open spec fn canonical_edge(subject: PageId, other: PageId, forward: String, reverse: String) -> CanonicalEdge {
    if subject.0 < other.0 {
        CanonicalEdge { page_a: subject, page_b: other, predicate_a_to_b: forward, predicate_b_to_a: reverse }
    } else {
        CanonicalEdge { page_a: other, page_b: subject, predicate_a_to_b: reverse, predicate_b_to_a: forward }
    }
}

/// The new relationship an edge becomes, with its id, knowledge, origin
/// and (for a retrofit) ending.
pub open spec fn new_relationship(edge: CanonicalEdge, id: RelationshipId, knowledge: Knowledge, origin: Origin, ending: Option<Ending>) -> NewRelationship {
    NewRelationship {
        id,
        page_a: edge.page_a,
        page_b: edge.page_b,
        predicate_a_to_b: edge.predicate_a_to_b,
        predicate_b_to_a: edge.predicate_b_to_a,
        origin,
        superseded: match ending {
            Some(Ending::Superseded(s)) => Some(s),
            _ => None,
        },
        retcon: match ending {
            Some(Ending::Retconned(s)) => Some(s),
            _ => None,
        },
        knowledge,
    }
}

/// Put a relationship asked for from `subject` toward `other` in canonical
/// order: a page cannot relate to itself, and neither predicate may be
/// empty; the lower page id becomes `page_a`, the predicates following
/// their direction.
pub fn canonicalize(subject: PageId, other: PageId, forward: String, reverse: String) -> (r: Result<CanonicalEdge, EdgeError>)
    ensures
        subject == other ==> r == Err::<CanonicalEdge, EdgeError>(EdgeError::SelfEdge),
        subject != other && (forward@.len() == 0 || reverse@.len() == 0)
            ==> r == Err::<CanonicalEdge, EdgeError>(EdgeError::EmptyPredicate),
        subject != other && forward@.len() > 0 && reverse@.len() > 0
            ==> r == Ok::<CanonicalEdge, EdgeError>(canonical_edge(subject, other, forward, reverse)),
{
    if subject == other {
        return Err(EdgeError::SelfEdge);
    }
    if forward.as_str().unicode_len() == 0 || reverse.as_str().unicode_len() == 0 {
        return Err(EdgeError::EmptyPredicate);
    }
    if subject.0 < other.0 {
        Ok(CanonicalEdge { page_a: subject, page_b: other, predicate_a_to_b: forward, predicate_b_to_a: reverse })
    } else {
        Ok(CanonicalEdge { page_a: other, page_b: subject, predicate_a_to_b: reverse, predicate_b_to_a: forward })
    }
}

impl CanonicalEdge {
    /// The new relationship this edge becomes, with its id, knowledge,
    /// origin and (for a retrofit) ending.
    pub fn into_new(self, id: RelationshipId, knowledge: Knowledge, origin: Origin, ending: Option<Ending>) -> (n: NewRelationship)
        ensures
            n == new_relationship(self, id, knowledge, origin, ending),
            n.id == id,
            n.page_a == self.page_a,
            n.page_b == self.page_b,
            n.predicate_a_to_b == self.predicate_a_to_b,
            n.predicate_b_to_a == self.predicate_b_to_a,
            n.origin == origin,
            n.knowledge == knowledge,
            n.superseded == (match ending {
                Some(Ending::Superseded(s)) => Some(s),
                _ => None,
            }),
            n.retcon == (match ending {
                Some(Ending::Retconned(s)) => Some(s),
                _ => None,
            }),
    {
        let (superseded, retcon) = match ending {
            Some(Ending::Superseded(s)) => (Some(s), None),
            Some(Ending::Retconned(s)) => (None, Some(s)),
            None => (None, None),
        };
        NewRelationship {
            id,
            page_a: self.page_a,
            page_b: self.page_b,
            predicate_a_to_b: self.predicate_a_to_b,
            predicate_b_to_a: self.predicate_b_to_a,
            origin,
            superseded,
            retcon,
            knowledge,
        }
    }
}

/// Create a relationship from `subject` toward `other`; with `supersedes`,
/// atomically replace that live fact (ended at this one's origin session).
#[derive(Debug, Clone, PartialEq, Eq)]
pub struct CreateRelationship {
    pub subject: PageId,
    pub other: PageId,
    pub predicate_forward: String,
    pub predicate_reverse: String,
    pub knowledge: Knowledge,
    pub origin: Origin,
    pub ending: Option<Ending>,
    pub supersedes: Option<RelationshipId>,
}

/// Why a relationship could not be created.
#[derive(Debug, Clone, PartialEq, Eq)]
pub enum CreateRelationshipError {
    SelfEdge,
    EmptyPredicate,
    PageNotFound(PageId),
    DuplicateLiveFact,
    SupersedesNotFound,
    SupersedesNotLive,
    SupersedesDifferentPair,
    PriorOriginCannotSupersede,
    SessionNotFound(SessionId),
    EndBeforeOrigin,
    ActorUnavailable,
    Db(String),
}

impl CreateRelationshipError {
    /// The creation error an edge error is.
    pub fn from_edge(e: EdgeError) -> (r: CreateRelationshipError)
        ensures
            r == (match e {
                EdgeError::SelfEdge => CreateRelationshipError::SelfEdge,
                EdgeError::EmptyPredicate => CreateRelationshipError::EmptyPredicate,
            }),
    {
        match e {
            EdgeError::SelfEdge => CreateRelationshipError::SelfEdge,
            EdgeError::EmptyPredicate => CreateRelationshipError::EmptyPredicate,
        }
    }
}

/// The verdict of the supersede checks against `existing`, the fact being
/// replaced if it is held: when all pass, the session at which it ends.
pub open spec fn supersede_verdict(existing: Option<Relationship>, edge: CanonicalEdge, origin: Origin) -> Result<SessionId, CreateRelationshipError> {
    match existing {
        None => Err(CreateRelationshipError::SupersedesNotFound),
        Some(old) => if !is_live(old) {
            Err(CreateRelationshipError::SupersedesNotLive)
        } else if old.page_a != edge.page_a || old.page_b != edge.page_b {
            Err(CreateRelationshipError::SupersedesDifferentPair)
        } else {
            match origin {
                Origin::Prior => Err(CreateRelationshipError::PriorOriginCannotSupersede),
                Origin::Session(s) => Ok(s),
            }
        },
    }
}

/// The supersede checks against the fact being replaced: it must exist,
/// be live, join the same two pages, and the new fact must originate at a
/// session, which is when the old one ends (returned).
pub fn check_supersede(existing: Option<&Relationship>, edge: &CanonicalEdge, origin: Origin) -> (r: Result<SessionId, CreateRelationshipError>)
    ensures
        r == supersede_verdict(match existing { Some(old) => Some(*old), None => None }, *edge, origin),
{
    match existing {
        None => Err(CreateRelationshipError::SupersedesNotFound),
        Some(old) => {
            if old.superseded.is_some() || old.retcon.is_some() {
                return Err(CreateRelationshipError::SupersedesNotLive);
            }
            if old.page_a != edge.page_a || old.page_b != edge.page_b {
                return Err(CreateRelationshipError::SupersedesDifferentPair);
            }
            match origin {
                Origin::Prior => Err(CreateRelationshipError::PriorOriginCannotSupersede),
                Origin::Session(s) => Ok(s),
            }
        },
    }
}

/// A fact cannot end before it began: the ending session's ordinal must not
/// precede the fact's origin ordinal (a `Prior` origin, `None`, precedes
/// every session).
pub fn ends_after_origin(end_ordinal: i64, origin_ordinal: Option<i64>) -> (ok: bool)
    ensures
        ok == (match origin_ordinal {
            Some(o) => end_ordinal >= o,
            None => true,
        }),
{
    match origin_ordinal {
        Some(o) => end_ordinal >= o,
        None => true,
    }
}

/// The writes of a creation: the new row alone, or, for a supersede, the
/// new row first and then the superseded stamp on the old row at the
/// ending session, so a duplicate new fact rolls the whole batch back
/// before the old fact is ended.
pub fn create_writes(new: NewRelationship, supersede: Option<(RelationshipId, SessionId)>) -> (w: Vec<RelationshipWrite>)
    ensures
        w@ == (match supersede {
            None => seq![RelationshipWrite::Create(new)],
            Some((old, as_of)) => seq![
                RelationshipWrite::Create(new),
                RelationshipWrite::SetStamp { rel_id: old, column: StampColumn::Superseded, at: Some(as_of) },
            ],
        }),
{
    let ghost n = new;
    let mut w: Vec<RelationshipWrite> = Vec::new();
    w.push(RelationshipWrite::Create(new));
    match supersede {
        None => {},
        Some((old, as_of)) => {
            w.push(RelationshipWrite::SetStamp { rel_id: old, column: StampColumn::Superseded, at: Some(as_of) });
        },
    }
    proof {
        match supersede {
            None => assert(w@ =~= seq![RelationshipWrite::Create(n)]),
            Some((old, as_of)) => assert(w@ =~= seq![
                RelationshipWrite::Create(n),
                RelationshipWrite::SetStamp { rel_id: old, column: StampColumn::Superseded, at: Some(as_of) },
            ]),
        }
    }
    w
}

/// A failed creation batch: a duplicate live fact is reported as such; a
/// missing row cannot happen for a creation and is a database error.
pub fn create_err_from_write(e: RelationshipWriteError) -> (r: CreateRelationshipError)
    ensures
        match e {
            RelationshipWriteError::DuplicateLiveFact => r == CreateRelationshipError::DuplicateLiveFact,
            RelationshipWriteError::NotFound => r matches CreateRelationshipError::Db(m)
                && m@ == "unexpected NotFound creating relationship"@,
            RelationshipWriteError::Db(m) => r == CreateRelationshipError::Db(m),
        },
{
    match e {
        RelationshipWriteError::DuplicateLiveFact => CreateRelationshipError::DuplicateLiveFact,
        RelationshipWriteError::NotFound => CreateRelationshipError::Db("unexpected NotFound creating relationship".to_owned()),
        RelationshipWriteError::Db(m) => CreateRelationshipError::Db(m),
    }
}

/// Where a relationship creation stands: what the graph is waiting for.
#[derive(Debug, Clone, Copy, PartialEq, Eq, Structural)]
pub enum CreateRelationshipStage {
    /// Whether the edge's lower page exists.
    AwaitPageA,
    /// Whether the edge's higher page exists.
    AwaitPageB,
    /// The ordinal of the new fact's origin session.
    AwaitOriginOrdinal,
    /// The ordinal of the superseded fact's origin session.
    AwaitOldOrdinal,
    /// The outcome of the write batch.
    AwaitWrite,
    Done,
}

/// What the graph does next for a `CreateRelationship`.
#[derive(Debug, PartialEq, Eq)]
pub enum CreateRelationshipStep {
    /// Read whether the page exists.
    CheckPage(PageId),
    /// Read the session's ordinal.
    LookupOrdinal(SessionId),
    /// Apply the batch through the single writer, in one transaction.
    Apply(Vec<RelationshipWrite>),
    Failed(CreateRelationshipError),
}

/// The database's error text for a superseded row whose origin session has
/// no ordinal, which the session foreign key rules out.
pub open spec fn missing_old_ordinal_text() -> Seq<char> {
    "superseded row's origin session missing ordinal (FK invariant broken)"@
}

/// One `CreateRelationship` in flight: the edge is canonical and both its
/// pages exist before anything is written, a session origin names a real
/// session, and a supersede is checked against the graph and dated after
/// the fact it ends.
pub struct CreateRelationshipFlow {
    pub stage: CreateRelationshipStage,
    pub edge: CanonicalEdge,
    pub id: RelationshipId,
    pub knowledge: Knowledge,
    pub origin: Origin,
    pub ending: Option<Ending>,
    pub supersedes: Option<RelationshipId>,
    /// The origin session's ordinal, once read.
    pub origin_ordinal: Option<i64>,
    /// The session at which the superseded fact ends, once checked.
    pub as_of: Option<SessionId>,
}

impl CreateRelationshipFlow {
    /// The fact a plain create writes.
    pub open spec fn plain(self) -> NewRelationship {
        new_relationship(self.edge, self.id, self.knowledge, self.origin, self.ending)
    }

    /// The fact a supersede writes: born live.
    pub open spec fn replacement(self) -> NewRelationship {
        new_relationship(self.edge, self.id, self.knowledge, self.origin, None)
    }

    /// The step once the origin is known: a plain create writes the new fact;
    /// a supersede is checked against the graph's view of the old fact,
    /// then dated against its origin when that was a session.
    pub open spec fn after_origin(self, rels: Map<u128, Relationship>) -> (CreateRelationshipStage, Option<SessionId>, Seq<RelationshipWrite>, Option<CreateRelationshipError>, Option<SessionId>) {
        match self.supersedes {
            None => (CreateRelationshipStage::AwaitWrite, None, seq![RelationshipWrite::Create(self.plain())], None, None),
            Some(old) => {
                let existing = if rels.contains_key(old.0) { Some(rels[old.0]) } else { None };
                match supersede_verdict(existing, self.edge, self.origin) {
                    Err(e) => (CreateRelationshipStage::Done, None, Seq::empty(), Some(e), None),
                    Ok(as_of) => match rels[old.0].origin {
                        Origin::Session(os) => (CreateRelationshipStage::AwaitOldOrdinal, Some(os), Seq::empty(), None, Some(as_of)),
                        Origin::Prior => (CreateRelationshipStage::AwaitWrite, None, seq![
                            RelationshipWrite::Create(self.replacement()),
                            RelationshipWrite::SetStamp { rel_id: old, column: StampColumn::Superseded, at: Some(as_of) },
                        ], None, Some(as_of)),
                    },
                }
            },
        }
    }

    /// `r` is the step `after_origin` decides, and the flow moved to its
    /// stage.
    pub open spec fn took_after_origin(before: Self, after: Self, rels: Map<u128, Relationship>, r: CreateRelationshipStep) -> bool {
        let (stage, lookup, writes, err, as_of) = before.after_origin(rels);
        &&& after.stage == stage
        &&& after.as_of == as_of
        &&& match err {
            Some(e) => r == CreateRelationshipStep::Failed(e),
            None => match lookup {
                Some(os) => r == CreateRelationshipStep::LookupOrdinal(os),
                None => r matches CreateRelationshipStep::Apply(w) && w@ == writes,
            },
        }
    }

    /// Take a request and the id the new fact will carry: a self edge or an
    /// empty predicate fails at once; otherwise the edge's lower page is
    /// checked first.
    pub fn start(msg: CreateRelationship, id: RelationshipId) -> (r: (CreateRelationshipFlow, CreateRelationshipStep))
        ensures
            msg.subject == msg.other ==> r.0.stage == CreateRelationshipStage::Done
                && r.1 == CreateRelationshipStep::Failed(CreateRelationshipError::SelfEdge),
            msg.subject != msg.other && (msg.predicate_forward@.len() == 0 || msg.predicate_reverse@.len() == 0)
                ==> r.0.stage == CreateRelationshipStage::Done
                && r.1 == CreateRelationshipStep::Failed(CreateRelationshipError::EmptyPredicate),
            msg.subject != msg.other && msg.predicate_forward@.len() > 0 && msg.predicate_reverse@.len() > 0 ==> {
                let edge = canonical_edge(msg.subject, msg.other, msg.predicate_forward, msg.predicate_reverse);
                &&& r.0.stage == CreateRelationshipStage::AwaitPageA
                &&& r.0.edge == edge
                &&& r.0.id == id
                &&& r.0.knowledge == msg.knowledge
                &&& r.0.origin == msg.origin
                &&& r.0.ending == msg.ending
                &&& r.0.supersedes == msg.supersedes
                &&& r.0.origin_ordinal is None
                &&& r.0.as_of is None
                &&& r.1 == CreateRelationshipStep::CheckPage(edge.page_a)
            },
    {
        match canonicalize(msg.subject, msg.other, msg.predicate_forward, msg.predicate_reverse) {
            Err(e) => {
                let flow = CreateRelationshipFlow {
                    stage: CreateRelationshipStage::Done,
                    edge: CanonicalEdge { page_a: msg.subject, page_b: msg.other, predicate_a_to_b: String::new(), predicate_b_to_a: String::new() },
                    id,
                    knowledge: msg.knowledge,
                    origin: msg.origin,
                    ending: msg.ending,
                    supersedes: msg.supersedes,
                    origin_ordinal: None,
                    as_of: None,
                };
                (flow, CreateRelationshipStep::Failed(CreateRelationshipError::from_edge(e)))
            },
            Ok(edge) => {
                let first = edge.page_a;
                let flow = CreateRelationshipFlow {
                    stage: CreateRelationshipStage::AwaitPageA,
                    edge,
                    id,
                    knowledge: msg.knowledge,
                    origin: msg.origin,
                    ending: msg.ending,
                    supersedes: msg.supersedes,
                    origin_ordinal: None,
                    as_of: None,
                };
                (flow, CreateRelationshipStep::CheckPage(first))
            },
        }
    }

    fn new_fact(&self, ending: Option<Ending>) -> (n: NewRelationship)
        ensures
            n == new_relationship(self.edge, self.id, self.knowledge, self.origin, ending),
    {
        let edge = CanonicalEdge {
            page_a: self.edge.page_a,
            page_b: self.edge.page_b,
            predicate_a_to_b: self.edge.predicate_a_to_b.clone(),
            predicate_b_to_a: self.edge.predicate_b_to_a.clone(),
        };
        edge.into_new(self.id, self.knowledge, self.origin, ending)
    }

    fn fail(&mut self, e: CreateRelationshipError) -> (r: CreateRelationshipStep)
        ensures
            *final(self) == (CreateRelationshipFlow { stage: CreateRelationshipStage::Done, ..*old(self) }),
            r == CreateRelationshipStep::Failed(e),
    {
        self.stage = CreateRelationshipStage::Done;
        CreateRelationshipStep::Failed(e)
    }

    fn decide_after_origin(&mut self, store: &RelationshipStore) -> (r: CreateRelationshipStep)
        requires
            store.wf(),
        ensures
            Self::took_after_origin(*old(self), *final(self), store.relationships(), r),
            final(self).edge == old(self).edge,
            final(self).id == old(self).id,
            final(self).knowledge == old(self).knowledge,
            final(self).origin == old(self).origin,
            final(self).ending == old(self).ending,
            final(self).supersedes == old(self).supersedes,
            final(self).origin_ordinal == old(self).origin_ordinal,
    {
        match self.supersedes {
            None => {
                self.stage = CreateRelationshipStage::AwaitWrite;
                self.as_of = None;
                let new = self.new_fact(self.ending);
                CreateRelationshipStep::Apply(create_writes(new, None))
            },
            Some(old) => {
                let existing = store.get(old);
                match check_supersede(existing, &self.edge, self.origin) {
                    Err(e) => {
                        self.as_of = None;
                        self.fail(e)
                    },
                    Ok(as_of) => {
                        self.as_of = Some(as_of);
                        match existing.unwrap().origin {
                            Origin::Session(os) => {
                                self.stage = CreateRelationshipStage::AwaitOldOrdinal;
                                CreateRelationshipStep::LookupOrdinal(os)
                            },
                            Origin::Prior => {
                                self.stage = CreateRelationshipStage::AwaitWrite;
                                let new = self.new_fact(None);
                                CreateRelationshipStep::Apply(create_writes(new, Some((old, as_of))))
                            },
                        }
                    },
                }
            },
        }
    }

    /// A page check answered (`Ok(found)`, or the database's error text): a
    /// missing page fails; the lower page moves on to the higher one, and
    /// the higher one to the origin session, or, for a `Prior` origin,
    /// straight to the decision against the graph.
    pub fn page_checked(&mut self, found: Result<bool, String>, store: &RelationshipStore) -> (r: CreateRelationshipStep)
        requires
            old(self).stage == CreateRelationshipStage::AwaitPageA || old(self).stage == CreateRelationshipStage::AwaitPageB,
            old(self).origin_ordinal is None,
            old(self).as_of is None,
            store.wf(),
        ensures
            final(self).edge == old(self).edge,
            final(self).id == old(self).id,
            final(self).knowledge == old(self).knowledge,
            final(self).origin == old(self).origin,
            final(self).ending == old(self).ending,
            final(self).supersedes == old(self).supersedes,
            final(self).origin_ordinal is None,
            ({
                let page = if old(self).stage == CreateRelationshipStage::AwaitPageA { old(self).edge.page_a } else { old(self).edge.page_b };
                match found {
                    Err(e) => final(self).stage == CreateRelationshipStage::Done
                        && r == CreateRelationshipStep::Failed(CreateRelationshipError::Db(e)),
                    Ok(false) => final(self).stage == CreateRelationshipStage::Done
                        && r == CreateRelationshipStep::Failed(CreateRelationshipError::PageNotFound(page)),
                    Ok(true) => if old(self).stage == CreateRelationshipStage::AwaitPageA {
                        final(self).stage == CreateRelationshipStage::AwaitPageB
                            && r == CreateRelationshipStep::CheckPage(old(self).edge.page_b)
                    } else {
                        match old(self).origin {
                            Origin::Session(s) => final(self).stage == CreateRelationshipStage::AwaitOriginOrdinal
                                && r == CreateRelationshipStep::LookupOrdinal(s),
                            Origin::Prior => Self::took_after_origin(*old(self), *final(self), store.relationships(), r),
                        }
                    },
                }
            }),
    {
        let page = if self.stage == CreateRelationshipStage::AwaitPageA { self.edge.page_a } else { self.edge.page_b };
        match found {
            Err(e) => self.fail(CreateRelationshipError::Db(e)),
            Ok(false) => self.fail(CreateRelationshipError::PageNotFound(page)),
            Ok(true) => {
                if self.stage == CreateRelationshipStage::AwaitPageA {
                    self.stage = CreateRelationshipStage::AwaitPageB;
                    CreateRelationshipStep::CheckPage(self.edge.page_b)
                } else {
                    match self.origin {
                        Origin::Session(s) => {
                            self.stage = CreateRelationshipStage::AwaitOriginOrdinal;
                            CreateRelationshipStep::LookupOrdinal(s)
                        },
                        Origin::Prior => self.decide_after_origin(store),
                    }
                }
            },
        }
    }

    /// The origin session's ordinal was read (`Ok(None)`: no such session).
    pub fn origin_ordinal_found(&mut self, ordinal: Result<Option<i64>, String>, store: &RelationshipStore) -> (r: CreateRelationshipStep)
        requires
            old(self).stage == CreateRelationshipStage::AwaitOriginOrdinal,
            old(self).origin is Session,
            store.wf(),
        ensures
            final(self).edge == old(self).edge,
            final(self).id == old(self).id,
            final(self).knowledge == old(self).knowledge,
            final(self).origin == old(self).origin,
            final(self).ending == old(self).ending,
            final(self).supersedes == old(self).supersedes,
            match ordinal {
                Err(e) => final(self).stage == CreateRelationshipStage::Done
                    && r == CreateRelationshipStep::Failed(CreateRelationshipError::Db(e)),
                Ok(None) => final(self).stage == CreateRelationshipStage::Done
                    && r == CreateRelationshipStep::Failed(CreateRelationshipError::SessionNotFound(old(self).origin->Session_0)),
                Ok(Some(o)) => final(self).origin_ordinal == Some(o)
                    && Self::took_after_origin(CreateRelationshipFlow { origin_ordinal: Some(o), ..*old(self) }, *final(self), store.relationships(), r),
            },
    {
        match ordinal {
            Err(e) => self.fail(CreateRelationshipError::Db(e)),
            Ok(None) => {
                let s = match self.origin {
                    Origin::Session(s) => s,
                    Origin::Prior => SessionId(0),
                };
                self.fail(CreateRelationshipError::SessionNotFound(s))
            },
            Ok(Some(o)) => {
                self.origin_ordinal = Some(o);
                self.decide_after_origin(store)
            },
        }
    }

    /// The superseded fact's origin ordinal was read: the new fact's origin
    /// session, when the old one ends, cannot come before it.
    pub fn old_ordinal_found(&mut self, ordinal: Result<Option<i64>, String>) -> (r: CreateRelationshipStep)
        requires
            old(self).stage == CreateRelationshipStage::AwaitOldOrdinal,
            old(self).supersedes is Some,
            old(self).as_of is Some,
            old(self).origin_ordinal is Some,
        ensures
            final(self).stage == (if r is Apply { CreateRelationshipStage::AwaitWrite } else { CreateRelationshipStage::Done }),
            match ordinal {
                Err(e) => r == CreateRelationshipStep::Failed(CreateRelationshipError::Db(e)),
                Ok(None) => r matches CreateRelationshipStep::Failed(CreateRelationshipError::Db(m)) && m@ == missing_old_ordinal_text(),
                Ok(Some(o)) => if old(self).origin_ordinal.unwrap() < o {
                    r == CreateRelationshipStep::Failed(CreateRelationshipError::EndBeforeOrigin)
                } else {
                    r matches CreateRelationshipStep::Apply(w) && w@ == seq![
                        RelationshipWrite::Create(old(self).replacement()),
                        RelationshipWrite::SetStamp {
                            rel_id: old(self).supersedes.unwrap(),
                            column: StampColumn::Superseded,
                            at: old(self).as_of,
                        },
                    ]
                },
            },
    {
        match ordinal {
            Err(e) => self.fail(CreateRelationshipError::Db(e)),
            Ok(None) => self.fail(CreateRelationshipError::Db("superseded row's origin session missing ordinal (FK invariant broken)".to_owned())),
            Ok(Some(o)) => {
                let new_ordinal = self.origin_ordinal.unwrap();
                if new_ordinal < o {
                    self.fail(CreateRelationshipError::EndBeforeOrigin)
                } else {
                    self.stage = CreateRelationshipStage::AwaitWrite;
                    let new = self.new_fact(None);
                    CreateRelationshipStep::Apply(create_writes(new, Some((self.supersedes.unwrap(), self.as_of.unwrap()))))
                }
            },
        }
    }

    /// The batch was applied: its committed outcomes, the new row first, are
    /// reflected into the graph in order and the new row is the reply;
    /// otherwise the error the failure is reported as, the graph untouched.
    pub fn applied(&mut self, reply: Result<Vec<RelationshipWriteOutcome>, SendFailure<RelationshipWriteError>>, store: &mut RelationshipStore) -> (r: Result<RelationshipRow, CreateRelationshipError>)
        requires
            old(self).stage == CreateRelationshipStage::AwaitWrite,
            old(store).wf(),
        ensures
            final(self).stage == CreateRelationshipStage::Done,
            final(store).wf(),
            reply is Err ==> final(store).relationships() == old(store).relationships(),
            match reply {
                Err(SendFailure::HandlerError(e)) => match e {
                    RelationshipWriteError::DuplicateLiveFact => r matches Err(CreateRelationshipError::DuplicateLiveFact),
                    RelationshipWriteError::NotFound => r matches Err(CreateRelationshipError::Db(m))
                        && m@ == "unexpected NotFound creating relationship"@,
                    RelationshipWriteError::Db(m) => r matches Err(CreateRelationshipError::Db(m2)) && m2 == m,
                },
                Err(_) => r == Err::<RelationshipRow, CreateRelationshipError>(CreateRelationshipError::ActorUnavailable),
                Ok(os) => if os@.len() > 0 && os@[0] is Upserted {
                    &&& r matches Ok(row) && os@[0] == RelationshipWriteOutcome::Upserted(row)
                    &&& final(store).relationships() == reflect_checked(old(store).relationships(), os@)
                } else {
                    &&& final(store).relationships() == old(store).relationships()
                    &&& r matches Err(CreateRelationshipError::Db(m)) && m@ == "create batch returned no committed row"@
                },
            },
    {
        self.stage = CreateRelationshipStage::Done;
        match reply {
            Err(SendFailure::HandlerError(e)) => Err(create_err_from_write(e)),
            Err(_) => Err(CreateRelationshipError::ActorUnavailable),
            Ok(os) => {
                let ghost all = os@;
                let first = if os.len() > 0 {
                    match &os[0] {
                        RelationshipWriteOutcome::Upserted(row) => Some(copy_row(row)),
                        RelationshipWriteOutcome::Removed(_) => None,
                    }
                } else {
                    None
                };
                match first {
                    None => Err(CreateRelationshipError::Db("create batch returned no committed row".to_owned())),
                    Some(row) => {
                        let _ = store.reflect_committed(os);
                        Ok(row)
                    },
                }
            },
        }
    }
}

/// An in-place op on an existing relationship.
#[derive(Debug, Clone, Copy, PartialEq, Eq, Structural)]
pub enum RelationshipOp {
    /// The fact stopped being true at this session.
    End { as_of: SessionId },
    /// The fact is declared never to have been true, as of this session.
    Retcon { as_of: SessionId },
    Delete,
    SetKnowledge { knowledge: Knowledge },
}

/// Apply an op to a relationship.
#[derive(Debug, Clone, Copy, PartialEq, Eq, Structural)]
pub struct ApplyOp {
    pub rel_id: RelationshipId,
    pub op: RelationshipOp,
}

/// Why an op failed.
#[derive(Debug, Clone, PartialEq, Eq)]
pub enum ApplyOpError {
    NotFound,
    DuplicateLiveFact,
    SessionNotFound(SessionId),
    EndBeforeOrigin,
    ActorUnavailable,
    Db(String),
}

/// The single write an op decomposes into.
pub fn op_writes(rel_id: RelationshipId, op: RelationshipOp) -> (w: Vec<RelationshipWrite>)
    ensures
        w@ == seq![match op {
            RelationshipOp::End { as_of } => RelationshipWrite::SetStamp { rel_id, column: StampColumn::Superseded, at: Some(as_of) },
            RelationshipOp::Retcon { as_of } => RelationshipWrite::SetStamp { rel_id, column: StampColumn::Retcon, at: Some(as_of) },
            RelationshipOp::Delete => RelationshipWrite::Delete { rel_id },
            RelationshipOp::SetKnowledge { knowledge } => RelationshipWrite::SetKnowledge { rel_id, knowledge },
        }],
{
    let write = match op {
        RelationshipOp::End { as_of } => RelationshipWrite::SetStamp { rel_id, column: StampColumn::Superseded, at: Some(as_of) },
        RelationshipOp::Retcon { as_of } => RelationshipWrite::SetStamp { rel_id, column: StampColumn::Retcon, at: Some(as_of) },
        RelationshipOp::Delete => RelationshipWrite::Delete { rel_id },
        RelationshipOp::SetKnowledge { knowledge } => RelationshipWrite::SetKnowledge { rel_id, knowledge },
    };
    let mut w: Vec<RelationshipWrite> = Vec::new();
    w.push(write);
    proof {
        assert(w@ =~= seq![write]);
    }
    w
}

/// Where an op stands: what the graph is waiting for.
#[derive(Debug, Clone, Copy, PartialEq, Eq, Structural)]
pub enum ApplyOpStage {
    /// The ordinal of the session an `End` is dated at.
    AwaitEndOrdinal,
    /// The ordinal of the ended fact's origin session.
    AwaitOriginOrdinal,
    /// The outcome of the write.
    AwaitWrite,
    Done,
}

/// What the graph does next for an `ApplyOp`.
#[derive(Debug, PartialEq, Eq)]
pub enum ApplyOpStep {
    /// Read the session's ordinal.
    LookupOrdinal(SessionId),
    /// Apply the op's write through the single writer.
    Apply(Vec<RelationshipWrite>),
    Failed(ApplyOpError),
}

/// The database's error text for a fact whose origin session has no
/// ordinal, which the session foreign key rules out.
pub open spec fn missing_origin_ordinal_text() -> Seq<char> {
    "origin session missing ordinal (FK invariant broken)"@
}

/// One `ApplyOp` in flight. Ending a fact is checked first: the session it
/// ends at must exist, the fact must be held, and it cannot end before it
/// began. Every other op goes straight to its write.
pub struct ApplyOpFlow {
    pub stage: ApplyOpStage,
    pub rel_id: RelationshipId,
    pub op: RelationshipOp,
    /// The ordinal of the session an `End` is dated at, once read.
    pub end_ordinal: Option<i64>,
}

impl ApplyOpFlow {
    /// The op's write, as a batch of one.
    pub open spec fn writes(self) -> Seq<RelationshipWrite> {
        seq![match self.op {
            RelationshipOp::End { as_of } => RelationshipWrite::SetStamp { rel_id: self.rel_id, column: StampColumn::Superseded, at: Some(as_of) },
            RelationshipOp::Retcon { as_of } => RelationshipWrite::SetStamp { rel_id: self.rel_id, column: StampColumn::Retcon, at: Some(as_of) },
            RelationshipOp::Delete => RelationshipWrite::Delete { rel_id: self.rel_id },
            RelationshipOp::SetKnowledge { knowledge } => RelationshipWrite::SetKnowledge { rel_id: self.rel_id, knowledge },
        }]
    }

    /// Take an op: an `End` first reads its session's ordinal; any other op
    /// is written at once.
    pub fn start(msg: ApplyOp) -> (r: (ApplyOpFlow, ApplyOpStep))
        ensures
            r.0.rel_id == msg.rel_id,
            r.0.op == msg.op,
            r.0.end_ordinal is None,
            match msg.op {
                RelationshipOp::End { as_of } => r.0.stage == ApplyOpStage::AwaitEndOrdinal
                    && r.1 == ApplyOpStep::LookupOrdinal(as_of),
                _ => r.0.stage == ApplyOpStage::AwaitWrite
                    && (r.1 matches ApplyOpStep::Apply(w) && w@ == r.0.writes()),
            },
            match msg.op {
                RelationshipOp::End { .. } => true,
                RelationshipOp::Retcon { as_of } => r.1 matches ApplyOpStep::Apply(w)
                    && w@ == seq![RelationshipWrite::SetStamp { rel_id: msg.rel_id, column: StampColumn::Retcon, at: Some(as_of) }],
                RelationshipOp::Delete => r.1 matches ApplyOpStep::Apply(w)
                    && w@ == seq![RelationshipWrite::Delete { rel_id: msg.rel_id }],
                RelationshipOp::SetKnowledge { knowledge } => r.1 matches ApplyOpStep::Apply(w)
                    && w@ == seq![RelationshipWrite::SetKnowledge { rel_id: msg.rel_id, knowledge }],
            },
    {
        let flow = ApplyOpFlow { stage: ApplyOpStage::AwaitWrite, rel_id: msg.rel_id, op: msg.op, end_ordinal: None };
        match msg.op {
            RelationshipOp::End { as_of } => (ApplyOpFlow { stage: ApplyOpStage::AwaitEndOrdinal, ..flow }, ApplyOpStep::LookupOrdinal(as_of)),
            _ => (flow, ApplyOpStep::Apply(op_writes(msg.rel_id, msg.op))),
        }
    }

    fn fail(&mut self, e: ApplyOpError) -> (r: ApplyOpStep)
        ensures
            *final(self) == (ApplyOpFlow { stage: ApplyOpStage::Done, ..*old(self) }),
            r == ApplyOpStep::Failed(e),
    {
        self.stage = ApplyOpStage::Done;
        ApplyOpStep::Failed(e)
    }

    /// The end session's ordinal was read (`Ok(None)`: no such session). The
    /// fact must then be held; a `Prior` fact is ended at once, a fact that
    /// began at a session first has that session's ordinal read.
    pub fn end_ordinal_found(&mut self, ordinal: Result<Option<i64>, String>, store: &RelationshipStore) -> (r: ApplyOpStep)
        requires
            old(self).stage == ApplyOpStage::AwaitEndOrdinal,
            old(self).op is End,
            store.wf(),
        ensures
            final(self).rel_id == old(self).rel_id,
            final(self).op == old(self).op,
            ({
                let rels = store.relationships();
                let id = old(self).rel_id.0;
                match ordinal {
                    Err(e) => final(self).stage == ApplyOpStage::Done && r == ApplyOpStep::Failed(ApplyOpError::Db(e)),
                    Ok(None) => final(self).stage == ApplyOpStage::Done
                        && r == ApplyOpStep::Failed(ApplyOpError::SessionNotFound(old(self).op->End_as_of)),
                    Ok(Some(end)) => if !rels.contains_key(id) {
                        final(self).stage == ApplyOpStage::Done && r == ApplyOpStep::Failed(ApplyOpError::NotFound)
                    } else {
                        &&& final(self).end_ordinal == Some(end)
                        &&& match rels[id].origin {
                            Origin::Session(os) => final(self).stage == ApplyOpStage::AwaitOriginOrdinal
                                && r == ApplyOpStep::LookupOrdinal(os),
                            Origin::Prior => final(self).stage == ApplyOpStage::AwaitWrite
                                && (r matches ApplyOpStep::Apply(w) && w@ == old(self).writes()),
                        }
                    },
                }
            }),
    {
        match ordinal {
            Err(e) => self.fail(ApplyOpError::Db(e)),
            Ok(None) => {
                let s = match self.op {
                    RelationshipOp::End { as_of } => as_of,
                    _ => SessionId(0),
                };
                self.fail(ApplyOpError::SessionNotFound(s))
            },
            Ok(Some(end)) => match store.get(self.rel_id) {
                None => self.fail(ApplyOpError::NotFound),
                Some(rel) => {
                    self.end_ordinal = Some(end);
                    match rel.origin {
                        Origin::Session(os) => {
                            self.stage = ApplyOpStage::AwaitOriginOrdinal;
                            ApplyOpStep::LookupOrdinal(os)
                        },
                        Origin::Prior => {
                            self.stage = ApplyOpStage::AwaitWrite;
                            ApplyOpStep::Apply(op_writes(self.rel_id, self.op))
                        },
                    }
                },
            },
        }
    }

    /// The fact's origin ordinal was read: a fact cannot end before it
    /// began.
    pub fn origin_ordinal_found(&mut self, ordinal: Result<Option<i64>, String>) -> (r: ApplyOpStep)
        requires
            old(self).stage == ApplyOpStage::AwaitOriginOrdinal,
            old(self).end_ordinal is Some,
        ensures
            final(self).rel_id == old(self).rel_id,
            final(self).op == old(self).op,
            match ordinal {
                Err(e) => final(self).stage == ApplyOpStage::Done && r == ApplyOpStep::Failed(ApplyOpError::Db(e)),
                Ok(None) => final(self).stage == ApplyOpStage::Done
                    && (r matches ApplyOpStep::Failed(ApplyOpError::Db(m)) && m@ == missing_origin_ordinal_text()),
                Ok(Some(o)) => if old(self).end_ordinal.unwrap() < o {
                    final(self).stage == ApplyOpStage::Done && r == ApplyOpStep::Failed(ApplyOpError::EndBeforeOrigin)
                } else {
                    final(self).stage == ApplyOpStage::AwaitWrite
                        && (r matches ApplyOpStep::Apply(w) && w@ == old(self).writes())
                },
            },
    {
        match ordinal {
            Err(e) => self.fail(ApplyOpError::Db(e)),
            Ok(None) => self.fail(ApplyOpError::Db("origin session missing ordinal (FK invariant broken)".to_owned())),
            Ok(Some(o)) => {
                if ends_after_origin(self.end_ordinal.unwrap(), Some(o)) {
                    self.stage = ApplyOpStage::AwaitWrite;
                    ApplyOpStep::Apply(op_writes(self.rel_id, self.op))
                } else {
                    self.fail(ApplyOpError::EndBeforeOrigin)
                }
            },
        }
    }

    /// The write was applied: its committed outcomes are reflected into
    /// the graph in order; otherwise the error the failure is reported as,
    /// the graph untouched.
    pub fn applied(&mut self, reply: Result<Vec<RelationshipWriteOutcome>, SendFailure<RelationshipWriteError>>, store: &mut RelationshipStore) -> (r: Result<(), ApplyOpError>)
        requires
            old(self).stage == ApplyOpStage::AwaitWrite,
            old(store).wf(),
        ensures
            final(self).stage == ApplyOpStage::Done,
            final(store).wf(),
            final(store).relationships() == (match reply {
                Ok(os) => reflect_checked(old(store).relationships(), os@),
                Err(_) => old(store).relationships(),
            }),
            r == (match reply {
                Ok(_) => Ok::<(), ApplyOpError>(()),
                Err(SendFailure::HandlerError(e)) => Err::<(), ApplyOpError>(match e {
                    RelationshipWriteError::DuplicateLiveFact => ApplyOpError::DuplicateLiveFact,
                    RelationshipWriteError::NotFound => ApplyOpError::NotFound,
                    RelationshipWriteError::Db(m) => ApplyOpError::Db(m),
                }),
                Err(_) => Err::<(), ApplyOpError>(ApplyOpError::ActorUnavailable),
            }),
    {
        self.stage = ApplyOpStage::Done;
        match reply {
            Ok(os) => {
                let _ = store.reflect_committed(os);
                Ok(())
            },
            Err(SendFailure::HandlerError(e)) => Err(apply_err_from_write(e)),
            Err(_) => Err(ApplyOpError::ActorUnavailable),
        }
    }
}

/// A failed op batch, error for error.
pub fn apply_err_from_write(e: RelationshipWriteError) -> (r: ApplyOpError)
    ensures
        r == (match e {
            RelationshipWriteError::DuplicateLiveFact => ApplyOpError::DuplicateLiveFact,
            RelationshipWriteError::NotFound => ApplyOpError::NotFound,
            RelationshipWriteError::Db(m) => ApplyOpError::Db(m),
        }),
{
    match e {
        RelationshipWriteError::DuplicateLiveFact => ApplyOpError::DuplicateLiveFact,
        RelationshipWriteError::NotFound => ApplyOpError::NotFound,
        RelationshipWriteError::Db(m) => ApplyOpError::Db(m),
    }
}

/// The campaign's predicate vocabulary, asked of the graph.
#[derive(Debug, Clone, Copy, PartialEq, Eq)]
pub struct KnownPredicatePairs;

/// Every relationship touching a page.
#[derive(Debug, Clone, Copy, PartialEq, Eq)]
pub struct RelationshipsForPage {
    pub page_id: PageId,
}

/// The first referenced session whose ordinal was not found: the session
/// foreign keys forbid one, so any is a broken invariant.
pub fn first_missing_session(ids: &Vec<SessionId>, ordinals: &HashMap<u128, i64>) -> (r: Option<SessionId>)
    ensures
        match r {
            None => forall|i: int| 0 <= i < ids@.len() ==> ordinals@.contains_key(#[trigger] ids@[i].0),
            Some(s) => exists|i: int| 0 <= i < ids@.len() && ids@[i] == s && !ordinals@.contains_key(s.0)
                && forall|j: int| 0 <= j < i ==> ordinals@.contains_key(#[trigger] ids@[j].0),
        },
{
    let mut i: usize = 0;
    while i < ids.len()
        invariant
            0 <= i <= ids@.len(),
            forall|j: int| 0 <= j < i ==> ordinals@.contains_key(#[trigger] ids@[j].0),
        decreases ids@.len() - i,
    {
        if !ordinals.contains_key(&ids[i].0) {
            return Some(ids[i]);
        }
        i = i + 1;
    }
    None
}

/// A referenced session's ordinal; a miss is reported as a broken foreign
/// key invariant rather than answered with a made-up ordinal.
pub fn resolve_ordinal(ordinals: &HashMap<u128, i64>, sid: SessionId) -> (r: Result<i64, String>)
    ensures
        ordinals@.contains_key(sid.0) ==> r == Ok::<i64, String>(ordinals@[sid.0]),
        !ordinals@.contains_key(sid.0) ==> (r matches Err(m) && m@ == "referenced session "@ + crate::ids::ulid_text(sid.0)
            + " missing ordinal (FK invariant broken)"@),
{
    match ordinals.get(&sid.0) {
        Some(o) => Ok(*o),
        None => {
            let mut m = "referenced session ".to_owned();
            let t = crate::ids::ulid_to_string(sid.0);
            m.append(t.as_str());
            m.append(" missing ordinal (FK invariant broken)");
            Err(m)
        },
    }
}

/// A relationship endpoint's page name; a miss is reported as a broken
/// cascade invariant.
pub fn resolve_name(names: &HashMap<u128, String>, id: PageId) -> (r: Result<String, String>)
    ensures
        names@.contains_key(id.0) ==> (r matches Ok(n) && n@ == names@[id.0]@),
        !names@.contains_key(id.0) ==> (r matches Err(m) && m@ == "relationship endpoint "@ + crate::ids::ulid_text(id.0)
            + " missing name (FK ON DELETE CASCADE invariant broken)"@),
{
    match names.get(&id.0) {
        Some(n) => Ok(n.clone()),
        None => {
            let mut m = "relationship endpoint ".to_owned();
            let t = crate::ids::ulid_to_string(id.0);
            m.append(t.as_str());
            m.append(" missing name (FK ON DELETE CASCADE invariant broken)");
            Err(m)
        },
    }
}

/// A relationship's canonical form does not depend on which endpoint asked
/// for it: asking from the other side with the predicates swapped gives the
/// same edge, and its endpoints are in ascending order.
pub proof fn law_canonical_form_is_symmetric(subject: PageId, other: PageId, forward: String, reverse: String)
    requires
        subject != other,
    ensures
        canonical_edge(subject, other, forward, reverse) == canonical_edge(other, subject, reverse, forward),
        canonical_edge(subject, other, forward, reverse).page_a.0 < canonical_edge(subject, other, forward, reverse).page_b.0,
{
    assert(subject.0 != other.0);
}

/// Knowledge survives its two columns: the columns written for a knowledge
/// value read back as that value.
pub proof fn law_knowledge_columns_round_trip(k: Knowledge)
    ensures
        knowledge_of(k != Knowledge::Public, reveal_of(k)) == Some(k),
{
}

/// A supersede replaces before it ends: its batch creates the new fact
/// first and only then stamps the old one superseded, at the new fact's
/// origin session, and the new fact is born live.
pub proof fn law_supersede_creates_before_ending(edge: CanonicalEdge, id: RelationshipId, knowledge: Knowledge, old: RelationshipId, as_of: SessionId)
    ensures
        ({
            let new = NewRelationship {
                id,
                page_a: edge.page_a,
                page_b: edge.page_b,
                predicate_a_to_b: edge.predicate_a_to_b,
                predicate_b_to_a: edge.predicate_b_to_a,
                origin: Origin::Session(as_of),
                superseded: None,
                retcon: None,
                knowledge,
            };
            let batch = seq![
                RelationshipWrite::Create(new),
                RelationshipWrite::SetStamp { rel_id: old, column: StampColumn::Superseded, at: Some(as_of) },
            ];
            &&& batch[0] is Create
            &&& batch[1] == RelationshipWrite::SetStamp { rel_id: old, column: StampColumn::Superseded, at: Some(as_of) }
        }),
{
}

/// Reflecting a committed batch keeps exactly what it committed: after an
/// upsert of a row and the removal of another id, the store holds the
/// row's relationship and no longer holds the removed id.
pub proof fn law_reflect_keeps_committed(m: Map<u128, Relationship>, row: RelationshipRow, gone: RelationshipId)
    requires
        row.id != gone,
    ensures
        ({
            let after = reflect_all(m, seq![RelationshipWriteOutcome::Upserted(row), RelationshipWriteOutcome::Removed(gone)]);
            &&& after.contains_key(row.id.0)
            &&& after[row.id.0] == row_relationship(row)
            &&& !after.contains_key(gone.0)
        }),
{
    reveal_with_fuel(reflect_all, 3);
    let os = seq![RelationshipWriteOutcome::Upserted(row), RelationshipWriteOutcome::Removed(gone)];
    assert(os.drop_first() =~= seq![RelationshipWriteOutcome::Removed(gone)]);
    assert(os.drop_first().drop_first() =~= Seq::<RelationshipWriteOutcome>::empty());
    assert(row.id.0 != gone.0);
}

/// A plain create (no supersede) writes exactly one fact, the one asked
/// for: the edge's pages and predicates, the flow's id, knowledge and
/// origin, and the requested ending as its stamps: ended at `s` for
/// `Superseded(s)`, retconned at `s` for `Retconned(s)`, live for none.
pub proof fn law_plain_create_writes_the_requested_fact(flow: CreateRelationshipFlow, rels: Map<u128, Relationship>)
    requires
        flow.supersedes is None,
    ensures
        ({
            let (stage, lookup, writes, err, as_of) = flow.after_origin(rels);
            &&& err is None
            &&& lookup is None
            &&& stage == CreateRelationshipStage::AwaitWrite
            &&& writes.len() == 1
            &&& writes[0] matches RelationshipWrite::Create(n)
                && n.id == flow.id
                && n.page_a == flow.edge.page_a && n.page_b == flow.edge.page_b
                && n.predicate_a_to_b == flow.edge.predicate_a_to_b && n.predicate_b_to_a == flow.edge.predicate_b_to_a
                && n.knowledge == flow.knowledge
                && n.origin == flow.origin
                && (flow.ending is None ==> n.superseded is None && n.retcon is None)
                && (forall|s: SessionId| flow.ending == Some(Ending::Superseded(s)) ==> n.superseded == Some(s) && n.retcon is None)
                && (forall|s: SessionId| flow.ending == Some(Ending::Retconned(s)) ==> n.retcon == Some(s) && n.superseded is None)
        }),
{
}

/// Each op writes its own change, to the fact it names: an end stamps the
/// superseded column at its session, a retcon the retcon column at its
/// session, a delete removes the fact and a knowledge change sets the
/// knowledge. Only an end marks a fact superseded, and only a retcon marks
/// it retconned.
pub proof fn law_op_writes_its_own_change(flow: ApplyOpFlow)
    ensures
        flow.writes().len() == 1,
        match flow.op {
            RelationshipOp::End { as_of } => flow.writes()[0]
                == (RelationshipWrite::SetStamp { rel_id: flow.rel_id, column: StampColumn::Superseded, at: Some(as_of) }),
            RelationshipOp::Retcon { as_of } => flow.writes()[0]
                == (RelationshipWrite::SetStamp { rel_id: flow.rel_id, column: StampColumn::Retcon, at: Some(as_of) }),
            RelationshipOp::Delete => flow.writes()[0] == (RelationshipWrite::Delete { rel_id: flow.rel_id }),
            RelationshipOp::SetKnowledge { knowledge } => flow.writes()[0]
                == (RelationshipWrite::SetKnowledge { rel_id: flow.rel_id, knowledge }),
        },
        (flow.writes()[0] matches RelationshipWrite::SetStamp { column: StampColumn::Superseded, .. }) ==> flow.op is End,
        (flow.writes()[0] matches RelationshipWrite::SetStamp { column: StampColumn::Retcon, .. }) ==> flow.op is Retcon,
{
}

/// A supersede of a live fact of the same pages, begun before recorded
/// play, writes the replacement first, born live with what the flow asked
/// for whatever ending the request named, and then ends the old fact at
/// the replacement's origin session.
pub proof fn law_supersede_writes_live_replacement_then_end(flow: CreateRelationshipFlow, rels: Map<u128, Relationship>, old: RelationshipId, s: SessionId)
    requires
        flow.supersedes == Some(old),
        flow.origin == Origin::Session(s),
        rels.contains_key(old.0),
        is_live(rels[old.0]),
        rels[old.0].page_a == flow.edge.page_a,
        rels[old.0].page_b == flow.edge.page_b,
        rels[old.0].origin == Origin::Prior,
    ensures
        ({
            let (stage, lookup, writes, err, as_of) = flow.after_origin(rels);
            &&& err is None
            &&& lookup is None
            &&& as_of == Some(s)
            &&& writes.len() == 2
            &&& writes[0] matches RelationshipWrite::Create(n)
                && n.id == flow.id
                && n.page_a == flow.edge.page_a && n.page_b == flow.edge.page_b
                && n.predicate_a_to_b == flow.edge.predicate_a_to_b && n.predicate_b_to_a == flow.edge.predicate_b_to_a
                && n.knowledge == flow.knowledge
                && n.origin == flow.origin
                && n.superseded is None && n.retcon is None
            &&& writes[1] == (RelationshipWrite::SetStamp { rel_id: old, column: StampColumn::Superseded, at: Some(s) })
        }),
{
}

} // verus!
