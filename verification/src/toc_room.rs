//! The ToC room: the campaign's table-of-contents tree, the row id of each
//! node, the pages the campaign knows, and the tree's persistence state.
//!
//! The ToC actor restores the room at checkout, applies the server-side
//! node mutations here (a new page's node, a seeded template folder, a
//! page's title or visibility), and carries out the debounce-timer command
//! each transition returns. Client edits and broadcasting stay with the
//! actor; it marks the room dirty when an edit advanced the document.
use vstd::prelude::*;

use crate::ids::PageId;
use crate::persist::{command_for, spec_schedule, Persist, TimerCommand};
use crate::supervisor::PageKind;
use crate::toc::{
    first_page_node, holds, index_of, page_ids_distinct, restore_toc, snapshot_toc, DocError,
    PageIdSet, PageInfo, PageRecord, RowIdMap, Status, TocDoc, TocEntry, TocPageKind, TocRow,
    TreeId,
};

verus! {

/// A page of the campaign as the ToC restore reads it.
#[derive(Debug, Clone, PartialEq, Eq)]
pub struct PageSummary {
    pub page_id: PageId,
    pub name: String,
    pub status: Status,
    pub kind: PageKind,
}

/// The ToC node kind of a page: a session takes its ordinal from its
/// temporal row (`None` when that row is missing, a broken invariant: the
/// page is then left out of the restore).
pub open spec fn toc_kind_of(kind: PageKind, ordinal: Option<i64>) -> Option<TocPageKind> {
    match kind {
        PageKind::Entity => Some(TocPageKind::Entity),
        PageKind::Template => Some(TocPageKind::Template),
        PageKind::Session => match ordinal {
            Some(o) => Some(TocPageKind::Session { ordinal: o }),
            None => None,
        },
    }
}

/// The ordinal of the session documenting a page, if any.
pub open spec fn ordinal_for(ordinals: Seq<(PageId, i64)>, page: PageId) -> Option<i64>
    decreases ordinals.len(),
{
    if ordinals.len() == 0 {
        None
    } else if ordinals[0].0 == page {
        Some(ordinals[0].1)
    } else {
        ordinal_for(ordinals.drop_first(), page)
    }
}

/// The ordinal of the session documenting a page: the first one listed.
pub fn find_ordinal(ordinals: &Vec<(PageId, i64)>, page: PageId) -> (r: Option<i64>)
    ensures
        r == ordinal_for(ordinals@, page),
{
    let mut i: usize = 0;
    proof {
        assert(ordinals@.subrange(0, ordinals@.len() as int) =~= ordinals@);
    }
    while i < ordinals.len()
        invariant
            0 <= i <= ordinals@.len(),
            ordinal_for(ordinals@, page) == ordinal_for(ordinals@.subrange(i as int, ordinals@.len() as int), page),
        decreases ordinals@.len() - i,
    {
        proof {
            let rest = ordinals@.subrange(i as int, ordinals@.len() as int);
            assert(rest.drop_first() =~= ordinals@.subrange(i + 1, ordinals@.len() as int));
        }
        if ordinals[i].0 == page {
            return Some(ordinals[i].1);
        }
        i = i + 1;
    }
    None
}

/// The pages a restore places, with their ToC information: every page but
/// a session page without its temporal row.
pub open spec fn restorable(pages: Seq<PageSummary>, ordinals: Seq<(PageId, i64)>) -> Seq<PageSummary>
    decreases pages.len(),
{
    if pages.len() == 0 {
        Seq::empty()
    } else {
        let rest = restorable(pages.drop_last(), ordinals);
        let p = pages.last();
        if toc_kind_of(p.kind, ordinal_for(ordinals, p.page_id)) is Some {
            rest.push(p)
        } else {
            rest
        }
    }
}

/// The restore record of a restorable page.
pub open spec fn record_of(p: PageSummary, ordinals: Seq<(PageId, i64)>) -> PageRecord {
    PageRecord {
        page_id: p.page_id,
        info: PageInfo { name: p.name, status: p.status, page_kind: toc_kind_of(p.kind, ordinal_for(ordinals, p.page_id)).unwrap() },
    }
}

/// The pages a restore places, as restore records.
pub open spec fn restore_records(pages: Seq<PageSummary>, ordinals: Seq<(PageId, i64)>) -> Seq<PageRecord> {
    restorable(pages, ordinals).map_values(|p: PageSummary| record_of(p, ordinals))
}

/// A page node found by `first_page_node` is held by the tree.
proof fn lemma_first_page_node_holds(nodes: Seq<crate::toc::TocNode>, page_id: PageId, i: int)
    requires
        first_page_node(nodes, page_id, i) is Some,
    ensures
        holds(nodes, first_page_node(nodes, page_id, i).unwrap()),
    decreases nodes.len() - i,
{
    if 0 <= i < nodes.len() {
        if !(nodes[i].entry matches TocEntry::Page { page_id: p, .. } && p == page_id) {
            lemma_first_page_node_holds(nodes, page_id, i + 1);
        }
    }
}

/// A page to place under a seeded folder.
#[derive(Debug, Clone, PartialEq, Eq)]
pub struct SeedTocChild {
    pub page_id: PageId,
    pub title: String,
    pub page_kind: TocPageKind,
    pub visibility: Status,
}

/// What a ToC mutation did to the persistence timer: nothing, or the
/// command the actor must carry out.
pub type TimerStep = Option<TimerCommand>;

/// The ToC room.
pub struct TocRoom {
    doc: TocDoc,
    id_map: RowIdMap,
    known_pages: PageIdSet,
    persist: Persist,
}

impl TocRoom {
    pub closed spec fn wf(&self) -> bool {
        self.doc.wf() && self.id_map.wf()
    }

    /// The tree.
    pub closed spec fn tree(&self) -> TocDoc {
        self.doc
    }

    /// The pages the campaign knows (a page node of any other page is a
    /// dangling reference, dropped from snapshots).
    pub closed spec fn known(&self) -> Set<PageId> {
        self.known_pages@
    }

    /// The row id of each node.
    pub closed spec fn row_ids(&self) -> Map<TreeId, Seq<char>> {
        self.id_map@
    }

    /// The persistence state.
    pub closed spec fn persistence(&self) -> Persist {
        self.persist
    }

    /// Room for `n` more nodes in the tree's id space.
    pub open spec fn can_add(&self, n: int) -> bool {
        self.tree().spec_next_counter() + n < i32::MAX
    }

    /// Build the room from the persisted rows, the campaign's pages and the
    /// sessions' ordinals (by page). The known pages are the restorable
    /// ones; when the restore appended orphan pages the room starts dirty
    /// and the returned command arms the flush timer.
    pub fn restore(rows: Vec<TocRow>, pages: Vec<PageSummary>, ordinals: &Vec<(PageId, i64)>) -> (r: (TocRoom, TimerCommand))
        requires
            forall|i: int, j: int| 0 <= i < j < pages@.len() ==> (#[trigger] pages@[i]).page_id != (#[trigger] pages@[j]).page_id,
            rows@.len() + pages@.len() < i32::MAX,
        ensures
            r.0.wf(),
            forall|p: PageId| r.0.known().contains(p) <==> exists|i: int| 0 <= i < restorable(pages@, ordinals@).len()
                && (#[trigger] restorable(pages@, ordinals@)[i]).page_id == p,
            ({
                let recs = restore_records(pages@, ordinals@);
                let sorted = crate::toc::spec_topological_sort(rows@, Set::empty());
                let st = crate::toc::restore_prefix(sorted, recs, sorted.len() as int);
                let orphans = crate::toc::orphan_pages(recs, st.referenced);
                &&& crate::toc::restored_as(r.0.tree().spec_nodes(), st, orphans, r.0.row_ids())
                &&& (r.0.persistence() is Pending) == (orphans.len() > 0)
            }),
            r.0.persistence() is Pending ==> r.1 == (TimerCommand { abort_prior: false, arm: true }),
            r.0.persistence() is Clean ==> r.1 == (TimerCommand { abort_prior: false, arm: false }),
    {
        let mut records: Vec<PageRecord> = Vec::new();
        let mut known = PageIdSet::new();
        let ghost all = pages@;
        let n = pages.len();
        let mut rest = pages;
        let mut i: usize = 0;
        while i < n
            invariant
                n == all.len(),
                0 <= i <= n,
                rest@ == all.subrange(i as int, n as int),
                all.len() < i32::MAX,
                forall|a: int, b: int| 0 <= a < b < all.len() ==> (#[trigger] all[a]).page_id != (#[trigger] all[b]).page_id,
                records@ == restore_records(all.subrange(0, i as int), ordinals@),
                records@.len() == restorable(all.subrange(0, i as int), ordinals@).len(),
                records@.len() <= i,
                forall|k: int| 0 <= k < records@.len() ==> (#[trigger] records@[k]).page_id == restorable(all.subrange(0, i as int), ordinals@)[k].page_id,
                forall|k: int| 0 <= k < restorable(all.subrange(0, i as int), ordinals@).len()
                    ==> exists|a: int| 0 <= a < i && #[trigger] restorable(all.subrange(0, i as int), ordinals@)[k] == all[a],
                page_ids_distinct(records@),
                forall|p: PageId| known@.contains(p) <==> exists|k: int| 0 <= k < records@.len() && (#[trigger] records@[k]).page_id == p,
            decreases n - i,
        {
            let page = rest.remove(0);
            let ghost prefix = all.subrange(0, i as int);
            let ghost next = all.subrange(0, i + 1);
            proof {
                assert(page == all[i as int]);
                assert(next.drop_last() =~= prefix);
                assert(next.last() == page);
            }
            let ordinal = find_ordinal(ordinals, page.page_id);
            let kind: Option<TocPageKind> = match page.kind {
                PageKind::Entity => Some(TocPageKind::Entity),
                PageKind::Template => Some(TocPageKind::Template),
                PageKind::Session => match ordinal {
                    Some(o) => Some(TocPageKind::Session { ordinal: o }),
                    None => None,
                },
            };
            match kind {
                Some(page_kind) => {
                    let ghost before = records@;
                    proof {
                        assert forall|k: int| 0 <= k < before.len() implies before[k].page_id != page.page_id by {
                            let a = choose|a: int| 0 <= a < i && #[trigger] restorable(prefix, ordinals@)[k] == all[a];
                            assert(all[a].page_id != all[i as int].page_id);
                        }
                    }
                    known.insert(page.page_id);
                    records.push(PageRecord {
                        page_id: page.page_id,
                        info: PageInfo { name: page.name, status: page.status, page_kind },
                    });
                    proof {
                        assert(restorable(next, ordinals@) == restorable(prefix, ordinals@).push(page));
                        assert(restore_records(next, ordinals@) =~= restore_records(prefix, ordinals@).push(record_of(page, ordinals@)));
                        assert forall|k: int| 0 <= k < restorable(next, ordinals@).len()
                            implies exists|a: int| 0 <= a < i + 1 && #[trigger] restorable(next, ordinals@)[k] == all[a] by {
                            if k < restorable(prefix, ordinals@).len() {
                                let a = choose|a: int| 0 <= a < i && #[trigger] restorable(prefix, ordinals@)[k] == all[a];
                                assert(restorable(next, ordinals@)[k] == restorable(prefix, ordinals@)[k]);
                            } else {
                                assert(restorable(next, ordinals@)[k] == all[i as int]);
                            }
                        }
                        assert forall|p: PageId| known@.contains(p) <==> exists|k: int| 0 <= k < records@.len() && (#[trigger] records@[k]).page_id == p by {
                            if p == page.page_id {
                                assert(records@[records@.len() - 1].page_id == p);
                            } else if known@.contains(p) {
                                let k = choose|k: int| 0 <= k < before.len() && (#[trigger] before[k]).page_id == p;
                                assert(records@[k] == before[k]);
                            } else {
                                if exists|k: int| 0 <= k < records@.len() && (#[trigger] records@[k]).page_id == p {
                                    let k = choose|k: int| 0 <= k < records@.len() && (#[trigger] records@[k]).page_id == p;
                                    assert(records@[k] == before[k]);
                                }
                            }
                        }
                    }
                },
                None => {
                    proof {
                        assert(restorable(next, ordinals@) == restorable(prefix, ordinals@));
                    }
                },
            }
            i = i + 1;
        }
        proof {
            assert(all.subrange(0, n as int) =~= all);
            assert(records@ == restore_records(all, ordinals@));
            assert forall|p: PageId| known@.contains(p) <==> exists|k: int| 0 <= k < restorable(all, ordinals@).len()
                && (#[trigger] restorable(all, ordinals@)[k]).page_id == p by {
                if known@.contains(p) {
                    let k = choose|k: int| 0 <= k < records@.len() && (#[trigger] records@[k]).page_id == p;
                    assert(restorable(all, ordinals@)[k].page_id == p);
                }
                if exists|k: int| 0 <= k < restorable(all, ordinals@).len() && (#[trigger] restorable(all, ordinals@)[k]).page_id == p {
                    let k = choose|k: int| 0 <= k < restorable(all, ordinals@).len() && (#[trigger] restorable(all, ordinals@)[k]).page_id == p;
                    assert(records@[k].page_id == p);
                }
            }
        }
        let restored = restore_toc(rows, &records);
        let mut persist = Persist::new();
        let cmd = if restored.dirty {
            persist.schedule()
        } else {
            TimerCommand { abort_prior: false, arm: false }
        };
        (TocRoom { doc: restored.doc, id_map: restored.id_map, known_pages: known, persist }, cmd)
    }

    /// The node of a page, if the tree holds one.
    pub fn resolve_page_node(&self, page_id: PageId) -> (r: Option<TreeId>)
        ensures
            r == first_page_node(self.tree().spec_nodes(), page_id, 0),
    {
        self.doc.find_page_node(&page_id)
    }

    /// An edit advanced the document: it is dirty until the next flush.
    pub fn mark_edited(&mut self) -> (cmd: TimerCommand)
        ensures
            final(self).persistence() == spec_schedule(old(self).persistence()),
            cmd == command_for(old(self).persistence(), final(self).persistence()),
            final(self).tree() == old(self).tree(),
            final(self).known() == old(self).known(),
            final(self).wf() == old(self).wf(),
    {
        self.persist.schedule()
    }

    /// Place a new page's node: as the last child of its parent page's
    /// node, or at the root when no parent was asked for or the parent's
    /// node is gone. The page becomes known and the tree dirty.
    pub fn add_page_node(&mut self, page_id: PageId, title: String, page_kind: TocPageKind, visibility: Status, parent: Option<PageId>) -> (r: (TreeId, TimerCommand))
        requires
            old(self).wf(),
            old(self).can_add(1),
        ensures
            final(self).wf(),
            ({
                let parent_node = match parent {
                    Some(p) => first_page_node(old(self).tree().spec_nodes(), p, 0),
                    None => None,
                };
                let nodes = final(self).tree().spec_nodes();
                &&& nodes.drop_last() == old(self).tree().spec_nodes()
                &&& nodes.len() == old(self).tree().spec_nodes().len() + 1
                &&& nodes.last().tree_id == r.0
                &&& nodes.last().parent == parent_node
                &&& nodes.last().entry == (TocEntry::Page { title, page_id, page_kind, visibility })
            }),
            final(self).known() == old(self).known().insert(page_id),
            final(self).persistence() == spec_schedule(old(self).persistence()),
            r.1 == command_for(old(self).persistence(), final(self).persistence()),
    {
        let parent_tree = match parent {
            None => None,
            Some(p) => self.doc.find_page_node(&p),
        };
        proof {
            if parent_tree is Some {
                lemma_first_page_node_holds(self.doc.spec_nodes(), parent.unwrap(), 0);
            }
        }
        let entry = TocEntry::Page { title, page_id, page_kind, visibility };
        let added = self.doc.add_entry(parent_tree, entry);
        let t = match added {
            Ok(t) => t,
            Err(_) => {
                proof {
                    assert(false);
                }
                TreeId { peer: 0, counter: 0 }
            },
        };
        self.known_pages.insert(page_id);
        let cmd = self.persist.schedule();
        (t, cmd)
    }

    /// Place a new page's node as the last child of `parent`, the parent's
    /// node as resolved before the page was written (`None`: at the root).
    /// When that node is gone by now, nothing changes and the page is left
    /// for the next restore to surface at the root. Otherwise the page
    /// becomes known and the tree dirty.
    pub fn place_page_node(&mut self, page_id: PageId, title: String, page_kind: TocPageKind, visibility: Status, parent: Option<TreeId>) -> (r: Result<(TreeId, TimerCommand), DocError>)
        requires
            old(self).wf(),
            old(self).can_add(1),
        ensures
            final(self).wf(),
            match parent {
                Some(p) if !holds(old(self).tree().spec_nodes(), p) => {
                    &&& r == Err::<(TreeId, TimerCommand), DocError>(DocError::NodeNotFound)
                    &&& final(self).tree().spec_nodes() == old(self).tree().spec_nodes()
                    &&& final(self).known() == old(self).known()
                    &&& final(self).persistence() == old(self).persistence()
                },
                _ => {
                    let nodes = final(self).tree().spec_nodes();
                    &&& r is Ok
                    &&& nodes.drop_last() == old(self).tree().spec_nodes()
                    &&& nodes.len() == old(self).tree().spec_nodes().len() + 1
                    &&& nodes.last().tree_id == r.unwrap().0
                    &&& nodes.last().parent == parent
                    &&& nodes.last().entry == (TocEntry::Page { title, page_id, page_kind, visibility })
                    &&& final(self).known() == old(self).known().insert(page_id)
                    &&& final(self).persistence() == spec_schedule(old(self).persistence())
                    &&& r.unwrap().1 == command_for(old(self).persistence(), final(self).persistence())
                },
            },
    {
        let entry = TocEntry::Page { title, page_id, page_kind, visibility };
        match self.doc.add_entry(parent, entry) {
            Err(e) => Err(e),
            Ok(t) => {
                self.known_pages.insert(page_id);
                let cmd = self.persist.schedule();
                Ok((t, cmd))
            },
        }
    }

    /// Seed a folder at the root holding a batch of pages, in order: the
    /// folder node first, then one page node per child under it. Every
    /// child's page becomes known and the tree dirty.
    pub fn seed_folder(&mut self, folder_title: String, folder_visibility: Status, children: Vec<SeedTocChild>) -> (r: (TreeId, TimerCommand))
        requires
            old(self).wf(),
            old(self).can_add(children@.len() + 1int),
        ensures
            final(self).wf(),
            ({
                let before = old(self).tree().spec_nodes();
                let nodes = final(self).tree().spec_nodes();
                let base = before.len();
                &&& nodes.len() == base + 1 + children@.len()
                &&& nodes.subrange(0, base as int) == before
                &&& nodes[base as int].tree_id == r.0
                &&& nodes[base as int].parent is None
                &&& nodes[base as int].entry == (TocEntry::Folder { title: folder_title, visibility: folder_visibility })
                &&& forall|k: int| 0 <= k < children@.len() ==> {
                    let c = #[trigger] children@[k];
                    &&& nodes[base + 1 + k].parent == Some(r.0)
                    &&& nodes[base + 1 + k].entry == (TocEntry::Page {
                        title: c.title,
                        page_id: c.page_id,
                        page_kind: c.page_kind,
                        visibility: c.visibility,
                    })
                }
            }),
            forall|p: PageId| #[trigger] final(self).known().contains(p) <==> old(self).known().contains(p)
                || exists|k: int| 0 <= k < children@.len() && children@[k].page_id == p,
            final(self).persistence() == spec_schedule(old(self).persistence()),
            r.1 == command_for(old(self).persistence(), final(self).persistence()),
    {
        let ghost before = self.doc.spec_nodes();
        let ghost known0 = self.known_pages@;
        let base = self.doc.len();
        let folder = TocEntry::Folder { title: folder_title, visibility: folder_visibility };
        let added = self.doc.add_entry(None, folder);
        let folder_id = match added {
            Ok(t) => t,
            Err(_) => {
                proof {
                    assert(false);
                }
                TreeId { peer: 0, counter: 0 }
            },
        };
        let ghost all = children@;
        let n = children.len();
        let mut rest = children;
        let mut i: usize = 0;
        while i < n
            invariant
                self.wf(),
                n == all.len(),
                0 <= i <= n,
                base == before.len(),
                rest@ == all.subrange(i as int, n as int),
                self.tree().spec_next_counter() + (n - i) < i32::MAX,
                self.doc.spec_nodes().len() == base + 1 + i,
                self.doc.spec_nodes().subrange(0, base as int) == before,
                self.doc.spec_nodes()[base as int].tree_id == folder_id,
                self.doc.spec_nodes()[base as int].parent is None,
                self.doc.spec_nodes()[base as int].entry == (TocEntry::Folder { title: folder_title, visibility: folder_visibility }),
                holds(self.doc.spec_nodes(), folder_id),
                forall|k: int| 0 <= k < i ==> {
                    let c = #[trigger] all[k];
                    &&& self.doc.spec_nodes()[base + 1 + k].parent == Some(folder_id)
                    &&& self.doc.spec_nodes()[base + 1 + k].entry == (TocEntry::Page {
                        title: c.title,
                        page_id: c.page_id,
                        page_kind: c.page_kind,
                        visibility: c.visibility,
                    })
                },
                forall|p: PageId| #[trigger] self.known_pages@.contains(p) <==> known0.contains(p)
                    || exists|k: int| 0 <= k < i && all[k].page_id == p,
                self.persist == old(self).persist,
            decreases n - i,
        {
            let c = rest.remove(0);
            let ghost nodes0 = self.doc.spec_nodes();
            proof {
                assert(c == all[i as int]);
            }
            let entry = TocEntry::Page { title: c.title, page_id: c.page_id, page_kind: c.page_kind, visibility: c.visibility };
            let r2 = self.doc.add_entry(Some(folder_id), entry);
            proof {
                assert(r2 is Ok);
                let nodes1 = self.doc.spec_nodes();
                assert(nodes1.drop_last() == nodes0);
                assert forall|k: int| 0 <= k < nodes0.len() implies nodes1[k] == nodes0[k] by {
                    assert(nodes1.drop_last()[k] == nodes1[k]);
                }
                assert(nodes1.subrange(0, base as int) =~= before) by {
                    assert forall|k: int| 0 <= k < base implies nodes1.subrange(0, base as int)[k] == before[k] by {
                        assert(nodes0.subrange(0, base as int)[k] == nodes0[k]);
                    }
                }
                assert(nodes1[base as int] == nodes0[base as int]);
                assert(nodes1[nodes0.len() as int] == nodes1.last());
                assert(holds(nodes1, folder_id)) by {
                    assert(nodes1[base as int].tree_id == folder_id);
                }
            }
            self.known_pages.insert(c.page_id);
            proof {
                assert forall|p: PageId| #[trigger] self.known_pages@.contains(p) <==> known0.contains(p)
                    || exists|k: int| 0 <= k < i + 1 && all[k].page_id == p by {
                    if p == c.page_id {
                        assert(all[i as int].page_id == p);
                    }
                    if exists|k: int| 0 <= k < i + 1 && all[k].page_id == p {
                        let k = choose|k: int| 0 <= k < i + 1 && all[k].page_id == p;
                        if k < i {
                            assert(exists|k2: int| 0 <= k2 < i && all[k2].page_id == p);
                        }
                    }
                }
            }
            i = i + 1;
        }
        let cmd = self.persist.schedule();
        (folder_id, cmd)
    }

    /// A page's title or visibility changed. A page without a node is
    /// ignored (the tree heals at the next checkout), as is a node that does
    /// not read back as a page; otherwise the node takes the new title and
    /// visibility, keeping its kind, and the tree becomes dirty only when
    /// the visibility changed (the one field persisted).
    pub fn update_page_node(&mut self, page_id: PageId, title: String, visibility: Status) -> (step: TimerStep)
        requires
            old(self).wf(),
        ensures
            final(self).wf(),
            final(self).known() == old(self).known(),
            ({
                let nodes = old(self).tree().spec_nodes();
                match first_page_node(nodes, page_id, 0) {
                    None => final(self).tree().spec_nodes() == nodes && step is None
                        && final(self).persistence() == old(self).persistence(),
                    Some(t) => match nodes[index_of(nodes, t).unwrap()].entry {
                        TocEntry::Page { page_kind, visibility: old_visibility, .. } => {
                            &&& final(self).tree().spec_nodes() == nodes.update(
                                index_of(nodes, t).unwrap(),
                                crate::toc::TocNode {
                                    tree_id: t,
                                    parent: nodes[index_of(nodes, t).unwrap()].parent,
                                    entry: TocEntry::Page { title, page_id, page_kind, visibility },
                                },
                            )
                            &&& if old_visibility != visibility {
                                &&& final(self).persistence() == spec_schedule(old(self).persistence())
                                &&& step == Some(command_for(old(self).persistence(), final(self).persistence()))
                            } else {
                                &&& final(self).persistence() == old(self).persistence()
                                &&& step is None
                            }
                        },
                        _ => final(self).tree().spec_nodes() == nodes && step is None
                            && final(self).persistence() == old(self).persistence(),
                    },
                }
            }),
    {
        let t = match self.doc.find_page_node(&page_id) {
            None => return None,
            Some(t) => t,
        };
        proof {
            lemma_first_page_node_holds(self.doc.spec_nodes(), page_id, 0);
        }
        let existing = self.doc.read_entry(t);
        let (page_kind, old_visibility) = match existing {
            Some(TocEntry::Page { page_kind, visibility: v, .. }) => (page_kind, v),
            _ => return None,
        };
        let entry = TocEntry::Page { title, page_id, page_kind, visibility };
        let updated = self.doc.update_entry(t, entry);
        proof {
            assert(updated is Ok);
        }
        if old_visibility != visibility {
            Some(self.persist.schedule())
        } else {
            None
        }
    }

    /// The rows the tree persists as (known pages only, stable row ids).
    pub fn flush_rows(&mut self) -> (rows: Vec<TocRow>)
        requires
            old(self).wf(),
            old(self).tree().spec_nodes().len() < i32::MAX,
        ensures
            final(self).wf(),
            final(self).tree() == old(self).tree(),
            final(self).known() == old(self).known(),
            final(self).persistence() == old(self).persistence(),
            ({
                let sh = crate::toc::snapshot_rows(old(self).tree().spec_nodes(), None, 0, 0, old(self).known());
                &&& rows@.len() == sh.len()
                &&& forall|k: int| 0 <= k < sh.len() ==> crate::toc::row_matches(#[trigger] rows@[k], sh[k], final(self).row_ids())
                &&& crate::toc::map_extends(final(self).row_ids(), old(self).row_ids())
                &&& crate::toc::keys_from(final(self).row_ids(), old(self).row_ids(), sh)
            }),
    {
        snapshot_toc(&self.doc, &mut self.id_map, &self.known_pages)
    }

    /// Whether the tree has unpersisted changes.
    pub fn is_dirty(&self) -> (b: bool)
        ensures
            b == (self.persistence() is Pending),
    {
        self.persist.is_dirty()
    }

    /// Settle a flush: the persistence state after its result, and what the
    /// actor does with the timer and the log.
    pub fn after_flush(&mut self, result: &Result<(), crate::persist::PersistError>) -> (res: crate::persist::FlushResolution)
        ensures
            final(self).persistence() == crate::persist::spec_after_flush(old(self).persistence(), result is Ok),
            res.timer == command_for(old(self).persistence(), final(self).persistence()),
            final(self).tree() == old(self).tree(),
            final(self).known() == old(self).known(),
            final(self).wf() == old(self).wf(),
    {
        self.persist.after_flush(result)
    }
}

/// A page placed in the ToC is persisted by the next snapshot: placing it
/// made the page known, so its node is not dropped as a dangling page.
pub proof fn law_placed_page_is_kept(known: Set<PageId>, page_id: PageId, title: String, page_kind: TocPageKind, visibility: Status)
    ensures
        crate::toc::kept_in_snapshot(TocEntry::Page { title, page_id, page_kind, visibility }, known.insert(page_id)),
{
}

} // verus!
