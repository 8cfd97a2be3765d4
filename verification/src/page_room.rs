//! A page room's decisions: who may write, when the room evicts itself,
//! when a page's node state is pushed to the ToC, how a genesis write is
//! settled, and the block rows a flush persists.
//!
//! A page room is born vacating: with no subscribers, an idle timer counts
//! down to self-eviction. Being vacant without that timer is not
//! representable; each transition returns the command the actor carries
//! out on its timer.
use vstd::prelude::*;

use crate::database_writer::{DbCreatePage, DbCreateSession, NewBlock, NewPage, WritePageBlocks};
use crate::supervisor::{PageGenesis, PageKind};
use crate::ids::{BlockId, PageId};
use crate::toc::Status;

verus! {

/// A member's role in a campaign.
#[derive(Debug, Clone, Copy, PartialEq, Eq, Structural)]
pub enum CampaignRole {
    Gm,
    Player,
}

/// What a client may do in a room.
#[derive(Debug, Clone, Copy, PartialEq, Eq, Structural)]
pub enum Capability {
    Write,
    Read,
}

/// The game master writes; players read.
pub fn capability_for(role: CampaignRole) -> (c: Capability)
    ensures
        c == (match role {
            CampaignRole::Gm => Capability::Write,
            CampaignRole::Player => Capability::Read,
        }),
{
    match role {
        CampaignRole::Gm => Capability::Write,
        CampaignRole::Player => Capability::Read,
    }
}

/// Whether a page room has subscribers.
#[derive(Debug, Clone, Copy, PartialEq, Eq, Structural)]
pub enum Occupancy {
    /// At least one client is connected; no eviction is scheduled.
    Occupied,
    /// Nobody is connected and the idle-eviction timer is armed.
    Vacating,
}

/// What the actor does with the eviction timer after a transition.
#[derive(Debug, Clone, Copy, PartialEq, Eq, Structural)]
pub struct EvictionTimer {
    /// Abort the timer currently armed.
    pub abort_prior: bool,
    /// Arm a fresh timer that fires the idle eviction.
    pub arm: bool,
}

impl Occupancy {
    /// A room's state at birth: vacating, its timer to be armed at once.
    pub fn born() -> (r: (Occupancy, EvictionTimer))
        ensures
            r == (Occupancy::Vacating, EvictionTimer { abort_prior: false, arm: true }),
    {
        (Occupancy::Vacating, EvictionTimer { abort_prior: false, arm: true })
    }

    /// A client joined: cancel any pending eviction.
    pub fn mark_occupied(&mut self) -> (t: EvictionTimer)
        ensures
            *final(self) == Occupancy::Occupied,
            t == (EvictionTimer { abort_prior: *old(self) == Occupancy::Vacating, arm: false }),
    {
        let abort_prior = *self == Occupancy::Vacating;
        *self = Occupancy::Occupied;
        EvictionTimer { abort_prior, arm: false }
    }

    /// The room emptied: arm the eviction, replacing any armed timer so
    /// only one is ever live.
    pub fn schedule_eviction(&mut self) -> (t: EvictionTimer)
        ensures
            *final(self) == Occupancy::Vacating,
            t == (EvictionTimer { abort_prior: *old(self) == Occupancy::Vacating, arm: true }),
    {
        let abort_prior = *self == Occupancy::Vacating;
        *self = Occupancy::Vacating;
        EvictionTimer { abort_prior, arm: true }
    }

    /// A client left; `remaining` subscribers are still connected. The last
    /// one leaving arms the eviction.
    pub fn client_left(&mut self, remaining: usize) -> (t: Option<EvictionTimer>)
        ensures
            remaining == 0 ==> *final(self) == Occupancy::Vacating
                && t == Some(EvictionTimer { abort_prior: *old(self) == Occupancy::Vacating, arm: true }),
            remaining > 0 ==> *final(self) == *old(self) && t is None,
    {
        if remaining == 0 {
            Some(self.schedule_eviction())
        } else {
            None
        }
    }
}

/// The idle timer fired: the room stops only if nobody is connected.
pub fn evicts(subscribers: usize) -> (stop: bool)
    ensures
        stop == (subscribers == 0),
{
    subscribers == 0
}

/// A page's node-facing state: what its ToC node shows.
#[derive(Debug, Clone, PartialEq, Eq)]
pub struct NodeState {
    pub title: String,
    pub visibility: Status,
}

/// The visibility a page's document declares, GM-only when it declares
/// none.
pub fn node_visibility(declared: Option<Status>) -> (v: Status)
    ensures
        v == (match declared {
            Some(s) => s,
            None => Status::GmOnly,
        }),
{
    match declared {
        Some(s) => s,
        None => Status::GmOnly,
    }
}

/// After an edit: push the node state to the ToC only when it differs
/// from the state last pushed. Returns whether to push; the last pushed
/// state becomes the current one.
pub fn node_push(last: &mut NodeState, current: NodeState) -> (push: bool)
    ensures
        push == (old(last).title@ != current.title@ || old(last).visibility != current.visibility),
        final(last).title@ == current.title@,
        final(last).visibility == current.visibility,
{
    let same_title = crate::text::same_text(last.title.as_str(), current.title.as_str());
    let push = !same_title || last.visibility != current.visibility;
    *last = current;
    push
}

/// Whether an update advanced the document: its version changed.
pub fn doc_advanced(before: &Vec<u8>, after: &Vec<u8>) -> (b: bool)
    ensures
        b == (before@ != after@),
{
    if before.len() != after.len() {
        return true;
    }
    let mut i: usize = 0;
    while i < before.len()
        invariant
            before@.len() == after@.len(),
            0 <= i <= before@.len(),
            forall|j: int| 0 <= j < i ==> before@[j] == after@[j],
        decreases before@.len() - i,
    {
        if before[i] != after[i] {
            return true;
        }
        i = i + 1;
    }
    proof {
        assert(before@ =~= after@);
    }
    false
}

/// Why a page room could not start.
#[derive(Debug, Clone, PartialEq, Eq)]
pub enum PageInitError {
    Db(String),
    Genesis,
}

/// Settle a genesis write: its committed rows go back to the spawner; any
/// failure fails the room's start as a genesis failure.
pub fn genesis_outcome<T, E>(write: Result<T, E>) -> (r: Result<T, PageInitError>)
    ensures
        r == (match write {
            Ok(v) => Ok::<T, PageInitError>(v),
            Err(_) => Err::<T, PageInitError>(PageInitError::Genesis),
        }),
{
    match write {
        Ok(v) => Ok(v),
        Err(_) => Err(PageInitError::Genesis),
    }
}

/// A block as read out of a page's document: its stable id (if it carries
/// one), its position within its section and its content.
#[derive(Debug, Clone, PartialEq, Eq)]
pub struct DocBlock {
    pub id: Option<BlockId>,
    pub ordering: i32,
    pub content: String,
}

/// A section of a page's document and its blocks, in order.
#[derive(Debug, Clone, PartialEq, Eq)]
pub struct DocSection {
    pub section: String,
    pub blocks: Vec<DocBlock>,
}

/// A `blocks` row.
#[derive(Debug, Clone, PartialEq, Eq)]
pub struct BlockRow {
    pub id: BlockId,
    pub page_id: PageId,
    pub status: Status,
    pub ordering: i32,
    pub content: String,
    pub section: String,
    pub created_at: i64,
    pub updated_at: i64,
}

/// The blocks of a document's sections, in order, each with its section.
pub open spec fn flat_blocks(sections: Seq<DocSection>) -> Seq<(Seq<char>, DocBlock)>
    decreases sections.len(),
{
    if sections.len() == 0 {
        Seq::empty()
    } else {
        let last = sections.last();
        flat_blocks(sections.drop_last()) + last.blocks@.map_values(|b: DocBlock| (last.section@, b))
    }
}

/// A persisted row stands for a document block: same section, position and
/// content, the block's own id when it has one, GM-only (the interim
/// default until blocks carry their own visibility), stamped `now`.
pub open spec fn row_for(r: BlockRow, page_id: PageId, section: Seq<char>, b: DocBlock, now: i64) -> bool {
    &&& r.page_id == page_id
    &&& r.section@ == section
    &&& r.ordering == b.ordering
    &&& r.content@ == b.content@
    &&& r.status == Status::GmOnly
    &&& (b.id matches Some(id) ==> r.id == id)
    &&& r.created_at == now
    &&& r.updated_at == now
}

/// The rows a flush persists: one per block of the document, section by
/// section, in order. A block without a stable id gets a fresh one.
pub fn block_rows(page_id: PageId, sections: &Vec<DocSection>, now: i64) -> (rows: Vec<BlockRow>)
    ensures
        rows@.len() == flat_blocks(sections@).len(),
        forall|k: int| 0 <= k < rows@.len() ==> row_for(#[trigger] rows@[k], page_id, flat_blocks(sections@)[k].0, flat_blocks(sections@)[k].1, now),
{
    let mut rows: Vec<BlockRow> = Vec::new();
    let mut s: usize = 0;
    while s < sections.len()
        invariant
            0 <= s <= sections@.len(),
            rows@.len() == flat_blocks(sections@.subrange(0, s as int)).len(),
            forall|k: int| 0 <= k < rows@.len() ==> row_for(#[trigger] rows@[k], page_id,
                flat_blocks(sections@.subrange(0, s as int))[k].0, flat_blocks(sections@.subrange(0, s as int))[k].1, now),
        decreases sections@.len() - s,
    {
        let sec = &sections[s];
        let ghost before = rows@;
        let ghost done = flat_blocks(sections@.subrange(0, s as int));
        let ghost added = sec.blocks@.map_values(|b: DocBlock| (sec.section@, b));
        proof {
            assert(sections@.subrange(0, s + 1).drop_last() =~= sections@.subrange(0, s as int));
            assert(sections@.subrange(0, s + 1).last() == *sec);
            assert(flat_blocks(sections@.subrange(0, s + 1)) == done + added);
        }
        let mut j: usize = 0;
        while j < sec.blocks.len()
            invariant
                0 <= j <= sec.blocks@.len(),
                rows@.len() == before.len() + j,
                before.len() == done.len(),
                added == sec.blocks@.map_values(|b: DocBlock| (sec.section@, b)),
                forall|k: int| 0 <= k < before.len() ==> rows@[k] == before[k],
                forall|k: int| 0 <= k < before.len() ==> row_for(#[trigger] before[k], page_id, done[k].0, done[k].1, now),
                forall|k: int| 0 <= k < j ==> row_for(#[trigger] rows@[before.len() + k], page_id, added[k].0, added[k].1, now),
            decreases sec.blocks@.len() - j,
        {
            let b = &sec.blocks[j];
            let id = match b.id {
                Some(id) => id,
                None => BlockId::generate(),
            };
            let row = BlockRow {
                id,
                page_id,
                status: Status::GmOnly,
                ordering: b.ordering,
                content: b.content.clone(),
                section: sec.section.clone(),
                created_at: now,
                updated_at: now,
            };
            rows.push(row);
            j = j + 1;
        }
        proof {
            let all = done + added;
            assert forall|k: int| 0 <= k < rows@.len() implies row_for(#[trigger] rows@[k], page_id, all[k].0, all[k].1, now) by {
                if k < before.len() {
                    assert(rows@[k] == before[k]);
                } else {
                    assert(rows@[before.len() + (k - before.len())] == rows@[k]);
                }
            }
        }
        s = s + 1;
    }
    proof {
        assert(sections@.subrange(0, sections@.len() as int) =~= sections@);
    }
    rows
}

/// What a page room's flush asks the writer to persist: the rows of every
/// block of its document, and its title, carried to the page row.
pub fn page_snapshot(page_id: PageId, sections: &Vec<DocSection>, title: Option<String>, now: i64) -> (w: WritePageBlocks)
    ensures
        w.page_id == page_id,
        w.name_sync == title,
        w.blocks@.len() == flat_blocks(sections@).len(),
        forall|k: int| 0 <= k < w.blocks@.len() ==> row_for(#[trigger] w.blocks@[k], page_id, flat_blocks(sections@)[k].0, flat_blocks(sections@)[k].1, now),
{
    WritePageBlocks { page_id, blocks: block_rows(page_id, sections, now), name_sync: title }
}

/// `blocks` seed a new page with the blocks of `sections`: one per block,
/// section by section, in order, GM-only, keeping a block's id where it
/// has one.
pub open spec fn seeds(blocks: Seq<NewBlock>, sections: Seq<DocSection>) -> bool {
    &&& blocks.len() == flat_blocks(sections).len()
    &&& forall|k: int| 0 <= k < blocks.len() ==> {
        let nb = #[trigger] blocks[k];
        let (section, b) = flat_blocks(sections)[k];
        &&& nb.section@ == section
        &&& nb.ordering == b.ordering
        &&& nb.content@ == b.content@
        &&& nb.status == Status::GmOnly
        &&& (b.id matches Some(id) ==> nb.id == id)
    }
}

/// The seeded blocks of a new page: one per block of its freshly built
/// document, section by section, in order, GM-only.
pub fn seeded_blocks(sections: &Vec<DocSection>) -> (blocks: Vec<NewBlock>)
    ensures
        seeds(blocks@, sections@),
{
    let rows = block_rows(PageId(0), sections, 0);
    let mut out: Vec<NewBlock> = Vec::new();
    let mut i: usize = 0;
    while i < rows.len()
        invariant
            0 <= i <= rows@.len(),
            out@.len() == i,
            forall|k: int| 0 <= k < i ==> {
                let nb = #[trigger] out@[k];
                let r = rows@[k];
                nb.section@ == r.section@ && nb.ordering == r.ordering && nb.content@ == r.content@
                    && nb.status == r.status && nb.id == r.id
            },
        decreases rows@.len() - i,
    {
        let r = &rows[i];
        out.push(NewBlock {
            id: r.id,
            status: r.status,
            ordering: r.ordering,
            content: r.content.clone(),
            section: r.section.clone(),
        });
        i = i + 1;
    }
    out
}

/// How a page room comes into being.
#[derive(Debug, Clone, PartialEq, Eq)]
pub enum PageInit {
    /// Load an existing page's blocks (the room-join path).
    Restore,
    /// Birth a document page (entity or template).
    NewDocumentPage(PageGenesis),
    /// Birth a session page together with its temporal row.
    NewSession { name: String, status: Status },
}

/// The write through which a page room persists its own birth.
#[derive(Debug, Clone, PartialEq, Eq)]
pub enum GenesisWrite {
    Page(DbCreatePage),
    Session(DbCreateSession),
}

/// `p` is page `page_id` born with this name, status, kind and lineage,
/// seeded with the blocks of `sections`.
pub open spec fn born_as(p: NewPage, page_id: PageId, name: Seq<char>, status: Status, kind: PageKind, template_id: Option<PageId>, sections: Seq<DocSection>) -> bool {
    &&& p.id == page_id
    &&& p.name@ == name
    &&& p.status == status
    &&& p.kind == kind
    &&& p.template_id == template_id
    &&& seeds(p.blocks@, sections)
}

/// The genesis write of a page room, given the sections of the document it
/// built for the new page: none when restoring; a page write for a
/// document page; for a session, the write that also mints its temporal
/// row.
pub fn genesis_write(page_id: PageId, init: &PageInit, sections: &Vec<DocSection>) -> (w: Option<GenesisWrite>)
    ensures
        match *init {
            PageInit::Restore => w is None,
            PageInit::NewDocumentPage(g) => w matches Some(GenesisWrite::Page(c))
                && born_as(c.new_page, page_id, g.name@, g.status, g.kind.spec_page_kind(), g.template_id, sections@),
            PageInit::NewSession { name, status } => w matches Some(GenesisWrite::Session(c))
                && born_as(c.new_page, page_id, name@, status, PageKind::Session, None, sections@),
        },
{
    match init {
        PageInit::Restore => None,
        PageInit::NewDocumentPage(g) => {
            let new_page = NewPage {
                id: page_id,
                name: g.name.clone(),
                status: g.status,
                kind: g.kind.page_kind(),
                template_id: g.template_id,
                blocks: seeded_blocks(sections),
            };
            Some(GenesisWrite::Page(DbCreatePage { new_page }))
        }
        PageInit::NewSession { name, status } => {
            let new_page = NewPage {
                id: page_id,
                name: name.clone(),
                status: *status,
                kind: PageKind::Session,
                template_id: None,
                blocks: seeded_blocks(sections),
            };
            Some(GenesisWrite::Session(DbCreateSession { new_page }))
        }
    }
}

} // verus!
