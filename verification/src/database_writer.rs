//! What the single database writer computes before and around its
//! statements: the campaign-metadata patch, session ordinals, the rows a
//! genesis or a relationship write produces, and the prune set of a
//! full-snapshot replace. The writer actor runs the statements, in one
//! transaction per message, with these values.
use vstd::prelude::*;

use crate::ids::{PageId, RelationshipId, SessionId};
use crate::relationship::{
    reveal_of, Knowledge, NewRelationship, Origin, RelationshipRow, StampColumn,
};
use crate::toc::{Status, TocRow};

verus! {

// ---------------------------------------------------------------------------
// Campaign metadata
// ---------------------------------------------------------------------------

/// The campaign's metadata row. Times are milliseconds since the epoch.
#[derive(Debug, Clone, PartialEq, Eq)]
pub struct CampaignMetadata {
    pub name: String,
    pub tagline: Option<String>,
    pub game_system: Option<String>,
    pub content_locale: Option<String>,
    pub wizard_completed_at: Option<i64>,
    pub home_page_id: Option<PageId>,
    pub created_at: i64,
    pub updated_at: i64,
}

/// A partial update of the metadata; `complete_wizard` also seals the
/// setup wizard, once.
#[derive(Debug, Clone, PartialEq, Eq)]
pub struct PatchCampaignMetadata {
    pub name: Option<String>,
    pub tagline: Option<String>,
    pub game_system: Option<String>,
    pub content_locale: Option<String>,
    pub complete_wizard: bool,
}

/// Why a metadata patch failed.
#[derive(Debug, Clone, PartialEq, Eq)]
pub enum PatchCampaignError {
    AlreadyInitialized,
    NoMetadataRow,
    Db(String),
    ActorUnavailable,
}

/// The patched row, and whether this patch sealed the wizard.
#[derive(Debug, Clone, PartialEq, Eq)]
pub struct PatchCampaignResult {
    pub model: CampaignMetadata,
    pub wizard_just_completed: bool,
}

/// Read the metadata row.
#[derive(Debug, Clone, Copy, PartialEq, Eq)]
pub struct GetMetadata;

/// Why the metadata could not be read.
#[derive(Debug, Clone, PartialEq, Eq)]
pub enum MetadataError {
    NoMetadataRow,
    Db(String),
    ActorUnavailable,
}

/// Point the campaign's home page at a page.
#[derive(Debug, Clone, Copy, PartialEq, Eq)]
pub struct DbSetLandingPage {
    pub page_id: PageId,
}

/// An optional patch field: the new value when given, else the old one.
pub open spec fn patched<T>(new: Option<T>, old: T) -> T {
    match new {
        Some(v) => v,
        None => old,
    }
}

/// The metadata after a patch at time `now`, or why it was refused: a
/// second wizard completion is refused; otherwise each given field is
/// replaced, the wizard is sealed at `now` when this patch completes it,
/// and `updated_at` becomes `now`.
pub open spec fn patch_outcome(existing: CampaignMetadata, msg: PatchCampaignMetadata, now: i64) -> Result<PatchCampaignResult, PatchCampaignError> {
    if msg.complete_wizard && existing.wizard_completed_at is Some {
        Err(PatchCampaignError::AlreadyInitialized)
    } else {
        Ok(PatchCampaignResult {
            model: CampaignMetadata {
                name: patched(msg.name, existing.name),
                tagline: match msg.tagline {
                    Some(t) => Some(t),
                    None => existing.tagline,
                },
                game_system: match msg.game_system {
                    Some(g) => Some(g),
                    None => existing.game_system,
                },
                content_locale: match msg.content_locale {
                    Some(c) => Some(c),
                    None => existing.content_locale,
                },
                wizard_completed_at: if msg.complete_wizard { Some(now) } else { existing.wizard_completed_at },
                home_page_id: existing.home_page_id,
                created_at: existing.created_at,
                updated_at: now,
            },
            wizard_just_completed: msg.complete_wizard,
        })
    }
}

/// Apply a metadata patch at time `now`.
pub fn apply_patch(existing: CampaignMetadata, msg: PatchCampaignMetadata, now: i64) -> (r: Result<PatchCampaignResult, PatchCampaignError>)
    ensures
        r == patch_outcome(existing, msg, now),
{
    let already_completed = existing.wizard_completed_at.is_some();
    if msg.complete_wizard && already_completed {
        return Err(PatchCampaignError::AlreadyInitialized);
    }
    let mut m = existing;
    match msg.name {
        Some(n) => m.name = n,
        None => {},
    }
    match msg.tagline {
        Some(t) => m.tagline = Some(t),
        None => {},
    }
    match msg.game_system {
        Some(g) => m.game_system = Some(g),
        None => {},
    }
    match msg.content_locale {
        Some(c) => m.content_locale = Some(c),
        None => {},
    }
    let wizard_just_completed = msg.complete_wizard && !already_completed;
    if wizard_just_completed {
        m.wizard_completed_at = Some(now);
    }
    m.updated_at = now;
    Ok(PatchCampaignResult { model: m, wizard_just_completed })
}

/// The current time, in milliseconds since the epoch (`chrono::Utc::now`).
/// It depends on the clock: nothing is claimed of it.
#[verifier::external_body]
pub fn now_millis() -> (t: i64) {
    chrono::Utc::now().timestamp_millis()
}

/// Patch the metadata row, if there is one, at the current time.
pub fn patch_metadata(existing: Option<CampaignMetadata>, msg: PatchCampaignMetadata) -> (r: Result<PatchCampaignResult, PatchCampaignError>)
    ensures
        existing is None ==> r == Err::<PatchCampaignResult, PatchCampaignError>(PatchCampaignError::NoMetadataRow),
        existing is Some ==> exists|now: i64| r == patch_outcome(existing.unwrap(), msg, now),
{
    match existing {
        None => Err(PatchCampaignError::NoMetadataRow),
        Some(m) => {
            let now = now_millis();
            apply_patch(m, msg, now)
        },
    }
}

/// The metadata with its home page set to `page_id` at time `now`.
pub open spec fn landed(existing: CampaignMetadata, page_id: PageId, now: i64) -> CampaignMetadata {
    CampaignMetadata { home_page_id: Some(page_id), updated_at: now, ..existing }
}

/// The metadata with its home page set at time `now`; nothing else changes
/// but `updated_at`.
pub fn with_landing_page(existing: CampaignMetadata, page_id: PageId, now: i64) -> (m: CampaignMetadata)
    ensures
        m == landed(existing, page_id, now),
{
    let mut m = existing;
    m.home_page_id = Some(page_id);
    m.updated_at = now;
    m
}

/// The metadata row, or why it is missing.
pub fn metadata_or_missing(row: Option<CampaignMetadata>) -> (r: Result<CampaignMetadata, MetadataError>)
    ensures
        r == (match row {
            Some(m) => Ok::<CampaignMetadata, MetadataError>(m),
            None => Err::<CampaignMetadata, MetadataError>(MetadataError::NoMetadataRow),
        }),
{
    match row {
        Some(m) => Ok(m),
        None => Err(MetadataError::NoMetadataRow),
    }
}

// ---------------------------------------------------------------------------
// Sessions
// ---------------------------------------------------------------------------

/// The ordinal space is exhausted: no session can follow the highest one.
#[derive(Debug, Clone, Copy, PartialEq, Eq, Structural)]
pub struct OrdinalOverflow;

/// The ordinal a new session gets: one past the campaign's highest, the
/// first session being 1.
pub fn next_session_ordinal(prev_max: Option<i64>) -> (r: Result<i64, OrdinalOverflow>)
    ensures
        r == (match prev_max {
            None => Ok::<i64, OrdinalOverflow>(1),
            Some(m) => if m < i64::MAX { Ok::<i64, OrdinalOverflow>((m + 1) as i64) } else { Err::<i64, OrdinalOverflow>(OrdinalOverflow) },
        }),
{
    match prev_max {
        None => Ok(1),
        Some(m) => if m < i64::MAX { Ok(m + 1) } else { Err(OrdinalOverflow) },
    }
}

/// A `sessions` row.
#[derive(Debug, Clone, Copy, PartialEq, Eq, Structural)]
pub struct SessionRow {
    pub id: SessionId,
    pub ordinal: i64,
    pub created_at: i64,
    pub updated_at: i64,
    pub page_id: Option<PageId>,
}

/// The temporal row of a session minted at `now` for a page.
pub fn new_session_row(id: SessionId, ordinal: i64, page_id: PageId, now: i64) -> (s: SessionRow)
    ensures
        s == (SessionRow { id, ordinal, created_at: now, updated_at: now, page_id: Some(page_id) }),
{
    SessionRow { id, ordinal, created_at: now, updated_at: now, page_id: Some(page_id) }
}

// ---------------------------------------------------------------------------
// Snapshot replace
// ---------------------------------------------------------------------------

/// How a full-snapshot replace of the ToC rows runs.
#[derive(Debug, Clone, PartialEq, Eq)]
pub enum SnapshotWrite {
    /// The snapshot is empty: delete every row.
    DeleteAll,
    /// Delete the rows whose id is not kept, then upsert the snapshot.
    PruneAndUpsert { keep_ids: Vec<String> },
}

/// The ids a ToC snapshot keeps, in snapshot order.
pub fn toc_keep_ids(rows: &Vec<TocRow>) -> (ids: Vec<String>)
    ensures
        ids@.len() == rows@.len(),
        forall|i: int| 0 <= i < ids@.len() ==> (#[trigger] ids@[i])@ == rows@[i].id@,
{
    let mut ids: Vec<String> = Vec::new();
    let mut i: usize = 0;
    while i < rows.len()
        invariant
            0 <= i <= rows@.len(),
            ids@.len() == i,
            forall|j: int| 0 <= j < i ==> (#[trigger] ids@[j])@ == rows@[j].id@,
        decreases rows@.len() - i,
    {
        ids.push(rows[i].id.clone());
        i = i + 1;
    }
    ids
}

/// The write a ToC snapshot makes.
pub fn toc_snapshot_write(rows: &Vec<TocRow>) -> (w: SnapshotWrite)
    ensures
        rows@.len() == 0 ==> w == SnapshotWrite::DeleteAll,
        rows@.len() > 0 ==> (w matches SnapshotWrite::PruneAndUpsert { keep_ids } && {
            &&& keep_ids@.len() == rows@.len()
            &&& forall|i: int| 0 <= i < keep_ids@.len() ==> (#[trigger] keep_ids@[i])@ == rows@[i].id@
        }),
{
    if rows.len() == 0 {
        SnapshotWrite::DeleteAll
    } else {
        SnapshotWrite::PruneAndUpsert { keep_ids: toc_keep_ids(rows) }
    }
}

/// Replace the persisted ToC with a snapshot.
#[derive(Debug, Clone, PartialEq, Eq)]
pub struct WriteTocSnapshot {
    pub rows: Vec<TocRow>,
}

/// Replace a page's persisted blocks with a snapshot of its document, and
/// carry its title over to the page row when it changed.
#[derive(Debug, Clone, PartialEq, Eq)]
pub struct WritePageBlocks {
    pub page_id: PageId,
    pub blocks: Vec<crate::page_room::BlockRow>,
    pub name_sync: Option<String>,
}

/// A column of the blocks table.
#[derive(Debug, Clone, Copy, PartialEq, Eq, Structural)]
pub enum BlockColumn {
    Id,
    PageId,
    Status,
    Section,
    /// The `ordering` column: the block's position in its section.
    Position,
    Content,
    CreatedAt,
    UpdatedAt,
}

/// The columns a snapshot's upsert overwrites on a block that already
/// exists. Its creation time and its page are not among them: an edited
/// block keeps when it was created, and a block never changes pages.
pub open spec fn updated_on_conflict() -> Seq<BlockColumn> {
    seq![BlockColumn::Status, BlockColumn::Section, BlockColumn::Position, BlockColumn::Content, BlockColumn::UpdatedAt]
}

/// How a full-snapshot replace of one page's blocks runs, in one
/// transaction. Every deletion is scoped to the page: the blocks table is
/// shared by all pages.
#[derive(Debug, Clone, PartialEq, Eq)]
pub enum BlockSnapshotWrite {
    /// The snapshot is empty: delete every block of the page.
    DeletePageBlocks { page_id: PageId },
    /// Delete the page's blocks whose id is not kept, then upsert the
    /// snapshot, overwriting only `update_columns` of a block that exists.
    PruneAndUpsert { page_id: PageId, keep_ids: Vec<crate::ids::BlockId>, update_columns: Vec<BlockColumn> },
}

/// The whole write of a page snapshot, run in one transaction: the block
/// replace, then, when the title was carried along, the page's rename
/// (stamping its update time).
#[derive(Debug, Clone, PartialEq, Eq)]
pub struct PageSnapshotPlan {
    pub blocks: BlockSnapshotWrite,
    pub rename: Option<(PageId, String)>,
}

/// The write of a page snapshot.
pub fn page_blocks_write(msg: &WritePageBlocks) -> (w: PageSnapshotPlan)
    ensures
        msg.blocks@.len() == 0 ==> w.blocks == (BlockSnapshotWrite::DeletePageBlocks { page_id: msg.page_id }),
        msg.blocks@.len() > 0 ==> (w.blocks matches BlockSnapshotWrite::PruneAndUpsert { page_id, keep_ids, update_columns } && {
            &&& page_id == msg.page_id
            &&& keep_ids@.len() == msg.blocks@.len()
            &&& forall|i: int| 0 <= i < keep_ids@.len() ==> #[trigger] keep_ids@[i] == msg.blocks@[i].id
            &&& update_columns@ == updated_on_conflict()
        }),
        match msg.name_sync {
            Some(n) => w.rename matches Some((p, name)) && p == msg.page_id && name@ == n@,
            None => w.rename is None,
        },
{
    let rename = match &msg.name_sync {
        Some(n) => Some((msg.page_id, n.clone())),
        None => None,
    };
    if msg.blocks.len() == 0 {
        return PageSnapshotPlan { blocks: BlockSnapshotWrite::DeletePageBlocks { page_id: msg.page_id }, rename };
    }
    let mut keep_ids: Vec<crate::ids::BlockId> = Vec::new();
    let mut i: usize = 0;
    while i < msg.blocks.len()
        invariant
            0 <= i <= msg.blocks@.len(),
            keep_ids@.len() == i,
            forall|j: int| 0 <= j < i ==> #[trigger] keep_ids@[j] == msg.blocks@[j].id,
        decreases msg.blocks@.len() - i,
    {
        keep_ids.push(msg.blocks[i].id);
        i = i + 1;
    }
    let update_columns = vec![BlockColumn::Status, BlockColumn::Section, BlockColumn::Position, BlockColumn::Content, BlockColumn::UpdatedAt];
    proof {
        assert(update_columns@ =~= updated_on_conflict());
    }
    PageSnapshotPlan { blocks: BlockSnapshotWrite::PruneAndUpsert { page_id: msg.page_id, keep_ids, update_columns }, rename }
}

// ---------------------------------------------------------------------------
// Pages
// ---------------------------------------------------------------------------

/// A `pages` row.
#[derive(Debug, Clone, PartialEq, Eq)]
pub struct PageRow {
    pub id: PageId,
    pub name: String,
    pub status: Status,
    pub kind: crate::supervisor::PageKind,
    pub template_id: Option<PageId>,
    pub created_at: i64,
    pub updated_at: i64,
}

/// A seeded block of a new page.
#[derive(Debug, Clone, PartialEq, Eq)]
pub struct NewBlock {
    pub id: crate::ids::BlockId,
    pub status: Status,
    pub ordering: i32,
    pub content: String,
    pub section: String,
}

/// A page about to be born, with its seeded blocks.
#[derive(Debug, Clone, PartialEq, Eq)]
pub struct NewPage {
    pub id: PageId,
    pub name: String,
    pub status: Status,
    pub kind: crate::supervisor::PageKind,
    pub template_id: Option<PageId>,
    pub blocks: Vec<NewBlock>,
}

/// Persist a new page and its blocks.
#[derive(Debug, Clone, PartialEq, Eq)]
pub struct DbCreatePage {
    pub new_page: NewPage,
}

/// Persist a new session: its page, blocks and temporal row.
#[derive(Debug, Clone, PartialEq, Eq)]
pub struct DbCreateSession {
    pub new_page: NewPage,
}

/// What a session genesis produced.
#[derive(Debug, Clone, PartialEq, Eq)]
pub struct CreatedSession {
    pub page: PageRow,
    pub session: SessionRow,
}

/// The `pages` row of a new page born at `now`.
pub fn new_page_row(id: PageId, name: String, status: Status, kind: crate::supervisor::PageKind, template_id: Option<PageId>, now: i64) -> (p: PageRow)
    ensures
        p == (PageRow { id, name, status, kind, template_id, created_at: now, updated_at: now }),
{
    PageRow { id, name, status, kind, template_id, created_at: now, updated_at: now }
}

// ---------------------------------------------------------------------------
// Relationship rows
// ---------------------------------------------------------------------------

/// The session of an origin, if it is one.
pub open spec fn origin_session(o: Origin) -> Option<SessionId> {
    match o {
        Origin::Session(s) => Some(s),
        Origin::Prior => None,
    }
}

/// The row a new relationship is inserted as, created at `now`.
pub open spec fn inserted_row(new: NewRelationship, now: i64) -> RelationshipRow {
    RelationshipRow {
        id: new.id,
        page_a: new.page_a,
        page_b: new.page_b,
        predicate_a_to_b: new.predicate_a_to_b,
        predicate_b_to_a: new.predicate_b_to_a,
        origin_session_id: origin_session(new.origin),
        superseded_session_id: new.superseded,
        retcon_session_id: new.retcon,
        is_secret: new.knowledge != Knowledge::Public,
        reveal_session_id: reveal_of(new.knowledge),
        created_at: now,
    }
}

/// The row a new relationship is inserted as, created at `now`.
pub fn relationship_insert_row(new: NewRelationship, now: i64) -> (r: RelationshipRow)
    ensures
        r == inserted_row(new, now),
{
    let origin_session_id = match new.origin {
        Origin::Session(s) => Some(s),
        Origin::Prior => None,
    };
    let is_secret = new.knowledge.is_secret();
    let reveal_session_id = new.knowledge.reveal_session_id();
    RelationshipRow {
        id: new.id,
        page_a: new.page_a,
        page_b: new.page_b,
        predicate_a_to_b: new.predicate_a_to_b,
        predicate_b_to_a: new.predicate_b_to_a,
        origin_session_id,
        superseded_session_id: new.superseded,
        retcon_session_id: new.retcon,
        is_secret,
        reveal_session_id,
        created_at: now,
    }
}

/// A row with one factuality stamp set (or cleared).
pub fn with_stamp(row: RelationshipRow, column: StampColumn, value: Option<SessionId>) -> (r: RelationshipRow)
    ensures
        r == (match column {
            StampColumn::Superseded => RelationshipRow { superseded_session_id: value, ..row },
            StampColumn::Retcon => RelationshipRow { retcon_session_id: value, ..row },
        }),
{
    let mut r = row;
    match column {
        StampColumn::Superseded => r.superseded_session_id = value,
        StampColumn::Retcon => r.retcon_session_id = value,
    }
    r
}

/// A row with its knowledge replaced wholesale (both columns).
pub fn with_knowledge(row: RelationshipRow, knowledge: Knowledge) -> (r: RelationshipRow)
    ensures
        r == (RelationshipRow { is_secret: knowledge != Knowledge::Public, reveal_session_id: reveal_of(knowledge), ..row }),
{
    let mut r = row;
    r.is_secret = knowledge.is_secret();
    r.reveal_session_id = knowledge.reveal_session_id();
    r
}

/// Health check of the writer.
#[derive(Debug, Clone, Copy, PartialEq, Eq)]
pub struct Ping;

/// The answer to [`Ping`].
#[derive(Debug, Clone, Copy, PartialEq, Eq)]
pub struct Pong;

/// The wizard seals once: after a patch that completes it succeeds, every
/// later completing patch is refused, and the first patch's result says it
/// just completed the wizard.
pub proof fn law_wizard_seals_once(m: CampaignMetadata, first: PatchCampaignMetadata, second: PatchCampaignMetadata, t1: i64, t2: i64)
    requires
        first.complete_wizard,
        second.complete_wizard,
        patch_outcome(m, first, t1) is Ok,
    ensures
        patch_outcome(m, first, t1).unwrap().wizard_just_completed,
        patch_outcome(patch_outcome(m, first, t1).unwrap().model, second, t2)
            == Err::<PatchCampaignResult, PatchCampaignError>(PatchCampaignError::AlreadyInitialized),
{
}

/// A relationship reads back as it was written: the row inserted for a new
/// relationship describes exactly that relationship (with the insert time
/// as its creation time).
pub proof fn law_inserted_relationship_reads_back(new: NewRelationship, now: i64)
    ensures
        crate::relationship::row_ok(inserted_row(new, now)),
        ({
            let r = crate::relationship::row_relationship(inserted_row(new, now));
            &&& r.id == new.id
            &&& r.page_a == new.page_a && r.page_b == new.page_b
            &&& r.predicate_a_to_b == new.predicate_a_to_b && r.predicate_b_to_a == new.predicate_b_to_a
            &&& r.origin == new.origin
            &&& r.superseded == new.superseded && r.retcon == new.retcon
            &&& r.knowledge == new.knowledge
            &&& r.created_at == now
        }),
{
}

/// A patch changes only what it names: each given field takes the given
/// value and each absent one keeps the stored value; the home page and the
/// creation time never change, `updated_at` becomes the patch time, and the
/// wizard is sealed at that time exactly when the patch completes it. Only
/// completing an already sealed wizard is refused.
pub proof fn law_patch_changes_only_given_fields(existing: CampaignMetadata, msg: PatchCampaignMetadata, now: i64)
    ensures
        patch_outcome(existing, msg, now) is Err <==> msg.complete_wizard && existing.wizard_completed_at is Some,
        patch_outcome(existing, msg, now) matches Ok(res) ==> {
            let m = res.model;
            &&& (msg.name is None ==> m.name == existing.name)
            &&& (msg.name matches Some(n) ==> m.name == n)
            &&& (msg.tagline is None ==> m.tagline == existing.tagline)
            &&& (msg.tagline is Some ==> m.tagline == msg.tagline)
            &&& (msg.game_system is None ==> m.game_system == existing.game_system)
            &&& (msg.game_system is Some ==> m.game_system == msg.game_system)
            &&& (msg.content_locale is None ==> m.content_locale == existing.content_locale)
            &&& (msg.content_locale is Some ==> m.content_locale == msg.content_locale)
            &&& m.home_page_id == existing.home_page_id
            &&& m.created_at == existing.created_at
            &&& m.updated_at == now
            &&& m.wizard_completed_at == (if msg.complete_wizard { Some(now) } else { existing.wizard_completed_at })
            &&& res.wizard_just_completed == msg.complete_wizard
        },
{
}

} // verus!
