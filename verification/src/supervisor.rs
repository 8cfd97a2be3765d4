//! The campaign supervisor's decisions: why it stopped, when it idles out,
//! how a linked actor's death is answered, which room a WebSocket join
//! names, and how page and session creation requests are validated.
//!
//! The supervisor actor owns the database, the ToC and relationship-graph
//! singletons and the lazily spawned page rooms; it performs the spawns,
//! the reads and the sends, and asks these functions what to do.
use std::collections::HashMap;
use vstd::prelude::*;
use vstd::std_specs::iter::IteratorSpec;

use crate::ids::{ulid_from_str, ulid_parse, ulid_text, PageId};
use crate::persist::SendFailure;
use crate::registry::ActorKey;
use crate::database_writer::{landed, CampaignMetadata};
use crate::text::{has_prefix, is_white_space, same_text, starts_with, trim_end_of, trim_start_of, trim_text, trimmed};
use crate::toc::{Status, TocPageKind, TreeId};

verus! {

broadcast use vstd::std_specs::hash::group_hash_axioms;

// ---------------------------------------------------------------------------
// Stop cause and idle eviction
// ---------------------------------------------------------------------------

/// Why a supervisor stopped, as recorded before it stops.
#[derive(Debug, Clone, Copy, PartialEq, Eq, Structural)]
pub enum StopCause {
    Idle,
    Drain,
    RegistryFallback,
    PlatformRelease,
}

/// The log label of a stop cause.
pub open spec fn stop_cause_label(c: StopCause) -> Seq<char> {
    match c {
        StopCause::Idle => "idle"@,
        StopCause::Drain => "drain"@,
        StopCause::RegistryFallback => "registry_fallback"@,
        StopCause::PlatformRelease => "platform_release"@,
    }
}

impl StopCause {
    /// The log label of this cause.
    pub fn as_str(self) -> (s: &'static str)
        ensures
            s@ == stop_cause_label(self),
    {
        match self {
            StopCause::Idle => "idle",
            StopCause::Drain => "drain",
            StopCause::RegistryFallback => "registry_fallback",
            StopCause::PlatformRelease => "platform_release",
        }
    }
}

/// The recorded cause after `cause` is offered: the first cause recorded
/// stays.
pub open spec fn first_cause(recorded: Option<StopCause>, cause: StopCause) -> Option<StopCause> {
    if recorded is Some {
        recorded
    } else {
        Some(cause)
    }
}

/// Record why the supervisor is about to stop (the first cause wins).
#[derive(Debug, Clone, Copy, PartialEq, Eq)]
pub struct SetStopCause(pub StopCause);

/// Ask for the recorded stop cause.
#[derive(Debug, Clone, Copy, PartialEq, Eq)]
pub struct GetStopCause;

/// The periodic idle-eviction tick.
#[derive(Debug, Clone, Copy, PartialEq, Eq)]
pub struct IdleCheck;

/// Health check; bumps the activity clock.
#[derive(Debug, Clone, Copy, PartialEq, Eq)]
pub struct Ping;

/// The answer to [`Ping`].
#[derive(Debug, Clone, Copy, PartialEq, Eq)]
pub struct Pong;

/// Ask for the relationship graph's actor, once, at checkout.
#[derive(Debug, Clone, Copy, PartialEq, Eq)]
pub struct RelationshipGraphRef;

/// How the actor system reports an actor's end.
#[derive(Debug, Clone, Copy, PartialEq, Eq, Structural)]
pub enum StopReason {
    Normal,
    SupervisorRestart,
    Killed,
    Panicked,
    LinkDied,
}

/// The supervisor's lifecycle state: the recorded stop cause and the idle
/// timeout it evicts itself after.
pub struct Lifecycle {
    stop_cause: Option<StopCause>,
    idle_timeout_ms: u64,
}

impl Lifecycle {
    pub closed spec fn cause(&self) -> Option<StopCause> {
        self.stop_cause
    }

    pub closed spec fn timeout_ms(&self) -> u64 {
        self.idle_timeout_ms
    }

    /// A running supervisor with no stop cause.
    pub fn new(idle_timeout_ms: u64) -> (l: Lifecycle)
        ensures
            l.cause() is None,
            l.timeout_ms() == idle_timeout_ms,
    {
        Lifecycle { stop_cause: None, idle_timeout_ms }
    }

    /// The recorded stop cause.
    pub fn stop_cause(&self) -> (c: Option<StopCause>)
        ensures
            c == self.cause(),
    {
        self.stop_cause
    }

    /// Record a stop cause; the first one recorded wins.
    pub fn set_stop_cause(&mut self, cause: StopCause)
        ensures
            final(self).cause() == first_cause(old(self).cause(), cause),
            final(self).timeout_ms() == old(self).timeout_ms(),
    {
        if self.stop_cause.is_none() {
            self.stop_cause = Some(cause);
        }
    }

    /// The idle tick: with no stop cause yet and at least the timeout since
    /// the last activity, record `Idle` and answer `true` (stop now);
    /// otherwise change nothing.
    pub fn idle_check(&mut self, idle_ms: u64) -> (stop: bool)
        ensures
            stop == (old(self).cause() is None && idle_ms >= old(self).timeout_ms()),
            final(self).cause() == (if stop { Some(StopCause::Idle) } else { old(self).cause() }),
            final(self).timeout_ms() == old(self).timeout_ms(),
    {
        if self.stop_cause.is_some() {
            return false;
        }
        if idle_ms >= self.idle_timeout_ms {
            self.stop_cause = Some(StopCause::Idle);
            true
        } else {
            false
        }
    }
}

/// The cause a stopping supervisor logs: its recorded cause, else one read
/// off how the actor system stopped it.
pub open spec fn stop_log_label(cause: Option<StopCause>, reason: StopReason) -> Seq<char> {
    match cause {
        Some(c) => stop_cause_label(c),
        None => match reason {
            StopReason::Normal | StopReason::SupervisorRestart => "signal"@,
            StopReason::Killed => "killed"@,
            StopReason::Panicked => "crash"@,
            StopReason::LinkDied => "link_died"@,
        },
    }
}

/// The cause a stopping supervisor logs.
pub fn stop_label(cause: Option<StopCause>, reason: StopReason) -> (s: &'static str)
    ensures
        s@ == stop_log_label(cause, reason),
{
    match cause {
        Some(c) => c.as_str(),
        None => match reason {
            StopReason::Normal | StopReason::SupervisorRestart => "signal",
            StopReason::Killed => "killed",
            StopReason::Panicked => "crash",
            StopReason::LinkDied => "link_died",
        },
    }
}

/// Whether a stopping supervisor tells the platform it released its lease:
/// only after an idle eviction, and only when it has a platform client.
pub fn releases_lease(cause: Option<StopCause>, has_platform_client: bool) -> (r: bool)
    ensures
        r == (cause == Some(StopCause::Idle) && has_platform_client),
{
    match cause {
        Some(StopCause::Idle) => has_platform_client,
        _ => false,
    }
}

/// One step of a stopping supervisor's teardown, each awaited before the
/// next.
#[derive(Debug, Clone, Copy, PartialEq, Eq, Structural)]
pub enum Teardown {
    /// Stop a page room and wait until it has shut down.
    StopPage(ActorKey),
    /// Stop the ToC room and wait until it has shut down.
    StopToc,
    /// Stop the relationship graph and wait until it has shut down.
    StopGraph,
    /// Release the campaign's storage.
    ReleaseStorage,
    /// Tell the platform that the campaign's lease is released.
    ReleaseLease,
}

/// The teardown steps after the page rooms: the ToC, then the graph, then
/// the storage, and last the lease when the stop releases it.
pub open spec fn teardown_tail(cause: Option<StopCause>, has_platform_client: bool) -> Seq<Teardown> {
    seq![Teardown::StopToc, Teardown::StopGraph, Teardown::ReleaseStorage]
        + if cause == Some(StopCause::Idle) && has_platform_client { seq![Teardown::ReleaseLease] } else { Seq::empty() }
}

/// How the supervisor answers a linked actor's death.
#[derive(Debug, Clone, Copy, PartialEq, Eq, Structural)]
pub enum LinkVerdict {
    /// Keep running.
    Continue,
    /// Stop, propagating the linked actor's death.
    Stop,
}

/// A linked actor died. A page room (its entry was pruned) going away never
/// takes the campaign down; otherwise it was the registry, whose normal end
/// is benign and whose abnormal end stops the supervisor.
pub fn link_died_verdict(pruned_page_room: bool, reason: StopReason) -> (v: LinkVerdict)
    ensures
        v == (if pruned_page_room || reason == StopReason::Normal || reason == StopReason::SupervisorRestart {
            LinkVerdict::Continue
        } else {
            LinkVerdict::Stop
        }),
{
    if pruned_page_room {
        return LinkVerdict::Continue;
    }
    match reason {
        StopReason::Normal | StopReason::SupervisorRestart => LinkVerdict::Continue,
        _ => LinkVerdict::Stop,
    }
}

// ---------------------------------------------------------------------------
// Page rooms
// ---------------------------------------------------------------------------

/// The page map without the rooms run by `actor`.
pub open spec fn without_room_actor(rooms: Map<u128, ActorKey>, actor: ActorKey) -> Map<u128, ActorKey> {
    Map::new(|k: u128| rooms.contains_key(k) && rooms[k] != actor, |k: u128| rooms[k])
}

/// The live page rooms of a campaign, by page.
pub struct PageRooms {
    rooms: HashMap<u128, ActorKey>,
}

impl PageRooms {
    pub closed spec fn rooms(&self) -> Map<u128, ActorKey> {
        self.rooms@
    }

    pub fn new() -> (r: PageRooms)
        ensures
            r.rooms() == Map::<u128, ActorKey>::empty(),
    {
        PageRooms { rooms: HashMap::new() }
    }

    /// The room actor of a page, if it has one.
    pub fn get(&self, page: PageId) -> (r: Option<ActorKey>)
        ensures
            r == (if self.rooms().contains_key(page.0) { Some(self.rooms()[page.0]) } else { None }),
    {
        match self.rooms.get(&page.0) {
            Some(a) => Some(*a),
            None => None,
        }
    }

    /// Whether a page's room is known.
    pub fn contains(&self, page: PageId) -> (r: bool)
        ensures
            r == self.rooms().contains_key(page.0),
    {
        self.rooms.contains_key(&page.0)
    }

    /// Track a freshly spawned room.
    pub fn insert(&mut self, page: PageId, actor: ActorKey)
        ensures
            final(self).rooms() == old(self).rooms().insert(page.0, actor),
    {
        self.rooms.insert(page.0, actor);
    }

    /// A linked room actor died: forget every page it ran. Returns whether
    /// any page was forgotten, which tells a room's death from the
    /// registry's.
    pub fn prune(&mut self, actor: ActorKey) -> (pruned: bool)
        ensures
            final(self).rooms() == without_room_actor(old(self).rooms(), actor),
            pruned == exists|k: u128| #[trigger] old(self).rooms().contains_key(k) && old(self).rooms()[k] == actor,
    {
        let ghost rooms0 = self.rooms@;
        let ghost ks = vstd::std_specs::hash::spec_keys_iter(&self.rooms).remaining();
        proof {
            crate::ids::lemma_keys_listed(ks, rooms0.dom());
        }
        let mut doomed: Vec<u128> = Vec::new();
        for k in it: self.rooms.keys()
            invariant
                it.seq() == ks,
                rooms0 == self.rooms@,
                forall|i: int| 0 <= i < ks.len() ==> rooms0.contains_key(*#[trigger] ks[i]),
                forall|i: int| 0 <= i < doomed@.len() ==> {
                    &&& rooms0.contains_key(#[trigger] doomed@[i])
                    &&& rooms0[doomed@[i]] == actor
                },
                forall|j: int| 0 <= j < it.index() && rooms0[*ks[j]] == actor
                    ==> exists|d: int| 0 <= d < doomed@.len() && doomed@[d] == *#[trigger] ks[j],
        {
            let ghost before = doomed@;
            proof {
                assert(*k == *ks[it.index()]);
            }
            let hit = *self.rooms.get(k).unwrap() == actor;
            if hit {
                doomed.push(*k);
            }
            proof {
                assert forall|d: int| 0 <= d < before.len() implies doomed@[d] == before[d] by {}
                if hit {
                    assert(doomed@[before.len() as int] == *k);
                }
            }
        }
        proof {
            assert forall|k: u128| rooms0.contains_key(k) && rooms0[k] == actor implies doomed@.contains(k) by {
                let j = choose|j: int| 0 <= j < ks.len() && *ks[j] == k;
                assert(rooms0[*ks[j]] == actor);
                let d = choose|d: int| 0 <= d < doomed@.len() && doomed@[d] == *ks[j];
                assert(doomed@[d] == k);
            }
        }
        let n = doomed.len();
        crate::ids::remove_keys(&mut self.rooms, &doomed);
        proof {
            assert forall|k: u128| rooms0.contains_key(k) && rooms0[k] == actor implies !self.rooms@.contains_key(k) by {
                let j = choose|j: int| 0 <= j < doomed@.len() && doomed@[j] == k;
                assert(!self.rooms@.contains_key(doomed@[j]));
            }
            assert(self.rooms@ =~= without_room_actor(rooms0, actor));
            if n > 0 {
                assert(rooms0.contains_key(doomed@[0]));
            }
            if exists|k: u128| #[trigger] rooms0.contains_key(k) && rooms0[k] == actor {
                let k = choose|k: u128| #[trigger] rooms0.contains_key(k) && rooms0[k] == actor;
                assert(doomed@.contains(k));
            }
        }
        n > 0
    }

    /// Hand back every room actor, each page once, for a stopping
    /// supervisor to stop, and forget them all.
    pub fn drain(&mut self) -> (actors: Vec<ActorKey>)
        ensures
            final(self).rooms() == Map::<u128, ActorKey>::empty(),
            actors@.len() == old(self).rooms().dom().len(),
            forall|k: u128| #[trigger] old(self).rooms().contains_key(k) ==> actors@.contains(old(self).rooms()[k]),
            forall|i: int| 0 <= i < actors@.len() ==> old(self).rooms().values().contains(#[trigger] actors@[i]),
    {
        let ghost rooms0 = self.rooms@;
        let ghost ks = vstd::std_specs::hash::spec_keys_iter(&self.rooms).remaining();
        proof {
            crate::ids::lemma_keys_listed(ks, rooms0.dom());
            assert(ks.len() == rooms0.dom().len());
        }
        let mut out: Vec<ActorKey> = Vec::new();
        for k in it: self.rooms.keys()
            invariant
                it.seq() == ks,
                rooms0 == self.rooms@,
                forall|i: int| 0 <= i < ks.len() ==> rooms0.contains_key(*#[trigger] ks[i]),
                out@.len() == it.index(),
                forall|i: int| 0 <= i < out@.len() ==> #[trigger] out@[i] == rooms0[*ks[i]],
        {
            proof {
                assert(*k == *ks[it.index()]);
            }
            let a = *self.rooms.get(k).unwrap();
            out.push(a);
        }
        proof {
            assert forall|k: u128| #[trigger] rooms0.contains_key(k) implies out@.contains(rooms0[k]) by {
                let j = choose|j: int| 0 <= j < ks.len() && *ks[j] == k;
                assert(out@[j] == rooms0[k]);
            }
            assert forall|i: int| 0 <= i < out@.len() implies rooms0.values().contains(#[trigger] out@[i]) by {
                assert(rooms0.contains_key(*ks[i]));
            }
        }
        self.rooms.clear();
        out
    }
}

/// The teardown of a stopping supervisor: every page room first, each
/// once, so their pending write-backs reach the writer; then the ToC, the
/// relationship graph and the storage; the lease last, after an idle stop
/// with a platform client. The rooms are forgotten.
pub fn teardown(rooms: &mut PageRooms, cause: Option<StopCause>, has_platform_client: bool) -> (steps: Vec<Teardown>)
    ensures
        final(rooms).rooms() == Map::<u128, ActorKey>::empty(),
        ({
            let n = old(rooms).rooms().dom().len() as int;
            &&& steps@.len() == n + teardown_tail(cause, has_platform_client).len()
            &&& steps@.subrange(n, steps@.len() as int) == teardown_tail(cause, has_platform_client)
            &&& forall|i: int| 0 <= i < n ==> ((#[trigger] steps@[i]) is StopPage
                && old(rooms).rooms().values().contains(steps@[i]->0))
            &&& forall|k: u128| #[trigger] old(rooms).rooms().contains_key(k)
                ==> exists|i: int| 0 <= i < n && steps@[i] == Teardown::StopPage(old(rooms).rooms()[k])
        }),
{
    let ghost n = old(rooms).rooms().dom().len() as int;
    let actors = rooms.drain();
    let mut steps: Vec<Teardown> = Vec::new();
    let mut i: usize = 0;
    while i < actors.len()
        invariant
            0 <= i <= actors@.len(),
            steps@.len() == i,
            forall|j: int| 0 <= j < i ==> #[trigger] steps@[j] == Teardown::StopPage(actors@[j]),
        decreases actors@.len() - i,
    {
        steps.push(Teardown::StopPage(actors[i]));
        i = i + 1;
    }
    steps.push(Teardown::StopToc);
    steps.push(Teardown::StopGraph);
    steps.push(Teardown::ReleaseStorage);
    if releases_lease(cause, has_platform_client) {
        steps.push(Teardown::ReleaseLease);
    }
    proof {
        assert(steps@.subrange(n, steps@.len() as int) =~= teardown_tail(cause, has_platform_client));
        assert forall|k: u128| #[trigger] old(rooms).rooms().contains_key(k)
            implies exists|i: int| 0 <= i < n && steps@[i] == Teardown::StopPage(old(rooms).rooms()[k]) by {
            let j = choose|j: int| 0 <= j < actors@.len() && actors@[j] == old(rooms).rooms()[k];
            assert(steps@[j] == Teardown::StopPage(actors@[j]));
        }
    }
    steps
}


// ---------------------------------------------------------------------------
// Room routing
// ---------------------------------------------------------------------------

/// Join the room a WebSocket client names: `"toc"` or `"page:<ulid>"`.
#[derive(Debug, Clone, PartialEq, Eq)]
pub struct JoinRoom {
    pub room_id: String,
}

/// Why a join was refused.
#[derive(Debug, Clone, PartialEq, Eq)]
pub enum JoinRoomError {
    UnknownRoom(String),
    Db(String),
}

/// The room a join resolves to.
#[derive(Debug, Clone, Copy, PartialEq, Eq, Structural)]
pub enum RoomTarget {
    Toc,
    Page(PageId),
}

/// Which room a room id names, if any.
pub open spec fn named_room(room_id: Seq<char>) -> Option<RoomTarget> {
    if room_id == "toc"@ {
        Some(RoomTarget::Toc)
    } else if starts_with(room_id, "page:"@) {
        match ulid_parse(room_id.subrange(5, room_id.len() as int)) {
            Some(v) => Some(RoomTarget::Page(PageId(v))),
            None => None,
        }
    } else {
        None
    }
}

/// Resolve a room id: the ToC room, or the page whose ULID follows
/// `page:`; anything else is an unknown room, reported with the id as
/// given.
pub fn route_room(room_id: &str) -> (r: Result<RoomTarget, JoinRoomError>)
    ensures
        match named_room(room_id@) {
            Some(t) => r == Ok::<RoomTarget, JoinRoomError>(t),
            None => r matches Err(JoinRoomError::UnknownRoom(s)) && s@ == room_id@,
        },
{
    proof {
        reveal_strlit("toc");
        reveal_strlit("page:");
    }
    if same_text(room_id, "toc") {
        return Ok(RoomTarget::Toc);
    }
    if has_prefix(room_id, "page:") {
        let n = room_id.unicode_len();
        let rest = room_id.substring_char(5, n);
        match ulid_from_str(rest) {
            Some(v) => Ok(RoomTarget::Page(PageId(v))),
            None => Err(JoinRoomError::UnknownRoom(room_id.to_owned())),
        }
    } else {
        Err(JoinRoomError::UnknownRoom(room_id.to_owned()))
    }
}

/// What a page join needs next.
#[derive(Debug, Clone, Copy, PartialEq, Eq, Structural)]
pub enum PageRoomStep {
    /// The page's room is running: join it.
    Reuse(ActorKey),
    /// No live room: check that the page exists, then spawn its room.
    Spawn,
}

/// A join of a page room reuses a known room that is still alive and
/// spawns one otherwise.
pub fn page_room_step(known: Option<ActorKey>, alive: bool) -> (s: PageRoomStep)
    ensures
        s == (match known {
            Some(a) => if alive { PageRoomStep::Reuse(a) } else { PageRoomStep::Spawn },
            None => PageRoomStep::Spawn,
        }),
{
    match known {
        Some(a) => if alive { PageRoomStep::Reuse(a) } else { PageRoomStep::Spawn },
        None => PageRoomStep::Spawn,
    }
}

/// The refusal of a join for a page that does not exist: the unknown room
/// `page:<ulid>`.
pub fn missing_page_room(page: PageId) -> (e: JoinRoomError)
    ensures
        e matches JoinRoomError::UnknownRoom(s) && s@ == "page:"@ + ulid_text(page.0),
{
    let mut s = "page:".to_owned();
    let t = page.to_text();
    s.append(t.as_str());
    JoinRoomError::UnknownRoom(s)
}

/// How a room rejected or failed an update.
#[derive(Debug, Clone, PartialEq, Eq)]
pub enum UpdateError {
    /// The room refused the update (its own error, as text).
    Rejected(String),
    /// The room actor is gone (a self-evicted room is the common case).
    RoomGone,
    /// The room actor is alive but overloaded.
    Busy,
}

/// Map a failed update send: the room's own error passes through; a
/// stopped or not-running room is gone; a full mailbox or a timeout means
/// busy.
pub fn update_failure(f: SendFailure<UpdateError>) -> (e: UpdateError)
    ensures
        e == (match f {
            SendFailure::HandlerError(inner) => inner,
            SendFailure::ActorNotRunning | SendFailure::ActorStopped => UpdateError::RoomGone,
            SendFailure::MailboxFull | SendFailure::Timeout => UpdateError::Busy,
        }),
{
    match f {
        SendFailure::HandlerError(inner) => inner,
        SendFailure::ActorNotRunning => UpdateError::RoomGone,
        SendFailure::ActorStopped => UpdateError::RoomGone,
        SendFailure::MailboxFull => UpdateError::Busy,
        SendFailure::Timeout => UpdateError::Busy,
    }
}

/// The first stop cause wins: whatever is offered later, and whatever the
/// idle tick sees, the cause recorded first is the one kept.
pub proof fn law_first_stop_cause_wins(first: StopCause, later: StopCause)
    ensures
        first_cause(first_cause(None, first), later) == Some(first),
        first_cause(Some(first), StopCause::Idle) == Some(first),
{
}

/// A page room's own id routes back to it: the room id `page:<text>` built
/// from a page id's ULID text names that page's room.
pub proof fn law_page_room_id_round_trip(text: Seq<char>, value: u128)
    requires
        text.len() == 26,
        ulid_parse(text) == Some(value),
    ensures
        named_room("page:"@ + text) == Some(RoomTarget::Page(PageId(value))),
{
    reveal_strlit("page:");
    reveal_strlit("toc");
    let id = "page:"@ + text;
    assert(id.len() != "toc"@.len());
    assert(id.subrange(0, 5) =~= "page:"@);
    assert(id.subrange(5, id.len() as int) =~= text);
}

// ---------------------------------------------------------------------------
// Page and session creation
// ---------------------------------------------------------------------------

/// The kinds of page.
#[derive(Debug, Clone, Copy, PartialEq, Eq, Structural)]
pub enum PageKind {
    Entity,
    Template,
    Session,
}

/// The document-shaped page kinds a `CreatePage` can make (a session has
/// its own request).
#[derive(Debug, Clone, Copy, PartialEq, Eq, Structural)]
pub enum DocumentPageKind {
    Entity,
    Template,
}

impl DocumentPageKind {
    pub open spec fn spec_page_kind(self) -> PageKind {
        match self {
            DocumentPageKind::Entity => PageKind::Entity,
            DocumentPageKind::Template => PageKind::Template,
        }
    }

    pub open spec fn spec_toc_page_kind(self) -> TocPageKind {
        match self {
            DocumentPageKind::Entity => TocPageKind::Entity,
            DocumentPageKind::Template => TocPageKind::Template,
        }
    }

    /// The page kind of a document page.
    pub fn page_kind(self) -> (k: PageKind)
        ensures
            k == (match self {
                DocumentPageKind::Entity => PageKind::Entity,
                DocumentPageKind::Template => PageKind::Template,
            }),
    {
        match self {
            DocumentPageKind::Entity => PageKind::Entity,
            DocumentPageKind::Template => PageKind::Template,
        }
    }

    /// The ToC node kind of a document page (document pages carry no
    /// ordinal).
    pub fn toc_page_kind(self) -> (k: TocPageKind)
        ensures
            k == (match self {
                DocumentPageKind::Entity => TocPageKind::Entity,
                DocumentPageKind::Template => TocPageKind::Template,
            }),
    {
        match self {
            DocumentPageKind::Entity => TocPageKind::Entity,
            DocumentPageKind::Template => TocPageKind::Template,
        }
    }
}

/// Create a document page.
#[derive(Debug, Clone, PartialEq, Eq)]
pub struct CreatePage {
    pub name: String,
    pub status: Option<Status>,
    /// Parent page to nest under in the ToC; `None` is the root.
    pub parent: Option<PageId>,
    pub kind: DocumentPageKind,
    /// Clone this template's blocks into the new page.
    pub from_template_id: Option<PageId>,
}

/// Why a page creation failed.
#[derive(Debug, Clone, PartialEq, Eq)]
pub enum CreatePageError {
    ParentNotFound,
    EmptyName,
    NameTaken(PageKind, String),
    InvalidTemplate,
    Genesis,
    ActorUnavailable,
    Db(String),
}

/// Create a session page.
#[derive(Debug, Clone, PartialEq, Eq)]
pub struct CreateSession {
    pub name: String,
    pub status: Option<Status>,
    pub parent: Option<PageId>,
}

/// Why a session creation failed.
#[derive(Debug, Clone, PartialEq, Eq)]
pub enum CreateSessionError {
    ParentNotFound,
    EmptyName,
    NameTaken(PageKind, String),
    Genesis,
    ActorUnavailable,
    Db(String),
}

/// A page or session name as given, trimmed; `None` when nothing but
/// whitespace was given.
pub fn page_name(raw: &str) -> (r: Option<String>)
    ensures
        match r {
            Some(s) => s@ == trimmed(raw@) && s@.len() > 0,
            None => trimmed(raw@).len() == 0,
        },
{
    let t = trim_text(raw);
    if t.as_str().unicode_len() == 0 {
        None
    } else {
        Some(t)
    }
}

/// The visibility of a new page: as asked, else GM-only.
pub fn effective_status(s: Option<Status>) -> (r: Status)
    ensures
        r == (match s {
            Some(v) => v,
            None => Status::GmOnly,
        }),
{
    match s {
        Some(v) => v,
        None => Status::GmOnly,
    }
}

/// Where a requested parent placed a new page, from the ToC's answer to
/// the lookup: the node it found, no such node, or no answer at all.
pub enum ParentLookup {
    Found(TreeId),
    NotFound,
    Unavailable,
}

/// A page cloned from a template must name a live template page: `found`
/// is the kind of the page the id names, if any.
pub fn template_source(found: Option<PageKind>) -> (r: Result<(), CreatePageError>)
    ensures
        r == (if found == Some(PageKind::Template) {
            Ok::<(), CreatePageError>(())
        } else {
            Err::<(), CreatePageError>(CreatePageError::InvalidTemplate)
        }),
{
    match found {
        Some(PageKind::Template) => Ok(()),
        _ => Err(CreatePageError::InvalidTemplate),
    }
}

/// The request seeds a campaign's home page: a blank entity page named
/// "Campaign Base Camp", known to players, at the ToC root.
pub open spec fn is_home_page_request(c: CreatePage) -> bool {
    &&& c.name@ == "Campaign Base Camp"@
    &&& c.status == Some(Status::Known)
    &&& c.parent is None
    &&& c.kind == DocumentPageKind::Entity
    &&& c.from_template_id is None
}

/// `seed` is what a checkout seeds: the home-page request when the checkout
/// created the campaign's database (`is_new`), nothing otherwise.
pub open spec fn is_home_seed(is_new: bool, seed: Option<CreatePage>) -> bool {
    &&& (is_new <==> seed is Some)
    &&& (seed matches Some(c) ==> is_home_page_request(c))
}

/// The name and visibility of the page a valid request creates, as
/// [`CreatePageFlow::start`] records them.
pub open spec fn requested_page(c: CreatePage) -> (Seq<char>, Status) {
    (trimmed(c.name@), match c.status { Some(v) => v, None => Status::GmOnly })
}

/// The request that seeds a brand-new campaign's home page.
pub fn home_page_request() -> (r: CreatePage)
    ensures
        is_home_page_request(r),
{
    CreatePage {
        name: "Campaign Base Camp".to_owned(),
        status: Some(Status::Known),
        parent: None,
        kind: DocumentPageKind::Entity,
        from_template_id: None,
    }
}

/// The home-page seed of a checkout: only the first-ever checkout of a
/// campaign (`is_new`) seeds its home page; reopening a campaign never
/// seeds it again.
pub fn home_page_seed(is_new: bool) -> (r: Option<CreatePage>)
    ensures
        is_home_seed(is_new, r),
{
    if is_new {
        Some(home_page_request())
    } else {
        None
    }
}

/// A campaign's stored pages (id to name and visibility) and metadata after
/// one checkout's seed: a request adds the page `minted` for it and points
/// the metadata at that page (the landing-page write of
/// [`crate::database_writer::with_landing_page`] at `now`); no request
/// leaves both as they were.
pub open spec fn after_seed(
    pages: Map<u128, (Seq<char>, Status)>,
    meta: CampaignMetadata,
    seed: Option<CreatePage>,
    minted: PageId,
    now: i64,
) -> (Map<u128, (Seq<char>, Status)>, CampaignMetadata) {
    match seed {
        Some(c) => (pages.insert(minted.0, requested_page(c)), landed(meta, minted, now)),
        None => (pages, meta),
    }
}

/// The stored pages and metadata after a run of checkouts, each with the
/// seed it made, the page id a seed would get and the time.
pub open spec fn after_seeds(
    pages: Map<u128, (Seq<char>, Status)>,
    meta: CampaignMetadata,
    runs: Seq<(Option<CreatePage>, PageId, i64)>,
) -> (Map<u128, (Seq<char>, Status)>, CampaignMetadata)
    decreases runs.len(),
{
    if runs.len() == 0 {
        (pages, meta)
    } else {
        let (p, m) = after_seed(pages, meta, runs[0].0, runs[0].1, runs[0].2);
        after_seeds(p, m, runs.drop_first())
    }
}

/// A campaign's home page is seeded once. The first checkout, which
/// creates the campaign's database, leaves exactly one page, "Campaign Base
/// Camp", known to players, with the metadata pointing at it; any number of
/// reopens after it add no page and leave the pointer where it was.
pub proof fn law_reopen_does_not_reseed(
    meta: CampaignMetadata,
    first: Option<CreatePage>,
    minted: PageId,
    now: i64,
    reopens: Seq<(Option<CreatePage>, PageId, i64)>,
)
    requires
        is_home_seed(true, first),
        forall|i: int| 0 <= i < reopens.len() ==> is_home_seed(false, (#[trigger] reopens[i]).0),
    ensures
        ({
            let (pages, m) = after_seed(Map::empty(), meta, first, minted, now);
            let (later, m2) = after_seeds(pages, m, reopens);
            &&& pages == map![minted.0 => ("Campaign Base Camp"@, Status::Known)]
            &&& m.home_page_id == Some(minted)
            &&& later == pages
            &&& m2 == m
        }),
{
    reveal_strlit("Campaign Base Camp");
    let s = "Campaign Base Camp"@;
    assert(!is_white_space(s[0]));
    assert(trim_start_of(s) == s);
    assert(s.last() == 'p');
    assert(trim_end_of(s) == s);
    let (pages, m) = after_seed(Map::empty(), meta, first, minted, now);
    assert(pages =~= map![minted.0 => ("Campaign Base Camp"@, Status::Known)]);
    lemma_reopens_keep(pages, m, reopens);
}

/// Checkouts that seed nothing leave the store as it was.
proof fn lemma_reopens_keep(pages: Map<u128, (Seq<char>, Status)>, meta: CampaignMetadata, runs: Seq<(Option<CreatePage>, PageId, i64)>)
    requires
        forall|i: int| 0 <= i < runs.len() ==> is_home_seed(false, (#[trigger] runs[i]).0),
    ensures
        after_seeds(pages, meta, runs) == (pages, meta),
    decreases runs.len(),
{
    if runs.len() > 0 {
        assert(is_home_seed(false, runs[0].0));
        let rest = runs.drop_first();
        assert forall|i: int| 0 <= i < rest.len() implies is_home_seed(false, (#[trigger] rest[i]).0) by {
            assert(rest[i] == runs[i + 1]);
        }
        lemma_reopens_keep(pages, meta, rest);
    }
}

/// A block of a template page, as cloned into a new page's seed: its
/// section, content and visibility.
#[derive(Debug, Clone, PartialEq, Eq)]
pub struct TemplateBlock {
    pub section: String,
    pub content: String,
    pub status: Status,
}

/// The genesis a new document page's owning actor is spawned with.
#[derive(Debug, Clone, PartialEq, Eq)]
pub struct PageGenesis {
    /// The id minted for the new page.
    pub page_id: PageId,
    pub name: String,
    pub kind: DocumentPageKind,
    pub status: Status,
    /// The template whose blocks seed the page and whose id it records as
    /// lineage.
    pub template_id: Option<PageId>,
    /// The template's blocks, in section and position order, cloned into
    /// the page's seed; empty for a blank page.
    pub seed: Vec<TemplateBlock>,
}

/// The ToC node that places a freshly created page.
#[derive(Debug, Clone, PartialEq, Eq)]
pub struct TocPlacement {
    pub title: String,
    pub page_kind: TocPageKind,
    pub visibility: Status,
    /// The parent's node, as resolved before anything was written; `None`
    /// places the page at the root.
    pub parent: Option<TreeId>,
}

/// Where a creation stands: what the supervisor is waiting for.
#[derive(Debug, Clone, Copy, PartialEq, Eq, Structural)]
pub enum CreateStage {
    /// The ToC's answer to the parent lookup.
    AwaitParent,
    /// Whether a page of the kind already has the name.
    AwaitName,
    /// The kind of the page named as template.
    AwaitTemplate,
    /// The template's blocks.
    AwaitTemplateBlocks,
    /// The owning actor's startup.
    AwaitGenesis,
    /// The committed rows, threaded back by the owning actor.
    AwaitRow,
    /// Nothing: the reply is decided.
    Done,
}

/// What the supervisor does next for a `CreatePage`.
#[derive(Debug, PartialEq, Eq)]
pub enum CreatePageStep {
    /// Ask the ToC for the parent's node.
    ResolveParent(PageId),
    /// Ask whether a page of this kind already carries this name.
    CheckName(PageKind, String),
    /// Read the kind of the page named as template.
    LoadTemplate(PageId),
    /// Read the template's blocks, to clone them into the seed.
    LoadTemplateBlocks(PageId),
    /// Spawn the owning page actor in genesis mode and wait for its startup.
    Spawn(PageGenesis),
    /// Link the new actor (already registered), add its ToC node (best
    /// effort), then wait for its committed row.
    Place(TocPlacement),
    /// Reply: the new page's committed row on `Ok`, or the error.
    Finished(Result<PageId, CreatePageError>),
}

/// One `CreatePage` in flight. Placement and naming are validated before
/// anything is written; the owning actor writes the page's rows.
pub struct CreatePageFlow {
    pub stage: CreateStage,
    /// The id minted for the new page.
    pub page_id: PageId,
    /// The trimmed name.
    pub name: String,
    pub kind: DocumentPageKind,
    pub status: Status,
    pub parent: Option<PageId>,
    /// The parent's node, once resolved.
    pub parent_node: Option<TreeId>,
    pub template: Option<PageId>,
}

impl CreatePageFlow {
    /// Take a request: an all-blank name fails at once; otherwise the parent
    /// is resolved first when one was asked for, else the name is checked.
    pub fn start(msg: CreatePage, page_id: PageId) -> (r: (CreatePageFlow, CreatePageStep))
        ensures
            r.0.page_id == page_id,
            r.0.parent_node is None,
            trimmed(msg.name@).len() == 0 ==> r.0.stage == CreateStage::Done
                && r.1 == CreatePageStep::Finished(Err(CreatePageError::EmptyName)),
            trimmed(msg.name@).len() > 0 ==> {
                &&& (r.0.name@, r.0.status) == requested_page(msg)
                &&& r.0.kind == msg.kind
                &&& r.0.parent == msg.parent
                &&& r.0.template == msg.from_template_id
                &&& match msg.parent {
                    Some(p) => r.0.stage == CreateStage::AwaitParent && r.1 == CreatePageStep::ResolveParent(p),
                    None => r.0.stage == CreateStage::AwaitName
                        && r.1 == CreatePageStep::CheckName(msg.kind.spec_page_kind(), r.0.name),
                }
            },
    {
        let name = match page_name(msg.name.as_str()) {
            None => {
                let flow = CreatePageFlow {
                    stage: CreateStage::Done,
                    page_id,
                    name: String::new(),
                    kind: msg.kind,
                    status: effective_status(msg.status),
                    parent: msg.parent,
                    parent_node: None,
                    template: msg.from_template_id,
                };
                return (flow, CreatePageStep::Finished(Err(CreatePageError::EmptyName)));
            }
            Some(n) => n,
        };
        let mut flow = CreatePageFlow {
            stage: CreateStage::AwaitName,
            page_id,
            name,
            kind: msg.kind,
            status: effective_status(msg.status),
            parent: msg.parent,
            parent_node: None,
            template: msg.from_template_id,
        };
        match msg.parent {
            Some(p) => {
                flow.stage = CreateStage::AwaitParent;
                (flow, CreatePageStep::ResolveParent(p))
            }
            None => {
                let step = CreatePageStep::CheckName(msg.kind.page_kind(), flow.name.clone());
                (flow, step)
            }
        }
    }

    fn fail(&mut self, e: CreatePageError) -> (r: CreatePageStep)
        ensures
            *final(self) == (CreatePageFlow { stage: CreateStage::Done, ..*old(self) }),
            r == CreatePageStep::Finished(Err(e)),
    {
        self.stage = CreateStage::Done;
        CreatePageStep::Finished(Err(e))
    }

    /// The ToC answered the parent lookup: a found parent moves on to the
    /// name check; a missing parent or an unavailable ToC fails.
    pub fn parent_resolved(&mut self, lookup: ParentLookup) -> (r: CreatePageStep)
        requires
            old(self).stage == CreateStage::AwaitParent,
        ensures
            final(self).page_id == old(self).page_id,
            final(self).name == old(self).name,
            final(self).parent == old(self).parent,
            final(self).template == old(self).template,
            final(self).kind == old(self).kind,
            final(self).status == old(self).status,
            match lookup {
                ParentLookup::Found(t) => final(self).stage == CreateStage::AwaitName
                    && final(self).parent_node == Some(t)
                    && r == CreatePageStep::CheckName(old(self).kind.spec_page_kind(), old(self).name),
                ParentLookup::NotFound => final(self).stage == CreateStage::Done
                    && r == CreatePageStep::Finished(Err(CreatePageError::ParentNotFound)),
                ParentLookup::Unavailable => final(self).stage == CreateStage::Done
                    && r == CreatePageStep::Finished(Err(CreatePageError::ActorUnavailable)),
            },
    {
        match lookup {
            ParentLookup::Found(t) => {
                self.stage = CreateStage::AwaitName;
                self.parent_node = Some(t);
                CreatePageStep::CheckName(self.kind.page_kind(), self.name.clone())
            }
            ParentLookup::NotFound => self.fail(CreatePageError::ParentNotFound),
            ParentLookup::Unavailable => self.fail(CreatePageError::ActorUnavailable),
        }
    }

    /// The name check answered (`Ok(taken)`, or the database's error text):
    /// a taken name or a failed read fails; a free name goes on to the
    /// template, when one was named, or straight to genesis.
    pub fn name_checked(&mut self, taken: Result<bool, String>) -> (r: CreatePageStep)
        requires
            old(self).stage == CreateStage::AwaitName,
        ensures
            final(self).page_id == old(self).page_id,
            final(self).name == old(self).name,
            final(self).parent == old(self).parent,
            final(self).parent_node == old(self).parent_node,
            final(self).template == old(self).template,
            final(self).kind == old(self).kind,
            final(self).status == old(self).status,
            match taken {
                Err(e) => final(self).stage == CreateStage::Done
                    && r == CreatePageStep::Finished(Err(CreatePageError::Db(e))),
                Ok(true) => final(self).stage == CreateStage::Done
                    && r == CreatePageStep::Finished(Err(CreatePageError::NameTaken(old(self).kind.spec_page_kind(), old(self).name))),
                Ok(false) => match old(self).template {
                    Some(t) => final(self).stage == CreateStage::AwaitTemplate && r == CreatePageStep::LoadTemplate(t),
                    None => final(self).stage == CreateStage::AwaitGenesis
                        && (r matches CreatePageStep::Spawn(g) && old(self).is_genesis(g, Seq::empty())),
                },
            },
    {
        match taken {
            Err(e) => self.fail(CreatePageError::Db(e)),
            Ok(true) => {
                let kind = self.kind.page_kind();
                let name = self.name.clone();
                self.fail(CreatePageError::NameTaken(kind, name))
            }
            Ok(false) => match self.template {
                Some(t) => {
                    self.stage = CreateStage::AwaitTemplate;
                    CreatePageStep::LoadTemplate(t)
                }
                None => {
                    self.stage = CreateStage::AwaitGenesis;
                    CreatePageStep::Spawn(self.make_genesis(Vec::new()))
                }
            },
        }
    }

    /// The page named as template was read (`Ok(kind)` of the page found,
    /// if any, or the database's error text): only a template page goes on,
    /// to reading its blocks.
    pub fn template_loaded(&mut self, found: Result<Option<PageKind>, String>) -> (r: CreatePageStep)
        requires
            old(self).stage == CreateStage::AwaitTemplate,
            old(self).template is Some,
        ensures
            final(self).page_id == old(self).page_id,
            final(self).name == old(self).name,
            final(self).parent == old(self).parent,
            final(self).parent_node == old(self).parent_node,
            final(self).template == old(self).template,
            final(self).kind == old(self).kind,
            final(self).status == old(self).status,
            match found {
                Err(e) => final(self).stage == CreateStage::Done
                    && r == CreatePageStep::Finished(Err(CreatePageError::Db(e))),
                Ok(k) => if k == Some(PageKind::Template) {
                    final(self).stage == CreateStage::AwaitTemplateBlocks
                        && r == CreatePageStep::LoadTemplateBlocks(old(self).template.unwrap())
                } else {
                    final(self).stage == CreateStage::Done
                        && r == CreatePageStep::Finished(Err(CreatePageError::InvalidTemplate))
                },
            },
    {
        match found {
            Err(e) => self.fail(CreatePageError::Db(e)),
            Ok(k) => match template_source(k) {
                Ok(()) => {
                    self.stage = CreateStage::AwaitTemplateBlocks;
                    CreatePageStep::LoadTemplateBlocks(self.template.unwrap())
                }
                Err(e) => self.fail(e),
            },
        }
    }

    /// The template's blocks were read, in section and position order (or
    /// the read failed with the given text): on success the page is spawned
    /// with them as its seed and the template as lineage.
    pub fn template_blocks_loaded(&mut self, read: Result<Vec<TemplateBlock>, String>) -> (r: CreatePageStep)
        requires
            old(self).stage == CreateStage::AwaitTemplateBlocks,
        ensures
            final(self).page_id == old(self).page_id,
            final(self).name == old(self).name,
            final(self).parent == old(self).parent,
            final(self).parent_node == old(self).parent_node,
            final(self).template == old(self).template,
            final(self).kind == old(self).kind,
            final(self).status == old(self).status,
            match read {
                Err(e) => final(self).stage == CreateStage::Done
                    && r == CreatePageStep::Finished(Err(CreatePageError::Db(e))),
                Ok(blocks) => final(self).stage == CreateStage::AwaitGenesis
                    && (r matches CreatePageStep::Spawn(g) && old(self).is_genesis(g, blocks@)),
            },
    {
        match read {
            Err(e) => self.fail(CreatePageError::Db(e)),
            Ok(blocks) => {
                self.stage = CreateStage::AwaitGenesis;
                CreatePageStep::Spawn(self.make_genesis(blocks))
            }
        }
    }

    /// `g` is the genesis this flow spawns the page with, seeded with `seed`.
    pub open spec fn is_genesis(self, g: PageGenesis, seed: Seq<TemplateBlock>) -> bool {
        &&& g.page_id == self.page_id
        &&& g.name == self.name
        &&& g.kind == self.kind
        &&& g.status == self.status
        &&& g.template_id == self.template
        &&& g.seed@ == seed
    }

    /// The ToC node this flow places the page with.
    pub open spec fn placement(self) -> TocPlacement {
        TocPlacement {
            title: self.name,
            page_kind: self.kind.spec_toc_page_kind(),
            visibility: self.status,
            parent: self.parent_node,
        }
    }

    fn make_genesis(&self, seed: Vec<TemplateBlock>) -> (g: PageGenesis)
        ensures
            self.is_genesis(g, seed@),
    {
        PageGenesis {
            page_id: self.page_id,
            name: self.name.clone(),
            kind: self.kind,
            status: self.status,
            template_id: self.template,
            seed,
        }
    }

    /// The owning actor's startup finished: a dead actor fails the
    /// creation; a live one, `actor`, is registered as the new page's room
    /// and the page is placed in the ToC.
    pub fn genesis_started(&mut self, alive: bool, rooms: &mut PageRooms, actor: ActorKey) -> (r: CreatePageStep)
        requires
            old(self).stage == CreateStage::AwaitGenesis,
        ensures
            final(rooms).rooms() == (if alive {
                old(rooms).rooms().insert(old(self).page_id.0, actor)
            } else {
                old(rooms).rooms()
            }),
            final(self).page_id == old(self).page_id,
            final(self).name == old(self).name,
            final(self).parent == old(self).parent,
            final(self).parent_node == old(self).parent_node,
            final(self).template == old(self).template,
            final(self).kind == old(self).kind,
            final(self).status == old(self).status,
            alive ==> final(self).stage == CreateStage::AwaitRow && r == CreatePageStep::Place(old(self).placement()),
            !alive ==> final(self).stage == CreateStage::Done
                && r == CreatePageStep::Finished(Err(CreatePageError::Genesis)),
    {
        if alive {
            rooms.insert(self.page_id, actor);
            self.stage = CreateStage::AwaitRow;
            CreatePageStep::Place(TocPlacement {
                title: self.name.clone(),
                page_kind: self.kind.toc_page_kind(),
                visibility: self.status,
                parent: self.parent_node,
            })
        } else {
            self.fail(CreatePageError::Genesis)
        }
    }

    /// The owning actor's committed row for the new page arrived (`true`)
    /// or its channel
    /// closed without one (`false`).
    pub fn row_received(&mut self, arrived: bool) -> (r: CreatePageStep)
        requires
            old(self).stage == CreateStage::AwaitRow,
        ensures
            final(self).page_id == old(self).page_id,
            final(self).stage == CreateStage::Done,
            r == (if arrived {
                CreatePageStep::Finished(Ok(old(self).page_id))
            } else {
                CreatePageStep::Finished(Err(CreatePageError::Genesis))
            }),
    {
        self.stage = CreateStage::Done;
        if arrived {
            CreatePageStep::Finished(Ok(self.page_id))
        } else {
            CreatePageStep::Finished(Err(CreatePageError::Genesis))
        }
    }
}

/// What the supervisor does next for a `CreateSession`.
#[derive(Debug, PartialEq, Eq)]
pub enum CreateSessionStep {
    /// Ask the ToC for the parent's node.
    ResolveParent(PageId),
    /// Ask whether a session page already carries this name.
    CheckName(PageKind, String),
    /// Spawn the owning page actor in session-genesis mode (the page and its
    /// temporal row are written together) and wait for its startup.
    Spawn { page_id: PageId, name: String, status: Status },
    /// Link the new actor (already registered), then wait for its committed
    /// rows.
    AwaitRows,
    /// Add the session's ToC node (best effort), then reply with the rows.
    Place(TocPlacement),
    /// Reply with the error.
    Failed(CreateSessionError),
}

/// One `CreateSession` in flight, validated like a page before anything is
/// written. Its ToC node is placed only once the genesis has assigned the
/// session's ordinal.
pub struct CreateSessionFlow {
    pub stage: CreateStage,
    /// The id minted for the session's page.
    pub page_id: PageId,
    /// The trimmed name.
    pub name: String,
    pub status: Status,
    pub parent: Option<PageId>,
    /// The parent's node, once resolved.
    pub parent_node: Option<TreeId>,
}

impl CreateSessionFlow {
    /// Take a request: an all-blank name fails at once; otherwise the parent
    /// is resolved first when one was asked for, else the name is checked.
    pub fn start(msg: CreateSession, page_id: PageId) -> (r: (CreateSessionFlow, CreateSessionStep))
        ensures
            r.0.page_id == page_id,
            r.0.parent_node is None,
            trimmed(msg.name@).len() == 0 ==> r.0.stage == CreateStage::Done
                && r.1 == CreateSessionStep::Failed(CreateSessionError::EmptyName),
            trimmed(msg.name@).len() > 0 ==> {
                &&& r.0.name@ == trimmed(msg.name@)
                &&& r.0.status == (match msg.status { Some(v) => v, None => Status::GmOnly })
                &&& r.0.parent == msg.parent
                &&& match msg.parent {
                    Some(p) => r.0.stage == CreateStage::AwaitParent && r.1 == CreateSessionStep::ResolveParent(p),
                    None => r.0.stage == CreateStage::AwaitName
                        && r.1 == CreateSessionStep::CheckName(PageKind::Session, r.0.name),
                }
            },
    {
        let status = effective_status(msg.status);
        let name = match page_name(msg.name.as_str()) {
            None => {
                let flow = CreateSessionFlow { stage: CreateStage::Done, page_id, name: String::new(), status, parent: msg.parent, parent_node: None };
                return (flow, CreateSessionStep::Failed(CreateSessionError::EmptyName));
            }
            Some(n) => n,
        };
        match msg.parent {
            Some(p) => (CreateSessionFlow { stage: CreateStage::AwaitParent, page_id, name, status, parent: msg.parent, parent_node: None }, CreateSessionStep::ResolveParent(p)),
            None => {
                let step = CreateSessionStep::CheckName(PageKind::Session, name.clone());
                (CreateSessionFlow { stage: CreateStage::AwaitName, page_id, name, status, parent: None, parent_node: None }, step)
            }
        }
    }

    fn fail(&mut self, e: CreateSessionError) -> (r: CreateSessionStep)
        ensures
            *final(self) == (CreateSessionFlow { stage: CreateStage::Done, ..*old(self) }),
            r == CreateSessionStep::Failed(e),
    {
        self.stage = CreateStage::Done;
        CreateSessionStep::Failed(e)
    }

    /// The ToC answered the parent lookup.
    pub fn parent_resolved(&mut self, lookup: ParentLookup) -> (r: CreateSessionStep)
        requires
            old(self).stage == CreateStage::AwaitParent,
        ensures
            final(self).page_id == old(self).page_id,
            final(self).name == old(self).name,
            final(self).status == old(self).status,
            final(self).parent == old(self).parent,
            match lookup {
                ParentLookup::Found(t) => final(self).stage == CreateStage::AwaitName
                    && final(self).parent_node == Some(t)
                    && r == CreateSessionStep::CheckName(PageKind::Session, old(self).name),
                ParentLookup::NotFound => final(self).stage == CreateStage::Done
                    && r == CreateSessionStep::Failed(CreateSessionError::ParentNotFound),
                ParentLookup::Unavailable => final(self).stage == CreateStage::Done
                    && r == CreateSessionStep::Failed(CreateSessionError::ActorUnavailable),
            },
    {
        match lookup {
            ParentLookup::Found(t) => {
                self.stage = CreateStage::AwaitName;
                self.parent_node = Some(t);
                CreateSessionStep::CheckName(PageKind::Session, self.name.clone())
            }
            ParentLookup::NotFound => self.fail(CreateSessionError::ParentNotFound),
            ParentLookup::Unavailable => self.fail(CreateSessionError::ActorUnavailable),
        }
    }

    /// The name check answered (`Ok(taken)`, or the database's error text).
    pub fn name_checked(&mut self, taken: Result<bool, String>) -> (r: CreateSessionStep)
        requires
            old(self).stage == CreateStage::AwaitName,
        ensures
            final(self).page_id == old(self).page_id,
            final(self).name == old(self).name,
            final(self).status == old(self).status,
            final(self).parent == old(self).parent,
            final(self).parent_node == old(self).parent_node,
            match taken {
                Err(e) => final(self).stage == CreateStage::Done
                    && r == CreateSessionStep::Failed(CreateSessionError::Db(e)),
                Ok(true) => final(self).stage == CreateStage::Done
                    && r == CreateSessionStep::Failed(CreateSessionError::NameTaken(PageKind::Session, old(self).name)),
                Ok(false) => final(self).stage == CreateStage::AwaitGenesis
                    && r == (CreateSessionStep::Spawn { page_id: old(self).page_id, name: old(self).name, status: old(self).status }),
            },
    {
        match taken {
            Err(e) => self.fail(CreateSessionError::Db(e)),
            Ok(true) => {
                let name = self.name.clone();
                self.fail(CreateSessionError::NameTaken(PageKind::Session, name))
            }
            Ok(false) => {
                self.stage = CreateStage::AwaitGenesis;
                CreateSessionStep::Spawn { page_id: self.page_id, name: self.name.clone(), status: self.status }
            }
        }
    }

    /// The owning actor's startup finished: a dead actor fails the
    /// creation; a live one, `actor`, is registered as the session page's
    /// room.
    pub fn genesis_started(&mut self, alive: bool, rooms: &mut PageRooms, actor: ActorKey) -> (r: CreateSessionStep)
        requires
            old(self).stage == CreateStage::AwaitGenesis,
        ensures
            final(rooms).rooms() == (if alive {
                old(rooms).rooms().insert(old(self).page_id.0, actor)
            } else {
                old(rooms).rooms()
            }),
            final(self).page_id == old(self).page_id,
            final(self).name == old(self).name,
            final(self).status == old(self).status,
            final(self).parent == old(self).parent,
            final(self).parent_node == old(self).parent_node,
            alive ==> final(self).stage == CreateStage::AwaitRow && r == CreateSessionStep::AwaitRows,
            !alive ==> final(self).stage == CreateStage::Done
                && r == CreateSessionStep::Failed(CreateSessionError::Genesis),
    {
        if alive {
            rooms.insert(self.page_id, actor);
            self.stage = CreateStage::AwaitRow;
            CreateSessionStep::AwaitRows
        } else {
            self.fail(CreateSessionError::Genesis)
        }
    }

    /// The committed rows arrived, carrying the ordinal the genesis
    /// assigned, or the channel closed without them (`None`).
    pub fn rows_received(&mut self, ordinal: Option<i64>) -> (r: CreateSessionStep)
        requires
            old(self).stage == CreateStage::AwaitRow,
        ensures
            final(self).page_id == old(self).page_id,
            final(self).stage == CreateStage::Done,
            r == (match ordinal {
                Some(o) => CreateSessionStep::Place(TocPlacement {
                    title: old(self).name,
                    page_kind: TocPageKind::Session { ordinal: o },
                    visibility: old(self).status,
                    parent: old(self).parent_node,
                }),
                None => CreateSessionStep::Failed(CreateSessionError::Genesis),
            }),
    {
        self.stage = CreateStage::Done;
        match ordinal {
            Some(o) => CreateSessionStep::Place(TocPlacement {
                title: self.name.clone(),
                page_kind: TocPageKind::Session { ordinal: o },
                visibility: self.status,
                parent: self.parent_node,
            }),
            None => CreateSessionStep::Failed(CreateSessionError::Genesis),
        }
    }
}

/// Answer a request forwarded to another actor: its reply, the handler's
/// own error, or `unavailable` when no reply came.
pub fn reply_or_unavailable<T, E>(r: Result<T, SendFailure<E>>, unavailable: E) -> (out: Result<T, E>)
    ensures
        out == (match r {
            Ok(v) => Ok::<T, E>(v),
            Err(SendFailure::HandlerError(e)) => Err::<T, E>(e),
            Err(_) => Err::<T, E>(unavailable),
        }),
{
    match r {
        Ok(v) => Ok(v),
        Err(SendFailure::HandlerError(e)) => Err(e),
        Err(_) => Err(unavailable),
    }
}

/// A template compiled from a game system's bundle: its page name and
/// seeded blocks.
#[derive(Debug, Clone, PartialEq, Eq)]
pub struct CompiledTemplate {
    pub name: String,
    pub blocks: Vec<crate::database_writer::NewBlock>,
}

/// Seed a game system's template bundle: one template page per compiled
/// template, nested under a fresh ToC folder.
#[derive(Debug, Clone, PartialEq, Eq)]
pub struct SeedTemplateBundle {
    pub folder_title: String,
    pub templates: Vec<CompiledTemplate>,
}

/// The ToC children of a seeded bundle: each template page whose genesis
/// succeeded, in order, as a GM-only template node.
pub fn bundle_children(placed: Vec<(PageId, String)>) -> (children: Vec<crate::toc_room::SeedTocChild>)
    ensures
        children@.len() == placed@.len(),
        forall|k: int| 0 <= k < placed@.len() ==> {
            let c = #[trigger] children@[k];
            &&& c.page_id == placed@[k].0
            &&& c.title == placed@[k].1
            &&& c.page_kind == TocPageKind::Template
            &&& c.visibility == Status::GmOnly
        },
{
    let ghost all = placed@;
    let n = placed.len();
    let mut rest = placed;
    let mut out: Vec<crate::toc_room::SeedTocChild> = Vec::new();
    let mut i: usize = 0;
    while i < n
        invariant
            n == all.len(),
            0 <= i <= n,
            rest@ == all.subrange(i as int, n as int),
            out@.len() == i,
            forall|k: int| 0 <= k < i ==> {
                let c = #[trigger] out@[k];
                &&& c.page_id == all[k].0
                &&& c.title == all[k].1
                &&& c.page_kind == TocPageKind::Template
                &&& c.visibility == Status::GmOnly
            },
        decreases n - i,
    {
        let (page_id, title) = rest.remove(0);
        proof {
            assert((page_id, title) == all[i as int]);
        }
        out.push(crate::toc_room::SeedTocChild { page_id, title, page_kind: TocPageKind::Template, visibility: Status::GmOnly });
        i = i + 1;
    }
    out
}

/// The session list the pickers read: every session as `(id, ordinal)`,
/// ascending by ordinal.
#[derive(Debug, Clone, Copy, PartialEq, Eq)]
pub struct ListSessions;

/// Entity-page name matches for the object typeahead.
#[derive(Debug, Clone, PartialEq, Eq)]
pub struct SearchEntities {
    pub query: String,
    pub limit: u64,
}

} // verus!
