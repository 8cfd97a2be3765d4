//! The shard's routing table and the registry's checkout state machine.
//!
//! The registry maps each checked-out campaign to a [`CampaignState`]. Its
//! actor is the only writer of the table: every mutation is one of the
//! transitions below, and each transition returns what the actor must do
//! next (spawn a supervisor, stop one, signal a drain's caller). Supervisors
//! and relationship graphs are named here by the key the actor system gives
//! a running actor.
use std::collections::HashMap;
use vstd::prelude::*;
use vstd::std_specs::iter::IteratorSpec;

use crate::ids::CampaignId;

verus! {

broadcast use vstd::std_specs::hash::group_hash_axioms;

/// The key by which the actor system names a running actor.
pub type ActorKey = u64;

/// The actors a route needs to reach a checked-out campaign: its supervisor
/// and its relationship graph.
#[derive(Debug, Clone, Copy, PartialEq, Eq, Structural)]
pub struct CampaignHandle {
    pub supervisor: ActorKey,
    pub graph: ActorKey,
}

/// One campaign's slot in the routing table.
#[derive(Debug, Clone, Copy, PartialEq, Eq, Structural)]
pub enum CampaignState {
    /// Checkout in flight.
    Loading { supervisor: ActorKey },
    /// Live and serving.
    Ready(CampaignHandle),
    /// Being torn down; reads are refused until the supervisor's death
    /// removes the entry.
    Draining { supervisor: ActorKey },
}

/// The supervisor backing a slot, in any state.
pub open spec fn backing_supervisor(st: CampaignState) -> ActorKey {
    match st {
        CampaignState::Loading { supervisor } => supervisor,
        CampaignState::Ready(h) => h.supervisor,
        CampaignState::Draining { supervisor } => supervisor,
    }
}

impl CampaignState {
    /// The supervisor backing this slot, in any state.
    pub fn supervisor(&self) -> (s: ActorKey)
        ensures
            s == backing_supervisor(*self),
    {
        match self {
            CampaignState::Loading { supervisor } => *supervisor,
            CampaignState::Ready(h) => h.supervisor,
            CampaignState::Draining { supervisor } => *supervisor,
        }
    }
}

/// What an awaiter of an in-flight checkout reads: still pending, or the
/// terminal result the load published.
#[derive(Debug, Clone, Copy, PartialEq, Eq, Structural)]
pub enum LoadOutcome {
    Pending,
    Ready(CampaignHandle),
    Failed,
}

/// Whether the registry still accepts checkouts.
#[derive(Debug, Clone, Copy, PartialEq, Eq, Structural)]
pub enum Phase {
    Ready,
    Draining,
}

/// Ask the registry for its phase.
#[derive(Debug, Clone, Copy, PartialEq, Eq)]
pub struct GetPhase;

/// Ask the registry for the campaigns in its table.
#[derive(Debug, Clone, Copy, PartialEq, Eq)]
pub struct ListLoaded;

/// Why a checkout was refused.
#[derive(Debug, Clone, Copy, PartialEq, Eq, Structural)]
pub enum EnsureError {
    /// The shard is draining, or this campaign is being torn down here.
    ShuttingDown,
    /// The supervisor died before it could answer.
    SupervisorDied,
}

/// Why a routing-table entry did not yield a live handle.
#[derive(Debug, Clone, Copy, PartialEq, Eq, Structural)]
pub enum ResolveError {
    NotLoaded,
    Draining,
    LoadFailed,
    StillLoading,
}

/// What a checkout request leads to.
#[derive(Debug, Clone, Copy, PartialEq, Eq, Structural)]
pub enum EnsureStep {
    /// The campaign is already loading or live: hand back its slot.
    Existing(CampaignState),
    /// Nothing is checked out: spawn and link a supervisor, then call
    /// [`CampaignRegistry::start_load`] with its key.
    StartLoad,
}

/// How a wait on an in-flight load ended.
#[derive(Debug, Clone, Copy, PartialEq, Eq, Structural)]
pub enum LoadWait {
    /// The load published a terminal (or, impossibly, a pending) outcome.
    Published(LoadOutcome),
    /// The publishing side went away without a terminal outcome.
    SenderGone,
    /// The wait ran out of time.
    TimedOut,
}

/// What resolving a slot needs next.
#[derive(Debug, Clone, Copy)]
pub enum Resolution {
    /// Settled without waiting.
    Done(Result<CampaignHandle, ResolveError>),
    /// The slot is loading: wait (bounded) on its outcome, then call
    /// [`resolve_waited`].
    AwaitLoad { supervisor: ActorKey },
}

/// Resolve a routing-table entry: a missing entry is not loaded, a ready
/// one yields its handle, a draining one is refused, and a loading one must
/// be waited on.
pub fn resolve(state: Option<CampaignState>) -> (r: Resolution)
    ensures
        match state {
            None => r == Resolution::Done(Err(ResolveError::NotLoaded)),
            Some(CampaignState::Ready(h)) => r == Resolution::Done(Ok(h)),
            Some(CampaignState::Draining { .. }) => r == Resolution::Done(Err(ResolveError::Draining)),
            Some(CampaignState::Loading { supervisor }) => r == (Resolution::AwaitLoad { supervisor }),
        },
{
    match state {
        None => Resolution::Done(Err(ResolveError::NotLoaded)),
        Some(CampaignState::Ready(h)) => Resolution::Done(Ok(h)),
        Some(CampaignState::Draining { .. }) => Resolution::Done(Err(ResolveError::Draining)),
        Some(CampaignState::Loading { supervisor }) => Resolution::AwaitLoad { supervisor },
    }
}

/// Settle a wait on a loading slot: a published handle is the answer; a
/// failure, a vanished publisher or a pending value is a failed load; a
/// timeout means the campaign is still loading.
pub fn resolve_waited(waited: LoadWait) -> (r: Result<CampaignHandle, ResolveError>)
    ensures
        match waited {
            LoadWait::Published(LoadOutcome::Ready(h)) => r == Ok::<CampaignHandle, ResolveError>(h),
            LoadWait::TimedOut => r == Err::<CampaignHandle, ResolveError>(ResolveError::StillLoading),
            _ => r == Err::<CampaignHandle, ResolveError>(ResolveError::LoadFailed),
        },
{
    match waited {
        LoadWait::Published(LoadOutcome::Ready(h)) => Ok(h),
        LoadWait::Published(_) => Err(ResolveError::LoadFailed),
        LoadWait::SenderGone => Err(ResolveError::LoadFailed),
        LoadWait::TimedOut => Err(ResolveError::StillLoading),
    }
}

/// The handle a checkout ends with: the supervisor and its graph when the
/// supervisor survived startup and named its graph, nothing otherwise.
pub open spec fn loaded_handle(supervisor: ActorKey, alive_after_startup: bool, graph: Option<ActorKey>) -> Option<CampaignHandle> {
    if alive_after_startup && graph is Some {
        Some(CampaignHandle { supervisor, graph: graph.unwrap() })
    } else {
        None
    }
}

/// The result of driving a checkout to its end: a handle when the
/// supervisor survived startup and named its relationship graph, nothing
/// otherwise.
pub fn load_result(supervisor: ActorKey, alive_after_startup: bool, graph: Option<ActorKey>) -> (r: Option<CampaignHandle>)
    ensures
        r == loaded_handle(supervisor, alive_after_startup, graph),
{
    if !alive_after_startup {
        return None;
    }
    match graph {
        Some(g) => Some(CampaignHandle { supervisor, graph: g }),
        None => None,
    }
}

/// What the load publishes to its awaiters for a given result.
pub fn published_outcome(result: Option<CampaignHandle>) -> (o: LoadOutcome)
    ensures
        o == (match result {
            Some(h) => LoadOutcome::Ready(h),
            None => LoadOutcome::Failed,
        }),
{
    match result {
        Some(h) => LoadOutcome::Ready(h),
        None => LoadOutcome::Failed,
    }
}

/// The answer to a checkout request: a draining registry refuses every
/// checkout; a loading or live campaign hands back its slot; a campaign
/// being torn down here is refused; an unknown one must be loaded.
pub open spec fn checkout_decision(routes: Map<u128, CampaignState>, phase: Phase, campaign: u128) -> Result<EnsureStep, EnsureError> {
    if phase == Phase::Draining {
        Err(EnsureError::ShuttingDown)
    } else if !routes.contains_key(campaign) {
        Ok(EnsureStep::StartLoad)
    } else if routes[campaign] is Draining {
        Err(EnsureError::ShuttingDown)
    } else {
        Ok(EnsureStep::Existing(routes[campaign]))
    }
}

/// The table after a load backed by `sup` reports its result: only the
/// same in-flight checkout is settled, live on success and dropped on
/// failure.
pub open spec fn completed(routes: Map<u128, CampaignState>, campaign: u128, sup: ActorKey, result: Option<CampaignHandle>) -> Map<u128, CampaignState> {
    if routes.contains_key(campaign) && routes[campaign] == (CampaignState::Loading { supervisor: sup }) {
        match result {
            Some(h) => routes.insert(campaign, CampaignState::Ready(h)),
            None => routes.remove(campaign),
        }
    } else {
        routes
    }
}

/// The routing table with every entry marked draining, keys unchanged.
pub open spec fn all_draining(routes: Map<u128, CampaignState>) -> Map<u128, CampaignState> {
    Map::new(
        |k: u128| routes.contains_key(k),
        |k: u128| CampaignState::Draining { supervisor: backing_supervisor(routes[k]) },
    )
}

/// The routing table without the entries backed by `sup`.
pub open spec fn without_supervisor(routes: Map<u128, CampaignState>, sup: ActorKey) -> Map<u128, CampaignState> {
    Map::new(
        |k: u128| routes.contains_key(k) && backing_supervisor(routes[k]) != sup,
        |k: u128| routes[k],
    )
}

/// The routing table after releasing `campaign`: a live or loading slot
/// turns draining under the same supervisor; an unknown or already draining
/// campaign is left alone.
pub open spec fn released(routes: Map<u128, CampaignState>, campaign: u128) -> Map<u128, CampaignState> {
    if routes.contains_key(campaign) && !(routes[campaign] is Draining) {
        routes.insert(campaign, CampaignState::Draining { supervisor: backing_supervisor(routes[campaign]) })
    } else {
        routes
    }
}

/// Some slot of the table is backed by `sup`.
pub open spec fn backs_some_slot(routes: Map<u128, CampaignState>, sup: ActorKey) -> bool {
    exists|k: u128| #[trigger] routes.contains_key(k) && backing_supervisor(routes[k]) == sup
}

/// The registry's routing table and phase.
pub struct CampaignRegistry {
    table: HashMap<u128, CampaignState>,
    phase: Phase,
}

impl CampaignRegistry {
    /// The routing table, keyed by campaign id.
    pub closed spec fn routes(&self) -> Map<u128, CampaignState> {
        self.table@
    }

    /// The registry's phase.
    pub closed spec fn current_phase(&self) -> Phase {
        self.phase
    }

    /// An empty table, accepting checkouts.
    pub fn new() -> (r: CampaignRegistry)
        ensures
            r.routes() == Map::<u128, CampaignState>::empty(),
            r.current_phase() == Phase::Ready,
    {
        CampaignRegistry { table: HashMap::new(), phase: Phase::Ready }
    }

    /// The registry's phase.
    pub fn phase(&self) -> (p: Phase)
        ensures
            p == self.current_phase(),
    {
        self.phase
    }

    /// The slot of a campaign, if it has one.
    pub fn lookup(&self, campaign_id: CampaignId) -> (r: Option<CampaignState>)
        ensures
            r == (if self.routes().contains_key(campaign_id.0) {
                Some(self.routes()[campaign_id.0])
            } else {
                None
            }),
    {
        match self.table.get(&campaign_id.0) {
            Some(st) => Some(*st),
            None => None,
        }
    }

    /// Decide a checkout request. A draining registry refuses every
    /// checkout; a loading or live campaign hands back its slot; a campaign
    /// being torn down here is refused; an unknown one must be loaded.
    pub fn ensure(&self, campaign_id: CampaignId) -> (r: Result<EnsureStep, EnsureError>)
        ensures
            r == checkout_decision(self.routes(), self.current_phase(), campaign_id.0),
    {
        if self.phase == Phase::Draining {
            return Err(EnsureError::ShuttingDown);
        }
        match self.lookup(campaign_id) {
            Some(CampaignState::Draining { .. }) => Err(EnsureError::ShuttingDown),
            Some(existing) => Ok(EnsureStep::Existing(existing)),
            None => Ok(EnsureStep::StartLoad),
        }
    }

    /// Record a checkout in flight, backed by a freshly spawned supervisor.
    pub fn start_load(&mut self, campaign_id: CampaignId, supervisor: ActorKey) -> (st: CampaignState)
        ensures
            st == (CampaignState::Loading { supervisor }),
            final(self).routes() == old(self).routes().insert(campaign_id.0, st),
            final(self).current_phase() == old(self).current_phase(),
    {
        let st = CampaignState::Loading { supervisor };
        self.table.insert(campaign_id.0, st);
        st
    }

    /// A load reached its end. Only the same in-flight checkout is settled:
    /// a success makes the slot live, a failure drops it so a retry can
    /// check out again. A completion for any other slot (the supervisor
    /// already died and was removed, or another checkout replaced it) is
    /// ignored.
    pub fn load_complete(&mut self, campaign_id: CampaignId, supervisor: ActorKey, result: Option<CampaignHandle>)
        ensures
            final(self).current_phase() == old(self).current_phase(),
            final(self).routes() == completed(old(self).routes(), campaign_id.0, supervisor, result),
    {
        let still_ours = match self.table.get(&campaign_id.0) {
            Some(CampaignState::Loading { supervisor: s }) => *s == supervisor,
            _ => false,
        };
        if !still_ours {
            return;
        }
        match result {
            Some(h) => {
                self.table.insert(campaign_id.0, CampaignState::Ready(h));
            },
            None => {
                self.table.remove(&campaign_id.0);
            },
        }
    }

    /// Release one campaign. An unknown or already draining campaign is left
    /// alone (`None`); otherwise its slot is marked draining and the
    /// supervisor to stop is returned.
    pub fn release(&mut self, campaign_id: CampaignId) -> (r: Option<ActorKey>)
        ensures
            final(self).current_phase() == old(self).current_phase(),
            final(self).routes() == released(old(self).routes(), campaign_id.0),
            !old(self).routes().contains_key(campaign_id.0) || old(self).routes()[campaign_id.0] is Draining ==> {
                &&& r is None
                &&& final(self).routes() == old(self).routes()
            },
            old(self).routes().contains_key(campaign_id.0) && !(old(self).routes()[campaign_id.0] is Draining) ==> {
                let sup = backing_supervisor(old(self).routes()[campaign_id.0]);
                &&& r == Some(sup)
                &&& final(self).routes() == old(self).routes().insert(campaign_id.0, CampaignState::Draining { supervisor: sup })
            },
    {
        match self.lookup(campaign_id) {
            None => None,
            Some(CampaignState::Draining { .. }) => None,
            Some(st) => {
                let sup = st.supervisor();
                self.table.insert(campaign_id.0, CampaignState::Draining { supervisor: sup });
                Some(sup)
            },
        }
    }

    /// A linked supervisor died: drop every slot it backed. Returns whether
    /// any slot was dropped.
    pub fn link_died(&mut self, supervisor: ActorKey) -> (removed: bool)
        ensures
            final(self).current_phase() == old(self).current_phase(),
            final(self).routes() == without_supervisor(old(self).routes(), supervisor),
            removed == exists|k: u128| #[trigger] old(self).routes().contains_key(k)
                && backing_supervisor(old(self).routes()[k]) == supervisor,
    {
        let ghost routes0 = self.table@;
        let ghost ks = vstd::std_specs::hash::spec_keys_iter(&self.table).remaining();
        proof {
            crate::ids::lemma_keys_listed(ks, routes0.dom());
            assert(ks.len() == routes0.dom().len());
        }
        let mut doomed: Vec<u128> = Vec::new();
        for k in it: self.table.keys()
            invariant
                it.seq() == ks,
                routes0 == self.table@,
                forall|i: int| 0 <= i < ks.len() ==> routes0.contains_key(*#[trigger] ks[i]),
                forall|i: int| 0 <= i < doomed@.len() ==> {
                    &&& routes0.contains_key(#[trigger] doomed@[i])
                    &&& backing_supervisor(routes0[doomed@[i]]) == supervisor
                },
                forall|j: int| 0 <= j < it.index() && backing_supervisor(routes0[*ks[j]]) == supervisor
                    ==> exists|d: int| 0 <= d < doomed@.len() && doomed@[d] == *#[trigger] ks[j],
        {
            let ghost before = doomed@;
            proof {
                assert(*k == *ks[it.index()]);
            }
            let backed = self.table.get(k).unwrap().supervisor() == supervisor;
            if backed {
                doomed.push(*k);
            }
            proof {
                assert forall|d: int| 0 <= d < before.len() implies doomed@[d] == before[d] by {}
                if backed {
                    assert(doomed@[before.len() as int] == *k);
                }
            }
        }
        proof {
            assert forall|k: u128| routes0.contains_key(k) && backing_supervisor(routes0[k]) == supervisor
                implies doomed@.contains(k) by {
                let j = choose|j: int| 0 <= j < ks.len() && *ks[j] == k;
                assert(backing_supervisor(routes0[*ks[j]]) == supervisor);
                let d = choose|d: int| 0 <= d < doomed@.len() && doomed@[d] == *ks[j];
                assert(doomed@[d] == k);
            }
        }
        let n = doomed.len();
        crate::ids::remove_keys(&mut self.table, &doomed);
        proof {
            assert forall|k: u128| routes0.contains_key(k) && backing_supervisor(routes0[k]) == supervisor
                implies !self.table@.contains_key(k) by {
                let j = choose|j: int| 0 <= j < doomed@.len() && doomed@[j] == k;
                assert(!self.table@.contains_key(doomed@[j]));
            }
            assert(self.table@ =~= without_supervisor(routes0, supervisor));
            if n > 0 {
                assert(routes0.contains_key(doomed@[0]));
            }
            if exists|k: u128| #[trigger] routes0.contains_key(k) && backing_supervisor(routes0[k]) == supervisor {
                let k = choose|k: u128| #[trigger] routes0.contains_key(k) && backing_supervisor(routes0[k]) == supervisor;
                assert(doomed@.contains(k));
            }
        }
        n > 0
    }

    /// The campaigns in the table, each once; none while draining, when
    /// the campaigns are being stopped rather than offered.
    pub fn list_loaded(&self) -> (r: Vec<CampaignId>)
        ensures
            self.current_phase() == Phase::Draining ==> r@.len() == 0,
            self.current_phase() == Phase::Ready ==> {
                &&& r@.len() == self.routes().dom().len()
                &&& forall|i: int| 0 <= i < r@.len() ==> self.routes().contains_key(#[trigger] r@[i].0)
                &&& forall|k: u128| #[trigger] self.routes().contains_key(k) ==> exists|i: int| 0 <= i < r@.len() && r@[i].0 == k
                &&& forall|i: int, j: int| 0 <= i < j < r@.len() ==> #[trigger] r@[i] != #[trigger] r@[j]
            },
    {
        let mut out: Vec<CampaignId> = Vec::new();
        if self.phase == Phase::Draining {
            return out;
        }
        let ghost ks = vstd::std_specs::hash::spec_keys_iter(&self.table).remaining();
        proof {
            crate::ids::lemma_keys_listed(ks, self.table@.dom());
        }
        for k in it: self.table.keys()
            invariant
                it.seq() == ks,
                out@.len() == it.index(),
                forall|i: int| 0 <= i < out@.len() ==> (#[trigger] out@[i]).0 == *ks[i],
        {
            out.push(CampaignId(*k));
        }
        proof {
            assert forall|k: u128| #[trigger] self.routes().contains_key(k) implies exists|i: int| 0 <= i < out@.len() && out@[i].0 == k by {
                let j = choose|j: int| 0 <= j < ks.len() && *ks[j] == k;
                assert(out@[j].0 == k);
            }
            assert forall|i: int, j: int| 0 <= i < j < out@.len() implies #[trigger] out@[i] != #[trigger] out@[j] by {
                assert(ks.unref()[i] == out@[i].0);
                assert(ks.unref()[j] == out@[j].0);
            }
        }
        out
    }

    /// Begin draining the shard. Already draining: nothing changes and the
    /// caller is signalled at once (`None`). Otherwise the registry stops
    /// accepting checkouts, every slot is marked draining, and the
    /// campaigns with their supervisors are returned, each once, for the
    /// actor to stop.
    pub fn begin_drain(&mut self) -> (r: Option<Vec<(CampaignId, ActorKey)>>)
        ensures
            old(self).current_phase() == Phase::Draining ==> {
                &&& r is None
                &&& final(self).routes() == old(self).routes()
                &&& final(self).current_phase() == Phase::Draining
            },
            old(self).current_phase() == Phase::Ready ==> {
                &&& r is Some
                &&& final(self).current_phase() == Phase::Draining
                &&& final(self).routes() == all_draining(old(self).routes())
                &&& r.unwrap()@.len() == old(self).routes().dom().len()
                &&& forall|i: int| 0 <= i < r.unwrap()@.len() ==> {
                    let (c, s) = #[trigger] r.unwrap()@[i];
                    old(self).routes().contains_key(c.0) && s == backing_supervisor(old(self).routes()[c.0])
                }
                &&& forall|k: u128| #[trigger] old(self).routes().contains_key(k)
                    ==> exists|i: int| 0 <= i < r.unwrap()@.len() && r.unwrap()@[i].0.0 == k
            },
    {
        if self.phase == Phase::Draining {
            return None;
        }
        self.phase = Phase::Draining;
        let ghost routes0 = self.table@;
        let ghost ks = vstd::std_specs::hash::spec_keys_iter(&self.table).remaining();
        proof {
            crate::ids::lemma_keys_listed(ks, routes0.dom());
            assert(ks.len() == routes0.dom().len());
        }
        let mut snap: Vec<(CampaignId, ActorKey)> = Vec::new();
        for k in it: self.table.keys()
            invariant
                it.seq() == ks,
                routes0 == self.table@,
                forall|i: int| 0 <= i < ks.len() ==> routes0.contains_key(*#[trigger] ks[i]),
                snap@.len() == it.index(),
                forall|i: int| 0 <= i < snap@.len() ==> {
                    let (c, s) = #[trigger] snap@[i];
                    &&& c.0 == *ks[i]
                    &&& routes0.contains_key(c.0)
                    &&& s == backing_supervisor(routes0[c.0])
                },
        {
            proof {
                assert(*k == *ks[it.index()]);
            }
            let sup = self.table.get(k).unwrap().supervisor();
            snap.push((CampaignId(*k), sup));
        }
        let n = snap.len();
        let mut i: usize = 0;
        while i < n
            invariant
                self.phase == Phase::Draining,
                n == snap@.len(),
                0 <= i <= n,
                forall|j: int| 0 <= j < n ==> {
                    let (c, s) = #[trigger] snap@[j];
                    &&& routes0.contains_key(c.0)
                    &&& s == backing_supervisor(routes0[c.0])
                },
                self.table@.dom() == routes0.dom(),
                forall|k: u128| #[trigger] self.table@.contains_key(k) ==>
                    self.table@[k] == routes0[k] || self.table@[k] == (CampaignState::Draining { supervisor: backing_supervisor(routes0[k]) }),
                forall|j: int| 0 <= j < i ==> self.table@[(#[trigger] snap@[j]).0.0] == (CampaignState::Draining { supervisor: snap@[j].1 }),
            decreases n - i,
        {
            let (c, s) = snap[i];
            self.table.insert(c.0, CampaignState::Draining { supervisor: s });
            proof {
                assert(self.table@.dom() =~= routes0.dom());
            }
            i = i + 1;
        }
        proof {
            assert forall|k: u128| #[trigger] routes0.contains_key(k)
                implies exists|i: int| 0 <= i < snap@.len() && snap@[i].0.0 == k by {
                let j = choose|j: int| 0 <= j < ks.len() && *ks[j] == k;
                assert(snap@[j].0.0 == k);
            }
            assert forall|k: u128| #[trigger] self.table@.contains_key(k) implies
                self.table@[k] == (CampaignState::Draining { supervisor: backing_supervisor(routes0[k]) }) by {
                let j = choose|j: int| 0 <= j < snap@.len() && snap@[j].0.0 == k;
                assert(self.table@[snap@[j].0.0] == (CampaignState::Draining { supervisor: snap@[j].1 }));
            }
            assert(self.table@ =~= all_draining(routes0));
            assert(ks.unref().to_set().len() <= ks.len()) by {
                ks.unref().lemma_cardinality_of_set();
            }
        }
        Some(snap)
    }

    /// The registry is stopping without a drain: hand back every slot's
    /// supervisor, each slot once, for the actor to stop, and clear the
    /// table.
    pub fn stop_fallback(&mut self) -> (sups: Vec<ActorKey>)
        ensures
            final(self).routes() == Map::<u128, CampaignState>::empty(),
            final(self).current_phase() == old(self).current_phase(),
            sups@.len() == old(self).routes().dom().len(),
            forall|k: u128| #[trigger] old(self).routes().contains_key(k)
                ==> sups@.contains(backing_supervisor(old(self).routes()[k])),
            forall|i: int| 0 <= i < sups@.len() ==> backs_some_slot(old(self).routes(), #[trigger] sups@[i]),
    {
        let ghost routes0 = self.table@;
        let ghost ks = vstd::std_specs::hash::spec_keys_iter(&self.table).remaining();
        proof {
            crate::ids::lemma_keys_listed(ks, routes0.dom());
            assert(ks.len() == routes0.dom().len());
        }
        let mut sups: Vec<ActorKey> = Vec::new();
        for k in it: self.table.keys()
            invariant
                it.seq() == ks,
                routes0 == self.table@,
                forall|i: int| 0 <= i < ks.len() ==> routes0.contains_key(*#[trigger] ks[i]),
                sups@.len() == it.index(),
                forall|i: int| 0 <= i < sups@.len() ==> #[trigger] sups@[i] == backing_supervisor(routes0[*ks[i]]),
        {
            proof {
                assert(*k == *ks[it.index()]);
            }
            let sup = self.table.get(k).unwrap().supervisor();
            sups.push(sup);
        }
        proof {
            assert forall|k: u128| #[trigger] routes0.contains_key(k)
                implies sups@.contains(backing_supervisor(routes0[k])) by {
                let j = choose|j: int| 0 <= j < ks.len() && *ks[j] == k;
                assert(sups@[j] == backing_supervisor(routes0[k]));
            }
        }
        self.table.clear();
        proof {
            assert forall|i: int| 0 <= i < sups@.len() implies backs_some_slot(routes0, #[trigger] sups@[i]) by {
                assert(routes0.contains_key(*ks[i]));
            }
        }
        sups
    }
}

/// How long a drain waits for its supervisors to stop before killing them.
pub const DRAIN_DEADLINE_SECS: u64 = 600;

/// One drain in progress: the supervisors that `begin_drain` handed out, and
/// which of them have stopped. The drain task orders every supervisor to
/// stop, reports each one whose shutdown it observes, and, if the deadline
/// passes first, kills whatever the run says to kill.
pub struct DrainRun {
    supervisors: Vec<ActorKey>,
    stopped: Vec<bool>,
    exited: Ghost<Set<ActorKey>>,
}

impl DrainRun {
    /// The supervisors being drained, in the order they were ordered to stop.
    pub closed spec fn members(&self) -> Seq<ActorKey> {
        self.supervisors@
    }

    /// The supervisors whose shutdown has been observed.
    pub closed spec fn exited(&self) -> Set<ActorKey> {
        self.exited@
    }

    pub closed spec fn wf(&self) -> bool {
        &&& self.stopped@.len() == self.supervisors@.len()
        &&& forall|i: int| 0 <= i < self.supervisors@.len()
            ==> (#[trigger] self.stopped@[i] <==> self.exited@.contains(self.supervisors@[i]))
    }

    /// Every member has been seen to stop.
    pub open spec fn drained(&self) -> bool {
        forall|i: int| 0 <= i < self.members().len() ==> self.exited().contains(#[trigger] self.members()[i])
    }

    /// Start a drain over the snapshot `begin_drain` returned. The result's
    /// second part lists the supervisors, in snapshot order, each of which
    /// is told that the stop is a drain and then asked to stop.
    pub fn start(snapshot: &Vec<(CampaignId, ActorKey)>) -> (r: (DrainRun, Vec<ActorKey>))
        ensures
            r.0.wf(),
            r.1@.len() == snapshot@.len(),
            forall|i: int| 0 <= i < snapshot@.len() ==> #[trigger] r.1@[i] == snapshot@[i].1,
            r.0.members() == r.1@,
            r.0.exited() == Set::<ActorKey>::empty(),
    {
        let mut orders: Vec<ActorKey> = Vec::new();
        let mut stopped: Vec<bool> = Vec::new();
        let mut i: usize = 0;
        while i < snapshot.len()
            invariant
                0 <= i <= snapshot@.len(),
                orders@.len() == i,
                stopped@.len() == i,
                forall|j: int| 0 <= j < i ==> #[trigger] orders@[j] == snapshot@[j].1,
                forall|j: int| 0 <= j < i ==> !#[trigger] stopped@[j],
            decreases snapshot@.len() - i,
        {
            orders.push(snapshot[i].1);
            stopped.push(false);
            i = i + 1;
        }
        let run = DrainRun { supervisors: orders.clone(), stopped, exited: Ghost(Set::empty()) };
        proof {
            assert(run.supervisors@ =~= orders@);
        }
        (run, orders)
    }

    /// Record that `supervisor` has stopped.
    pub fn supervisor_exited(&mut self, supervisor: ActorKey)
        requires
            old(self).wf(),
        ensures
            final(self).wf(),
            final(self).members() == old(self).members(),
            final(self).exited() == old(self).exited().insert(supervisor),
    {
        let ghost before = self.exited@;
        let ghost members = self.supervisors@;
        let n = self.supervisors.len();
        let mut i: usize = 0;
        while i < n
            invariant
                n == self.supervisors@.len(),
                self.supervisors@ == members,
                self.stopped@.len() == n,
                0 <= i <= n,
                self.exited@ == before,
                forall|j: int| 0 <= j < n ==> {
                    let now = before.insert(supervisor).contains(self.supervisors@[j]);
                    if j < i { #[trigger] self.stopped@[j] == now } else { self.stopped@[j] == before.contains(self.supervisors@[j]) }
                },
            decreases n - i,
        {
            if self.supervisors[i] == supervisor {
                self.stopped.set(i, true);
            }
            i = i + 1;
        }
        self.exited = Ghost(before.insert(supervisor));
    }

    /// Whether every member has been seen to stop.
    pub fn is_drained(&self) -> (r: bool)
        requires
            self.wf(),
        ensures
            r == self.drained(),
    {
        let mut i: usize = 0;
        while i < self.stopped.len()
            invariant
                self.wf(),
                0 <= i <= self.stopped@.len(),
                forall|j: int| 0 <= j < i ==> self.exited().contains(#[trigger] self.members()[j]),
            decreases self.stopped@.len() - i,
        {
            if !self.stopped[i] {
                proof {
                    assert(!self.exited().contains(self.members()[i as int]));
                }
                return false;
            }
            i = i + 1;
        }
        true
    }

    /// The deadline has passed. If some member is still running, every
    /// member is to be killed; a drain that already finished kills nothing.
    pub fn deadline_passed(&self) -> (kill: Vec<ActorKey>)
        requires
            self.wf(),
        ensures
            self.drained() ==> kill@.len() == 0,
            !self.drained() ==> kill@ == self.members(),
    {
        if self.is_drained() {
            Vec::new()
        } else {
            self.supervisors.clone()
        }
    }
}

/// Checkout coalesces: once a campaign has a loading slot, every later
/// checkout hands back that same slot instead of loading again, and once
/// the load succeeds, every checkout hands back the live slot of the same
/// supervisor.
pub proof fn law_checkout_coalesces(routes: Map<u128, CampaignState>, campaign: u128, sup: ActorKey, graph: ActorKey)
    ensures
        ({
            let loading = routes.insert(campaign, CampaignState::Loading { supervisor: sup });
            let live = completed(loading, campaign, sup, loaded_handle(sup, true, Some(graph)));
            &&& checkout_decision(loading, Phase::Ready, campaign)
                == Ok::<EnsureStep, EnsureError>(EnsureStep::Existing(CampaignState::Loading { supervisor: sup }))
            &&& checkout_decision(live, Phase::Ready, campaign)
                == Ok::<EnsureStep, EnsureError>(EnsureStep::Existing(CampaignState::Ready(CampaignHandle { supervisor: sup, graph })))
        }),
{
}

/// A failed load frees the campaign: the next checkout loads it again.
pub proof fn law_failed_load_allows_retry(routes: Map<u128, CampaignState>, campaign: u128, sup: ActorKey, graph: Option<ActorKey>)
    ensures
        ({
            let loading = routes.insert(campaign, CampaignState::Loading { supervisor: sup });
            checkout_decision(completed(loading, campaign, sup, loaded_handle(sup, false, graph)), Phase::Ready, campaign)
                == Ok::<EnsureStep, EnsureError>(EnsureStep::StartLoad)
        }),
{
    let loading = routes.insert(campaign, CampaignState::Loading { supervisor: sup });
    assert(!completed(loading, campaign, sup, None).contains_key(campaign));
}

/// A load cannot resurrect a dead supervisor: when the supervisor dies
/// while its campaign is loading, the late completion leaves the campaign
/// without a slot.
pub proof fn law_death_beats_late_completion(routes: Map<u128, CampaignState>, campaign: u128, sup: ActorKey, result: Option<CampaignHandle>)
    ensures
        ({
            let loading = routes.insert(campaign, CampaignState::Loading { supervisor: sup });
            !completed(without_supervisor(loading, sup), campaign, sup, result).contains_key(campaign)
        }),
{
}

/// A drain refuses everything: once it began, every checkout is refused,
/// and every slot is draining, so no read resolves to a live handle.
pub proof fn law_drain_refuses(routes: Map<u128, CampaignState>, campaign: u128)
    ensures
        checkout_decision(all_draining(routes), Phase::Draining, campaign) == Err::<EnsureStep, EnsureError>(EnsureError::ShuttingDown),
        all_draining(routes).contains_key(campaign) ==> all_draining(routes)[campaign] is Draining,
        all_draining(routes).dom() == routes.dom(),
{
    assert(all_draining(routes).dom() =~= routes.dom());
}

/// Releasing a live campaign refuses further checkouts of it on this
/// shard, and the death of its supervisor then removes the slot.
pub proof fn law_release_then_death_removes(routes: Map<u128, CampaignState>, campaign: u128)
    requires
        routes.contains_key(campaign),
        !(routes[campaign] is Draining),
    ensures
        ({
            let sup = backing_supervisor(routes[campaign]);
            let released = routes.insert(campaign, CampaignState::Draining { supervisor: sup });
            &&& checkout_decision(released, Phase::Ready, campaign) == Err::<EnsureStep, EnsureError>(EnsureError::ShuttingDown)
            &&& !without_supervisor(released, sup).contains_key(campaign)
        }),
{
}

/// A supervisor's death drops exactly the slots it backed and leaves every
/// other slot as it was.
pub proof fn law_death_drops_only_its_slots(routes: Map<u128, CampaignState>, sup: ActorKey)
    ensures
        forall|k: u128| #[trigger] without_supervisor(routes, sup).contains_key(k)
            <==> routes.contains_key(k) && backing_supervisor(routes[k]) != sup,
        forall|k: u128| #[trigger] without_supervisor(routes, sup).contains_key(k)
            ==> without_supervisor(routes, sup)[k] == routes[k],
{
}


/// One thing that happens to the routing table, as the registry actor
/// performs it through the methods above.
pub enum RegistryEvent {
    /// A checkout request: [`CampaignRegistry::ensure`], followed, when it
    /// answers `StartLoad`, by [`CampaignRegistry::start_load`] with the
    /// freshly spawned supervisor.
    Checkout { campaign: u128, spawned: ActorKey },
    /// A load reached its end: [`load_result`] of the supervisor's startup,
    /// handed to [`CampaignRegistry::load_complete`].
    LoadEnded { campaign: u128, supervisor: ActorKey, alive_after_startup: bool, graph: Option<ActorKey> },
    /// [`CampaignRegistry::release`].
    Release { campaign: u128 },
    /// [`CampaignRegistry::link_died`].
    LinkDied { supervisor: ActorKey },
    /// [`CampaignRegistry::begin_drain`].
    BeginDrain,
    /// [`CampaignRegistry::stop_fallback`].
    StopFallback,
}

/// The routing table and phase after one event, as the contracts of the
/// methods that perform it state.
pub open spec fn registry_step(routes: Map<u128, CampaignState>, phase: Phase, e: RegistryEvent) -> (Map<u128, CampaignState>, Phase) {
    match e {
        RegistryEvent::Checkout { campaign, spawned } => {
            if checkout_decision(routes, phase, campaign) == Ok::<EnsureStep, EnsureError>(EnsureStep::StartLoad) {
                (routes.insert(campaign, CampaignState::Loading { supervisor: spawned }), phase)
            } else {
                (routes, phase)
            }
        },
        RegistryEvent::LoadEnded { campaign, supervisor, alive_after_startup, graph } =>
            (completed(routes, campaign, supervisor, loaded_handle(supervisor, alive_after_startup, graph)), phase),
        RegistryEvent::Release { campaign } => (released(routes, campaign), phase),
        RegistryEvent::LinkDied { supervisor } => (without_supervisor(routes, supervisor), phase),
        RegistryEvent::BeginDrain => {
            if phase == Phase::Draining {
                (routes, phase)
            } else {
                (all_draining(routes), Phase::Draining)
            }
        },
        RegistryEvent::StopFallback => (Map::empty(), phase),
    }
}

/// The routing table and phase after a run of events, first to last.
pub open spec fn registry_run(routes: Map<u128, CampaignState>, phase: Phase, events: Seq<RegistryEvent>) -> (Map<u128, CampaignState>, Phase)
    decreases events.len(),
{
    if events.len() == 0 {
        (routes, phase)
    } else {
        let (r, p) = registry_step(routes, phase, events[0]);
        registry_run(r, p, events.drop_first())
    }
}

/// The registry accepts checkouts and `campaign` has a loading or live slot
/// backed by `sup`.
pub open spec fn live_slot(routes: Map<u128, CampaignState>, phase: Phase, campaign: u128, sup: ActorKey) -> bool {
    &&& phase == Phase::Ready
    &&& routes.contains_key(campaign)
    &&& !(routes[campaign] is Draining)
    &&& backing_supervisor(routes[campaign]) == sup
}

/// The event does not remove the slot of `campaign` backed by `sup`: it is
/// not a failed end of that load, a release of the campaign, the death of
/// `sup`, a drain or a stop.
pub open spec fn leaves_slot(e: RegistryEvent, campaign: u128, sup: ActorKey) -> bool {
    match e {
        RegistryEvent::Checkout { .. } => true,
        RegistryEvent::LoadEnded { campaign: c, supervisor, alive_after_startup, graph } =>
            !(c == campaign && supervisor == sup && loaded_handle(supervisor, alive_after_startup, graph) is None),
        RegistryEvent::Release { campaign: c } => c != campaign,
        RegistryEvent::LinkDied { supervisor } => supervisor != sup,
        RegistryEvent::BeginDrain => false,
        RegistryEvent::StopFallback => false,
    }
}

/// Checkouts coalesce over any history: once a checkout has handed back a
/// loading or live slot backed by `sup`, every later checkout of the
/// campaign hands back a slot backed by that same supervisor, whatever
/// happens to other campaigns and supervisors in between, as long as
/// nothing removes the slot (a failed end of its load, a release of the
/// campaign, the death of `sup`, a drain or a stop).
pub proof fn law_checkouts_coalesce(
    routes: Map<u128, CampaignState>,
    phase: Phase,
    campaign: u128,
    sup: ActorKey,
    events: Seq<RegistryEvent>,
)
    requires
        live_slot(routes, phase, campaign, sup),
        forall|i: int| 0 <= i < events.len() ==> leaves_slot(#[trigger] events[i], campaign, sup),
    ensures
        ({
            let (r, p) = registry_run(routes, phase, events);
            &&& live_slot(r, p, campaign, sup)
            &&& checkout_decision(r, p, campaign) == Ok::<EnsureStep, EnsureError>(EnsureStep::Existing(r[campaign]))
        }),
    decreases events.len(),
{
    if events.len() > 0 {
        let (r1, p1) = registry_step(routes, phase, events[0]);
        assert(leaves_slot(events[0], campaign, sup));
        assert(live_slot(r1, p1, campaign, sup));
        let rest = events.drop_first();
        assert forall|i: int| 0 <= i < rest.len() implies leaves_slot(#[trigger] rest[i], campaign, sup) by {
            assert(rest[i] == events[i + 1]);
        }
        law_checkouts_coalesce(r1, p1, campaign, sup, rest);
    }
}

/// Concurrent checkouts share one load: of a run of checkouts of a campaign
/// with no slot, only the first starts a load, and after the whole run the
/// slot every checkout gets back is backed by the supervisor spawned for
/// that first one.
pub proof fn law_concurrent_checkouts_share_one_load(routes: Map<u128, CampaignState>, campaign: u128, spawned: Seq<ActorKey>)
    requires
        !routes.contains_key(campaign),
        spawned.len() > 0,
    ensures
        ({
            let events = Seq::new(spawned.len(), |i: int| RegistryEvent::Checkout { campaign, spawned: spawned[i] });
            let (r, p) = registry_run(routes, Phase::Ready, events);
            &&& checkout_decision(routes, Phase::Ready, campaign) == Ok::<EnsureStep, EnsureError>(EnsureStep::StartLoad)
            &&& r[campaign] == (CampaignState::Loading { supervisor: spawned[0] })
            &&& checkout_decision(r, p, campaign)
                == Ok::<EnsureStep, EnsureError>(EnsureStep::Existing(CampaignState::Loading { supervisor: spawned[0] }))
        }),
{
    let events = Seq::new(spawned.len(), |i: int| RegistryEvent::Checkout { campaign, spawned: spawned[i] });
    let (r1, p1) = registry_step(routes, Phase::Ready, events[0]);
    assert(r1 == routes.insert(campaign, CampaignState::Loading { supervisor: spawned[0] }));
    let rest = events.drop_first();
    assert forall|i: int| 0 <= i < rest.len() implies leaves_slot(#[trigger] rest[i], campaign, spawned[0]) by {
        assert(rest[i] == events[i + 1]);
    }
    lemma_checkouts_keep_loading(r1, campaign, spawned[0], rest);
    law_checkouts_coalesce(r1, p1, campaign, spawned[0], rest);
}

/// Checkouts alone never change a loading slot.
proof fn lemma_checkouts_keep_loading(routes: Map<u128, CampaignState>, campaign: u128, sup: ActorKey, events: Seq<RegistryEvent>)
    requires
        routes.contains_key(campaign),
        routes[campaign] == (CampaignState::Loading { supervisor: sup }),
        forall|i: int| 0 <= i < events.len() ==> (#[trigger] events[i]) is Checkout,
    ensures
        registry_run(routes, Phase::Ready, events).0.contains_key(campaign),
        registry_run(routes, Phase::Ready, events).0[campaign] == (CampaignState::Loading { supervisor: sup }),
    decreases events.len(),
{
    if events.len() > 0 {
        let (r1, p1) = registry_step(routes, Phase::Ready, events[0]);
        assert(events[0] is Checkout);
        assert(p1 == Phase::Ready);
        let rest = events.drop_first();
        assert forall|i: int| 0 <= i < rest.len() implies (#[trigger] rest[i]) is Checkout by {
            assert(rest[i] == events[i + 1]);
        }
        lemma_checkouts_keep_loading(r1, campaign, sup, rest);
    }
}

} // verus!
