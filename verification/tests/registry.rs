use campaign::ids::CampaignId;
use campaign::registry::{
    load_result, published_outcome, resolve, resolve_waited, CampaignHandle, CampaignRegistry,
    CampaignState, DrainRun, EnsureError, EnsureStep, LoadOutcome, LoadWait, Phase, ResolveError, Resolution,
};

fn checkout(reg: &mut CampaignRegistry, id: CampaignId, sup: u64) -> CampaignState {
    match reg.ensure(id).expect("accepting checkouts") {
        EnsureStep::StartLoad => reg.start_load(id, sup),
        EnsureStep::Existing(st) => st,
    }
}

fn checkout_ready(reg: &mut CampaignRegistry, id: CampaignId, sup: u64, graph: u64) -> CampaignHandle {
    checkout(reg, id, sup);
    reg.load_complete(id, sup, load_result(sup, true, Some(graph)));
    match reg.lookup(id) {
        Some(CampaignState::Ready(h)) => h,
        other => panic!("expected a ready slot, got {other:?}"),
    }
}

#[test]
fn ensure_campaign_spawns_and_is_idempotent() {
    let mut reg = CampaignRegistry::new();
    let id = CampaignId::generate();
    let first = checkout_ready(&mut reg, id, 1, 10);
    let second = match reg.ensure(id) {
        Ok(EnsureStep::Existing(CampaignState::Ready(h))) => h,
        other => panic!("expected the existing slot, got {other:?}"),
    };
    assert_eq!(first.supervisor, second.supervisor, "same supervisor returned twice");
}

#[test]
fn table_absent_until_checked_out_then_ready() {
    let mut reg = CampaignRegistry::new();
    let id = CampaignId::generate();
    assert!(reg.lookup(id).is_none());
    checkout_ready(&mut reg, id, 1, 10);
    assert!(matches!(reg.lookup(id), Some(CampaignState::Ready(_))));
}

#[test]
fn concurrent_ensures_coalesce_on_one_load() {
    let mut reg = CampaignRegistry::new();
    let id = CampaignId::generate();
    let mut sups = Vec::new();
    for candidate in 1..=5u64 {
        let st = checkout(&mut reg, id, candidate);
        sups.push(st.supervisor());
    }
    assert!(sups.windows(2).all(|w| w[0] == w[1]), "all coalesced ensures yield one supervisor: {sups:?}");
    assert_eq!(sups[0], 1);
}

#[test]
fn supervisor_eviction_removes_from_table() {
    let mut reg = CampaignRegistry::new();
    let id = CampaignId::generate();
    checkout_ready(&mut reg, id, 7, 70);
    assert!(reg.link_died(7));
    assert!(reg.lookup(id).is_none());
}

#[test]
fn begin_drain_stops_supervisors_in_parallel() {
    let mut reg = CampaignRegistry::new();
    let a = CampaignId::generate();
    let b = CampaignId::generate();
    checkout_ready(&mut reg, a, 1, 10);
    checkout_ready(&mut reg, b, 2, 20);
    let mut snap = reg.begin_drain().expect("first drain");
    snap.sort_by_key(|(_, s)| *s);
    assert_eq!(snap, vec![(a, 1), (b, 2)]);
    assert!(matches!(reg.lookup(a), Some(CampaignState::Draining { supervisor: 1 })));
    assert!(matches!(reg.lookup(b), Some(CampaignState::Draining { supervisor: 2 })));
    reg.link_died(1);
    reg.link_died(2);
    assert!(reg.lookup(a).is_none());
    assert!(reg.lookup(b).is_none());
}

#[test]
fn second_drain_signals_at_once() {
    let mut reg = CampaignRegistry::new();
    checkout_ready(&mut reg, CampaignId::generate(), 1, 10);
    assert!(reg.begin_drain().is_some());
    assert!(reg.begin_drain().is_none());
    assert_eq!(reg.phase(), Phase::Draining);
}

#[test]
fn failed_load_resolves_failed_and_removes_entry() {
    let mut reg = CampaignRegistry::new();
    let id = CampaignId::generate();
    let st = checkout(&mut reg, id, 3);
    let result = load_result(3, false, None);
    assert_eq!(published_outcome(result), LoadOutcome::Failed);
    reg.load_complete(id, 3, result);
    assert!(matches!(resolve(Some(st)), Resolution::AwaitLoad { supervisor: 3 }));
    assert_eq!(resolve_waited(LoadWait::Published(LoadOutcome::Failed)), Err(ResolveError::LoadFailed));
    assert!(reg.lookup(id).is_none());
    assert_eq!(reg.ensure(id), Ok(EnsureStep::StartLoad), "a retry checks out again");
}

#[test]
fn stale_completion_is_ignored() {
    let mut reg = CampaignRegistry::new();
    let id = CampaignId::generate();
    checkout(&mut reg, id, 4);
    reg.link_died(4);
    reg.load_complete(id, 4, load_result(4, true, Some(40)));
    assert!(reg.lookup(id).is_none(), "a late completion does not resurrect a dead supervisor");
}

#[test]
fn registry_on_stop_fallback_drains_supervisors() {
    let mut reg = CampaignRegistry::new();
    checkout_ready(&mut reg, CampaignId::generate(), 1, 10);
    checkout_ready(&mut reg, CampaignId::generate(), 2, 20);
    let mut sups = reg.stop_fallback();
    sups.sort();
    assert_eq!(sups, vec![1, 2]);
    assert!(reg.list_loaded().is_empty());
}

#[test]
fn ensure_during_drain_returns_shutting_down() {
    let mut reg = CampaignRegistry::new();
    checkout_ready(&mut reg, CampaignId::generate(), 1, 10);
    reg.begin_drain();
    assert_eq!(reg.ensure(CampaignId::generate()), Err(EnsureError::ShuttingDown));
}

#[test]
fn release_campaign_stops_supervisor() {
    let mut reg = CampaignRegistry::new();
    let id = CampaignId::generate();
    checkout_ready(&mut reg, id, 5, 50);
    assert_eq!(reg.release(id), Some(5));
    assert!(matches!(reg.lookup(id), Some(CampaignState::Draining { supervisor: 5 })));
    assert_eq!(reg.ensure(id), Err(EnsureError::ShuttingDown));
    assert_eq!(reg.release(id), None, "already draining");
    reg.link_died(5);
    assert!(reg.lookup(id).is_none());
}

#[test]
fn release_unknown_campaign_is_noop() {
    let mut reg = CampaignRegistry::new();
    assert_eq!(reg.release(CampaignId::generate()), None);
    assert!(reg.list_loaded().is_empty());
}

#[test]
fn list_loaded_returns_campaign_ids() {
    let mut reg = CampaignRegistry::new();
    let a = CampaignId::generate();
    let b = CampaignId::generate();
    checkout_ready(&mut reg, a, 1, 10);
    checkout_ready(&mut reg, b, 2, 20);
    let mut loaded = reg.list_loaded();
    loaded.sort_by(|x, y| x.0.cmp(&y.0));
    let mut expected = vec![a, b];
    expected.sort_by(|x, y| x.0.cmp(&y.0));
    assert_eq!(loaded, expected);
}

#[test]
fn list_loaded_returns_empty_during_drain() {
    let mut reg = CampaignRegistry::new();
    checkout_ready(&mut reg, CampaignId::generate(), 1, 10);
    reg.begin_drain();
    assert!(reg.list_loaded().is_empty(), "should return empty during drain");
}

#[test]
fn resolve_covers_every_slot() {
    let h = CampaignHandle { supervisor: 1, graph: 2 };
    assert!(matches!(resolve(None), Resolution::Done(Err(ResolveError::NotLoaded))));
    assert!(matches!(resolve(Some(CampaignState::Ready(h))), Resolution::Done(Ok(x)) if x == h));
    assert!(matches!(resolve(Some(CampaignState::Draining { supervisor: 1 })), Resolution::Done(Err(ResolveError::Draining))));
    assert_eq!(resolve_waited(LoadWait::Published(LoadOutcome::Ready(h))), Ok(h));
    assert_eq!(resolve_waited(LoadWait::SenderGone), Err(ResolveError::LoadFailed));
    assert_eq!(resolve_waited(LoadWait::Published(LoadOutcome::Pending)), Err(ResolveError::LoadFailed));
    assert_eq!(resolve_waited(LoadWait::TimedOut), Err(ResolveError::StillLoading));
}

#[test]
fn load_result_needs_a_live_supervisor_and_its_graph() {
    assert_eq!(load_result(1, true, Some(9)), Some(CampaignHandle { supervisor: 1, graph: 9 }));
    assert_eq!(load_result(1, true, None), None);
    assert_eq!(load_result(1, false, Some(9)), None);
    assert_eq!(published_outcome(Some(CampaignHandle { supervisor: 1, graph: 9 })), LoadOutcome::Ready(CampaignHandle { supervisor: 1, graph: 9 }));
}

#[test]
fn link_death_of_one_supervisor_keeps_the_others() {
    let mut reg = CampaignRegistry::new();
    let a = CampaignId::generate();
    let b = CampaignId::generate();
    checkout_ready(&mut reg, a, 1, 10);
    checkout_ready(&mut reg, b, 2, 20);
    assert!(reg.link_died(1));
    assert!(!reg.link_died(1), "nothing left to drop");
    assert!(reg.lookup(a).is_none());
    assert!(matches!(reg.lookup(b), Some(CampaignState::Ready(_))));
}

#[test]
fn drain_orders_every_supervisor_and_kills_stragglers_at_the_deadline() {
    let mut reg = CampaignRegistry::new();
    checkout_ready(&mut reg, CampaignId(1), 10, 11);
    checkout_ready(&mut reg, CampaignId(2), 20, 21);
    let snapshot = reg.begin_drain().expect("first drain hands out the supervisors");
    let (mut run, orders) = DrainRun::start(&snapshot);
    let mut ordered = orders.clone();
    ordered.sort();
    assert_eq!(ordered, vec![10, 20]);
    assert!(!run.is_drained());

    run.supervisor_exited(10);
    assert!(!run.is_drained());
    assert_eq!(run.deadline_passed(), orders);

    run.supervisor_exited(20);
    assert!(run.is_drained());
    assert!(run.deadline_passed().is_empty());
}

#[test]
fn empty_drain_is_already_done() {
    let (run, orders) = DrainRun::start(&Vec::new());
    assert!(orders.is_empty());
    assert!(run.is_drained());
    assert!(run.deadline_passed().is_empty());
}

#[test]
fn checkouts_coalesce_across_unrelated_events() {
    let mut reg = CampaignRegistry::new();
    let id = CampaignId(7);
    let other = CampaignId(8);
    assert_eq!(checkout(&mut reg, id, 1).supervisor(), 1);
    checkout(&mut reg, other, 2);
    reg.load_complete(id, 9, None);
    reg.load_complete(id, 1, load_result(1, true, Some(11)));
    reg.release(other);
    reg.link_died(2);
    reg.link_died(5);
    let later = checkout(&mut reg, id, 3);
    assert_eq!(later, CampaignState::Ready(CampaignHandle { supervisor: 1, graph: 11 }));
    assert_eq!(later.supervisor(), 1);
}
