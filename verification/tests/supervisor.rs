use campaign::database_writer::{with_landing_page, CampaignMetadata};
use campaign::ids::PageId;
use campaign::persist::SendFailure;
use campaign::supervisor::{
    effective_status, home_page_request, home_page_seed, link_died_verdict, missing_page_room, page_name,
    page_room_step, releases_lease, reply_or_unavailable, route_room, stop_label, teardown, Teardown,
    template_source, update_failure, CreatePage, CreatePageError, CreatePageFlow,
    CreatePageStep, CreateSession, CreateSessionError, CreateSessionFlow, CreateSessionStep,
    CreateStage, DocumentPageKind, PageGenesis, TemplateBlock, TocPlacement, JoinRoomError, Lifecycle, LinkVerdict, PageKind,
    PageRoomStep, PageRooms, ParentLookup, RoomTarget, StopCause, StopReason, UpdateError,
};
use campaign::toc::{Status, TocPageKind, TreeId};

#[test]
fn set_stop_cause_is_first_writer_wins() {
    let mut l = Lifecycle::new(60_000);
    l.set_stop_cause(StopCause::Idle);
    l.set_stop_cause(StopCause::Drain);
    assert_eq!(l.stop_cause(), Some(StopCause::Idle));
}

#[test]
fn idle_supervisor_self_evicts() {
    let mut l = Lifecycle::new(30);
    assert!(!l.idle_check(29), "still active");
    assert_eq!(l.stop_cause(), None);
    assert!(l.idle_check(30));
    assert_eq!(l.stop_cause(), Some(StopCause::Idle));
    assert!(!l.idle_check(1_000), "a stopping supervisor checks no more");
}

#[test]
fn idle_check_respects_an_earlier_cause() {
    let mut l = Lifecycle::new(10);
    l.set_stop_cause(StopCause::Drain);
    assert!(!l.idle_check(100));
    assert_eq!(l.stop_cause(), Some(StopCause::Drain));
}

#[test]
fn stop_cause_labels() {
    assert_eq!(StopCause::Idle.as_str(), "idle");
    assert_eq!(StopCause::Drain.as_str(), "drain");
    assert_eq!(StopCause::RegistryFallback.as_str(), "registry_fallback");
    assert_eq!(StopCause::PlatformRelease.as_str(), "platform_release");
    assert_eq!(stop_label(Some(StopCause::Drain), StopReason::Killed), "drain");
    assert_eq!(stop_label(None, StopReason::Normal), "signal");
    assert_eq!(stop_label(None, StopReason::SupervisorRestart), "signal");
    assert_eq!(stop_label(None, StopReason::Killed), "killed");
    assert_eq!(stop_label(None, StopReason::Panicked), "crash");
    assert_eq!(stop_label(None, StopReason::LinkDied), "link_died");
}

#[test]
fn lease_released_only_after_idle_eviction() {
    assert!(releases_lease(Some(StopCause::Idle), true));
    assert!(!releases_lease(Some(StopCause::Idle), false));
    assert!(!releases_lease(Some(StopCause::Drain), true));
    assert!(!releases_lease(None, true));
}

#[test]
fn evicted_page_actor_is_pruned_from_map() {
    let mut rooms = PageRooms::new();
    let p = PageId::generate();
    let q = PageId::generate();
    rooms.insert(p, 11);
    rooms.insert(q, 12);
    let pruned = rooms.prune(11);
    assert!(pruned);
    assert!(!rooms.contains(p));
    assert!(rooms.contains(q));
    assert_eq!(link_died_verdict(pruned, StopReason::Panicked), LinkVerdict::Continue);
}

#[test]
fn registry_death_is_answered_by_reason() {
    let mut rooms = PageRooms::new();
    rooms.insert(PageId::generate(), 11);
    let pruned = rooms.prune(99);
    assert!(!pruned);
    assert_eq!(link_died_verdict(pruned, StopReason::Normal), LinkVerdict::Continue);
    assert_eq!(link_died_verdict(pruned, StopReason::SupervisorRestart), LinkVerdict::Continue);
    assert_eq!(link_died_verdict(pruned, StopReason::Killed), LinkVerdict::Stop);
    assert_eq!(link_died_verdict(pruned, StopReason::LinkDied), LinkVerdict::Stop);
}

#[test]
fn drain_hands_back_every_room() {
    let mut rooms = PageRooms::new();
    rooms.insert(PageId::generate(), 1);
    rooms.insert(PageId::generate(), 2);
    let mut actors = rooms.drain();
    actors.sort();
    assert_eq!(actors, vec![1, 2]);
    assert!(rooms.drain().is_empty());
}

#[test]
fn join_room_routes_toc_and_pages() {
    assert_eq!(route_room("toc"), Ok(RoomTarget::Toc));
    let p = PageId::generate();
    let id = format!("page:{}", p.to_text());
    assert_eq!(route_room(&id), Ok(RoomTarget::Page(p)));
}

#[test]
fn join_room_rejects_unknown_rooms() {
    assert_eq!(route_room("lobby"), Err(JoinRoomError::UnknownRoom("lobby".to_string())));
    assert_eq!(route_room("page:not-a-ulid"), Err(JoinRoomError::UnknownRoom("page:not-a-ulid".to_string())));
    assert_eq!(route_room("toc2"), Err(JoinRoomError::UnknownRoom("toc2".to_string())));
    assert_eq!(route_room(""), Err(JoinRoomError::UnknownRoom(String::new())));
}

#[test]
fn missing_page_room_names_the_page() {
    let p = PageId::generate();
    assert_eq!(missing_page_room(p), JoinRoomError::UnknownRoom(format!("page:{}", p.to_text())));
}

#[test]
fn page_room_join_reuses_only_a_live_room() {
    assert_eq!(page_room_step(Some(5), true), PageRoomStep::Reuse(5));
    assert_eq!(page_room_step(Some(5), false), PageRoomStep::Spawn);
    assert_eq!(page_room_step(None, true), PageRoomStep::Spawn);
}

#[test]
fn update_to_stopped_room_actor_is_room_gone() {
    assert_eq!(update_failure(SendFailure::ActorStopped), UpdateError::RoomGone);
    assert_eq!(update_failure(SendFailure::ActorNotRunning), UpdateError::RoomGone);
    assert_eq!(update_failure(SendFailure::MailboxFull), UpdateError::Busy);
    assert_eq!(update_failure(SendFailure::Timeout), UpdateError::Busy);
    assert_eq!(
        update_failure(SendFailure::HandlerError(UpdateError::Rejected("bad".into()))),
        UpdateError::Rejected("bad".into())
    );
}

#[test]
fn create_page_rejects_empty_name() {
    assert_eq!(page_name("   "), None);
    assert_eq!(page_name(""), None);
    assert_eq!(page_name("  The Keep  "), Some("The Keep".to_string()));
}

#[test]
fn create_session_rejects_empty_name() {
    assert_eq!(page_name("\t\n"), None);
    assert_eq!(page_name(" Session Zero"), Some("Session Zero".to_string()));
}

#[test]
fn new_pages_default_to_gm_only() {
    assert_eq!(effective_status(None), Status::GmOnly);
    assert_eq!(effective_status(Some(Status::Known)), Status::Known);
}

#[test]
fn placement_follows_the_toc_answer() {
    let p = PageId::generate();
    let ask = |lookup: ParentLookup| {
        let (mut flow, step) = CreatePageFlow::start(CreatePage {
            name: "Keep".to_string(),
            status: None,
            parent: Some(p),
            kind: DocumentPageKind::Entity,
            from_template_id: None,
        }, PageId::generate());
        assert_eq!(step, CreatePageStep::ResolveParent(p));
        flow.parent_resolved(lookup)
    };
    assert_eq!(
        ask(ParentLookup::Found(TreeId { peer: 1, counter: 4 })),
        CreatePageStep::CheckName(PageKind::Entity, "Keep".to_string())
    );
    assert_eq!(ask(ParentLookup::NotFound), CreatePageStep::Finished(Err(CreatePageError::ParentNotFound)));
    assert_eq!(ask(ParentLookup::Unavailable), CreatePageStep::Finished(Err(CreatePageError::ActorUnavailable)));

    let (mut flow, _) = CreateSessionFlow::start(CreateSession { name: "Zero".to_string(), status: None, parent: Some(p) }, PageId::generate());
    assert_eq!(flow.parent_resolved(ParentLookup::NotFound), CreateSessionStep::Failed(CreateSessionError::ParentNotFound));
    let (mut flow, _) = CreateSessionFlow::start(CreateSession { name: "Zero".to_string(), status: None, parent: Some(p) }, PageId::generate());
    assert_eq!(flow.parent_resolved(ParentLookup::Unavailable), CreateSessionStep::Failed(CreateSessionError::ActorUnavailable));
}

#[test]
fn blank_page_name_fails_before_any_lookup() {
    let (flow, step) = CreatePageFlow::start(CreatePage {
        name: "  \t ".to_string(),
        status: None,
        parent: Some(PageId::generate()),
        kind: DocumentPageKind::Entity,
        from_template_id: None,
    }, PageId::generate());
    assert_eq!(step, CreatePageStep::Finished(Err(CreatePageError::EmptyName)));
    assert_eq!(flow.stage, CreateStage::Done);
    let (_, step) = CreateSessionFlow::start(CreateSession { name: " ".to_string(), status: None, parent: None }, PageId::generate());
    assert_eq!(step, CreateSessionStep::Failed(CreateSessionError::EmptyName));
}

#[test]
fn page_from_template_runs_every_check_before_genesis() {
    let tpl = PageId::generate();
    let page = PageId::generate();
    let (mut flow, step) = CreatePageFlow::start(CreatePage {
        name: "  Goblin Warren ".to_string(),
        status: Some(Status::Known),
        parent: None,
        kind: DocumentPageKind::Entity,
        from_template_id: Some(tpl),
    }, page);
    let seed = vec![TemplateBlock { section: "body".to_string(), content: "Tunnels".to_string(), status: Status::GmOnly }];
    assert_eq!(step, CreatePageStep::CheckName(PageKind::Entity, "Goblin Warren".to_string()));
    assert_eq!(flow.name_checked(Ok(false)), CreatePageStep::LoadTemplate(tpl));
    assert_eq!(flow.template_loaded(Ok(Some(PageKind::Template))), CreatePageStep::LoadTemplateBlocks(tpl));
    assert_eq!(
        flow.template_blocks_loaded(Ok(seed.clone())),
        CreatePageStep::Spawn(PageGenesis {
            page_id: page,
            name: "Goblin Warren".to_string(),
            kind: DocumentPageKind::Entity,
            status: Status::Known,
            template_id: Some(tpl),
            seed,
        })
    );
    let mut rooms = PageRooms::new();
    assert_eq!(
        flow.genesis_started(true, &mut rooms, 77),
        CreatePageStep::Place(TocPlacement {
            title: "Goblin Warren".to_string(),
            page_kind: TocPageKind::Entity,
            visibility: Status::Known,
            parent: None,
        })
    );
    assert_eq!(rooms.get(page), Some(77), "the new page's room is registered");
    assert_eq!(flow.row_received(true), CreatePageStep::Finished(Ok(page)));
    assert_eq!(flow.stage, CreateStage::Done);
}

#[test]
fn page_creation_failures_after_validation() {
    let start = |template: Option<PageId>| {
        CreatePageFlow::start(CreatePage {
            name: "Keep".to_string(),
            status: None,
            parent: None,
            kind: DocumentPageKind::Template,
            from_template_id: template,
        }, PageId(9))
        .0
    };
    let mut f = start(None);
    assert_eq!(
        f.name_checked(Ok(true)),
        CreatePageStep::Finished(Err(CreatePageError::NameTaken(PageKind::Template, "Keep".to_string())))
    );
    let mut f = start(None);
    assert_eq!(f.name_checked(Err("locked".to_string())), CreatePageStep::Finished(Err(CreatePageError::Db("locked".to_string()))));
    let tpl = PageId::generate();
    let mut f = start(Some(tpl));
    f.name_checked(Ok(false));
    assert_eq!(f.template_loaded(Ok(Some(PageKind::Entity))), CreatePageStep::Finished(Err(CreatePageError::InvalidTemplate)));
    let mut f = start(Some(tpl));
    f.name_checked(Ok(false));
    assert_eq!(f.template_loaded(Ok(None)), CreatePageStep::Finished(Err(CreatePageError::InvalidTemplate)));
    let mut f = start(Some(tpl));
    f.name_checked(Ok(false));
    f.template_loaded(Ok(Some(PageKind::Template)));
    assert_eq!(f.template_blocks_loaded(Err("gone".to_string())), CreatePageStep::Finished(Err(CreatePageError::Db("gone".to_string()))));
    let mut f = start(None);
    assert_eq!(
        f.name_checked(Ok(false)),
        CreatePageStep::Spawn(PageGenesis {
            page_id: PageId(9),
            name: "Keep".to_string(),
            kind: DocumentPageKind::Template,
            status: Status::GmOnly,
            template_id: None,
            seed: Vec::new(),
        })
    );
    let mut rooms = PageRooms::new();
    assert_eq!(f.genesis_started(false, &mut rooms, 5), CreatePageStep::Finished(Err(CreatePageError::Genesis)));
    assert!(!rooms.contains(PageId(9)), "a dead genesis registers nothing");
    let mut f = start(None);
    f.name_checked(Ok(false));
    f.genesis_started(true, &mut rooms, 5);
    assert_eq!(f.row_received(false), CreatePageStep::Finished(Err(CreatePageError::Genesis)));
}

#[test]
fn session_is_placed_with_its_genesis_ordinal() {
    let parent = PageId::generate();
    let page = PageId::generate();
    let (mut flow, step) = CreateSessionFlow::start(CreateSession { name: " Session Zero ".to_string(), status: None, parent: Some(parent) }, page);
    assert_eq!(step, CreateSessionStep::ResolveParent(parent));
    assert_eq!(
        flow.parent_resolved(ParentLookup::Found(TreeId { peer: 2, counter: 0 })),
        CreateSessionStep::CheckName(PageKind::Session, "Session Zero".to_string())
    );
    assert_eq!(
        flow.name_checked(Ok(false)),
        CreateSessionStep::Spawn { page_id: page, name: "Session Zero".to_string(), status: Status::GmOnly }
    );
    let mut rooms = PageRooms::new();
    assert_eq!(flow.genesis_started(true, &mut rooms, 8), CreateSessionStep::AwaitRows);
    assert_eq!(rooms.get(page), Some(8));
    assert_eq!(
        flow.rows_received(Some(3)),
        CreateSessionStep::Place(TocPlacement {
            title: "Session Zero".to_string(),
            page_kind: TocPageKind::Session { ordinal: 3 },
            visibility: Status::GmOnly,
            parent: Some(TreeId { peer: 2, counter: 0 }),
        }),
        "the session is placed under the node resolved before genesis"
    );

    let (mut flow, _) = CreateSessionFlow::start(CreateSession { name: "Zero".to_string(), status: None, parent: None }, PageId::generate());
    assert_eq!(
        flow.name_checked(Ok(true)),
        CreateSessionStep::Failed(CreateSessionError::NameTaken(PageKind::Session, "Zero".to_string()))
    );
    let (mut flow, _) = CreateSessionFlow::start(CreateSession { name: "Zero".to_string(), status: None, parent: None }, PageId::generate());
    flow.name_checked(Ok(false));
    flow.genesis_started(true, &mut rooms, 9);
    assert_eq!(flow.rows_received(None), CreateSessionStep::Failed(CreateSessionError::Genesis));
}

#[test]
fn only_a_new_campaign_seeds_its_home_page() {
    assert_eq!(home_page_seed(true), Some(home_page_request()));
    assert_eq!(home_page_seed(false), None, "reopening does not reseed");
}

#[test]
fn template_source_must_be_a_template() {
    assert_eq!(template_source(Some(PageKind::Template)), Ok(()));
    assert_eq!(template_source(Some(PageKind::Entity)), Err(CreatePageError::InvalidTemplate));
    assert_eq!(template_source(None), Err(CreatePageError::InvalidTemplate));
}

#[test]
fn brand_new_campaign_seeds_home_base() {
    let req = home_page_request();
    assert_eq!(req.name, "Campaign Base Camp");
    assert_eq!(req.status, Some(Status::Known));
    assert_eq!(req.parent, None);
    assert_eq!(req.kind, DocumentPageKind::Entity);
    assert_eq!(req.from_template_id, None);
}

#[test]
fn document_kinds_map_to_toc_kinds() {
    assert_eq!(DocumentPageKind::Entity.toc_page_kind(), TocPageKind::Entity);
    assert_eq!(DocumentPageKind::Template.toc_page_kind(), TocPageKind::Template);
    assert_eq!(DocumentPageKind::Template.page_kind(), PageKind::Template);
}

#[test]
fn forwarded_replies_map_transport_failures() {
    let ok: Result<u8, SendFailure<&str>> = Ok(3);
    assert_eq!(reply_or_unavailable(ok, "down"), Ok(3));
    assert_eq!(reply_or_unavailable::<u8, &str>(Err(SendFailure::HandlerError("bad")), "down"), Err("bad"));
    assert_eq!(reply_or_unavailable::<u8, &str>(Err(SendFailure::Timeout), "down"), Err("down"));
}

#[test]
fn teardown_stops_pages_before_toc_graph_and_storage() {
    let mut rooms = PageRooms::new();
    rooms.insert(PageId::generate(), 11);
    rooms.insert(PageId::generate(), 12);
    let steps = teardown(&mut rooms, Some(StopCause::Idle), true);
    let mut pages: Vec<Teardown> = steps[..2].to_vec();
    pages.sort_by_key(|s| match s {
        Teardown::StopPage(a) => *a,
        _ => u64::MAX,
    });
    assert_eq!(pages, vec![Teardown::StopPage(11), Teardown::StopPage(12)]);
    assert_eq!(
        steps[2..].to_vec(),
        vec![Teardown::StopToc, Teardown::StopGraph, Teardown::ReleaseStorage, Teardown::ReleaseLease]
    );
    assert!(!rooms.contains(PageId(0)));

    let mut empty = PageRooms::new();
    assert_eq!(
        teardown(&mut empty, Some(StopCause::Drain), true),
        vec![Teardown::StopToc, Teardown::StopGraph, Teardown::ReleaseStorage],
        "only an idle stop releases the lease"
    );
    assert_eq!(
        teardown(&mut empty, Some(StopCause::Idle), false),
        vec![Teardown::StopToc, Teardown::StopGraph, Teardown::ReleaseStorage]
    );
}

#[test]
fn names_are_trimmed_of_unicode_white_space() {
    assert_eq!(page_name("\u{3000}The Keep\u{a0}\n"), Some("The Keep".to_string()));
    assert_eq!(page_name("\u{2003}\u{85}"), None);
    assert_eq!(page_name("x\u{200b}"), Some("x\u{200b}".to_string()), "a zero-width space is not White_Space");
}

fn seed_at_checkout(is_new: bool, pages: &mut Vec<(PageId, String, Status)>, meta: &mut CampaignMetadata, minted: PageId, now: i64) {
    if let Some(req) = home_page_seed(is_new) {
        let (flow, _) = CreatePageFlow::start(req, minted);
        pages.push((flow.page_id, flow.name.clone(), flow.status));
        *meta = with_landing_page(meta.clone(), minted, now);
    }
}

#[test]
fn tests_reopen_does_not_reseed_home_base() {
    let mut pages: Vec<(PageId, String, Status)> = Vec::new();
    let mut meta = CampaignMetadata {
        name: "New Campaign".into(),
        tagline: None,
        game_system: None,
        content_locale: None,
        wizard_completed_at: None,
        home_page_id: None,
        created_at: 100,
        updated_at: 100,
    };
    let seeded = PageId(41);
    seed_at_checkout(true, &mut pages, &mut meta, seeded, 200);
    assert_eq!(pages, vec![(seeded, "Campaign Base Camp".to_string(), Status::Known)]);
    assert_eq!(meta.home_page_id, Some(seeded));
    seed_at_checkout(false, &mut pages, &mut meta, PageId(42), 300);
    assert_eq!(pages.len(), 1, "reopen must not add a second base camp");
    assert_eq!(meta.home_page_id, Some(seeded), "home pointer unchanged on reopen");
    assert_eq!(meta.updated_at, 200);
}
