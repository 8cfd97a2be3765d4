use campaign::database_writer::{page_blocks_write, BlockColumn, BlockSnapshotWrite, NewBlock};
use campaign::ids::{BlockId, PageId};
use campaign::page_room::{
    block_rows, capability_for, doc_advanced, evicts, genesis_outcome, genesis_write, node_push,
    node_visibility, page_snapshot, seeded_blocks, CampaignRole, Capability, DocBlock, DocSection, EvictionTimer,
    GenesisWrite, NodeState, Occupancy, PageInit, PageInitError,
};
use campaign::persist::TimerCommand;
use campaign::supervisor::{DocumentPageKind, PageGenesis, PageKind};
use campaign::toc::{Status, TocEntry, TocPageKind, TocRow, TreeId};
use campaign::toc_room::{PageSummary, TocRoom};

#[test]
fn born_vacating_self_evicts_without_a_join() {
    let (occ, timer) = Occupancy::born();
    assert_eq!(occ, Occupancy::Vacating);
    assert_eq!(timer, EvictionTimer { abort_prior: false, arm: true });
    assert!(evicts(0));
    assert!(!evicts(1));
}

#[test]
fn join_cancels_and_last_leave_rearms_eviction() {
    let (mut occ, _) = Occupancy::born();
    assert_eq!(occ.mark_occupied(), EvictionTimer { abort_prior: true, arm: false });
    assert_eq!(occ, Occupancy::Occupied);
    assert_eq!(occ.client_left(1), None);
    assert_eq!(occ.client_left(0), Some(EvictionTimer { abort_prior: false, arm: true }));
    assert_eq!(occ.schedule_eviction(), EvictionTimer { abort_prior: true, arm: true }, "only one timer is ever live");
}

#[test]
fn capability_follows_role() {
    assert_eq!(capability_for(CampaignRole::Gm), Capability::Write);
    assert_eq!(capability_for(CampaignRole::Player), Capability::Read);
}

#[test]
fn meta_title_edit_pushes_rename_to_toc() {
    let mut last = NodeState { title: "Old".into(), visibility: Status::GmOnly };
    assert!(!node_push(&mut last, NodeState { title: "Old".into(), visibility: Status::GmOnly }), "a body edit pushes nothing");
    assert!(node_push(&mut last, NodeState { title: "New".into(), visibility: Status::GmOnly }));
    assert_eq!(last.title, "New");
    assert!(node_push(&mut last, NodeState { title: "New".into(), visibility: Status::Known }));
    assert_eq!(node_visibility(None), Status::GmOnly);
    assert_eq!(node_visibility(Some(Status::Known)), Status::Known);
}

#[test]
fn doc_versions_decide_persistence() {
    assert!(!doc_advanced(&vec![1, 2], &vec![1, 2]));
    assert!(doc_advanced(&vec![1, 2], &vec![1, 3]));
    assert!(doc_advanced(&vec![1], &vec![1, 0]));
}

#[test]
fn genesis_failure_fails_start() {
    assert_eq!(genesis_outcome::<u8, &str>(Ok(4)), Ok(4));
    assert_eq!(genesis_outcome::<u8, &str>(Err("db")), Err(PageInitError::Genesis));
}

#[test]
fn flush_rows_cover_every_block() {
    let keep = BlockId::generate();
    let sections = vec![
        DocSection { section: "preamble".into(), blocks: vec![DocBlock { id: Some(keep), ordering: 0, content: "a".into() }] },
        DocSection {
            section: "body".into(),
            blocks: vec![
                DocBlock { id: None, ordering: 0, content: "b".into() },
                DocBlock { id: None, ordering: 1, content: "c".into() },
            ],
        },
    ];
    let page = PageId::generate();
    let rows = block_rows(page, &sections, 9);
    assert_eq!(rows.len(), 3);
    assert_eq!(rows[0].id, keep);
    assert_eq!(rows[0].section, "preamble");
    assert_eq!(rows[2].section, "body");
    assert_eq!(rows[2].ordering, 1);
    assert!(rows.iter().all(|r| r.status == Status::GmOnly && r.page_id == page && r.created_at == 9));
    assert_ne!(rows[1].id, rows[2].id, "a block without an id gets a fresh one");
    let seeded: Vec<NewBlock> = seeded_blocks(&sections);
    assert_eq!(seeded.len(), 3);
    assert_eq!(seeded[0].id, keep);
    assert_eq!(seeded[1].content, "b");
}

fn summary(name: &str, kind: PageKind) -> PageSummary {
    PageSummary { page_id: PageId::generate(), name: name.into(), status: Status::Known, kind }
}

#[test]
fn toc_room_restores_known_pages_and_skips_broken_sessions() {
    let entity = summary("Keep", PageKind::Entity);
    let session = summary("Session One", PageKind::Session);
    let broken = summary("Lost Session", PageKind::Session);
    let ordinals = vec![(session.page_id, 1i64)];
    let (room, cmd) = TocRoom::restore(Vec::new(), vec![entity.clone(), session.clone(), broken.clone()], &ordinals);
    assert!(room.is_dirty(), "orphans make the restore dirty");
    assert_eq!(cmd, TimerCommand { abort_prior: false, arm: true });
    assert!(room.resolve_page_node(entity.page_id).is_some());
    assert!(room.resolve_page_node(session.page_id).is_some());
    assert!(room.resolve_page_node(broken.page_id).is_none(), "a session without its temporal row is skipped");
}

#[test]
fn add_page_node_tracks_known_page_and_persists() {
    let (mut room, _) = TocRoom::restore(Vec::new(), Vec::new(), &Vec::new());
    assert!(!room.is_dirty());
    let page = PageId::generate();
    let (node, cmd) = room.add_page_node(page, "Fresh".into(), TocPageKind::Entity, Status::GmOnly, None);
    assert_eq!(cmd, TimerCommand { abort_prior: false, arm: true });
    assert_eq!(room.resolve_page_node(page), Some(node));
    let rows: Vec<TocRow> = room.flush_rows();
    assert_eq!(rows.len(), 1, "the new page is known, so it is persisted");
    assert_eq!(rows[0].page_id, Some(page));
}

#[test]
fn add_page_node_under_a_missing_parent_lands_at_root() {
    let (mut room, _) = TocRoom::restore(Vec::new(), Vec::new(), &Vec::new());
    let parent = PageId::generate();
    let (p_node, _) = room.add_page_node(parent, "Parent".into(), TocPageKind::Entity, Status::Known, None);
    let child = PageId::generate();
    room.add_page_node(child, "Child".into(), TocPageKind::Entity, Status::Known, Some(parent));
    let stray = PageId::generate();
    room.add_page_node(stray, "Stray".into(), TocPageKind::Entity, Status::Known, Some(PageId::generate()));
    let rows = room.flush_rows();
    let child_row = rows.iter().find(|r| r.page_id == Some(child)).unwrap();
    let parent_row = rows.iter().find(|r| r.page_id == Some(parent)).unwrap();
    let stray_row = rows.iter().find(|r| r.page_id == Some(stray)).unwrap();
    assert_eq!(child_row.parent_id.as_ref(), Some(&parent_row.id));
    assert_eq!(stray_row.parent_id, None);
    let _ = p_node;
}

#[test]
fn update_page_node_refreshes_title_and_persists_only_on_visibility() {
    let (mut room, _) = TocRoom::restore(Vec::new(), Vec::new(), &Vec::new());
    let page = PageId::generate();
    room.add_page_node(page, "Before".into(), TocPageKind::Session { ordinal: 3 }, Status::GmOnly, None);
    let rows = room.flush_rows();
    assert_eq!(rows.len(), 1);
    room.after_flush(&Ok(()));
    assert!(!room.is_dirty());

    assert_eq!(room.update_page_node(page, "After".into(), Status::GmOnly), None, "a rename alone is not persisted");
    assert!(!room.is_dirty());
    assert!(room.update_page_node(page, "After".into(), Status::Known).is_some());
    assert!(room.is_dirty());
    assert_eq!(room.update_page_node(PageId::generate(), "Nobody".into(), Status::Known), None);
    let _ = TocEntry::Folder { title: String::new(), visibility: Status::Known };
}

#[test]
fn genesis_write_births_the_page_its_init_names() {
    let page = PageId::generate();
    let tpl = PageId::generate();
    let sections = vec![
        DocSection { section: "preamble".to_string(), blocks: vec![DocBlock { id: None, ordering: 0, content: "p".to_string() }] },
        DocSection { section: "body".to_string(), blocks: vec![DocBlock { id: None, ordering: 0, content: "b".to_string() }] },
    ];
    assert_eq!(genesis_write(page, &PageInit::Restore, &sections), None);

    let init = PageInit::NewDocumentPage(PageGenesis {
        page_id: page,
        name: "Keep".to_string(),
        kind: DocumentPageKind::Template,
        status: Status::Known,
        template_id: Some(tpl),
        seed: Vec::new(),
    });
    match genesis_write(page, &init, &sections) {
        Some(GenesisWrite::Page(w)) => {
            assert_eq!(w.new_page.id, page);
            assert_eq!(w.new_page.name, "Keep");
            assert_eq!(w.new_page.kind, PageKind::Template);
            assert_eq!(w.new_page.status, Status::Known);
            assert_eq!(w.new_page.template_id, Some(tpl));
            let secs: Vec<&str> = w.new_page.blocks.iter().map(|b| b.section.as_str()).collect();
            assert_eq!(secs, vec!["preamble", "body"]);
            assert!(w.new_page.blocks.iter().all(|b| b.status == Status::GmOnly));
        }
        other => panic!("expected a page write, got {other:?}"),
    }

    let init = PageInit::NewSession { name: "Session Zero".to_string(), status: Status::GmOnly };
    match genesis_write(page, &init, &sections) {
        Some(GenesisWrite::Session(w)) => {
            assert_eq!(w.new_page.kind, PageKind::Session);
            assert_eq!(w.new_page.name, "Session Zero");
            assert_eq!(w.new_page.template_id, None);
            assert_eq!(w.new_page.blocks.len(), 2);
        }
        other => panic!("expected a session write, got {other:?}"),
    }
}

#[test]
fn page_flush_replaces_only_that_pages_blocks() {
    let page = PageId::generate();
    let keep = BlockId::generate();
    let sections = vec![DocSection {
        section: "body".to_string(),
        blocks: vec![
            DocBlock { id: Some(keep), ordering: 0, content: "a".to_string() },
            DocBlock { id: None, ordering: 1, content: "b".to_string() },
        ],
    }];
    let msg = page_snapshot(page, &sections, Some("The Keep".to_string()), 42);
    assert_eq!(msg.page_id, page);
    assert_eq!(msg.name_sync, Some("The Keep".to_string()));
    assert_eq!(msg.blocks.len(), 2);
    assert!(msg.blocks.iter().all(|b| b.created_at == 42 && b.updated_at == 42));
    let plan = page_blocks_write(&msg);
    assert_eq!(plan.rename, Some((page, "The Keep".to_string())), "the title is carried to the page row");
    match plan.blocks {
        BlockSnapshotWrite::PruneAndUpsert { page_id, keep_ids, update_columns } => {
            assert_eq!(page_id, page);
            assert_eq!(keep_ids, vec![keep, msg.blocks[1].id]);
            assert!(!update_columns.contains(&BlockColumn::CreatedAt), "an edited block keeps its creation time");
            assert!(!update_columns.contains(&BlockColumn::PageId));
        }
        other => panic!("expected a scoped prune, got {other:?}"),
    }
    let empty = page_snapshot(page, &Vec::new(), None, 42);
    let plan = page_blocks_write(&empty);
    assert_eq!(plan.blocks, BlockSnapshotWrite::DeletePageBlocks { page_id: page });
    assert_eq!(plan.rename, None);
}

#[test]
fn placing_under_a_vanished_node_changes_nothing() {
    let (mut room, _) = TocRoom::restore(Vec::new(), Vec::new(), &Vec::new());
    let folder = room.seed_folder("Lore".to_string(), Status::Known, Vec::new()).0;
    let page = PageId::generate();
    let (node, _) = room
        .place_page_node(page, "Keep".to_string(), TocPageKind::Entity, Status::Known, Some(folder))
        .expect("the folder is there");
    assert_ne!(node, folder);
    let gone = TreeId { peer: 0, counter: 999 };
    let other = PageId::generate();
    assert!(room.place_page_node(other, "Lost".to_string(), TocPageKind::Entity, Status::Known, Some(gone)).is_err());
    let rows = room.flush_rows();
    assert_eq!(rows.len(), 2, "only the folder and the placed page are persisted");
}
