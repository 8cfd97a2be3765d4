use campaign::database_writer::{
    apply_patch, metadata_or_missing, new_page_row, new_session_row, next_session_ordinal,
    patch_metadata, relationship_insert_row, toc_snapshot_write, with_knowledge, with_landing_page,
    with_stamp, CampaignMetadata, MetadataError, OrdinalOverflow, PatchCampaignError,
    PatchCampaignMetadata, SnapshotWrite,
};
use campaign::ids::{PageId, RelationshipId, SessionId};
use campaign::relationship::{relationship_from_model, Knowledge, NewRelationship, Origin, StampColumn};
use campaign::supervisor::PageKind;
use campaign::toc::{Status, TocRow};

fn fresh_metadata() -> CampaignMetadata {
    CampaignMetadata {
        name: "New Campaign".into(),
        tagline: None,
        game_system: None,
        content_locale: None,
        wizard_completed_at: None,
        home_page_id: None,
        created_at: 100,
        updated_at: 100,
    }
}

#[test]
fn patch_with_wizard_complete_writes_metadata() {
    let result = apply_patch(
        fresh_metadata(),
        PatchCampaignMetadata {
            name: Some("Curse of Strahd".into()),
            tagline: Some("Gothic horror in Barovia".into()),
            game_system: Some("D&D 5e".into()),
            content_locale: Some("en".into()),
            complete_wizard: true,
        },
        200,
    )
    .expect("patch should succeed");
    assert!(result.wizard_just_completed);
    assert_eq!(result.model.wizard_completed_at, Some(200));
    assert_eq!(result.model.name, "Curse of Strahd");
    assert_eq!(result.model.tagline.as_deref(), Some("Gothic horror in Barovia"));
    assert_eq!(result.model.game_system.as_deref(), Some("D&D 5e"));
    assert_eq!(result.model.content_locale.as_deref(), Some("en"));
    assert_eq!(result.model.updated_at, 200);
    assert_eq!(result.model.created_at, 100);
}

#[test]
fn patch_without_wizard_complete_updates_fields_only() {
    let result = apply_patch(
        fresh_metadata(),
        PatchCampaignMetadata { name: Some("Renamed Campaign".into()), tagline: None, game_system: None, content_locale: None, complete_wizard: false },
        300,
    )
    .expect("patch should succeed");
    assert!(!result.wizard_just_completed);
    assert!(result.model.wizard_completed_at.is_none());
    assert_eq!(result.model.name, "Renamed Campaign");
}

#[test]
fn double_wizard_complete_returns_already_initialized() {
    let first = apply_patch(
        fresh_metadata(),
        PatchCampaignMetadata { name: Some("First".into()), tagline: None, game_system: Some("PF2e".into()), content_locale: Some("en".into()), complete_wizard: true },
        10,
    )
    .expect("first patch");
    let err = apply_patch(
        first.model,
        PatchCampaignMetadata { name: Some("Second".into()), tagline: None, game_system: Some("Blades".into()), content_locale: Some("en".into()), complete_wizard: true },
        20,
    )
    .expect_err("second wizard_complete should be rejected");
    assert_eq!(err, PatchCampaignError::AlreadyInitialized);
}

#[test]
fn patch_without_a_row_is_refused() {
    let msg = PatchCampaignMetadata { name: None, tagline: None, game_system: None, content_locale: None, complete_wizard: false };
    assert_eq!(patch_metadata(None, msg.clone()), Err(PatchCampaignError::NoMetadataRow));
    let r = patch_metadata(Some(fresh_metadata()), msg).expect("row present");
    assert_eq!(r.model.name, "New Campaign");
    assert_eq!(metadata_or_missing(None), Err(MetadataError::NoMetadataRow));
}

#[test]
fn landing_page_touches_only_its_pointer() {
    let p = PageId::generate();
    let m = with_landing_page(fresh_metadata(), p, 500);
    assert_eq!(m.home_page_id, Some(p));
    assert_eq!(m.updated_at, 500);
    assert_eq!(m.name, "New Campaign");
}

#[test]
fn db_create_session_mints_linked_temporal_rows_with_sequential_ordinals() {
    assert_eq!(next_session_ordinal(None), Ok(1));
    assert_eq!(next_session_ordinal(Some(1)), Ok(2), "max + 1");
    assert_eq!(next_session_ordinal(Some(i64::MAX)), Err(OrdinalOverflow));
    let page = PageId::generate();
    let id = SessionId::generate();
    let s = new_session_row(id, 1, page, 42);
    assert_eq!(s.page_id, Some(page));
    assert_eq!(s.created_at, s.updated_at);
    let row = new_page_row(page, "Session One".into(), Status::GmOnly, PageKind::Session, None, 42);
    assert_eq!(row.created_at, 42);
    assert_eq!(row.kind, PageKind::Session);
}

#[test]
fn toc_snapshot_write_prunes_to_the_snapshot() {
    assert_eq!(toc_snapshot_write(&Vec::new()), SnapshotWrite::DeleteAll);
    let rows = vec![TocRow { id: "a".into(), page_id: None, folder_title: Some("F".into()), visibility: Status::Known, parent_id: None, position: 0 }];
    assert_eq!(toc_snapshot_write(&rows), SnapshotWrite::PruneAndUpsert { keep_ids: vec!["a".into()] });
}

#[test]
fn relationship_rows_round_trip() {
    let s = SessionId::generate();
    let new = NewRelationship {
        id: RelationshipId::generate(),
        page_a: PageId::generate(),
        page_b: PageId::generate(),
        predicate_a_to_b: "rules".into(),
        predicate_b_to_a: "is ruled by".into(),
        origin: Origin::Session(s),
        superseded: None,
        retcon: None,
        knowledge: Knowledge::Secret { revealed_at: None },
    };
    let row = relationship_insert_row(new.clone(), 77);
    assert!(row.is_secret);
    assert_eq!(row.origin_session_id, Some(s));
    let rel = relationship_from_model(row.clone());
    assert_eq!(rel.origin, new.origin);
    assert_eq!(rel.knowledge, new.knowledge);
    assert_eq!(rel.created_at, 77);
    let stamped = with_stamp(row.clone(), StampColumn::Retcon, Some(s));
    assert_eq!(stamped.retcon_session_id, Some(s));
    assert_eq!(stamped.superseded_session_id, None);
    let public = with_knowledge(row, Knowledge::Public);
    assert!(!public.is_secret);
    assert_eq!(public.reveal_session_id, None);
}
