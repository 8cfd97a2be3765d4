use campaign::ids::{fresh_row_id, CampaignId, PageId};

#[test]
fn row_ids_are_ulid_text() {
    let a = fresh_row_id();
    let b = fresh_row_id();
    assert_eq!(a.len(), 26);
    assert_ne!(a, b);
    assert!(ulid::Ulid::from_string(&a).is_ok());
}

#[test]
fn page_id_text_round_trips() {
    let p = PageId::generate();
    let text = p.to_text();
    assert_eq!(text.len(), 26);
    assert_eq!(ulid::Ulid::from_string(&text).unwrap().0, p.0);
    assert_ne!(CampaignId::generate(), CampaignId::generate());
}

#[test]
fn ulid_text_is_crockford_base32() {
    let id = PageId(0x4141_4141_4141_4141_4141_4141_4141_4141);
    assert_eq!(id.to_text(), "21850M2GA1850M2GA1850M2GA1");
    assert_eq!(
        campaign::supervisor::route_room("page:21850m2ga1850m2ga1850m2ga1"),
        Ok(campaign::supervisor::RoomTarget::Page(id)),
        "lowercase digits read as uppercase"
    );
}
