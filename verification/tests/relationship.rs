use std::collections::HashMap;

use campaign::ids::{PageId, RelationshipId, SessionId};
use campaign::relationship::{
    apply_err_from_write, canonicalize, check_supersede, create_err_from_write,
    create_writes, first_missing_session, map_relationship_write_error, op_writes,
    origin_from, referenced_sessions, relationship_from_model, resolve_name, resolve_ordinal,
    ApplyOp, ApplyOpError, ApplyOpFlow, ApplyOpStage, ApplyOpStep, CanonicalEdge, CreateRelationship, CreateRelationshipError,
    CreateRelationshipFlow, CreateRelationshipStage, CreateRelationshipStep, DbFailure, EdgeError, Ending, Knowledge,
    Origin, RelationshipOp, RelationshipRow, RelationshipStore, RelationshipWrite,
    RelationshipWriteError, RelationshipWriteOutcome, StampColumn,
};

fn row(id: RelationshipId, a: PageId, b: PageId, fwd: &str, rev: &str) -> RelationshipRow {
    RelationshipRow {
        id,
        page_a: a,
        page_b: b,
        predicate_a_to_b: fwd.to_string(),
        predicate_b_to_a: rev.to_string(),
        origin_session_id: None,
        superseded_session_id: None,
        retcon_session_id: None,
        is_secret: false,
        reveal_session_id: None,
        created_at: 1_700_000_000_000,
    }
}

fn ordered_pages() -> (PageId, PageId) {
    let x = PageId::generate();
    let y = PageId::generate();
    if x.0 < y.0 { (x, y) } else { (y, x) }
}

#[test]
fn model_row_becomes_relationship() {
    let (a, b) = ordered_pages();
    let s1 = SessionId::generate();
    let s2 = SessionId::generate();
    let mut m = row(RelationshipId::generate(), a, b, "rules", "is ruled by");
    m.origin_session_id = Some(s1);
    m.superseded_session_id = Some(s2);
    m.is_secret = true;
    m.reveal_session_id = Some(s2);
    let r = relationship_from_model(m.clone());
    assert_eq!(r.id, m.id);
    assert_eq!(r.origin, Origin::Session(s1));
    assert_eq!(r.superseded, Some(s2));
    assert_eq!(r.retcon, None);
    assert_eq!(r.knowledge, Knowledge::Secret { revealed_at: Some(s2) });
    assert_eq!(r.predicate_a_to_b, "rules");
    assert_eq!(origin_from(None), Origin::Prior);
}

#[test]
fn knowledge_columns() {
    let s = SessionId::generate();
    assert_eq!(Knowledge::from_columns(false, None), Some(Knowledge::Public));
    assert_eq!(Knowledge::from_columns(true, Some(s)), Some(Knowledge::Secret { revealed_at: Some(s) }));
    assert_eq!(Knowledge::from_columns(false, Some(s)), None);
    let k = Knowledge::Secret { revealed_at: None };
    assert!(k.is_secret());
    assert_eq!(k.reveal_session_id(), None);
    assert!(!Knowledge::Public.is_secret());
}

#[test]
fn store_upsert_get_remove() {
    let (a, b) = ordered_pages();
    let id = RelationshipId::generate();
    let mut store = RelationshipStore::new();
    store.upsert(relationship_from_model(row(id, a, b, "guards", "is guarded by")));
    assert_eq!(store.get(id).map(|r| r.predicate_a_to_b.clone()), Some("guards".to_string()));
    let mut replaced = row(id, a, b, "protects", "is protected by");
    replaced.retcon_session_id = Some(SessionId::generate());
    store.upsert(relationship_from_model(replaced));
    assert_eq!(store.get(id).map(|r| r.predicate_a_to_b.clone()), Some("protects".to_string()));
    assert_eq!(store.all_edges().len(), 1);
    store.remove(id);
    assert!(store.get(id).is_none());
    assert!(store.all_edges().is_empty());
}

#[test]
fn edges_touching_a_page() {
    let a = PageId::generate();
    let b = PageId::generate();
    let c = PageId::generate();
    let mut store = RelationshipStore::new();
    let ab = RelationshipId::generate();
    let ac = RelationshipId::generate();
    let bc = RelationshipId::generate();
    store.upsert(relationship_from_model(row(ab, a, b, "x", "y")));
    store.upsert(relationship_from_model(row(ac, a, c, "x", "y")));
    store.upsert(relationship_from_model(row(bc, b, c, "x", "y")));
    let mut touching: Vec<RelationshipId> = store.edges_touching(a).iter().map(|r| r.id).collect();
    touching.sort_by_key(|r| r.0);
    let mut expected = vec![ab, ac];
    expected.sort_by_key(|r| r.0);
    assert_eq!(touching, expected);
    assert!(store.edges_touching(PageId::generate()).is_empty());
}

#[test]
fn load_and_reflect() {
    let (a, b) = ordered_pages();
    let r1 = RelationshipId::generate();
    let r2 = RelationshipId::generate();
    let mut store = RelationshipStore::load(vec![row(r1, a, b, "x", "y"), row(r2, a, b, "p", "q")]);
    assert_eq!(store.all_edges().len(), 2);
    let mut stamped = row(r1, a, b, "x", "y");
    let s = SessionId::generate();
    stamped.superseded_session_id = Some(s);
    store.reflect(vec![RelationshipWriteOutcome::Upserted(stamped), RelationshipWriteOutcome::Removed(r2)]);
    assert_eq!(store.get(r1).unwrap().superseded, Some(s));
    assert!(store.get(r2).is_none());
}

#[test]
fn canonicalize_orders_endpoints() {
    let (lo, hi) = ordered_pages();
    let e = canonicalize(hi, lo, "serves".into(), "is served by".into()).unwrap();
    assert_eq!(
        e,
        CanonicalEdge { page_a: lo, page_b: hi, predicate_a_to_b: "is served by".into(), predicate_b_to_a: "serves".into() }
    );
    let same = canonicalize(lo, hi, "is served by".into(), "serves".into()).unwrap();
    assert_eq!(e, same);
    assert_eq!(canonicalize(lo, lo, "a".into(), "b".into()), Err(EdgeError::SelfEdge));
    assert_eq!(canonicalize(lo, hi, "".into(), "b".into()), Err(EdgeError::EmptyPredicate));
    assert_eq!(CreateRelationshipError::from_edge(EdgeError::SelfEdge), CreateRelationshipError::SelfEdge);
}

#[test]
fn into_new_births_with_its_ending() {
    let (lo, hi) = ordered_pages();
    let s = SessionId::generate();
    let e = canonicalize(lo, hi, "a".into(), "b".into()).unwrap();
    let id = RelationshipId::generate();
    let n = e.into_new(id, Knowledge::Public, Origin::Prior, Some(Ending::Retconned(s)));
    assert_eq!(n.id, id);
    assert_eq!(n.retcon, Some(s));
    assert_eq!(n.superseded, None);
}

#[test]
fn supersede_checks() {
    let (a, b) = ordered_pages();
    let s = SessionId::generate();
    let edge = canonicalize(a, b, "x".into(), "y".into()).unwrap();
    let live = relationship_from_model(row(RelationshipId::generate(), a, b, "x", "y"));
    assert_eq!(check_supersede(None, &edge, Origin::Session(s)), Err(CreateRelationshipError::SupersedesNotFound));
    assert_eq!(check_supersede(Some(&live), &edge, Origin::Session(s)), Ok(s));
    assert_eq!(check_supersede(Some(&live), &edge, Origin::Prior), Err(CreateRelationshipError::PriorOriginCannotSupersede));
    let mut ended = live.clone();
    ended.superseded = Some(s);
    assert_eq!(check_supersede(Some(&ended), &edge, Origin::Session(s)), Err(CreateRelationshipError::SupersedesNotLive));
    let other_pair = canonicalize(a, PageId::generate(), "x".into(), "y".into()).unwrap();
    assert_eq!(check_supersede(Some(&live), &other_pair, Origin::Session(s)), Err(CreateRelationshipError::SupersedesDifferentPair));
}

#[test]
fn supersede_batch_creates_first() {
    let (a, b) = ordered_pages();
    let s = SessionId::generate();
    let old = RelationshipId::generate();
    let n = canonicalize(a, b, "x".into(), "y".into()).unwrap().into_new(RelationshipId::generate(), Knowledge::Public, Origin::Session(s), None);
    let w = create_writes(n.clone(), Some((old, s)));
    assert_eq!(w.len(), 2);
    assert_eq!(w[0], RelationshipWrite::Create(n.clone()));
    assert_eq!(w[1], RelationshipWrite::SetStamp { rel_id: old, column: StampColumn::Superseded, at: Some(s) });
    assert_eq!(create_writes(n.clone(), None), vec![RelationshipWrite::Create(n)]);
}

#[test]
fn supersede_batch_is_reflected_into_the_graph() {
    let (a, b) = ordered_pages();
    let s = SessionId::generate();
    let old_id = RelationshipId::generate();
    let mut store = RelationshipStore::new();
    store.upsert(relationship_from_model(row(old_id, a, b, "rules", "is ruled by")));
    let (mut flow, _) = CreateRelationshipFlow::start(create_msg(a, b, Origin::Session(s), Some(old_id)), RelationshipId::generate());
    flow.page_checked(Ok(true), &store);
    flow.page_checked(Ok(true), &store);
    let new_id = flow.id;
    flow.origin_ordinal_found(Ok(Some(4)), &store);
    let mut new_row = row(new_id, a, b, "rules", "is ruled by");
    new_row.origin_session_id = Some(s);
    let mut ended = row(old_id, a, b, "rules", "is ruled by");
    ended.superseded_session_id = Some(s);
    let got = flow
        .applied(
            Ok(vec![RelationshipWriteOutcome::Upserted(new_row.clone()), RelationshipWriteOutcome::Upserted(ended)]),
            &mut store,
        )
        .unwrap();
    assert_eq!(got, new_row, "the reply is the new row");
    assert_eq!(store.get(new_id).map(|r| r.origin), Some(Origin::Session(s)));
    assert_eq!(store.get(old_id).map(|r| r.superseded), Some(Some(s)), "the old fact is stamped superseded");

    let (mut flow, _) = CreateRelationshipFlow::start(create_msg(a, b, Origin::Prior, None), RelationshipId::generate());
    flow.page_checked(Ok(true), &store);
    flow.page_checked(Ok(true), &store);
    assert_eq!(
        flow.applied(Ok(Vec::new()), &mut store),
        Err(CreateRelationshipError::Db("create batch returned no committed row".into()))
    );
}

#[test]
fn ops_decompose_into_one_write() {
    let id = RelationshipId::generate();
    let s = SessionId::generate();
    assert_eq!(op_writes(id, RelationshipOp::End { as_of: s }), vec![RelationshipWrite::SetStamp { rel_id: id, column: StampColumn::Superseded, at: Some(s) }]);
    assert_eq!(op_writes(id, RelationshipOp::Retcon { as_of: s }), vec![RelationshipWrite::SetStamp { rel_id: id, column: StampColumn::Retcon, at: Some(s) }]);
    assert_eq!(op_writes(id, RelationshipOp::Delete), vec![RelationshipWrite::Delete { rel_id: id }]);
    assert_eq!(
        op_writes(id, RelationshipOp::SetKnowledge { knowledge: Knowledge::Public }),
        vec![RelationshipWrite::SetKnowledge { rel_id: id, knowledge: Knowledge::Public }]
    );
}

#[test]
fn end_cannot_precede_origin() {
    let (a, b) = ordered_pages();
    let s = SessionId::generate();
    let began = SessionId::generate();
    let id = RelationshipId::generate();
    let mut m = row(id, a, b, "x", "y");
    m.origin_session_id = Some(began);
    let mut store = RelationshipStore::new();
    store.upsert(relationship_from_model(m));
    let end = RelationshipOp::End { as_of: s };
    let begin = |rel_id| {
        let (flow, step) = ApplyOpFlow::start(ApplyOp { rel_id, op: end });
        assert_eq!(step, ApplyOpStep::LookupOrdinal(s));
        flow
    };

    let mut f = begin(id);
    assert_eq!(f.end_ordinal_found(Ok(None), &store), ApplyOpStep::Failed(ApplyOpError::SessionNotFound(s)));
    let mut f = begin(RelationshipId::generate());
    assert_eq!(f.end_ordinal_found(Ok(Some(3)), &store), ApplyOpStep::Failed(ApplyOpError::NotFound));
    let mut f = begin(id);
    assert_eq!(f.end_ordinal_found(Ok(Some(3)), &store), ApplyOpStep::LookupOrdinal(began));
    assert_eq!(f.origin_ordinal_found(Ok(Some(5))), ApplyOpStep::Failed(ApplyOpError::EndBeforeOrigin));
    let mut f = begin(id);
    f.end_ordinal_found(Ok(Some(5)), &store);
    assert_eq!(
        f.origin_ordinal_found(Ok(Some(5))),
        ApplyOpStep::Apply(vec![RelationshipWrite::SetStamp { rel_id: id, column: StampColumn::Superseded, at: Some(s) }])
    );
    assert_eq!(f.stage, ApplyOpStage::AwaitWrite);
    assert_eq!(f.applied(Err(campaign::persist::SendFailure::ActorStopped), &mut store), Err(ApplyOpError::ActorUnavailable));

    let prior = RelationshipId::generate();
    store.upsert(relationship_from_model(row(prior, a, b, "p", "q")));
    let mut f = begin(prior);
    assert_eq!(
        f.end_ordinal_found(Ok(Some(1)), &store),
        ApplyOpStep::Apply(vec![RelationshipWrite::SetStamp { rel_id: prior, column: StampColumn::Superseded, at: Some(s) }]),
        "a fact known before the campaign can end at any session"
    );
}

#[test]
fn other_ops_write_at_once() {
    let id = RelationshipId::generate();
    let (mut flow, step) = ApplyOpFlow::start(ApplyOp { rel_id: id, op: RelationshipOp::Delete });
    assert_eq!(step, ApplyOpStep::Apply(vec![RelationshipWrite::Delete { rel_id: id }]));
    let (a, b) = ordered_pages();
    let mut store = RelationshipStore::new();
    store.upsert(relationship_from_model(row(id, a, b, "x", "y")));
    assert_eq!(flow.applied(Ok(vec![RelationshipWriteOutcome::Removed(id)]), &mut store), Ok(()));
    assert!(store.get(id).is_none(), "the removal is reflected");
    let (mut flow, _) = ApplyOpFlow::start(ApplyOp { rel_id: id, op: RelationshipOp::Delete });
    assert_eq!(
        flow.applied(Err(campaign::persist::SendFailure::HandlerError(RelationshipWriteError::NotFound)), &mut store),
        Err(ApplyOpError::NotFound)
    );
}

#[test]
fn write_errors_map_per_path() {
    assert_eq!(map_relationship_write_error(DbFailure::UniqueViolation("idx".into())), RelationshipWriteError::DuplicateLiveFact);
    assert_eq!(map_relationship_write_error(DbFailure::Other("io".into())), RelationshipWriteError::Db("io".into()));
    assert_eq!(create_err_from_write(RelationshipWriteError::DuplicateLiveFact), CreateRelationshipError::DuplicateLiveFact);
    assert_eq!(
        create_err_from_write(RelationshipWriteError::NotFound),
        CreateRelationshipError::Db("unexpected NotFound creating relationship".into())
    );
    assert_eq!(apply_err_from_write(RelationshipWriteError::NotFound), ApplyOpError::NotFound);
    assert_eq!(apply_err_from_write(RelationshipWriteError::Db("x".into())), ApplyOpError::Db("x".into()));
}

#[test]
fn referenced_sessions_in_order() {
    let (a, b) = ordered_pages();
    let s1 = SessionId::generate();
    let s2 = SessionId::generate();
    let mut m = row(RelationshipId::generate(), a, b, "x", "y");
    m.origin_session_id = Some(s1);
    m.retcon_session_id = Some(s2);
    let r = relationship_from_model(m);
    let mut out = Vec::new();
    referenced_sessions(&r, &mut out);
    assert_eq!(out, vec![s1, s2]);
}

#[test]
fn lookups_report_broken_invariants() {
    let s = SessionId::generate();
    let p = PageId::generate();
    let mut ordinals = HashMap::new();
    ordinals.insert(s.0, 4i64);
    assert_eq!(resolve_ordinal(&ordinals, s), Ok(4));
    let missing = SessionId::generate();
    assert_eq!(
        resolve_ordinal(&ordinals, missing),
        Err(format!("referenced session {} missing ordinal (FK invariant broken)", ulid::Ulid(missing.0)))
    );
    assert_eq!(first_missing_session(&vec![s, missing, s], &ordinals), Some(missing));
    assert_eq!(first_missing_session(&vec![s], &ordinals), None);
    let mut names = HashMap::new();
    names.insert(p.0, "Castle".to_string());
    assert_eq!(resolve_name(&names, p), Ok("Castle".to_string()));
    let q = PageId::generate();
    assert_eq!(
        resolve_name(&names, q),
        Err(format!("relationship endpoint {} missing name (FK ON DELETE CASCADE invariant broken)", ulid::Ulid(q.0)))
    );
}

fn create_msg(subject: PageId, other: PageId, origin: Origin, supersedes: Option<RelationshipId>) -> CreateRelationship {
    CreateRelationship {
        subject,
        other,
        predicate_forward: "rules".to_string(),
        predicate_reverse: "is ruled by".to_string(),
        knowledge: Knowledge::Public,
        origin,
        ending: None,
        supersedes,
    }
}

#[test]
fn create_flow_checks_both_pages_then_writes() {
    let (a, b) = ordered_pages();
    let store = RelationshipStore::new();
    let id = RelationshipId::generate();
    let (mut flow, step) = CreateRelationshipFlow::start(create_msg(b, a, Origin::Prior, None), id);
    assert_eq!(step, CreateRelationshipStep::CheckPage(a), "the lower page is checked first");
    assert_eq!(flow.page_checked(Ok(true), &store), CreateRelationshipStep::CheckPage(b));
    match flow.page_checked(Ok(true), &store) {
        CreateRelationshipStep::Apply(w) => {
            assert_eq!(w.len(), 1);
            match &w[0] {
                RelationshipWrite::Create(n) => {
                    assert_eq!(n.id, id);
                    assert_eq!((n.page_a, n.page_b), (a, b));
                    assert_eq!(n.predicate_a_to_b, "is ruled by", "predicates follow the canonical direction");
                    assert_eq!(n.origin, Origin::Prior);
                }
                other => panic!("expected a create, got {other:?}"),
            }
        }
        other => panic!("expected the write batch, got {other:?}"),
    }
    assert_eq!(flow.stage, CreateRelationshipStage::AwaitWrite);
    let committed = row(id, a, b, "is ruled by", "rules");
    let mut store = store;
    let got = flow.applied(Ok(vec![RelationshipWriteOutcome::Upserted(committed.clone())]), &mut store).unwrap();
    assert_eq!(got, committed);
    assert_eq!(store.get(id).map(|r| r.predicate_a_to_b.clone()), Some("is ruled by".to_string()));
}

#[test]
fn create_flow_rejects_before_writing() {
    let (a, b) = ordered_pages();
    let store = RelationshipStore::new();
    let (_, step) = CreateRelationshipFlow::start(create_msg(a, a, Origin::Prior, None), RelationshipId::generate());
    assert_eq!(step, CreateRelationshipStep::Failed(CreateRelationshipError::SelfEdge));

    let (mut flow, _) = CreateRelationshipFlow::start(create_msg(a, b, Origin::Prior, None), RelationshipId::generate());
    assert_eq!(flow.page_checked(Ok(false), &store), CreateRelationshipStep::Failed(CreateRelationshipError::PageNotFound(a)));

    let s = SessionId::generate();
    let (mut flow, _) = CreateRelationshipFlow::start(create_msg(a, b, Origin::Session(s), None), RelationshipId::generate());
    flow.page_checked(Ok(true), &store);
    assert_eq!(flow.page_checked(Ok(true), &store), CreateRelationshipStep::LookupOrdinal(s));
    assert_eq!(flow.origin_ordinal_found(Ok(None), &store), CreateRelationshipStep::Failed(CreateRelationshipError::SessionNotFound(s)));

    let (mut flow, _) = CreateRelationshipFlow::start(create_msg(a, b, Origin::Prior, None), RelationshipId::generate());
    flow.page_checked(Ok(true), &store);
    flow.page_checked(Ok(true), &store);
    let mut store = store;
    assert_eq!(
        flow.applied(Err(campaign::persist::SendFailure::HandlerError(RelationshipWriteError::DuplicateLiveFact)), &mut store),
        Err(CreateRelationshipError::DuplicateLiveFact)
    );
    assert!(store.all_edges().is_empty(), "a refused batch leaves the graph alone");
}

#[test]
fn create_flow_supersede_dates_against_the_old_fact() {
    let (a, b) = ordered_pages();
    let early = SessionId::generate();
    let late = SessionId::generate();
    let old_id = RelationshipId::generate();
    let mut old_row = row(old_id, a, b, "rules", "is ruled by");
    old_row.origin_session_id = Some(early);
    let mut store = RelationshipStore::new();
    store.upsert(relationship_from_model(old_row));

    let run_to_old_ordinal = |store: &RelationshipStore| {
        let (mut flow, _) = CreateRelationshipFlow::start(create_msg(a, b, Origin::Session(late), Some(old_id)), RelationshipId::generate());
        flow.page_checked(Ok(true), store);
        flow.page_checked(Ok(true), store);
        assert_eq!(flow.origin_ordinal_found(Ok(Some(2)), store), CreateRelationshipStep::LookupOrdinal(early));
        flow
    };
    let mut flow = run_to_old_ordinal(&store);
    assert_eq!(flow.old_ordinal_found(Ok(Some(5))), CreateRelationshipStep::Failed(CreateRelationshipError::EndBeforeOrigin));
    let mut flow = run_to_old_ordinal(&store);
    match flow.old_ordinal_found(Ok(Some(1))) {
        CreateRelationshipStep::Apply(w) => {
            assert_eq!(w.len(), 2);
            assert!(matches!(&w[0], RelationshipWrite::Create(n) if n.superseded.is_none()));
            assert_eq!(w[1], RelationshipWrite::SetStamp { rel_id: old_id, column: StampColumn::Superseded, at: Some(late) });
        }
        other => panic!("expected the supersede batch, got {other:?}"),
    }

    let (mut flow, _) = CreateRelationshipFlow::start(create_msg(a, b, Origin::Prior, Some(old_id)), RelationshipId::generate());
    flow.page_checked(Ok(true), &store);
    assert_eq!(
        flow.page_checked(Ok(true), &store),
        CreateRelationshipStep::Failed(CreateRelationshipError::PriorOriginCannotSupersede)
    );
    let (mut flow, _) = CreateRelationshipFlow::start(create_msg(a, b, Origin::Prior, Some(RelationshipId::generate())), RelationshipId::generate());
    flow.page_checked(Ok(true), &store);
    assert_eq!(flow.page_checked(Ok(true), &store), CreateRelationshipStep::Failed(CreateRelationshipError::SupersedesNotFound));
}
