use std::collections::HashSet;

use campaign::ids::{fresh_row_id, ConversationId, PageId};
use campaign::toc::{
    restore_toc, snapshot_toc, topological_sort, PageIdSet, PageInfo, PageRecord, RowIdMap,
    Status, TocDoc, TocEntry, TocEntryKind, TocPageKind, TocRow, TreeId,
};

fn make_folder(title: &str) -> TocEntry {
    TocEntry::Folder { title: title.to_string(), visibility: Status::Known }
}

fn make_page(title: &str) -> (TocEntry, PageId) {
    let page_id = PageId::generate();
    let entry = TocEntry::Page {
        title: title.to_string(),
        page_id,
        page_kind: TocPageKind::Entity,
        visibility: Status::Known,
    };
    (entry, page_id)
}

fn page_record(id: PageId, name: &str, status: Status) -> PageRecord {
    PageRecord { page_id: id, info: PageInfo { name: name.to_string(), status, page_kind: TocPageKind::Entity } }
}

fn known_of(pages: &[PageRecord]) -> PageIdSet {
    let mut known = PageIdSet::new();
    for p in pages {
        known.insert(p.page_id);
    }
    known
}

fn row_ids(rows: &[TocRow]) -> HashSet<String> {
    rows.iter().map(|r| r.id.clone()).collect()
}

/// A node of the tree as read back: its entry and its children.
#[derive(Debug, PartialEq)]
struct TreeNode {
    entry: TocEntry,
    children: Vec<TreeNode>,
}

fn read_tree_under(doc: &TocDoc, parent: Option<TreeId>) -> Vec<TreeNode> {
    doc.children(parent)
        .into_iter()
        .map(|t| TreeNode { entry: doc.read_entry(t).unwrap(), children: read_tree_under(doc, Some(t)) })
        .collect()
}

fn read_tree(doc: &TocDoc) -> Vec<TreeNode> {
    read_tree_under(doc, None)
}

fn folder_row(id: &str, title: &str, parent: Option<&str>) -> TocRow {
    TocRow {
        id: id.to_string(),
        page_id: None,
        folder_title: Some(title.to_string()),
        visibility: Status::Known,
        parent_id: parent.map(|p| p.to_string()),
        position: 0,
    }
}

fn check_round_trip_empty_tree() {
    let doc = TocDoc::new();
    let mut id_map = RowIdMap::new();
    let rows = snapshot_toc(&doc, &mut id_map, &PageIdSet::new());
    assert!(rows.is_empty());

    let restored = restore_toc(Vec::new(), &Vec::new());
    assert!(read_tree(&restored.doc).is_empty());
    assert!(!restored.dirty);
}

fn check_round_trip_flat_entries() {
    let mut doc = TocDoc::new();
    doc.add_entry(None, make_folder("Act I")).unwrap();
    let (page_entry, page_id) = make_page("The Iron Citadel");
    doc.add_entry(None, page_entry).unwrap();

    let pages = vec![page_record(page_id, "The Iron Citadel", Status::Known)];
    let known = known_of(&pages);

    let mut id_map = RowIdMap::new();
    let rows = snapshot_toc(&doc, &mut id_map, &known);
    assert_eq!(rows.len(), 2);

    let restored = restore_toc(rows, &pages);
    assert!(!restored.dirty);

    let before = read_tree(&doc);
    let round_tripped = read_tree(&restored.doc);
    assert_eq!(before.len(), round_tripped.len());
    assert_eq!(before[0].entry, round_tripped[0].entry);
    assert_eq!(before[1].entry, round_tripped[1].entry);
}

fn check_round_trip_nested_tree() {
    let mut doc = TocDoc::new();
    let folder_id = doc.add_entry(None, make_folder("Act I")).unwrap();
    let (child1, tid1) = make_page("The Dragon's Lair");
    doc.add_entry(Some(folder_id), child1).unwrap();
    let (child2, tid2) = make_page("The Crystal Cave");
    let child2_id = doc.add_entry(Some(folder_id), child2).unwrap();
    let (grandchild, tid3) = make_page("The Hidden Alcove");
    doc.add_entry(Some(child2_id), grandchild).unwrap();

    let pages = vec![
        page_record(tid1, "The Dragon's Lair", Status::Known),
        page_record(tid2, "The Crystal Cave", Status::Known),
        page_record(tid3, "The Hidden Alcove", Status::Known),
    ];
    let known = known_of(&pages);

    let mut id_map = RowIdMap::new();
    let rows = snapshot_toc(&doc, &mut id_map, &known);
    assert_eq!(rows.len(), 4);

    let restored = restore_toc(rows, &pages);
    assert!(!restored.dirty);

    let orig = read_tree(&doc);
    let rest = read_tree(&restored.doc);
    assert_eq!(orig.len(), 1, "one root folder");
    assert_eq!(rest.len(), 1);
    assert_eq!(orig[0].children.len(), 2, "two children");
    assert_eq!(rest[0].children.len(), 2);
    assert_eq!(orig[0].children[1].children.len(), 1, "one grandchild under second child");
    assert_eq!(rest[0].children[1].children.len(), 1);
    assert_eq!(orig[0].children[1].children[0].entry, rest[0].children[1].children[0].entry);
}

fn check_snapshot_drops_dangling_page_entries() {
    let mut doc = TocDoc::new();
    doc.add_entry(None, make_folder("Keeper")).unwrap();
    let (dangling, _) = make_page("Ghost Entry");
    doc.add_entry(None, dangling).unwrap();

    let mut id_map = RowIdMap::new();
    let rows = snapshot_toc(&doc, &mut id_map, &PageIdSet::new());
    assert_eq!(rows.len(), 1, "only the folder survives");
    assert_eq!(rows[0].folder_title.as_deref(), Some("Keeper"));
}

fn check_snapshot_preserves_sibling_positions_after_filtering() {
    let mut doc = TocDoc::new();
    let (page_a, tid_a) = make_page("Alpha");
    let (page_b, _) = make_page("Dangling Beta");
    let (page_c, tid_c) = make_page("Gamma");
    doc.add_entry(None, page_a).unwrap();
    doc.add_entry(None, page_b).unwrap();
    doc.add_entry(None, page_c).unwrap();

    let mut known = PageIdSet::new();
    known.insert(tid_a);
    known.insert(tid_c);

    let mut id_map = RowIdMap::new();
    let rows = snapshot_toc(&doc, &mut id_map, &known);
    assert_eq!(rows.len(), 2);
    assert_eq!(rows[0].position, 0, "Alpha at position 0");
    assert_eq!(rows[1].position, 1, "Gamma renumbered to position 1");
}

fn check_orphan_pages_appended_to_root() {
    let orphan_id = PageId::generate();
    let pages = vec![page_record(orphan_id, "Lost Artifact", Status::GmOnly)];

    let restored = restore_toc(Vec::new(), &pages);
    assert!(restored.dirty);
    assert_eq!(restored.id_map.len(), 1, "orphan gets an entry in the id_map");

    let tree = read_tree(&restored.doc);
    assert_eq!(tree.len(), 1);
    assert_eq!(tree[0].entry.kind(), TocEntryKind::Page);
    assert_eq!(tree[0].entry.title(), Some("Lost Artifact"));
    assert_eq!(tree[0].entry.visibility(), Status::GmOnly);
}

fn check_orphan_inherits_page_visibility() {
    let id = PageId::generate();
    let pages = vec![page_record(id, "Public NPC", Status::Known)];
    let restored = restore_toc(Vec::new(), &pages);
    assert_eq!(read_tree(&restored.doc)[0].entry.visibility(), Status::Known);
}

fn check_restored_session_entry_carries_kind_and_ordinal() {
    let id = PageId::generate();
    let pages = vec![PageRecord {
        page_id: id,
        info: PageInfo {
            name: "The Gathering Storm".to_string(),
            status: Status::GmOnly,
            page_kind: TocPageKind::Session { ordinal: 7 },
        },
    }];
    let restored = restore_toc(Vec::new(), &pages);
    let tree = read_tree(&restored.doc);
    match &tree[0].entry {
        TocEntry::Page { page_kind, title, .. } => {
            assert_eq!(*page_kind, TocPageKind::Session { ordinal: 7 });
            assert_eq!(title, "The Gathering Storm", "the session's name carries through restore");
        }
        other => panic!("expected a session Page entry, got {other:?}"),
    }
}

fn check_restore_skips_entries_with_deleted_pages() {
    let row = TocRow {
        id: fresh_row_id(),
        page_id: Some(PageId::generate()),
        folder_title: None,
        visibility: Status::Known,
        parent_id: None,
        position: 0,
    };
    let restored = restore_toc(vec![row], &Vec::new());
    assert!(read_tree(&restored.doc).is_empty(), "stale entry is skipped");
    assert_eq!(restored.id_map.len(), 0, "skipped entry has no id_map entry");
    assert!(!restored.dirty, "no orphans because the page is gone entirely");
}

fn check_topological_sort_handles_out_of_order_input() {
    let parent_id = fresh_row_id();
    let child_id = fresh_row_id();
    let child = folder_row(&child_id, "Child", Some(&parent_id));
    let parent = folder_row(&parent_id, "Parent", None);

    let sorted = topological_sort(vec![child, parent]);
    assert_eq!(sorted.len(), 2);
    assert_eq!(sorted[0].id, parent_id, "parent comes first");
    assert_eq!(sorted[1].id, child_id, "child comes second");
}

fn check_topological_sort_drops_entries_with_invalid_parents() {
    let orphan_row = folder_row(&fresh_row_id(), "Lost", Some("nonexistent"));
    let sorted = topological_sort(vec![orphan_row]);
    assert!(sorted.is_empty(), "entry with invalid parent_id is dropped");
}

fn check_snapshot_skips_suggestion_entries() {
    let mut doc = TocDoc::new();
    doc.add_entry(None, make_folder("Real Content")).unwrap();
    let suggestion = TocEntry::Suggestion {
        conversation_id: ConversationId::generate(),
        title: Some("Proposed NPC".to_string()),
        visibility: Status::GmOnly,
    };
    doc.add_entry(None, suggestion).unwrap();

    let mut id_map = RowIdMap::new();
    let rows = snapshot_toc(&doc, &mut id_map, &PageIdSet::new());
    assert_eq!(rows.len(), 1, "only the folder, not the suggestion");
}

fn check_snapshot_reuses_ids_from_restore() {
    let mut doc = TocDoc::new();
    doc.add_entry(None, make_folder("Stable")).unwrap();
    let (page_entry, tid) = make_page("Also Stable");
    doc.add_entry(None, page_entry).unwrap();

    let pages = vec![page_record(tid, "Also Stable", Status::Known)];
    let known = known_of(&pages);

    let mut id_map = RowIdMap::new();
    let rows1 = snapshot_toc(&doc, &mut id_map, &known);
    let ids1 = row_ids(&rows1);
    assert_eq!(ids1.len(), 2);

    let mut restored = restore_toc(rows1, &pages);
    let rows2 = snapshot_toc(&restored.doc, &mut restored.id_map, &known);
    let ids2 = row_ids(&rows2);
    assert_eq!(ids1, ids2, "row IDs are stable across snapshot/restore");
}

fn check_new_node_gets_fresh_id() {
    let mut doc = TocDoc::new();
    doc.add_entry(None, make_folder("Original")).unwrap();

    let mut id_map = RowIdMap::new();
    let rows1 = snapshot_toc(&doc, &mut id_map, &PageIdSet::new());
    let first_row_id: String = rows1[0].id.clone();

    doc.add_entry(None, make_folder("Newcomer")).unwrap();

    let rows2 = snapshot_toc(&doc, &mut id_map, &PageIdSet::new());
    assert_eq!(rows2.len(), 2);
    let ids: Vec<String> = rows2.iter().map(|r| r.id.clone()).collect();
    assert_eq!(ids[0], first_row_id, "existing node keeps its ID");
    assert_ne!(ids[1], first_row_id, "new node gets a different ID");
}

fn check_removed_node_absent_from_snapshot() {
    let mut doc = TocDoc::new();
    let keep_id = doc.add_entry(None, make_folder("Keep")).unwrap();
    let remove_id = doc.add_entry(None, make_folder("Remove")).unwrap();

    let mut id_map = RowIdMap::new();
    let rows1 = snapshot_toc(&doc, &mut id_map, &PageIdSet::new());
    assert_eq!(rows1.len(), 2);
    let removed_row_id = id_map.get(remove_id).unwrap().clone();

    doc.remove_entry(remove_id).unwrap();

    let rows2 = snapshot_toc(&doc, &mut id_map, &PageIdSet::new());
    assert_eq!(rows2.len(), 1);
    let surviving_ids = row_ids(&rows2);
    assert!(!surviving_ids.contains(&removed_row_id), "removed node's row ID is absent");
    assert!(surviving_ids.contains(id_map.get(keep_id).unwrap()), "kept node's row ID is present");
}

#[test]
fn remove_entry_takes_the_subtree() {
    let mut doc = TocDoc::new();
    let a = doc.add_entry(None, make_folder("A")).unwrap();
    let b = doc.add_entry(Some(a), make_folder("B")).unwrap();
    let c = doc.add_entry(Some(b), make_folder("C")).unwrap();
    let d = doc.add_entry(None, make_folder("D")).unwrap();
    doc.remove_entry(a).unwrap();
    assert!(!doc.contains(a) && !doc.contains(b) && !doc.contains(c));
    assert!(doc.contains(d));
    assert!(doc.remove_entry(a).is_err(), "a removed node is gone");
}

// The same scenarios, once under the names of each of the two ToC test
// suites.

#[test]
fn toc_snapshot_round_trip_empty_tree() {
    check_round_trip_empty_tree();
}

#[test]
fn toc_round_trip_empty_tree() {
    check_round_trip_empty_tree();
}

#[test]
fn toc_snapshot_round_trip_flat_entries() {
    check_round_trip_flat_entries();
}

#[test]
fn toc_round_trip_flat_entries() {
    check_round_trip_flat_entries();
}

#[test]
fn toc_snapshot_round_trip_nested_tree() {
    check_round_trip_nested_tree();
}

#[test]
fn toc_round_trip_nested_tree() {
    check_round_trip_nested_tree();
}

#[test]
fn toc_snapshot_snapshot_drops_dangling_page_entries() {
    check_snapshot_drops_dangling_page_entries();
}

#[test]
fn toc_snapshot_drops_dangling_page_entries() {
    check_snapshot_drops_dangling_page_entries();
}

#[test]
fn toc_snapshot_snapshot_preserves_sibling_positions_after_filtering() {
    check_snapshot_preserves_sibling_positions_after_filtering();
}

#[test]
fn toc_snapshot_preserves_sibling_positions_after_filtering() {
    check_snapshot_preserves_sibling_positions_after_filtering();
}

#[test]
fn toc_snapshot_orphan_pages_appended_to_root() {
    check_orphan_pages_appended_to_root();
}

#[test]
fn toc_orphan_pages_appended_to_root() {
    check_orphan_pages_appended_to_root();
}

#[test]
fn toc_snapshot_orphan_inherits_page_visibility() {
    check_orphan_inherits_page_visibility();
}

#[test]
fn toc_orphan_inherits_page_visibility() {
    check_orphan_inherits_page_visibility();
}

#[test]
fn restored_session_entry_carries_kind_and_ordinal() {
    check_restored_session_entry_carries_kind_and_ordinal();
}

#[test]
fn toc_snapshot_restore_skips_entries_with_deleted_pages() {
    check_restore_skips_entries_with_deleted_pages();
}

#[test]
fn toc_restore_skips_entries_with_deleted_pages() {
    check_restore_skips_entries_with_deleted_pages();
}

#[test]
fn toc_snapshot_topological_sort_handles_out_of_order_input() {
    check_topological_sort_handles_out_of_order_input();
}

#[test]
fn toc_topological_sort_handles_out_of_order_input() {
    check_topological_sort_handles_out_of_order_input();
}

#[test]
fn toc_snapshot_topological_sort_drops_entries_with_invalid_parents() {
    check_topological_sort_drops_entries_with_invalid_parents();
}

#[test]
fn toc_topological_sort_drops_entries_with_invalid_parents() {
    check_topological_sort_drops_entries_with_invalid_parents();
}

#[test]
fn toc_snapshot_snapshot_skips_suggestion_entries() {
    check_snapshot_skips_suggestion_entries();
}

#[test]
fn toc_snapshot_skips_suggestion_entries() {
    check_snapshot_skips_suggestion_entries();
}

#[test]
fn toc_snapshot_snapshot_reuses_ids_from_restore() {
    check_snapshot_reuses_ids_from_restore();
}

#[test]
fn toc_snapshot_reuses_ids_from_restore() {
    check_snapshot_reuses_ids_from_restore();
}

#[test]
fn toc_snapshot_new_node_gets_fresh_id() {
    check_new_node_gets_fresh_id();
}

#[test]
fn toc_new_node_gets_fresh_id() {
    check_new_node_gets_fresh_id();
}

#[test]
fn toc_snapshot_removed_node_absent_from_snapshot() {
    check_removed_node_absent_from_snapshot();
}

#[test]
fn toc_removed_node_absent_from_snapshot() {
    check_removed_node_absent_from_snapshot();
}

#[test]
fn topological_sort_keeps_siblings_in_input_order() {
    let c1 = folder_row("c1", "First", Some("p"));
    let p = folder_row("p", "Parent", None);
    let c2 = folder_row("c2", "Second", Some("p"));
    let sorted = topological_sort(vec![c1, p, c2]);
    let ids: Vec<&str> = sorted.iter().map(|r| r.id.as_str()).collect();
    assert_eq!(ids, vec!["p", "c1", "c2"], "a waiting sibling is not overtaken");
}

#[test]
fn topological_sort_leaves_well_ordered_rows_alone_and_is_idempotent() {
    let well_ordered = || {
        vec![
            folder_row("a", "A", None),
            folder_row("b", "B", None),
            folder_row("a1", "A1", Some("a")),
            folder_row("b1", "B1", Some("b")),
            folder_row("a2", "A2", Some("a")),
        ]
    };
    assert_eq!(topological_sort(well_ordered()), well_ordered());

    let shuffled = vec![
        folder_row("x1", "X1", Some("x")),
        folder_row("y", "Y", None),
        folder_row("x", "X", None),
        folder_row("x2", "X2", Some("x")),
        folder_row("y1", "Y1", Some("y")),
    ];
    let once = topological_sort(shuffled);
    let once_ids: Vec<String> = once.iter().map(|r| r.id.clone()).collect();
    assert_eq!(once_ids, vec!["y", "x", "y1", "x1", "x2"]);
    let twice = topological_sort(once);
    let twice_ids: Vec<String> = twice.iter().map(|r| r.id.clone()).collect();
    assert_eq!(twice_ids, once_ids);
}
