//! Labels, external dependencies, cycles, descendants, settings and exports.

use beads_store::assoc::TextMap;
use beads_store::clock::Timestamp;
use beads_store::cycles::detect_all_cycles;
use beads_store::descend::DescendantWalk;
use beads_store::external::{
    capability_queries, distinct_texts, external_blockers, list_external_dependency_ids,
    parse_external_dependency, provided_capabilities, resolve_external_dependency_statuses,
    wanted_capabilities,
};
use beads_store::labels::{
    add_label, append_labels, get_labels_for_issues, get_unique_labels_with_counts,
    labels_removed, note_removed_label, note_removed_labels, rename_label, renamed_issues,
    set_labels, sync_labels_for_import,
};
use beads_store::model::EventType;
use beads_store::mutation::MutationContext;
use beads_store::settings::{
    clear_dirty_flags, clear_dirty_issues, export_queries, get_all_config, get_export_hash,
    get_issues_needing_export, schema_is_old, set_config, set_export_hash, set_export_hashes,
    set_metadata,
};
use beads_store::sql::{Row, SqlValue};

fn row(values: &[&str]) -> Row {
    Row { values: values.iter().map(|s| SqlValue::text(s)).collect() }
}

fn count(n: i64) -> Row {
    Row { values: vec![SqlValue::Integer(n)] }
}

fn texts(list: &[&str]) -> Vec<String> {
    list.iter().map(|s| s.to_string()).collect()
}

fn now() -> Timestamp {
    Timestamp::new(1_735_689_600, 0).unwrap()
}

fn ctx() -> MutationContext {
    MutationContext::new("op", "tester")
}

#[test]
fn adding_and_removing_labels_is_recorded() {
    let mut c = ctx();
    let added = add_label(&count(0), "bd-l1", "backend", &mut c, now());
    assert!(added.is_some());
    let added = add_label(&count(0), "bd-l1", "api", &mut c, now());
    assert!(added.is_some());
    let again = add_label(&count(1), "bd-l1", "api", &mut c, now());
    assert!(again.is_none());
    assert_eq!(c.events.len(), 2);
    assert_eq!(c.events[0].comment.as_deref(), Some("Added label backend"));
    let mut c = ctx();
    let removed = labels_removed(1, "bd-l1", note_removed_label("api"), &mut c, now());
    assert!(removed.is_some());
    assert_eq!(c.events[0].event_type, EventType::LabelRemoved);
    assert_eq!(c.events[0].comment.as_deref(), Some("Removed label api"));
    assert_eq!(c.dirty_ids, texts(&["bd-l1"]));
    let mut c = ctx();
    let none = labels_removed(0, "bd-l1", note_removed_labels(0), &mut c, now());
    assert!(none.is_none() && c.events.is_empty());
}

#[test]
fn labels_are_replaced() {
    let mut c = ctx();
    let old = vec![row(&["a"]), row(&["b"])];
    let new = texts(&["b", "c"]);
    let statements = set_labels(&old, "bd-1", &new, &mut c, now());
    assert_eq!(statements[0].sql, "DELETE FROM labels WHERE issue_id = ?");
    let inserted: Vec<&SqlValue> = statements
        .iter()
        .filter(|s| s.sql.starts_with("INSERT INTO labels"))
        .map(|s| &s.params[1])
        .collect();
    assert_eq!(inserted, vec![&SqlValue::text("b"), &SqlValue::text("c")]);
    assert_eq!(c.dirty_ids, texts(&["bd-1"]));
    assert_eq!(sync_labels_for_import("bd-1", &new).len(), 3);
}

#[test]
fn labels_are_gathered() {
    let mut m = TextMap::new();
    append_labels(&mut m, &vec![row(&["bd-1", "a"]), row(&["bd-2", "b"])]);
    append_labels(&mut m, &vec![row(&["bd-1", "c"])]);
    assert_eq!(m.get("bd-1"), Some(&texts(&["a", "c"])));
    assert!(get_labels_for_issues(&vec![]).is_empty());
    let rows = vec![Row { values: vec![SqlValue::text("a"), SqlValue::Integer(2)] }];
    assert_eq!(get_unique_labels_with_counts(&rows), vec![("a".to_string(), 2)]);
}

#[test]
fn labels_are_renamed() {
    let mut c = ctx();
    let ids = vec![row(&["bd-1"]), row(&["bd-2"])];
    let conflicts = vec![row(&["bd-2"])];
    let (deletes, rename, touches) =
        rename_label(&ids, &conflicts, "old", "new", &mut c, now());
    assert_eq!(deletes.len(), 1);
    assert_eq!(deletes[0].params, vec![SqlValue::text("bd-2"), SqlValue::text("old")]);
    assert_eq!(rename.params, vec![SqlValue::text("new"), SqlValue::text("old")]);
    assert_eq!(touches.len(), 2);
    assert_eq!(c.events[0].comment.as_deref(), Some("Renamed label old to new"));
    assert_eq!(c.events.len(), 2);
    assert!(c.dirty_ids.contains(&"bd-1".to_string()));
    assert!(c.dirty_ids.contains(&"bd-2".to_string()));
    assert_eq!(renamed_issues(&ids), 2);
}

#[test]
fn external_dependencies_are_named_by_project_and_capability() {
    let pair = |a: &str, b: &str| Some((a.to_string(), b.to_string()));
    assert_eq!(parse_external_dependency("external:proj:cap"), pair("proj", "cap"));
    assert_eq!(parse_external_dependency("external:proj:a:b"), pair("proj", "a:b"));
    assert_eq!(parse_external_dependency("external::cap"), None);
    assert_eq!(parse_external_dependency("external:proj:"), None);
    assert_eq!(parse_external_dependency("external:proj"), None);
    assert_eq!(parse_external_dependency("bd-1"), None);
}

#[test]
fn external_dependencies_block_children() {
    let id = "external:extproj:capability";
    let ids = distinct_texts(&vec![row(&[id]), row(&[id])]);
    assert_eq!(ids, texts(&[id]));
    let wanted = wanted_capabilities(&ids);
    assert_eq!(wanted.get("extproj"), Some(&texts(&["capability"])));
    let queries = capability_queries(&texts(&["capability"]));
    assert_eq!(queries.len(), 1);
    assert_eq!(queries[0].params, vec![SqlValue::text("provides:capability")]);
    let mut satisfied = TextMap::new();
    satisfied.insert("extproj", provided_capabilities(&vec![]));
    let statuses = resolve_external_dependency_statuses(&ids, &satisfied);
    assert_eq!(statuses.get(id), Some(&false));
    let blockers = external_blockers(
        &vec![row(&["bd-p1", id])],
        &vec![row(&["bd-c1", "bd-p1"])],
        &statuses,
    );
    let parent_blockers = blockers.get("bd-p1").expect("parent blockers");
    assert!(parent_blockers.iter().any(|b| b.starts_with(id)));
    let child_blockers = blockers.get("bd-c1").expect("child blockers");
    assert!(child_blockers.iter().any(|b| b == "bd-p1:parent-blocked"));
}

#[test]
fn external_dependencies_that_are_satisfied_block_nothing() {
    let id = "external:extproj:capability";
    let ids = texts(&[id, "external:other:x", "external:bad"]);
    let mut satisfied = TextMap::new();
    satisfied.insert("extproj", provided_capabilities(&vec![row(&["provides:capability"])]));
    let statuses = resolve_external_dependency_statuses(&ids, &satisfied);
    assert_eq!(statuses.get(id), Some(&true));
    assert_eq!(statuses.get("external:other:x"), Some(&false));
    assert_eq!(statuses.get("external:bad"), Some(&false));
    let blockers = external_blockers(&vec![row(&["bd-1", id])], &vec![], &statuses);
    assert_eq!(blockers.len(), 0);
    assert!(list_external_dependency_ids(true).sql.len() > list_external_dependency_ids(false).sql.len());
}

#[test]
fn cycles_are_found() {
    let edges = |list: &[(&str, &str)]| list.iter().map(|(a, b)| row(&[a, b])).collect::<Vec<_>>();
    assert!(detect_all_cycles(&edges(&[("a", "b"), ("b", "c"), ("a", "c")])).is_empty());
    let found = detect_all_cycles(&edges(&[("a", "b"), ("b", "c"), ("c", "a"), ("c", "d")]));
    assert_eq!(found.len(), 1);
    let cycle = &found[0];
    assert_eq!(cycle.first(), cycle.last());
    assert_eq!(cycle.len(), 4);
    let own = detect_all_cycles(&edges(&[("x", "x")]));
    assert_eq!(own, vec![texts(&["x", "x"])]);
}

#[test]
fn descendants_are_found() {
    let children = |parent: &SqlValue| -> Vec<Row> {
        match parent {
            SqlValue::Text(p) if p == "bd-epic" => vec![row(&["bd-epic.1"]), row(&["bd-epic.2"])],
            SqlValue::Text(p) if p == "bd-epic.1" => vec![row(&["bd-epic.1.1"])],
            // A link back up does not lead round in circles.
            SqlValue::Text(p) if p == "bd-epic.1.1" => vec![row(&["bd-epic.1"])],
            _ => vec![],
        }
    };
    let walk = |parent: &str| {
        let (mut walk, first) = DescendantWalk::start(parent);
        let mut next = walk.step(&children(&first.params[0]));
        while let Some(query) = next {
            next = walk.step(&children(&query.params[0]));
        }
        walk.finish()
    };
    let ids = walk("bd-epic");
    assert_eq!(ids.len(), 3, "Recursive should return all descendants");
    assert!(ids.contains(&"bd-epic.1".to_string()), "Should contain child1");
    assert!(ids.contains(&"bd-epic.2".to_string()), "Should contain child2");
    assert!(ids.contains(&"bd-epic.1.1".to_string()), "Should contain grandchild");
    assert!(!ids.contains(&"bd-epic".to_string()), "Should NOT contain the parent itself");
    assert!(!ids.contains(&"bd-other".to_string()), "Should NOT contain unrelated issue");
    assert_eq!(walk("bd-nonexistent").len(), 0, "Non-existent parent should return empty");
}

#[test]
fn settings_are_kept() {
    let (delete, insert) = set_config("k", "v");
    assert_eq!(delete.sql, "DELETE FROM config WHERE key = ?");
    assert_eq!(insert.params, vec![SqlValue::text("k"), SqlValue::text("v")]);
    let (delete, _) = set_metadata("k", "v");
    assert_eq!(delete.sql, "DELETE FROM metadata WHERE key = ?");
    let all = get_all_config(&vec![row(&["a", "1"]), row(&["b", "2"]), row(&["a", "3"])]);
    assert_eq!(all.len(), 2);
    assert_eq!(all.get("a"), Some(&"3".to_string()));
    assert!(schema_is_old(None, 3));
    assert!(schema_is_old(Some(&count(2)), 3));
    assert!(!schema_is_old(Some(&count(3)), 3));
    assert!(!schema_is_old(Some(&count(4)), 3));
}

#[test]
fn exports_are_remembered() {
    let s = set_export_hash("bd-1", "h", now());
    assert_eq!(s.len(), 2);
    assert_eq!(s[1].params[2], SqlValue::Text(now().to_rfc3339()));
    let pairs = vec![("a".to_string(), "1".to_string()), ("b".to_string(), "2".to_string())];
    assert_eq!(set_export_hashes(&pairs, now()).len(), 4);
    assert_eq!(get_export_hash(None), None);
    assert_eq!(
        get_export_hash(Some(&row(&["h", "t"]))),
        Some(("h".to_string(), "t".to_string()))
    );
    assert_eq!(
        get_issues_needing_export(&vec![row(&["b"]), row(&["a"])]),
        texts(&["a", "b"])
    );
    let ids: Vec<String> = (0..901).map(|n| format!("{n}")).collect();
    assert_eq!(clear_dirty_issues(&ids).len(), 2);
    assert_eq!(clear_dirty_flags(&ids).len(), 2);
    assert_eq!(export_queries(&ids).len(), 2);
    assert_eq!(
        clear_dirty_flags(&texts(&["a", "b"]))[0].sql,
        "DELETE FROM dirty_issues WHERE issue_id IN (?, ?)"
    );
    assert_eq!(
        clear_dirty_issues(&texts(&["a", "b"]))[0].sql,
        "DELETE FROM dirty_issues WHERE issue_id IN (?,?)"
    );
}
