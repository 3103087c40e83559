//! Queries for issues by filter.

use beads_store::clock::Timestamp;
use beads_store::issues::{find_ids_by_hash, get_issues_by_ids, select_issues};
use beads_store::model::{IssueType, Priority, Status};
use beads_store::queries::{
    get_ready_issues, list_issues, search_issues, ListFilters, ReadyFilters, ReadySortPolicy,
};
use beads_store::sql::{SqlValue, Statement};

const COLUMNS: &str = "SELECT id, content_hash, title, description, design, acceptance_criteria, notes, status, priority, issue_type, assignee, owner, estimated_minutes, created_at, created_by, updated_at, closed_at, close_reason, closed_by_session, due_at, defer_until, external_ref, source_system, source_repo, deleted_at, deleted_by, delete_reason, original_type, compaction_level, compacted_at, compacted_at_commit, original_size, sender, ephemeral, pinned, is_template FROM issues";

fn texts(list: &[&str]) -> Vec<String> {
    list.iter().map(|s| s.to_string()).collect()
}

fn params(list: &[&str]) -> Vec<SqlValue> {
    list.iter().map(|s| SqlValue::text(s)).collect()
}

/// What stands behind the columns, with single spaces.
fn tail(s: &Statement) -> String {
    assert_eq!(s.sql.matches('?').count(), s.params.len());
    let flat = s.sql.split_whitespace().collect::<Vec<_>>().join(" ");
    flat.strip_prefix(COLUMNS).unwrap().trim().to_string()
}

const HIDDEN: &str = "AND status NOT IN ('closed', 'tombstone', 'deferred') AND (is_template = 0 OR is_template IS NULL)";

#[test]
fn listing_without_filters() {
    let s = list_issues(&ListFilters::default());
    assert_eq!(tail(&s), format!("WHERE 1=1 {HIDDEN} ORDER BY priority ASC, created_at DESC"));
    assert!(s.params.is_empty());
    assert_eq!(select_issues().split_whitespace().collect::<Vec<_>>().join(" "), COLUMNS);
}

#[test]
fn listing_with_all_filters() {
    let filters = ListFilters {
        statuses: Some(vec![Status::Open, Status::Custom("mine".to_string())]),
        types: Some(vec![IssueType::Bug]),
        priorities: Some(vec![Priority(0), Priority(4)]),
        assignee: Some("alice".to_string()),
        unassigned: true,
        include_closed: true,
        include_deferred: true,
        include_templates: true,
        title_contains: Some("50%_".to_string()),
        limit: Some(7),
        sort: Some("title".to_string()),
        reverse: true,
        labels: Some(texts(&["x", "y"])),
        labels_or: Some(texts(&["p", "q"])),
        updated_before: Timestamp::new(0, 0),
        updated_after: Timestamp::new(60, 0),
    };
    let s = list_issues(&filters);
    assert_eq!(
        tail(&s),
        "WHERE 1=1 AND status IN (?,?) AND issue_type IN (?) AND priority IN (?,?) AND assignee = ? AND assignee IS NULL AND id IN (SELECT issue_id FROM labels WHERE label = ?) AND id IN (SELECT issue_id FROM labels WHERE label = ?) AND id IN (SELECT issue_id FROM labels WHERE label IN (?,?)) AND title LIKE ? ESCAPE '\\' AND updated_at <= ? AND updated_at >= ? ORDER BY title COLLATE NOCASE DESC LIMIT ?"
    );
    let mut expected = params(&["open", "mine", "bug"]);
    expected.extend([SqlValue::Integer(0), SqlValue::Integer(4)]);
    expected.extend(params(&[
        "alice",
        "x",
        "y",
        "p",
        "q",
        "%50\\%\\_%",
        "1970-01-01T00:00:00+00:00",
        "1970-01-01T00:01:00+00:00",
    ]));
    expected.push(SqlValue::Integer(7));
    assert_eq!(s.params, expected);
}

#[test]
fn listing_in_every_order() {
    let order = |sort: Option<&str>, reverse: bool| {
        let filters =
            ListFilters { sort: sort.map(str::to_string), reverse, ..ListFilters::default() };
        let sql = tail(&list_issues(&filters));
        sql[sql.find("ORDER BY").unwrap()..].to_string()
    };
    assert_eq!(order(None, true), "ORDER BY priority DESC, created_at ASC");
    assert_eq!(order(Some("priority"), false), "ORDER BY priority ASC, created_at DESC");
    assert_eq!(order(Some("priority"), true), "ORDER BY priority DESC, created_at ASC");
    assert_eq!(order(Some("created_at"), false), "ORDER BY created_at DESC");
    assert_eq!(order(Some("created"), true), "ORDER BY created_at ASC");
    assert_eq!(order(Some("updated_at"), true), "ORDER BY updated_at ASC");
    assert_eq!(order(Some("updated"), false), "ORDER BY updated_at DESC");
    assert_eq!(order(Some("title"), false), "ORDER BY title COLLATE NOCASE ASC");
    assert_eq!(order(Some("other"), true), "ORDER BY priority ASC, created_at DESC");
}

#[test]
fn listing_shows_what_it_was_told_to() {
    let open = ListFilters { include_deferred: true, ..ListFilters::default() };
    assert!(tail(&list_issues(&open)).contains("AND status NOT IN ('closed', 'tombstone') "));
    let none = ListFilters {
        statuses: Some(vec![]),
        types: Some(vec![]),
        priorities: Some(vec![]),
        labels: Some(vec![]),
        labels_or: Some(vec![]),
        limit: Some(0),
        ..ListFilters::default()
    };
    assert_eq!(list_issues(&none), list_issues(&ListFilters::default()));
    let all = ListFilters { limit: Some(usize::MAX), ..ListFilters::default() };
    assert_eq!(list_issues(&all).params, vec![SqlValue::Integer(-1)]);
}

#[test]
fn searching() {
    assert!(search_issues("  \t", &ListFilters::default()).is_none());
    let s = search_issues(" auth_1 ", &ListFilters::default()).unwrap();
    assert_eq!(
        tail(&s),
        format!("WHERE 1=1 AND (title LIKE ? ESCAPE '\\' OR description LIKE ? ESCAPE '\\' OR id LIKE ? ESCAPE '\\') {HIDDEN} ORDER BY priority ASC, created_at DESC")
    );
    assert_eq!(s.params, params(&["%auth\\_1%", "%auth\\_1%", "%auth\\_1%"]));
    let filters = ListFilters {
        statuses: Some(vec![Status::Open]),
        include_closed: true,
        include_templates: true,
        title_contains: Some("x".to_string()),
        limit: Some(3),
        sort: Some("title".to_string()),
        ..ListFilters::default()
    };
    let s = search_issues("q", &filters).unwrap();
    assert!(tail(&s).ends_with(
        "AND status IN (?) AND title LIKE ? ESCAPE '\\' ORDER BY priority ASC, created_at DESC LIMIT ?"
    ));
}

#[test]
fn ready_issues() {
    let s = get_ready_issues(&ReadyFilters::default(), ReadySortPolicy::Hybrid, &vec![]);
    assert_eq!(
        tail(&s),
        "WHERE 1=1 AND status IN ('open', 'in_progress') AND NOT EXISTS (SELECT 1 FROM blocked_issues_cache WHERE issue_id = issues.id) AND (defer_until IS NULL OR datetime(defer_until) <= datetime('now')) AND (pinned = 0 OR pinned IS NULL) AND (ephemeral = 0 OR ephemeral IS NULL) AND id NOT LIKE '%-wisp-%' AND (is_template = 0 OR is_template IS NULL) ORDER BY CASE WHEN priority <= 1 THEN 0 ELSE 1 END, created_at ASC"
    );
    let filters = ReadyFilters {
        assignee: Some("alice".to_string()),
        unassigned: true,
        labels_and: texts(&["backend", "urgent"]),
        labels_or: texts(&["api"]),
        types: Some(vec![IssueType::Task]),
        priorities: Some(vec![Priority(1)]),
        include_deferred: true,
        limit: Some(usize::MAX),
        parent: Some("bd-epic".to_string()),
        recursive: false,
    };
    let s = get_ready_issues(&filters, ReadySortPolicy::Priority, &vec![]);
    let sql = tail(&s);
    assert!(sql.starts_with("WHERE 1=1 AND status IN ('open', 'in_progress', 'deferred') AND NOT EXISTS (SELECT 1 FROM blocked_issues_cache WHERE issue_id = issues.id) AND (pinned"));
    assert!(sql.replace("( ", "(").replace(" )", ")").ends_with("AND issue_type IN (?) AND priority IN (?) AND assignee = ? AND assignee IS NULL AND id IN (SELECT issue_id FROM labels WHERE label = ?) AND id IN (SELECT issue_id FROM labels WHERE label = ?) AND id IN (SELECT issue_id FROM labels WHERE label IN (?)) AND id IN (SELECT issue_id FROM dependencies WHERE depends_on_id = ? AND type = 'parent-child') ORDER BY priority ASC, created_at ASC LIMIT ?"));
    assert_eq!(s.params.last(), Some(&SqlValue::Integer(i64::MAX)));
    assert_eq!(s.params[s.params.len() - 2], SqlValue::text("bd-epic"));
}

#[test]
fn ready_issues_below_a_parent() {
    let filters = ReadyFilters {
        parent: Some("bd-epic".to_string()),
        recursive: true,
        ..ReadyFilters::default()
    };
    let s = get_ready_issues(&filters, ReadySortPolicy::Oldest, &vec![]);
    assert!(tail(&s).ends_with("AND 1 = 0 ORDER BY created_at ASC"));
    let s = get_ready_issues(&filters, ReadySortPolicy::Oldest, &texts(&["bd-epic.1", "bd-epic.2"]));
    assert!(tail(&s).ends_with("AND (id IN (?,?)) ORDER BY created_at ASC"));
    assert_eq!(s.params, params(&["bd-epic.1", "bd-epic.2"]));
    let many: Vec<String> = (0..1000).map(|n| format!("bd-{n}")).collect();
    let s = get_ready_issues(&filters, ReadySortPolicy::Oldest, &many);
    assert_eq!(s.sql.matches(" OR id IN (").count(), 1);
    assert_eq!(s.params.len(), 1000);
}

#[test]
fn issues_by_id_and_hash() {
    let many: Vec<String> = (0..901).map(|n| format!("bd-{n}")).collect();
    let s = get_issues_by_ids(&many);
    assert_eq!(s.len(), 2);
    assert_eq!(s[1].params, params(&["bd-900"]));
    assert!(tail(&s[1]).starts_with("WHERE id IN (?)"));
    let s = find_ids_by_hash("a_1");
    assert_eq!(s.params, params(&["%-a\\_1"]));
}
