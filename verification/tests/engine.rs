//! The store as a whole, against a small engine that runs the composed statements.

use beads_store::assoc::TextMap;
use beads_store::blocked::{
    blocked_issues_query, blockers_query, get_blocked_issues, get_blockers, CacheAction, CacheRebuild, CacheReply,
};
use beads_store::clock::Timestamp;
use beads_store::comments::{
    add_comment, comment_query, comments_query, fetch_comment, get_comments, insert_comment_row,
    inserted_comment_query,
};
use beads_store::cycles::{detect_all_cycles, edges_query};
use beads_store::descend::DescendantWalk;
use beads_store::error::BeadsError;
use beads_store::external::{
    capability_queries, distinct_texts, external_blockers, external_blocking_query,
    list_external_dependency_ids, parent_links_query, provided_capabilities,
    resolve_external_dependency_statuses, wanted_capabilities,
};
use beads_store::issues::{
    check_cycle, child_ids_query, create_issue, next_child_number, would_create_cycle, Step,
};
use beads_store::labels::{
    add_label, get_labels, label_count_query, labelled_issues_query, labels_removed,
    note_removed_label, remove_label, rename_conflicts_query, rename_label, renamed_issues,
};
use beads_store::links::{
    add_dependency, check_no_cycle, cycle_check, dependency_exists_between, get_dependencies,
    link_removed, note_removed_dependency, remove_dependency, single_text,
};
use beads_store::model::{Comment, EventType, Issue, IssueType, Priority, Status};
use beads_store::mutation::{closing_statements, MutationContext, MutationRun, TxAction, TxReply};
use beads_store::queries::{
    get_ready_issues, list_issues, search_issues, ListFilters, ReadyFilters, ReadySortPolicy,
};
use beads_store::rows::{issues_from_rows, opt_issue_from};
use beads_store::settings::{delete_config, get_config, set_config};
use beads_store::sql::{texts_in_column, Row, SqlValue, Statement};
use beads_store::upsert::{UpsertAction, UpsertReply, UpsertRun};

fn at(t: chrono::DateTime<chrono::Utc>) -> Timestamp {
    Timestamp::new(t.timestamp(), t.timestamp_subsec_nanos()).unwrap()
}

fn date(text: &str) -> Timestamp {
    at(chrono::DateTime::parse_from_rfc3339(text).unwrap().to_utc())
}

fn make_issue(id: &str, title: &str, status: Status, priority: i32, date: Timestamp) -> Issue {
    Issue {
        id: id.to_string(),
        title: title.to_string(),
        status,
        priority: Priority(priority),
        issue_type: IssueType::Task,
        created_at: date,
        updated_at: date,
        ..Issue::default()
    }
}

const COLUMNS: [&str; 36] = [
    "id", "content_hash", "title", "description", "design", "acceptance_criteria", "notes",
    "status", "priority", "issue_type", "assignee", "owner", "estimated_minutes", "created_at",
    "created_by", "updated_at", "closed_at", "close_reason", "closed_by_session", "due_at",
    "defer_until", "external_ref", "source_system", "source_repo", "deleted_at", "deleted_by",
    "delete_reason", "original_type", "compaction_level", "compacted_at", "compacted_at_commit",
    "original_size", "sender", "ephemeral", "pinned", "is_template",
];

fn column(name: &str) -> usize {
    COLUMNS.iter().position(|c| *c == name).unwrap()
}

fn as_text(v: &SqlValue) -> String {
    match v {
        SqlValue::Text(s) => s.clone(),
        _ => String::new(),
    }
}

/// `LIKE` with a backslash before what stands for itself; letters match in either case.
fn like(text: &[char], pattern: &[char]) -> bool {
    match pattern {
        [] => text.is_empty(),
        ['%', rest @ ..] => (0..=text.len()).any(|n| like(&text[n..], rest)),
        ['_', rest @ ..] => !text.is_empty() && like(&text[1..], rest),
        ['\\', c, rest @ ..] | [c, rest @ ..] => {
            !text.is_empty() && text[0].eq_ignore_ascii_case(c) && like(&text[1..], rest)
        }
    }
}

fn matches_pattern(text: &SqlValue, pattern: &SqlValue) -> bool {
    match text {
        SqlValue::Text(s) => {
            let text: Vec<char> = s.chars().collect();
            let pattern: Vec<char> = as_text(pattern).chars().collect();
            like(&text, &pattern)
        }
        _ => false,
    }
}

/// The tables that the statements work on.
#[derive(Default, Clone)]
struct Engine {
    issues: Vec<Vec<SqlValue>>,
    labels: Vec<(SqlValue, SqlValue)>,
    links: Vec<(SqlValue, SqlValue, SqlValue)>,
    config: Vec<(SqlValue, SqlValue)>,
    comments: Vec<[SqlValue; 4]>,
    events: Vec<Vec<SqlValue>>,
    dirty: Vec<SqlValue>,
    cache: Vec<(SqlValue, SqlValue)>,
    /// Everything as it was when the open transaction began.
    saved: Option<Box<Engine>>,
}

/// When everything happens.
fn moment() -> Timestamp {
    date("2025-09-01T00:00:00Z")
}

impl Engine {
    /// Executes a statement and tells how many rows it changed.
    fn run(&mut self, s: &Statement) -> usize {
        let p = &s.params;
        if s.sql.starts_with("INSERT INTO issues ") {
            self.issues.push(p.clone());
        } else if s.sql == "INSERT INTO labels (issue_id, label) VALUES (?, ?)" {
            self.labels.push((p[0].clone(), p[1].clone()));
        } else if s.sql.starts_with("INSERT INTO dependencies (issue_id, depends_on_id, type, ") {
            self.links.push((p[0].clone(), p[1].clone(), p[2].clone()));
        } else if s.sql == "INSERT INTO config (key, value) VALUES (?, ?)" {
            self.config.push((p[0].clone(), p[1].clone()));
        } else if s.sql == "DELETE FROM config WHERE key = ?" {
            let before = self.config.len();
            self.config.retain(|(key, _)| *key != p[0]);
            return before - self.config.len();
        } else if s.sql == "DELETE FROM labels WHERE issue_id = ? AND label = ?" {
            let before = self.labels.len();
            self.labels.retain(|(id, label)| *id != p[0] || *label != p[1]);
            return before - self.labels.len();
        } else if s.sql == "UPDATE labels SET label = ? WHERE label = ?" {
            let mut changed = 0;
            for label in self.labels.iter_mut().filter(|l| l.1 == p[1]) {
                label.1 = p[0].clone();
                changed += 1;
            }
            return changed;
        } else if s.sql == "DELETE FROM dependencies WHERE issue_id = ? AND depends_on_id = ?" {
            let before = self.links.len();
            self.links.retain(|(from, to, _)| *from != p[0] || *to != p[1]);
            return before - self.links.len();
        } else if s.sql
            == "INSERT INTO comments (issue_id, author, text, created_at) VALUES (?, ?, ?, ?)"
        {
            self.comments.push([p[0].clone(), p[1].clone(), p[2].clone(), p[3].clone()]);
        } else if s.sql
            == "INSERT INTO comments (issue_id, author, text, created_at) VALUES (?, ?, ?, CURRENT_TIMESTAMP)"
        {
            let now = SqlValue::text("2025-09-01 00:00:00");
            self.comments.push([p[0].clone(), p[1].clone(), p[2].clone(), now]);
        } else if s.sql.starts_with("INSERT INTO events ") {
            self.events.push(p.clone());
        } else if s.sql == "DELETE FROM dirty_issues WHERE issue_id = ?" {
            self.dirty.retain(|id| *id != p[0]);
        } else if s.sql == "INSERT INTO dirty_issues (issue_id, marked_at) VALUES (?, ?)" {
            self.dirty.push(p[0].clone());
        } else if s.sql == "DELETE FROM blocked_issues_cache" {
            self.cache.clear();
        } else if s.sql == "INSERT INTO blocked_issues_cache (issue_id, blocked_by) VALUES (?, ?)" {
            self.cache.push((p[0].clone(), p[1].clone()));
        } else if s.sql == "UPDATE issues SET updated_at = ? WHERE id = ?" {
            for issue in self.issues.iter_mut().filter(|i| i[0] == p[1]) {
                issue[15] = p[0].clone();
            }
        } else if s.sql == "DELETE FROM issues WHERE id = ?" {
            let before = self.issues.len();
            self.issues.retain(|issue| issue[0] != p[0]);
            return before - self.issues.len();
        } else if s.sql == "BEGIN IMMEDIATE" {
            assert!(self.saved.is_none());
            self.saved = Some(Box::new(self.clone()));
            return 0;
        } else if s.sql == "COMMIT" {
            assert!(self.saved.take().is_some());
            return 0;
        } else if s.sql == "ROLLBACK" {
            *self = *self.saved.take().unwrap();
            return 0;
        } else {
            panic!("cannot run {}", s.sql);
        }
        1
    }

    /// The status of an issue, `None` where there is no such issue.
    fn status(&self, id: &SqlValue) -> Option<String> {
        self.issues.iter().find(|i| i[0] == *id).map(|i| as_text(&i[7]))
    }

    fn is_cached(&self, id: &SqlValue) -> bool {
        self.cache.iter().any(|e| e.0 == *id)
    }

    /// The dependencies that meet a condition, each once, as pairs.
    fn pairs(&self, condition: impl Fn(&SqlValue, &SqlValue, &str) -> Option<String>) -> Vec<Row> {
        let mut found: Vec<Row> = vec![];
        for (from, to, kind) in &self.links {
            if let Some(second) = condition(from, to, &as_text(kind)) {
                let row = Row { values: vec![from.clone(), SqlValue::text(&second)] };
                if !found.contains(&row) {
                    found.push(row);
                }
            }
        }
        found
    }

    /// Answers a query on the tables beside that of issues.
    fn rows(&self, s: &Statement) -> Vec<Row> {
        let p = &s.params;
        if s.sql.starts_with("WITH RECURSIVE ") {
            return self.follow(s);
        }
        if s.sql.ends_with("FROM issues i INNER JOIN blocked_issues_cache bc ON i.id = bc.issue_id WHERE i.status IN ('open', 'in_progress') ORDER BY i.priority ASC, i.created_at ASC") {
            let mut found: Vec<Row> = vec![];
            for issue in &self.issues {
                let status = as_text(&issue[7]);
                for (_, blocked_by) in self.cache.iter().filter(|e| e.0 == issue[0]) {
                    if status == "open" || status == "in_progress" {
                        let mut values = issue.clone();
                        values.push(blocked_by.clone());
                        found.push(Row { values });
                    }
                }
            }
            return found;
        }
        let external = |id: &SqlValue| as_text(id).starts_with("external:");
        let blocking = |kind: &str| {
            ["blocks", "parent-child", "conditional-blocks", "waits-for"].contains(&kind)
        };
        let listed = |values: Vec<SqlValue>| -> Vec<Row> {
            values.into_iter().map(|v| Row { values: vec![v] }).collect()
        };
        match s.sql.as_str() {
            "SELECT id FROM issues WHERE id = ?" => {
                let found = self.issues.iter().filter(|i| i[0] == p[0]);
                listed(found.map(|i| i[0].clone()).collect())
            }
            "SELECT id FROM issues WHERE id LIKE ? ESCAPE '\\'" => {
                let found = self.issues.iter().filter(|i| matches_pattern(&i[0], &p[0]));
                listed(found.map(|i| i[0].clone()).collect())
            }
            "SELECT blocked_by FROM blocked_issues_cache WHERE issue_id = ?" => {
                let found = self.cache.iter().filter(|e| e.0 == p[0]);
                listed(found.map(|e| e.1.clone()).collect())
            }
            "SELECT last_insert_rowid()" => {
                listed(vec![SqlValue::Integer(self.comments.len() as i64)])
            }
            "SELECT id, issue_id, author, text, created_at FROM comments WHERE id = ?" => {
                let SqlValue::Integer(n) = p[0] else { return vec![] };
                let mut values = vec![p[0].clone()];
                values.extend(self.comments[n as usize - 1].iter().cloned());
                vec![Row { values }]
            }
            "SELECT DISTINCT d.issue_id, d.depends_on_id || ':' || COALESCE(i.status, 'unknown') FROM dependencies d LEFT JOIN issues i ON d.depends_on_id = i.id WHERE d.type IN ('blocks', 'conditional-blocks', 'waits-for') AND (i.status NOT IN ('closed', 'tombstone') OR (i.id IS NULL AND d.depends_on_id NOT LIKE 'external:%'))" => {
                self.pairs(|_, to, kind| {
                    let status = self.status(to);
                    let counts = match &status {
                        Some(status) => status != "closed" && status != "tombstone",
                        None => !external(to),
                    };
                    let status = status.unwrap_or("unknown".to_string());
                    if counts && kind != "parent-child" && blocking(kind) {
                        Some(format!("{}:{status}", as_text(to)))
                    } else {
                        None
                    }
                })
            }
            "SELECT DISTINCT d.issue_id, d.depends_on_id FROM dependencies d INNER JOIN issues i ON d.depends_on_id = i.id WHERE d.type = 'parent-child' AND i.status = 'deferred' AND NOT EXISTS (SELECT 1 FROM blocked_issues_cache WHERE issue_id = d.issue_id)" => {
                self.pairs(|from, to, kind| {
                    let deferred = self.status(to).as_deref() == Some("deferred");
                    if kind == "parent-child" && deferred && !self.is_cached(from) {
                        Some(as_text(to))
                    } else {
                        None
                    }
                })
            }
            "SELECT DISTINCT d.issue_id, d.depends_on_id FROM dependencies d INNER JOIN blocked_issues_cache bc ON d.depends_on_id = bc.issue_id WHERE d.type = 'parent-child' AND NOT EXISTS (SELECT 1 FROM blocked_issues_cache WHERE issue_id = d.issue_id)" => {
                self.pairs(|from, to, kind| {
                    if kind == "parent-child" && self.is_cached(to) && !self.is_cached(from) {
                        Some(as_text(to))
                    } else {
                        None
                    }
                })
            }
            "SELECT DISTINCT depends_on_id FROM dependencies WHERE depends_on_id LIKE 'external:%' AND type IN ('blocks', 'parent-child', 'conditional-blocks', 'waits-for')" => {
                let ids = self.links.iter().filter(|l| external(&l.1) && blocking(&as_text(&l.2)));
                listed(ids.map(|l| l.1.clone()).collect())
            }
            "SELECT issue_id, depends_on_id FROM dependencies WHERE depends_on_id LIKE 'external:%' AND type IN ('blocks', 'parent-child', 'conditional-blocks', 'waits-for')" => {
                self.pairs(|_, to, kind| {
                    if external(to) && blocking(kind) {
                        Some(as_text(to))
                    } else {
                        None
                    }
                })
            }
            "SELECT issue_id, depends_on_id FROM dependencies WHERE type = 'parent-child'" => {
                self.pairs(|_, to, kind| {
                    if kind == "parent-child" {
                        Some(as_text(to))
                    } else {
                        None
                    }
                })
            }
            sql if sql.starts_with("SELECT DISTINCT l.label FROM labels l INNER JOIN issues i ON i.id = l.issue_id WHERE i.status IN ('closed', 'tombstone') AND l.label IN (") => {
                let done = |id: &SqlValue| {
                    matches!(self.status(id).as_deref(), Some("closed" | "tombstone"))
                };
                let found = self.labels.iter().filter(|l| done(&l.0) && p.contains(&l.1));
                listed(found.map(|l| l.1.clone()).collect())
            }
            "SELECT label FROM labels WHERE issue_id = ? ORDER BY label" => {
                let of_issue = self.labels.iter().filter(|l| l.0 == p[0]);
                let mut found: Vec<SqlValue> = of_issue.map(|l| l.1.clone()).collect();
                found.sort_by_key(as_text);
                listed(found)
            }
            "SELECT issue_id FROM labels WHERE label = ?" => {
                let with_label = self.labels.iter().filter(|l| l.1 == p[0]);
                listed(with_label.map(|l| l.0.clone()).collect())
            }
            "SELECT issue_id FROM labels WHERE label = ? AND label <> ? AND issue_id IN (SELECT issue_id FROM labels WHERE label = ?)" =>
            {
                let both = self.labels.iter().filter(|l| {
                    l.1 == p[0]
                        && l.1 != p[1]
                        && self.labels.iter().any(|o| o.0 == l.0 && o.1 == p[2])
                });
                listed(both.map(|l| l.0.clone()).collect())
            }
            "SELECT depends_on_id FROM dependencies WHERE issue_id = ?" => {
                let of_issue = self.links.iter().filter(|l| l.0 == p[0]);
                listed(of_issue.map(|l| l.1.clone()).collect())
            }
            "SELECT issue_id FROM dependencies WHERE depends_on_id = ? AND type = 'parent-child'" => {
                let children = self.links.iter().filter(|l| {
                    l.1 == p[0] && as_text(&l.2) == "parent-child"
                });
                listed(children.map(|l| l.0.clone()).collect())
            }
            "SELECT issue_id, depends_on_id FROM dependencies" => {
                let pair = |l: &(SqlValue, SqlValue, SqlValue)| Row {
                    values: vec![l.0.clone(), l.1.clone()],
                };
                self.links.iter().map(pair).collect()
            }
            "SELECT id, issue_id, author, text, created_at FROM comments WHERE issue_id = ? ORDER BY created_at ASC" =>
            {
                let mut found: Vec<Row> = vec![];
                for (n, comment) in self.comments.iter().enumerate() {
                    if comment[0] == p[0] {
                        let mut values = vec![SqlValue::Integer(n as i64 + 1)];
                        values.extend(comment.iter().cloned());
                        found.push(Row { values });
                    }
                }
                found.sort_by_key(|row| as_text(&row.values[4]));
                found
            }
            sql => panic!("cannot answer {sql}"),
        }
    }

    fn label_count(&self, s: &Statement) -> Row {
        assert_eq!(s.sql, "SELECT count(*) FROM labels WHERE issue_id = ? AND label = ?");
        let n = self.labels.iter().filter(|l| l.0 == s.params[0] && l.1 == s.params[1]).count();
        Row { values: vec![SqlValue::Integer(n as i64)] }
    }

    fn link_count(&self, s: &Statement) -> Row {
        let n = self.links.iter().filter(|l| l.0 == s.params[0] && l.1 == s.params[1]).count();
        Row { values: vec![SqlValue::Integer(n as i64)] }
    }

    /// Follows blocking dependencies from the first parameter and looks for the second.
    fn follow(&self, s: &Statement) -> Vec<Row> {
        assert!(s.sql.starts_with("WITH RECURSIVE transitive_deps(id) AS ("));
        assert!(s.sql.ends_with("SELECT 1 FROM transitive_deps WHERE id = ?2 LIMIT 1;"));
        let blocking = "AND type IN ('blocks', 'parent-child', 'conditional-blocks')";
        assert_eq!(s.sql.matches(blocking).count(), 2);
        let mut found: Vec<SqlValue> = vec![];
        let mut next = vec![s.params[0].clone()];
        while let Some(id) = next.pop() {
            for (from, to, kind) in &self.links {
                let kind = as_text(kind);
                let blocks = kind == "blocks" || kind == "parent-child"
                    || kind == "conditional-blocks";
                if *from == id && blocks && !found.contains(to) {
                    found.push(to.clone());
                    next.push(to.clone());
                }
            }
        }
        if found.contains(&s.params[1]) {
            vec![Row { values: vec![SqlValue::Integer(1)] }]
        } else {
            vec![]
        }
    }

    fn has_label(&self, issue: &[SqlValue], label: &SqlValue) -> bool {
        self.labels.iter().any(|(id, l)| *id == issue[0] && l == label)
    }

    /// Whether an issue meets the conditions at the front of a text, and what follows them.
    fn holds<'a>(&self, issue: &[SqlValue], sql: &'a str, params: &[SqlValue]) -> (bool, &'a str) {
        let is = |name: &str, list: &[&str]| list.contains(&as_text(&issue[column(name)]).as_str());
        let off = |name: &str| {
            matches!(issue[column(name)], SqlValue::Null | SqlValue::Integer(0))
        };
        let mut sql = sql;
        let mut params = params;
        let mut all = true;
        loop {
            if let Some(rest) = sql.strip_prefix(
                " AND (title LIKE ? ESCAPE '\\' OR description LIKE ? ESCAPE '\\' OR id LIKE ? ESCAPE '\\')",
            ) {
                all = all
                    && (matches_pattern(&issue[column("title")], &params[0])
                        || matches_pattern(&issue[column("description")], &params[1])
                        || matches_pattern(&issue[column("id")], &params[2]));
                params = &params[3..];
                sql = rest;
            } else if let Some(rest) = sql.strip_prefix(" AND title LIKE ? ESCAPE '\\'") {
                all = all && matches_pattern(&issue[column("title")], &params[0]);
                params = &params[1..];
                sql = rest;
            } else if let Some(rest) =
                sql.strip_prefix(" AND status NOT IN ('closed', 'tombstone', 'deferred')")
            {
                all = all && !is("status", &["closed", "tombstone", "deferred"]);
                sql = rest;
            } else if let Some(rest) =
                sql.strip_prefix(" AND status NOT IN ('closed', 'tombstone')")
            {
                all = all && !is("status", &["closed", "tombstone"]);
                sql = rest;
            } else if let Some(rest) =
                sql.strip_prefix(" AND status IN ('open', 'in_progress', 'deferred')")
            {
                all = all && is("status", &["open", "in_progress", "deferred"]);
                sql = rest;
            } else if let Some(rest) = sql.strip_prefix(" AND status IN ('open', 'in_progress')") {
                all = all && is("status", &["open", "in_progress"]);
                sql = rest;
            } else if let Some(rest) = sql.strip_prefix(
                " AND NOT EXISTS (SELECT 1 FROM blocked_issues_cache WHERE issue_id = issues.id)",
            ) {
                all = all && !self.is_cached(&issue[0]);
                sql = rest;
            } else if let Some(rest) = sql.strip_prefix(
                " AND (defer_until IS NULL OR datetime(defer_until) <= datetime('now'))",
            ) {
                all = all
                    && match &issue[column("defer_until")] {
                        SqlValue::Text(t) => {
                            let t = chrono::DateTime::parse_from_rfc3339(t).unwrap();
                            t.timestamp() <= chrono::Utc::now().timestamp()
                        }
                        _ => true,
                    };
                sql = rest;
            } else if let Some(rest) = sql.strip_prefix(" AND (pinned = 0 OR pinned IS NULL)") {
                all = all && off("pinned");
                sql = rest;
            } else if let Some(rest) = sql.strip_prefix(" AND (ephemeral = 0 OR ephemeral IS NULL)")
            {
                all = all && off("ephemeral");
                sql = rest;
            } else if let Some(rest) = sql.strip_prefix(" AND id NOT LIKE '%-wisp-%'") {
                all = all && !as_text(&issue[0]).contains("-wisp-");
                sql = rest;
            } else if let Some(rest) =
                sql.strip_prefix(" AND (is_template = 0 OR is_template IS NULL)")
            {
                all = all && off("is_template");
                sql = rest;
            } else if let Some(rest) =
                sql.strip_prefix(" AND id IN (SELECT issue_id FROM labels WHERE label = ?)")
            {
                all = all && self.has_label(issue, &params[0]);
                params = &params[1..];
                sql = rest;
            } else if let Some(rest) =
                sql.strip_prefix(" AND id IN (SELECT issue_id FROM labels WHERE label IN (")
            {
                let (list, rest) = rest.split_once("))").unwrap();
                let n = list.split(',').count();
                all = all && params[..n].iter().any(|l| self.has_label(issue, l));
                params = &params[n..];
                sql = rest;
            } else if let Some(rest) = sql.strip_prefix(
                " AND id IN (SELECT issue_id FROM dependencies WHERE depends_on_id = ? AND type = 'parent-child')",
            ) {
                all = all
                    && self.links.iter().any(|(from, to, kind)| {
                        *from == issue[0] && *to == params[0] && as_text(kind) == "parent-child"
                    });
                params = &params[1..];
                sql = rest;
            } else if let Some(rest) = sql.strip_prefix(" AND (id IN (") {
                let (list, rest) = rest.split_once("))").unwrap();
                let n = list.split(',').count();
                all = all && params[..n].contains(&issue[0]);
                params = &params[n..];
                sql = rest;
            } else if let Some(rest) = sql.strip_prefix(" AND 1 = 0") {
                all = false;
                sql = rest;
            } else if let Some(rest) = sql.strip_prefix(" AND updated_at <= ?") {
                all = all && as_text(&issue[column("updated_at")]) <= as_text(&params[0]);
                params = &params[1..];
                sql = rest;
            } else if let Some(rest) = sql.strip_prefix(" AND updated_at >= ?") {
                all = all && as_text(&issue[column("updated_at")]) >= as_text(&params[0]);
                params = &params[1..];
                sql = rest;
            } else {
                assert!(params.is_empty());
                return (all, sql);
            }
        }
    }

    fn query(&self, s: &Statement) -> Vec<Row> {
        assert_eq!(s.sql.matches('?').count(), s.params.len(), "{}", s.sql);
        let (select, conditions) = s.sql.split_once(" WHERE 1=1").unwrap();
        assert_eq!(select, format!("SELECT {} FROM issues", COLUMNS.join(", ")));
        let blank = vec![SqlValue::Null; COLUMNS.len()];
        let (_, order) = self.holds(&blank, conditions, &s.params);
        let order = order.strip_prefix(" ORDER BY ").unwrap();
        let mut found: Vec<Vec<SqlValue>> = vec![];
        for issue in &self.issues {
            if self.holds(issue, conditions, &s.params).0 {
                found.push(issue.clone());
            }
        }
        for key in order.split(", ").collect::<Vec<&str>>().into_iter().rev() {
            let urgent = "CASE WHEN priority <= 1 THEN 0 ELSE 1 END";
            let (name, direction) = match key {
                k if k == urgent => ("priority", "urgent"),
                _ => key.split_once(' ').unwrap(),
            };
            let place = column(name);
            let rank = |issue: &Vec<SqlValue>| match &issue[place] {
                SqlValue::Integer(n) if direction == "urgent" => (i64::from(*n > 1), String::new()),
                SqlValue::Integer(n) => (*n, String::new()),
                v if direction.starts_with("COLLATE NOCASE ") => {
                    (0, as_text(v).to_ascii_lowercase())
                }
                v => (0, as_text(v)),
            };
            match direction {
                "ASC" | "COLLATE NOCASE ASC" | "urgent" => {
                    found.sort_by(|a, b| rank(a).cmp(&rank(b)));
                }
                "DESC" | "COLLATE NOCASE DESC" => found.sort_by(|a, b| rank(b).cmp(&rank(a))),
                _ => panic!("cannot sort by {key}"),
            }
        }
        found.into_iter().map(|values| Row { values }).collect()
    }

    fn rebuild_blocked_cache(&mut self) {
        let (mut run, mut action) = CacheRebuild::start();
        loop {
            let reply = match action {
                CacheAction::Execute(s) => {
                    self.run(&s);
                    CacheReply::Executed
                }
                CacheAction::Query(s) => CacheReply::Rows(self.rows(&s)),
                CacheAction::Done(_) => return,
                CacheAction::Fail => panic!("no statement failed"),
            };
            action = run.step(reply);
        }
    }

    /// Performs a mutation, with what the body does and what it records.
    fn mutate<R>(
        &mut self,
        op: &str,
        mut body: impl FnMut(&mut Engine, &mut MutationContext) -> Result<R, BeadsError>,
    ) -> Result<R, BeadsError> {
        let (mut run, mut action) = MutationRun::start();
        let mut outcome: Option<Result<R, BeadsError>> = None;
        loop {
            let mut reply = TxReply::Done;
            match action {
                TxAction::Begin => {
                    self.run(&Statement::plain("BEGIN IMMEDIATE"));
                }
                TxAction::RunBody => {
                    let mut ctx = MutationContext::new(op, "tester");
                    let result = body(self, &mut ctx);
                    reply = if result.is_ok() {
                        TxReply::BodyDone {
                            script: closing_statements(&ctx, moment()),
                            rebuild: ctx.invalidate_blocked_cache,
                        }
                    } else {
                        TxReply::Failed { busy_snapshot: false }
                    };
                    outcome = Some(result);
                }
                TxAction::Execute(s) => {
                    self.run(&s);
                }
                TxAction::RebuildCache => self.rebuild_blocked_cache(),
                TxAction::Commit => {
                    self.run(&Statement::plain("COMMIT"));
                }
                TxAction::Rollback => {
                    self.run(&Statement::plain("ROLLBACK"));
                }
                TxAction::Sleep(_) => {}
                TxAction::Succeed => {
                    let result = outcome.unwrap();
                    assert!(result.is_ok());
                    return result;
                }
                TxAction::Fail => {
                    let result = outcome.unwrap();
                    assert!(result.is_err());
                    return result;
                }
            }
            action = run.step(reply);
        }
    }

    fn create_issue(&mut self, issue: &Issue) {
        let created = self.mutate("create_issue", |db, ctx| {
            for step in create_issue(issue, "tester", ctx, moment()) {
                match step {
                    Step::Run(s) => {
                        db.run(&s);
                    }
                    Step::Refuse { query, error } => {
                        if !db.rows(&query).is_empty() {
                            return Err(error);
                        }
                    }
                    Step::Stop { error } => return Err(error),
                }
            }
            Ok(())
        });
        created.unwrap();
    }

    fn add_label(&mut self, id: &str, label: &str) -> bool {
        let added = self.mutate("add_label", |db, ctx| {
            let existing = db.label_count(&label_count_query(id, label));
            Ok(match add_label(&existing, id, label, ctx, moment()) {
                Some((insert, touch)) => db.run(&insert) + db.run(&touch) > 0,
                None => false,
            })
        });
        added.unwrap()
    }

    fn remove_label(&mut self, id: &str, label: &str) -> bool {
        let removed = self.mutate("remove_label", |db, ctx| {
            let removed = db.run(&remove_label(id, label));
            let note = note_removed_label(label);
            Ok(match labels_removed(removed, id, note, ctx, moment()) {
                Some(touch) => db.run(&touch) > 0,
                None => false,
            })
        });
        removed.unwrap()
    }

    fn get_labels(&self, id: &str) -> Vec<String> {
        texts_in_column(&self.rows(&get_labels(id)), 0)
    }

    fn rename_label(&mut self, old_name: &str, new_name: &str) -> usize {
        let renamed = self.mutate("rename_label", |db, ctx| {
            let ids = db.rows(&labelled_issues_query(old_name));
            let conflicts = db.rows(&rename_conflicts_query(old_name, new_name));
            let (deletes, rename, touches) =
                rename_label(&ids, &conflicts, old_name, new_name, ctx, moment());
            for s in deletes.iter().chain([&rename]).chain(&touches) {
                db.run(s);
            }
            Ok(renamed_issues(&ids))
        });
        renamed.unwrap()
    }

    fn try_dependency(
        &mut self,
        id: &str,
        depends_on_id: &str,
        kind: &str,
    ) -> Result<bool, BeadsError> {
        if let Some(check) = cycle_check(id, depends_on_id, kind) {
            check_no_cycle(id, depends_on_id, &self.rows(&check))?;
        }
        self.mutate("add_dependency", |db, ctx| {
            let existing = db.link_count(&dependency_exists_between(id, depends_on_id));
            let now = moment();
            let plan = add_dependency(&existing, id, depends_on_id, kind, "tester", ctx, now);
            Ok(match plan {
                Some((insert, touch)) => db.run(&insert) + db.run(&touch) > 0,
                None => false,
            })
        })
    }

    fn add_dependency(&mut self, id: &str, depends_on_id: &str, kind: &str) -> bool {
        self.try_dependency(id, depends_on_id, kind).unwrap()
    }

    fn remove_dependency(&mut self, id: &str, depends_on_id: &str) -> bool {
        let removed = self.mutate("remove_dependency", |db, ctx| {
            let removed = db.run(&remove_dependency(id, depends_on_id));
            let note = note_removed_dependency(depends_on_id);
            Ok(match link_removed(removed, id, note, ctx, moment()) {
                Some(touch) => db.run(&touch) > 0,
                None => false,
            })
        });
        removed.unwrap()
    }

    fn add_comment(&mut self, id: &str, author: &str, text: &str) -> Comment {
        let added = self.mutate("add_comment", |db, ctx| {
            db.run(&insert_comment_row(id, author, text));
            let row_id = db.rows(&inserted_comment_query())[0].integer_or_zero(0);
            db.run(&add_comment(id, text, ctx, moment()));
            fetch_comment(&db.rows(&comment_query(row_id))[0])
        });
        added.unwrap()
    }

    fn get_blocked_issues(&self) -> Vec<(Issue, Vec<String>)> {
        get_blocked_issues(&self.rows(&blocked_issues_query())).unwrap()
    }

    fn get_blockers(&self, id: &str) -> Vec<String> {
        get_blockers(self.rows(&blockers_query(id)).first())
    }

    fn next_child_number(&self, parent_id: &str) -> u32 {
        next_child_number(parent_id, &self.rows(&child_ids_query(parent_id)))
    }

    fn get_dependencies(&self, id: &str) -> Vec<String> {
        texts_in_column(&self.rows(&get_dependencies(id)), 0)
    }

    fn would_create_cycle(&self, id: &str, depends_on_id: &str) -> bool {
        let found = self.rows(&check_cycle(id, depends_on_id, true));
        would_create_cycle(id, depends_on_id, &found)
    }

    fn get_comments(&self, id: &str) -> Vec<Comment> {
        get_comments(&self.rows(&comments_query(id))).unwrap()
    }

    fn get_issue(&self, id: &str) -> Option<Issue> {
        let found = self.issues.iter().find(|i| i[0] == SqlValue::text(id));
        opt_issue_from(found.map(|values| Row { values: values.clone() }).as_ref()).unwrap()
    }

    /// Imports an issue, with the statement in one place failing.
    fn import(&mut self, issue: &Issue, failing: Option<usize>) -> Option<bool> {
        let (mut run, first) = UpsertRun::start(issue);
        let mut action = UpsertAction::Execute(first);
        let mut n = 0;
        loop {
            match action {
                UpsertAction::Execute(s) => {
                    let reply = if failing == Some(n) {
                        UpsertReply::Failed
                    } else {
                        UpsertReply::Done { changed: self.run(&s) }
                    };
                    n += 1;
                    action = run.step(reply);
                }
                UpsertAction::Succeed { inserted } => return Some(inserted),
                UpsertAction::Fail => return None,
            }
        }
    }

    fn list_issues(&self, filters: &ListFilters) -> Vec<Issue> {
        issues_from_rows(&self.query(&list_issues(filters))).unwrap()
    }

    fn search_issues(&self, text: &str, filters: &ListFilters) -> Vec<Issue> {
        match search_issues(text, filters) {
            Some(s) => issues_from_rows(&self.query(&s)).unwrap(),
            None => vec![],
        }
    }

    fn get_ready_issues(&self, filters: &ReadyFilters, sort: ReadySortPolicy) -> Vec<Issue> {
        let mut descendants: Vec<String> = vec![];
        if let (Some(parent), true) = (&filters.parent, filters.recursive) {
            let (mut walk, first) = DescendantWalk::start(parent);
            let mut next = walk.step(&self.rows(&first));
            while let Some(s) = next {
                next = walk.step(&self.rows(&s));
            }
            descendants = walk.finish();
        }
        issues_from_rows(&self.query(&get_ready_issues(filters, sort, &descendants))).unwrap()
    }

    fn get_config(&self, key: &str) -> Option<String> {
        let s = get_config(key);
        assert_eq!(s.sql, "SELECT value FROM config WHERE key = ?");
        let found = self.config.iter().find(|(k, _)| *k == s.params[0]);
        let row = found.map(|(_, v)| Row { values: vec![v.clone()] });
        single_text(row.as_ref())
    }
}

fn titled(date: Timestamp) -> Engine {
    let mut storage = Engine::default();
    storage.create_issue(&make_issue("bd-s1", "Fix authentication bug", Status::Open, 2, date));
    storage.create_issue(&make_issue("bd-s2", "Add user registration", Status::Open, 2, date));
    storage.create_issue(&make_issue("bd-s3", "Update documentation", Status::Open, 2, date));
    storage
}

#[test]
fn test_would_create_cycle_detects_cycle() {
    let mut storage = Engine::default();
    let t1 = date("2025-07-03T00:00:00Z");
    storage.create_issue(&make_issue("bd-cy1", "A", Status::Open, 2, t1));
    storage.create_issue(&make_issue("bd-cy2", "B", Status::Open, 2, t1));
    storage.create_issue(&make_issue("bd-cy3", "C", Status::Open, 2, t1));
    storage.add_dependency("bd-cy1", "bd-cy2", "blocks");
    storage.add_dependency("bd-cy2", "bd-cy3", "blocks");
    let creates_cycle = storage.would_create_cycle("bd-cy3", "bd-cy1");
    assert!(creates_cycle);
    assert!(!storage.would_create_cycle("bd-cy1", "bd-cy3"));
}

#[test]
fn an_issue_cannot_depend_on_itself() {
    let mut storage = Engine::default();
    let t1 = date("2025-07-03T00:00:00Z");
    storage.create_issue(&make_issue("bd-1", "A", Status::Open, 2, t1));
    assert!(storage.would_create_cycle("bd-1", "bd-1"));
    assert_eq!(
        storage.try_dependency("bd-1", "bd-1", "blocks"),
        Err(BeadsError::DependencyCycle {
            path: "Adding dependency bd-1 -> bd-1 would create a cycle".to_string()
        })
    );
    assert!(storage.links.is_empty());
}

#[test]
fn cycles_that_share_issues_are_all_found() {
    let mut storage = Engine::default();
    for (from, to) in [("a", "b"), ("a", "c"), ("b", "d"), ("c", "d"), ("d", "a")] {
        assert!(storage.add_dependency(from, to, "related"));
    }
    let found = detect_all_cycles(&storage.rows(&edges_query()));
    assert_eq!(found, vec![vec!["a", "b", "d", "a"], vec!["a", "c", "d", "a"]]);
}

#[test]
fn test_add_dependency_and_remove() {
    let mut storage = Engine::default();
    let t1 = date("2025-07-02T00:00:00Z");
    storage.create_issue(&make_issue("bd-a1", "A", Status::Open, 2, t1));
    storage.create_issue(&make_issue("bd-b1", "B", Status::Open, 2, t1));
    let added = storage.add_dependency("bd-a1", "bd-b1", "blocks");
    assert!(added);
    let added = storage.add_dependency("bd-a1", "bd-b1", "blocks");
    assert!(!added);
    let deps = storage.get_dependencies("bd-a1");
    assert_eq!(deps, vec!["bd-b1".to_string()]);
    let removed = storage.remove_dependency("bd-a1", "bd-b1");
    assert!(removed);
    let deps = storage.get_dependencies("bd-a1");
    assert!(deps.is_empty());
}

#[test]
fn test_add_and_remove_labels_sorted() {
    let mut storage = Engine::default();
    let t1 = date("2025-07-01T00:00:00Z");
    storage.create_issue(&make_issue("bd-l1", "Label me", Status::Open, 2, t1));
    let added = storage.add_label("bd-l1", "backend");
    assert!(added);
    let added = storage.add_label("bd-l1", "api");
    assert!(added);
    let labels = storage.get_labels("bd-l1");
    assert_eq!(labels, vec!["api".to_string(), "backend".to_string()]);
    let removed = storage.remove_label("bd-l1", "api");
    assert!(removed);
    let labels = storage.get_labels("bd-l1");
    assert_eq!(labels, vec!["backend".to_string()]);
}

#[test]
fn renaming_a_label_to_its_own_name_keeps_it() {
    let mut storage = Engine::default();
    let t1 = date("2025-07-01T00:00:00Z");
    storage.create_issue(&make_issue("bd-1", "A", Status::Open, 2, t1));
    storage.add_label("bd-1", "x");
    assert_eq!(storage.rename_label("x", "x"), 1);
    assert_eq!(storage.get_labels("bd-1"), vec!["x".to_string()]);
}

#[test]
fn renaming_a_label_joins_it_with_the_new_name() {
    let mut storage = Engine::default();
    let t1 = date("2025-07-01T00:00:00Z");
    for id in ["bd-1", "bd-2", "bd-3"] {
        storage.create_issue(&make_issue(id, "A", Status::Open, 2, t1));
    }
    storage.add_label("bd-1", "old");
    storage.add_label("bd-2", "old");
    storage.add_label("bd-2", "new");
    storage.add_label("bd-3", "other");
    assert_eq!(storage.rename_label("old", "new"), 2);
    assert_eq!(storage.get_labels("bd-1"), vec!["new".to_string()]);
    assert_eq!(storage.get_labels("bd-2"), vec!["new".to_string()]);
    assert_eq!(storage.get_labels("bd-3"), vec!["other".to_string()]);
}

#[test]
fn test_get_comments_orders_by_created_at() {
    let mut storage = Engine::default();
    let t1 = date("2025-07-04T00:00:00Z");
    storage.create_issue(&make_issue("bd-c1", "Comment issue", Status::Open, 2, t1));
    let insert = |author: &str, text: &str, date: &str| Statement {
        sql: "INSERT INTO comments (issue_id, author, text, created_at) VALUES (?, ?, ?, ?)"
            .to_string(),
        params: vec![
            SqlValue::text("bd-c1"),
            SqlValue::text(author),
            SqlValue::text(text),
            SqlValue::text(date),
        ],
    };
    storage.run(&insert("alice", "first", "2025-07-01T00:00:00Z"));
    storage.run(&insert("bob", "second", "2025-07-02T00:00:00Z"));
    let comments = storage.get_comments("bd-c1");
    assert_eq!(comments.len(), 2);
    assert_eq!(comments[0].author, "alice");
    assert_eq!(comments[1].author, "bob");
    storage.run(&insert("carol", "zeroth", "2025-06-30T00:00:00Z"));
    let comments = storage.get_comments("bd-c1");
    let authors: Vec<&str> = comments.iter().map(|c| c.author.as_str()).collect();
    assert_eq!(authors, vec!["carol", "alice", "bob"]);
    assert!(storage.get_comments("bd-c2").is_empty());
}

#[test]
fn test_add_comment_round_trip() {
    let mut storage = Engine::default();
    let t1 = date("2025-07-04T00:00:00Z");
    storage.create_issue(&make_issue("bd-c2", "Comment issue", Status::Open, 2, t1));
    let comment = storage.add_comment("bd-c2", "alice", "Hello there");
    assert_eq!(comment.issue_id, "bd-c2");
    assert_eq!(comment.author, "alice");
    assert_eq!(comment.body, "Hello there");
    assert!(comment.id > 0);
    let comments = storage.get_comments("bd-c2");
    assert_eq!(comments.len(), 1);
    assert_eq!(format!("{:?}", comments[0]), format!("{comment:?}"));
}

#[test]
fn test_add_comment_marks_dirty() {
    let mut storage = Engine::default();
    let t1 = date("2025-07-04T00:00:00Z");
    storage.create_issue(&make_issue("bd-c3", "Comment issue", Status::Open, 2, t1));
    storage.add_comment("bd-c3", "alice", "Dirty comment");
    let dirty_count = storage.dirty.iter().filter(|id| as_text(id) == "bd-c3").count();
    assert_eq!(dirty_count, 1);
}

#[test]
fn test_transaction_rollback_on_error() {
    let mut storage = Engine::default();
    let t1 = at(chrono::Utc::now());
    storage.create_issue(&make_issue("bd-tx1", "Tx Test", Status::Open, 2, t1));
    let result: Result<(), BeadsError> = storage.mutate("fail_op", |db, ctx| {
        db.run(&remove_label("bd-tx1", "none"));
        let note = Some("Should be rolled back".to_string());
        ctx.record_event(EventType::Updated, "bd-tx1", note, moment());
        Err(BeadsError::Config("Planned failure".to_string()))
    });
    assert!(result.is_err());
    let events: Vec<&Vec<SqlValue>> =
        storage.events.iter().filter(|e| as_text(&e[0]) == "bd-tx1").collect();
    assert_eq!(events.len(), 1);
    assert_eq!(as_text(&events[0][1]), EventType::Created.as_str());
    assert!(storage.saved.is_none());
}

#[test]
fn test_get_blocked_issues_lists_blockers() {
    let mut storage = Engine::default();
    let t1 = date("2025-04-01T00:00:00Z");
    storage.create_issue(&make_issue("bd-b1", "Blocker", Status::Open, 1, t1));
    storage.create_issue(&make_issue("bd-b2", "Blocked", Status::Open, 2, t1));
    storage.add_dependency("bd-b2", "bd-b1", "blocks");
    let blocked_issues = storage.get_blocked_issues();
    assert_eq!(blocked_issues.len(), 1);
    assert_eq!(blocked_issues[0].0.id, "bd-b2");
    assert_eq!(blocked_issues[0].1.len(), 1);
}

#[test]
fn blockers_come_with_their_status() {
    let mut storage = Engine::default();
    let t1 = date("2025-04-01T00:00:00Z");
    storage.create_issue(&make_issue("bd-1", "Blocker", Status::Open, 2, t1));
    storage.create_issue(&make_issue("bd-2", "Blocked", Status::Open, 2, t1));
    storage.create_issue(&make_issue("bd-3", "Child", Status::Open, 2, t1));
    storage.add_dependency("bd-2", "bd-1", "blocks");
    storage.add_dependency("bd-3", "bd-2", "parent-child");
    assert_eq!(storage.get_blockers("bd-2"), vec!["bd-1:open".to_string()]);
    assert_eq!(storage.get_blockers("bd-3"), vec!["bd-2:parent-blocked".to_string()]);
    assert!(storage.get_blockers("bd-1").is_empty());
}

#[test]
fn test_blocked_cache_handles_quotes_in_ids() {
    let mut storage = Engine::default();
    let t1 = at(chrono::Utc::now());
    storage.create_issue(&make_issue("bd-x1", "Blocked", Status::Open, 2, t1));
    let tricky_id = "orphan:foo\"bar";
    storage.add_dependency("bd-x1", tricky_id, "blocks");
    let blocked = storage.get_blocked_issues();
    assert_eq!(blocked.len(), 1);
    assert_eq!(blocked[0].0.id, "bd-x1");
    let blockers = &blocked[0].1;
    assert_eq!(blockers.len(), 1);
    assert_eq!(blockers[0], "orphan:foo\"bar:unknown");
}

#[test]
fn test_blocked_cache_invalidation() {
    let mut storage = Engine::default();
    let t1 = at(chrono::Utc::now());
    storage.create_issue(&make_issue("bd-c1", "Cached issue", Status::Open, 2, t1));
    storage.create_issue(&make_issue("bd-b1", "Blocker issue", Status::Open, 2, t1));
    storage.cache.push((SqlValue::text("bd-c1"), SqlValue::text("[\"bd-b1\"]")));
    let cached = |storage: &Engine| {
        storage.cache.iter().filter(|e| as_text(&e.0) == "bd-c1").count()
    };
    assert_eq!(cached(&storage), 1);
    storage.add_dependency("bd-c1", "bd-b1", "related");
    assert_eq!(cached(&storage), 0);
}

#[test]
fn test_external_dependency_blocks_and_propagates_to_children() {
    let external_storage = Engine::default();
    let mut storage = Engine::default();
    let t1 = date("2025-03-03T00:00:00Z");
    storage.create_issue(&make_issue("bd-p1", "Parent", Status::Open, 2, t1));
    storage.create_issue(&make_issue("bd-c1", "Child", Status::Open, 2, t1));
    storage.add_dependency("bd-p1", "external:extproj:capability", "blocks");
    storage.add_dependency("bd-c1", "bd-p1", "parent-child");

    let ids = distinct_texts(&storage.rows(&list_external_dependency_ids(true)));
    let wanted = wanted_capabilities(&ids);
    let mut satisfied = TextMap::new();
    let mut found: Vec<Row> = vec![];
    for s in capability_queries(wanted.get("extproj").unwrap()) {
        found.extend(external_storage.rows(&s));
    }
    satisfied.insert("extproj", provided_capabilities(&found));
    let statuses = resolve_external_dependency_statuses(&ids, &satisfied);
    assert_eq!(statuses.get("external:extproj:capability"), Some(&false));

    let blockers = external_blockers(
        &storage.rows(&external_blocking_query()),
        &storage.rows(&parent_links_query()),
        &statuses,
    );
    let parent_blockers = blockers.get("bd-p1").expect("parent blockers");
    assert!(parent_blockers.iter().any(|b| b.starts_with("external:extproj:capability")));
    let child_blockers = blockers.get("bd-c1").expect("child blockers");
    assert!(child_blockers.iter().any(|b| b == "bd-p1:parent-blocked"));
}

#[test]
fn test_next_child_number() {
    let mut storage = Engine::default();
    let t1 = date("2025-01-01T00:00:00Z");
    storage.create_issue(&make_issue("bd-parent", "Parent Epic", Status::Open, 2, t1));
    let next = storage.next_child_number("bd-parent");
    assert_eq!(next, 1, "First child should be .1");
    storage.create_issue(&make_issue("bd-parent.1", "Child 1", Status::Open, 2, t1));
    let next = storage.next_child_number("bd-parent");
    assert_eq!(next, 2, "After .1 exists, next should be .2");
    storage.create_issue(&make_issue("bd-parent.3", "Child 3", Status::Open, 2, t1));
    let next = storage.next_child_number("bd-parent");
    assert_eq!(next, 4, "After .3 exists (skipping .2), next should be .4");
    storage.create_issue(&make_issue("bd-parent.1.1", "Grandchild", Status::Open, 2, t1));
    let next = storage.next_child_number("bd-parent");
    assert_eq!(next, 4, "Grandchild should not affect parent's next child number");
    let next_for_child1 = storage.next_child_number("bd-parent.1");
    assert_eq!(
        next_for_child1, 2,
        "After bd-parent.1.1 exists, next for bd-parent.1 should be .2"
    );
}

#[test]
fn an_import_that_fails_leaves_the_old_row() {
    let t1 = date("2025-07-01T00:00:00Z");
    let old = make_issue("bd-1", "Old", Status::Open, 2, t1);
    let new = make_issue("bd-1", "New", Status::Closed, 1, t1);
    for failing in 0..4 {
        let mut storage = Engine::default();
        storage.create_issue(&old);
        storage.dirty.clear();
        assert_eq!(storage.import(&new, Some(failing)), None);
        assert_eq!(storage.issues.len(), 1);
        assert_eq!(storage.get_issue("bd-1").unwrap().title, "Old");
        assert!(storage.saved.is_none());
        assert_eq!((storage.events.len(), storage.dirty.len()), (1, 0));
    }
    let mut storage = Engine::default();
    storage.create_issue(&old);
    assert_eq!(storage.import(&new, None), Some(true));
    assert_eq!(storage.issues.len(), 1);
    let stored = storage.get_issue("bd-1").unwrap();
    assert_eq!(stored.title, "New");
    assert_eq!(stored.status, Status::Closed);
    assert_eq!(stored.priority, Priority(1));
}

#[test]
fn test_list_issues_empty_db() {
    let storage = Engine::default();
    let filters = ListFilters::default();
    let issues = storage.list_issues(&filters);
    assert!(issues.is_empty(), "Empty DB should return no issues");
}

#[test]
fn test_delete_config() {
    let mut storage = Engine::default();
    let (delete, insert) = set_config("test_key", "test_value");
    storage.run(&delete);
    storage.run(&insert);
    assert_eq!(storage.get_config("test_key"), Some("test_value".to_string()));
    let deleted = storage.run(&delete_config("test_key")) > 0;
    assert!(deleted, "Should return true when key existed");
    assert_eq!(storage.get_config("test_key"), None);
    let deleted_again = storage.run(&delete_config("nonexistent")) > 0;
    assert!(!deleted_again, "Should return false when key doesn't exist");
}

#[test]
fn test_list_issues_filter_by_title() {
    let storage = titled(date("2025-08-01T00:00:00Z"));
    let filters = ListFilters {
        title_contains: Some("bug".to_string()),
        ..ListFilters::default()
    };
    let issues = storage.list_issues(&filters);
    assert_eq!(issues.len(), 1, "Should find one issue matching 'bug' in title");
    assert_eq!(issues[0].id, "bd-s1");
}

#[test]
fn titles_with_wildcards_are_found_literally() {
    let mut storage = titled(date("2025-08-01T00:00:00Z"));
    let t1 = date("2025-08-01T00:00:00Z");
    storage.create_issue(&make_issue("bd-s4", "Cover 100% of a_b\\c", Status::Open, 2, t1));
    for text in ["100%", "a_b", "b\\c"] {
        let filters = ListFilters {
            title_contains: Some(text.to_string()),
            ..ListFilters::default()
        };
        let issues = storage.list_issues(&filters);
        assert_eq!(issues.len(), 1, "{text}");
        assert_eq!(issues[0].id, "bd-s4");
    }
    let filters = ListFilters {
        title_contains: Some("F_x".to_string()),
        ..ListFilters::default()
    };
    assert_eq!(storage.list_issues(&filters).len(), 0);
}

#[test]
fn test_list_issues_reverse_default_sort() {
    let mut storage = Engine::default();
    let t1 = date("2025-08-01T00:00:00Z");
    let t2 = date("2025-08-02T00:00:00Z");
    storage.create_issue(&make_issue("bd-a", "A", Status::Open, 1, t1));
    storage.create_issue(&make_issue("bd-b", "B", Status::Open, 1, t2));
    storage.create_issue(&make_issue("bd-c", "C", Status::Open, 2, t1));
    let filters = ListFilters {
        reverse: true,
        ..ListFilters::default()
    };
    let issues = storage.list_issues(&filters);
    let ids: Vec<_> = issues.iter().map(|i| i.id.as_str()).collect();
    assert_eq!(ids, vec!["bd-c", "bd-a", "bd-b"]);
    let issues = storage.list_issues(&ListFilters::default());
    let ids: Vec<_> = issues.iter().map(|i| i.id.as_str()).collect();
    assert_eq!(ids, vec!["bd-b", "bd-a", "bd-c"]);
}

#[test]
fn test_search_issues_full_text() {
    let storage = titled(date("2025-09-01T00:00:00Z"));
    let filters = ListFilters::default();
    let results = storage.search_issues("authentication", &filters);
    assert_eq!(results.len(), 1, "Should find one issue matching 'authentication'");
    assert_eq!(results[0].id, "bd-s1");
    assert_eq!(storage.search_issues(" \t ", &filters).len(), 0);
}

#[test]
fn test_search_issues_respects_include_deferred_flag() {
    let mut storage = Engine::default();
    let t1 = date("2025-09-01T00:00:00Z");
    storage.create_issue(&make_issue(
        "bd-s-open",
        "authentication flow update",
        Status::Open,
        2,
        t1,
    ));
    storage.create_issue(&make_issue(
        "bd-s-deferred",
        "authentication flow deferred follow-up",
        Status::Deferred,
        2,
        t1,
    ));
    let filters = ListFilters {
        include_deferred: false,
        ..ListFilters::default()
    };
    let results = storage.search_issues("authentication", &filters);
    assert_eq!(results.len(), 1);
    assert_eq!(results[0].id, "bd-s-open");
    let filters = ListFilters {
        include_deferred: true,
        ..ListFilters::default()
    };
    assert_eq!(storage.search_issues("authentication", &filters).len(), 2);
}

#[test]
fn test_list_issues_filter_by_updated_date() {
    let mut storage = Engine::default();
    let now = chrono::Utc::now();
    let old = at(now - chrono::Duration::days(10));
    let older = at(now - chrono::Duration::days(20));
    storage.create_issue(&make_issue("bd-old", "Old issue", Status::Open, 2, old));
    storage.create_issue(&make_issue("bd-older", "Older issue", Status::Open, 2, older));
    storage.create_issue(&make_issue("bd-new", "New issue", Status::Open, 2, at(now)));
    let mut filters = ListFilters {
        updated_before: Some(old),
        ..Default::default()
    };
    let issues = storage.list_issues(&filters);
    assert_eq!(issues.len(), 2);
    let ids: Vec<_> = issues.iter().map(|i| i.id.as_str()).collect();
    assert!(ids.contains(&"bd-old"));
    assert!(ids.contains(&"bd-older"));
    assert!(!ids.contains(&"bd-new"));
    filters.updated_before = None;
    filters.updated_after = Some(old);
    let issues = storage.list_issues(&filters);
    assert_eq!(issues.len(), 2);
    let ids: Vec<_> = issues.iter().map(|i| i.id.as_str()).collect();
    assert!(ids.contains(&"bd-old"));
    assert!(ids.contains(&"bd-new"));
    assert!(!ids.contains(&"bd-older"));
}

#[test]
fn test_list_issues_filter_by_labels() {
    let mut storage = Engine::default();
    let t1 = at(chrono::Utc::now());
    storage.create_issue(&make_issue("bd-l1", "Issue with label", Status::Open, 2, t1));
    storage.create_issue(&make_issue("bd-l2", "Issue without label", Status::Open, 2, t1));
    storage.add_label("bd-l1", "test-label");
    let filters = ListFilters {
        labels: Some(vec!["test-label".to_string()]),
        ..Default::default()
    };
    let issues = storage.list_issues(&filters);
    assert_eq!(issues.len(), 1);
    assert_eq!(issues[0].id, "bd-l1");
}

#[test]
fn test_get_ready_issues_filters_by_labels() {
    let mut storage = Engine::default();
    let t1 = at(chrono::Utc::now());
    storage.create_issue(&make_issue("bd-1", "A", Status::Open, 2, t1));
    storage.create_issue(&make_issue("bd-2", "B", Status::Open, 2, t1));
    storage.create_issue(&make_issue("bd-3", "C", Status::Open, 2, t1));
    storage.add_label("bd-1", "backend");
    storage.add_label("bd-1", "urgent");
    storage.add_label("bd-2", "backend");

    let filters_and = ReadyFilters {
        labels_and: vec!["backend".to_string(), "urgent".to_string()],
        ..Default::default()
    };
    let res = storage.get_ready_issues(&filters_and, ReadySortPolicy::Oldest);
    assert_eq!(res.len(), 1);
    assert_eq!(res[0].id, "bd-1");

    let filters_or = ReadyFilters {
        labels_or: vec!["urgent".to_string()],
        ..Default::default()
    };
    let res = storage.get_ready_issues(&filters_or, ReadySortPolicy::Oldest);
    assert_eq!(res.len(), 1);
    assert_eq!(res[0].id, "bd-1");

    let filters_or_backend = ReadyFilters {
        labels_or: vec!["backend".to_string()],
        ..Default::default()
    };
    let res = storage.get_ready_issues(&filters_or_backend, ReadySortPolicy::Oldest);
    assert_eq!(res.len(), 2);
}

#[test]
fn test_get_ready_issues_filters_by_parent() {
    let mut storage = Engine::default();
    let t1 = at(chrono::Utc::now());
    storage.create_issue(&make_issue("bd-epic", "Parent Epic", Status::Open, 1, t1));
    storage.create_issue(&make_issue("bd-epic.1", "Child 1", Status::Open, 2, t1));
    storage.create_issue(&make_issue("bd-epic.2", "Child 2", Status::Open, 2, t1));
    storage.create_issue(&make_issue("bd-epic.1.1", "Grandchild", Status::Open, 2, t1));
    storage.create_issue(&make_issue("bd-other", "Unrelated", Status::Open, 2, t1));
    storage.add_dependency("bd-epic.1", "bd-epic", "parent-child");
    storage.add_dependency("bd-epic.2", "bd-epic", "parent-child");
    storage.add_dependency("bd-epic.1.1", "bd-epic.1", "parent-child");

    let filters_direct = ReadyFilters {
        parent: Some("bd-epic".to_string()),
        recursive: false,
        ..Default::default()
    };
    let res = storage.get_ready_issues(&filters_direct, ReadySortPolicy::Oldest);
    assert_eq!(res.len(), 2, "Non-recursive should return only direct children");
    let ids: Vec<&str> = res.iter().map(|i| i.id.as_str()).collect();
    assert!(ids.contains(&"bd-epic.1"), "Should contain child1");
    assert!(ids.contains(&"bd-epic.2"), "Should contain child2");
    assert!(!ids.contains(&"bd-epic.1.1"), "Should NOT contain grandchild");

    let filters_recursive = ReadyFilters {
        parent: Some("bd-epic".to_string()),
        recursive: true,
        ..Default::default()
    };
    let res = storage.get_ready_issues(&filters_recursive, ReadySortPolicy::Oldest);
    assert_eq!(res.len(), 3, "Recursive should return all descendants");
    let ids: Vec<&str> = res.iter().map(|i| i.id.as_str()).collect();
    assert!(ids.contains(&"bd-epic.1"), "Should contain child1");
    assert!(ids.contains(&"bd-epic.2"), "Should contain child2");
    assert!(ids.contains(&"bd-epic.1.1"), "Should contain grandchild");
    assert!(!ids.contains(&"bd-epic"), "Should NOT contain the parent itself");
    assert!(!ids.contains(&"bd-other"), "Should NOT contain unrelated issue");

    let filters_nonexistent = ReadyFilters {
        parent: Some("bd-nonexistent".to_string()),
        recursive: false,
        ..Default::default()
    };
    let res = storage.get_ready_issues(&filters_nonexistent, ReadySortPolicy::Oldest);
    assert_eq!(res.len(), 0, "Non-existent parent should return empty");
    let filters_nonexistent = ReadyFilters { recursive: true, ..filters_nonexistent };
    let res = storage.get_ready_issues(&filters_nonexistent, ReadySortPolicy::Oldest);
    assert_eq!(res.len(), 0);
}

fn ids_of(issues: &[Issue]) -> Vec<&str> {
    issues.iter().map(|i| i.id.as_str()).collect()
}

#[test]
fn issues_come_in_the_order_asked_for() {
    let mut storage = Engine::default();
    let day = |n: usize| date(&format!("2025-08-0{n}T00:00:00Z"));
    let mut updated = make_issue("bd-1", "banana", Status::Open, 2, day(1));
    updated.updated_at = day(9);
    storage.create_issue(&updated);
    storage.create_issue(&make_issue("bd-2", "Apple", Status::Open, 1, day(3)));
    storage.create_issue(&make_issue("bd-3", "Cherry", Status::Open, 0, day(4)));
    storage.create_issue(&make_issue("bd-4", "date", Status::Open, 1, day(2)));
    let listed = |sort: Option<&str>, reverse: bool| {
        let filters = ListFilters {
            sort: sort.map(str::to_string),
            reverse,
            ..ListFilters::default()
        };
        ids_of(&storage.list_issues(&filters)).join(" ")
    };
    assert_eq!(listed(None, false), "bd-3 bd-2 bd-4 bd-1");
    assert_eq!(listed(None, true), "bd-1 bd-4 bd-2 bd-3");
    assert_eq!(listed(Some("priority"), false), "bd-3 bd-2 bd-4 bd-1");
    assert_eq!(listed(Some("created"), false), "bd-3 bd-2 bd-4 bd-1");
    assert_eq!(listed(Some("created_at"), true), "bd-1 bd-4 bd-2 bd-3");
    assert_eq!(listed(Some("updated"), false), "bd-1 bd-3 bd-2 bd-4");
    assert_eq!(listed(Some("updated_at"), true), "bd-4 bd-2 bd-3 bd-1");
    assert_eq!(listed(Some("title"), false), "bd-2 bd-1 bd-3 bd-4");
    assert_eq!(listed(Some("title"), true), "bd-4 bd-3 bd-1 bd-2");
    assert_eq!(listed(Some("unknown"), true), "bd-3 bd-2 bd-4 bd-1");
    let ready = |sort: ReadySortPolicy| {
        ids_of(&storage.get_ready_issues(&ReadyFilters::default(), sort)).join(" ")
    };
    assert_eq!(ready(ReadySortPolicy::Hybrid), "bd-4 bd-2 bd-3 bd-1");
    assert_eq!(ready(ReadySortPolicy::Priority), "bd-3 bd-4 bd-2 bd-1");
    assert_eq!(ready(ReadySortPolicy::Oldest), "bd-1 bd-4 bd-2 bd-3");
}

#[test]
fn only_ready_issues_are_ready() {
    let mut storage = Engine::default();
    let t1 = date("2025-08-01T00:00:00Z");
    let blank = make_issue("bd-open", "Open", Status::Open, 2, t1);
    storage.create_issue(&blank);
    storage.create_issue(&make_issue("bd-busy", "Busy", Status::InProgress, 2, t1));
    storage.create_issue(&make_issue("bd-later", "Later", Status::Deferred, 2, t1));
    storage.create_issue(&make_issue("bd-done", "Done", Status::Closed, 2, t1));
    storage.create_issue(&make_issue("bd-wisp-1", "Wisp", Status::Open, 2, t1));
    storage.create_issue(&make_issue("bd-stuck", "Stuck", Status::Open, 2, t1));
    storage.add_dependency("bd-stuck", "bd-busy", "blocks");
    let named = |id: &str| Issue { id: id.to_string(), ..blank.clone() };
    storage.create_issue(&Issue { pinned: true, ..named("bd-pinned") });
    storage.create_issue(&Issue { ephemeral: true, ..named("bd-brief") });
    storage.create_issue(&Issue { is_template: true, ..named("bd-form") });
    let far = date("2999-01-01T00:00:00Z");
    storage.create_issue(&Issue { defer_until: Some(far), ..named("bd-off") });
    storage.create_issue(&Issue { defer_until: Some(t1), ..named("bd-past") });
    let sort = ReadySortPolicy::Oldest;
    let found = storage.get_ready_issues(&ReadyFilters::default(), sort);
    assert_eq!(ids_of(&found), vec!["bd-open", "bd-busy", "bd-past"]);
    let filters = ReadyFilters { include_deferred: true, ..ReadyFilters::default() };
    let found = storage.get_ready_issues(&filters, sort);
    assert_eq!(ids_of(&found), vec!["bd-open", "bd-busy", "bd-later", "bd-off", "bd-past"]);
}

#[test]
fn a_search_gives_the_listed_issues_that_mention_the_text() {
    let t1 = date("2025-09-01T00:00:00Z");
    let mut storage = titled(t1);
    let mut described = make_issue("bd-s4", "Other", Status::Open, 1, t1);
    described.description = Some("An AUTHENTICATION detail".to_string());
    storage.create_issue(&described);
    storage.create_issue(&make_issue("bd-s5", "authentication", Status::Closed, 0, t1));
    let filters = ListFilters::default();
    let listed = storage.list_issues(&filters);
    let mentions = |issue: &&Issue| {
        let text = format!("{}|{:?}|{}", issue.title, issue.description, issue.id);
        text.to_lowercase().contains("authentication")
    };
    let expected: Vec<&str> = listed.iter().filter(mentions).map(|i| i.id.as_str()).collect();
    let found = storage.search_issues(" authentication ", &filters);
    let ids: Vec<&str> = found.iter().map(|i| i.id.as_str()).collect();
    assert_eq!(ids, expected);
    assert_eq!(ids, vec!["bd-s4", "bd-s1"]);
}
