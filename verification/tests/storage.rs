//! What is written to the database and read from it, against a small stand-in for it.

use beads_store::blocked::{
    end_rebuild, get_blocked_issues, get_blockers, rebuild_blocked_cache, strip_annotations,
    CacheAction, CacheRebuild, CacheReply,
};
use beads_store::clock::Timestamp;
use beads_store::comments::{
    add_comment, fetch_comment, get_all_comments, get_comments, insert_comment_row,
    sync_comments_for_import,
};
use beads_store::details::{get_issue_details, get_issue_for_export};
use beads_store::error::BeadsError;
use beads_store::issues::{
    create_issue, delete_issue, is_tombstone, next_child_number, require_issue, status_query,
    upsert_issue_for_import, Step,
};
use beads_store::links::{
    add_dependency, all_links_removed, check_no_cycle, cycle_check, get_all_dependency_records,
    get_dependencies_full, get_epic_counts, link_removed, metadata_from_rows,
    note_removed_dependency, put_counts, single_text, sync_dependencies_for_import, touch,
    wrapped_count,
};
use beads_store::model::{
    Comment, Dependency, DependencyType, EventType, Issue, IssueType, Priority, Status,
};
use beads_store::mutation::{closing_statements, MutationContext, MutationRun, TxAction, TxReply};
use beads_store::rows::{
    issue_from_row, issues_from_rows, opt_issue_from, parse_issue_type, parse_status,
    row_of_imported_issue, row_of_new_issue,
};
use beads_store::sql::{Row, SqlValue, Statement};
use beads_store::update::{
    check_claim, claim_query, needs_update, update_issue, update_to_statement, Assignment,
    IssueUpdate,
};

fn day(n: i64) -> Timestamp {
    Timestamp::new(1_735_689_600 + n * 86_400, 0).unwrap()
}

fn row(values: &[&str]) -> Row {
    Row { values: values.iter().map(|s| SqlValue::text(s)).collect() }
}

fn ctx() -> MutationContext {
    MutationContext::new("op", "tester")
}

fn make_issue(id: &str, title: &str) -> Issue {
    Issue {
        id: id.to_string(),
        title: title.to_string(),
        created_at: day(0),
        updated_at: day(0),
        ..Issue::default()
    }
}

fn full_issue() -> Issue {
    Issue {
        content_hash: Some("hash".to_string()),
        description: Some("description".to_string()),
        design: Some("design".to_string()),
        acceptance_criteria: Some("criteria".to_string()),
        notes: Some("notes".to_string()),
        status: Status::InProgress,
        priority: Priority(1),
        issue_type: IssueType::Epic,
        assignee: Some("alice".to_string()),
        owner: Some("bob".to_string()),
        estimated_minutes: Some(90),
        created_by: Some("carol".to_string()),
        closed_at: Some(day(3)),
        close_reason: Some("done".to_string()),
        closed_by_session: Some("session".to_string()),
        due_at: Some(day(4)),
        defer_until: Some(day(5)),
        external_ref: Some("gh-7".to_string()),
        source_system: Some("github".to_string()),
        source_repo: Some("repo".to_string()),
        deleted_at: Some(day(6)),
        deleted_by: Some("dave".to_string()),
        delete_reason: Some("cleanup".to_string()),
        original_type: Some("bug".to_string()),
        compaction_level: Some(2),
        compacted_at: Some(day(7)),
        compacted_at_commit: Some("abc".to_string()),
        original_size: Some(1000),
        sender: Some("mail".to_string()),
        ephemeral: true,
        pinned: true,
        is_template: true,
        ..make_issue("bd-full", "Everything set")
    }
}

const COLUMNS: [&str; 36] = [
    "id", "content_hash", "title", "description", "design", "acceptance_criteria", "notes",
    "status", "priority", "issue_type", "assignee", "owner", "estimated_minutes", "created_at",
    "created_by", "updated_at", "closed_at", "close_reason", "closed_by_session", "due_at",
    "defer_until", "external_ref", "source_system", "source_repo", "deleted_at", "deleted_by",
    "delete_reason", "original_type", "compaction_level", "compacted_at", "compacted_at_commit",
    "original_size", "sender", "ephemeral", "pinned", "is_template",
];

/// The rows of issues and what was written beside them.
#[derive(Default)]
struct Fake {
    issues: Vec<Vec<SqlValue>>,
    events: Vec<Vec<SqlValue>>,
    dirty: Vec<String>,
    other: Vec<Statement>,
}

fn as_text(v: &SqlValue) -> String {
    match v {
        SqlValue::Text(s) => s.clone(),
        _ => String::new(),
    }
}

impl Fake {
    fn run(&mut self, s: &Statement) {
        assert_eq!(s.sql.matches('?').count(), s.params.len(), "{}", s.sql);
        if s.sql.starts_with("INSERT INTO issues ") {
            self.issues.push(s.params.clone());
        } else if s.sql.starts_with("INSERT INTO events ") {
            self.events.push(s.params.clone());
        } else if s.sql.starts_with("DELETE FROM dirty_issues ") {
            let id = as_text(&s.params[0]);
            self.dirty.retain(|d| *d != id);
        } else if s.sql.starts_with("INSERT INTO dirty_issues ") {
            self.dirty.push(as_text(&s.params[0]));
        } else if s.sql.starts_with("DELETE FROM issues ") {
            let id = s.params[0].clone();
            self.issues.retain(|i| i[0] != id);
        } else if let Some(rest) = s.sql.strip_prefix("UPDATE issues SET ") {
            let (assignments, condition) = rest.split_once(" WHERE ").unwrap();
            assert_eq!(condition.trim(), "id = ?");
            let mut params = s.params.iter();
            let mut set: Vec<(usize, SqlValue)> = vec![];
            for a in assignments.split(", ") {
                let (name, value) = a.split_once(" = ").unwrap();
                let place = COLUMNS.iter().position(|c| *c == name).unwrap();
                let value = match value {
                    "?" => params.next().unwrap().clone(),
                    text => SqlValue::text(text.trim_matches('\'')),
                };
                set.push((place, value));
            }
            let id = params.next().unwrap();
            for issue in self.issues.iter_mut().filter(|i| i[0] == *id) {
                for (place, value) in &set {
                    issue[*place] = value.clone();
                }
            }
        } else {
            self.other.push(s.clone());
        }
    }

    fn create(&mut self, issue: &Issue) -> Result<(), BeadsError> {
        let mut ctx = MutationContext::new("create_issue", "tester");
        for step in create_issue(issue, "tester", &mut ctx, day(1)) {
            match step {
                Step::Run(s) => self.run(&s),
                Step::Refuse { query, error } => {
                    if query.sql.starts_with("SELECT id FROM issues")
                        && self.issues.iter().any(|i| i[0] == query.params[0])
                    {
                        return Err(error);
                    }
                }
                Step::Stop { error } => return Err(error),
            }
        }
        self.close(&ctx);
        Ok(())
    }

    fn close(&mut self, ctx: &MutationContext) {
        for s in closing_statements(ctx, day(2)) {
            self.run(&s);
        }
    }

    fn status(&self, s: &Statement) -> Option<Row> {
        assert_eq!(s.sql, "SELECT status FROM issues WHERE id = ?");
        let found = self.issues.iter().find(|i| i[0] == s.params[0]);
        found.map(|values| Row { values: vec![values[7].clone()] })
    }

    fn get(&self, id: &str) -> Option<Issue> {
        let found = self.issues.iter().find(|i| i[0] == SqlValue::text(id));
        let row = found.map(|values| Row { values: values.clone() });
        opt_issue_from(row.as_ref()).unwrap()
    }
}

#[test]
fn test_create_issue() {
    let mut db = Fake::default();
    db.create(&make_issue("bd-1", "Test Issue")).unwrap();
    assert_eq!(db.issues.len(), 1);
    assert_eq!(db.events.len(), 1);
    assert_eq!(db.dirty, vec!["bd-1".to_string()]);
    assert_eq!(db.events[0][1], SqlValue::text("created"));
    let issue = db.get("bd-1").unwrap();
    assert_eq!(issue.title, "Test Issue");
    assert_eq!(issue.created_at, day(0));
}

#[test]
fn test_create_duplicate_id_fails() {
    let mut db = Fake::default();
    db.create(&make_issue("bd-dup-1", "First issue")).unwrap();
    let result = db.create(&make_issue("bd-dup-1", "Duplicate"));
    assert!(result.is_err(), "Creating duplicate ID should fail");
    assert_eq!(
        result,
        Err(BeadsError::UniqueViolation { columns: "issues.id = bd-dup-1".to_string() })
    );
}

#[test]
fn creating_an_issue_brings_its_relations() {
    let mut db = Fake::default();
    let mut issue = make_issue("bd-r", "Related");
    issue.labels = vec!["api".to_string()];
    issue.dependencies = vec![Dependency {
        issue_id: "bd-r".to_string(),
        depends_on_id: "bd-x".to_string(),
        dep_type: DependencyType::Blocks,
        created_at: day(0),
        created_by: None,
        metadata: None,
        thread_id: None,
    }];
    issue.comments = vec![Comment {
        id: 0,
        issue_id: "bd-r".to_string(),
        author: "alice".to_string(),
        body: "hi".to_string(),
        created_at: day(0),
    }];
    let mut ctx = ctx();
    let steps = create_issue(&issue, "tester", &mut ctx, day(1));
    assert_eq!(steps.len(), 6);
    assert!(ctx.invalidate_blocked_cache);
    assert!(matches!(&steps[3], Step::Refuse { error: BeadsError::DependencyCycle { path }, .. }
        if path == "Adding dependency bd-r -> bd-x would create a cycle"));
    db.create(&issue).unwrap();
    let written: Vec<&str> = db.other.iter().map(|s| s.sql.split(' ').nth(2).unwrap()).collect();
    assert_eq!(written, vec!["labels", "dependencies", "comments"]);
    assert_eq!(db.other[1].params[4], SqlValue::text("tester"));
    assert_eq!(db.events.len(), 4);
}

#[test]
fn new_issues_are_read_back() {
    let issue = full_issue();
    let read = issue_from_row(&Row { values: row_of_new_issue(&issue) }).unwrap();
    assert_eq!(format!("{read:?}"), format!("{issue:?}"));
    let read = issue_from_row(&Row { values: row_of_imported_issue(&issue) }).unwrap();
    assert_eq!(format!("{read:?}"), format!("{issue:?}"));
    let plain = make_issue("bd-p", "Plain");
    let read = issue_from_row(&Row { values: row_of_new_issue(&plain) }).unwrap();
    assert_eq!(read.description, None);
    assert_eq!(read.closed_at, None);
    assert_eq!(read.priority, Priority(2));
}

#[test]
fn imported_issues_replace_older_ones() {
    let mut db = Fake::default();
    db.create(&make_issue("bd-1", "Old")).unwrap();
    let (delete, insert) = upsert_issue_for_import(&make_issue("bd-1", "New"));
    db.run(&delete);
    db.run(&insert);
    assert_eq!(db.issues.len(), 1);
    assert_eq!(db.get("bd-1").unwrap().title, "New");
}

#[test]
fn test_get_issue_not_found_returns_none() {
    let db = Fake::default();
    let result = db.get("nonexistent-id");
    assert!(result.is_none(), "Getting non-existent issue should return None");
    assert_eq!(
        require_issue(result, "nonexistent-id").map(|i| i.id),
        Err(BeadsError::IssueNotFound { id: "nonexistent-id".to_string() })
    );
}

#[test]
fn rows_that_cannot_be_read_are_refused() {
    let mut values = row_of_new_issue(&make_issue("bd-1", "Bad date"));
    values[13] = SqlValue::text("someday");
    let good = Row { values: row_of_new_issue(&make_issue("bd-2", "Good")) };
    let bad = Row { values };
    assert_eq!(
        issues_from_rows(&vec![good.clone(), bad]).map(|l| l.len()),
        Err(BeadsError::Config("unparseable datetime: someday".to_string()))
    );
    assert_eq!(issues_from_rows(&vec![good]).map(|l| l.len()), Ok(1));
}

#[test]
fn names_of_states_and_kinds() {
    assert_eq!(parse_status(Some("closed")), Status::Closed);
    assert_eq!(parse_status(Some("in_progress")), Status::InProgress);
    assert_eq!(parse_status(Some("mine")), Status::Custom("mine".to_string()));
    assert_eq!(parse_status(None), Status::Open);
    assert_eq!(parse_issue_type(Some("epic")), IssueType::Epic);
    assert_eq!(parse_issue_type(Some("mine")), IssueType::Task);
    assert_eq!(parse_issue_type(None), IssueType::Task);
    for s in [Status::Open, Status::Blocked, Status::Deferred, Status::Tombstone, Status::Pinned] {
        assert_eq!(parse_status(Some(s.as_str())), s);
    }
    assert!(Status::Tombstone.is_terminal() && !Status::Pinned.is_terminal());
    assert!(DependencyType::WaitsFor.is_blocking() && !DependencyType::Related.is_blocking());
}

/// A digest of what an issue says.
fn digest(issue: &Issue) -> String {
    let said = (&issue.title, &issue.description, &issue.design, &issue.notes);
    let state = (&issue.status, issue.priority.0, &issue.issue_type, &issue.assignee);
    format!("{said:?} {state:?}")
}

fn apply(
    db: &mut Fake,
    id: &str,
    updates: &IssueUpdate,
    ctx: &mut MutationContext,
) -> Result<(Issue, Statement), BeadsError> {
    let found = db.get(id);
    if !needs_update(&found, id, updates)? {
        return Err(BeadsError::NothingToDo { reason: "empty".to_string() });
    }
    let mut issue = found.unwrap();
    let assignee = claim_query(updates, id)
        .map(|_| Row { values: vec![SqlValue::opt_text(&issue.assignee)] });
    let list: Vec<Assignment> =
        update_issue(&mut issue, id, updates, assignee.as_ref(), ctx, day(9))?;
    let hash = digest(&issue);
    let statement = update_to_statement(list, day(9), &hash, id);
    db.run(&statement);
    let stored = db.get(id).unwrap();
    issue.updated_at = day(9);
    issue.content_hash = Some(hash);
    assert_eq!(format!("{stored:?}"), format!("{issue:?}"));
    Ok((stored, statement))
}

#[test]
fn test_update_issue_changes_fields() {
    let mut db = Fake::default();
    db.create(&make_issue("bd-u1", "Update me")).unwrap();
    let updates = IssueUpdate {
        title: Some("Updated title".to_string()),
        description: Some(Some("New description".to_string())),
        status: Some(Status::InProgress),
        priority: Some(Priority(1)),
        assignee: Some(Some("alice".to_string())),
        ..IssueUpdate::default()
    };
    let mut ctx = ctx();
    let (updated, statement) = apply(&mut db, "bd-u1", &updates, &mut ctx).unwrap();
    assert_eq!(updated.title, "Updated title");
    assert_eq!(updated.status, Status::InProgress);
    assert_eq!(updated.priority, Priority(1));
    assert_eq!(updated.assignee.as_deref(), Some("alice"));
    assert_eq!(updated.description.as_deref(), Some("New description"));
    assert_eq!(
        statement.sql,
        "UPDATE issues SET title = ?, description = ?, status = ?, priority = ?, assignee = ?, updated_at = ?, content_hash = ? WHERE id = ? "
    );
    assert_eq!(statement.params.len(), 8);
    assert_eq!(statement.params[5], SqlValue::Text(day(9).to_rfc3339()));
    assert_eq!(statement.params[7], SqlValue::text("bd-u1"));
    let kinds: Vec<EventType> = ctx.events.iter().map(|e| e.event_type).collect();
    assert_eq!(
        kinds,
        vec![
            EventType::Updated,
            EventType::StatusChanged,
            EventType::PriorityChanged,
            EventType::AssigneeChanged,
        ]
    );
    assert!(ctx.invalidate_blocked_cache);
    assert_eq!(ctx.dirty_ids, vec!["bd-u1".to_string()]);
}

#[test]
fn test_update_issue_recomputes_hash() {
    let mut db = Fake::default();
    let mut issue = make_issue("bd-h1", "Old Title");
    issue.content_hash = Some(digest(&issue));
    db.create(&issue).unwrap();
    let initial_hash = db.get("bd-h1").unwrap().content_hash.unwrap();
    let update = IssueUpdate {
        title: Some("New Title".to_string()),
        ..IssueUpdate::default()
    };
    apply(&mut db, "bd-h1", &update, &mut ctx()).unwrap();
    let updated_hash = db.get("bd-h1").unwrap().content_hash.unwrap();
    assert_ne!(initial_hash, updated_hash, "Hash should change when title changes");
    assert_eq!(updated_hash, digest(&make_issue("bd-h1", "New Title")));
}

#[test]
fn test_update_issue_not_found_fails() {
    let mut db = Fake::default();
    let update = IssueUpdate {
        title: Some("Updated title".to_string()),
        ..IssueUpdate::default()
    };
    let result = apply(&mut db, "nonexistent-id", &update, &mut ctx());
    assert!(result.is_err(), "Updating non-existent issue should fail");
}

#[test]
fn closing_and_reopening_moves_the_closing_date() {
    let mut db = Fake::default();
    db.create(&make_issue("bd-1", "Close me")).unwrap();
    let close = IssueUpdate {
        status: Some(Status::Closed),
        skip_cache_rebuild: true,
        ..IssueUpdate::default()
    };
    let mut c = ctx();
    let (closed, s) = apply(&mut db, "bd-1", &close, &mut c).unwrap();
    assert_eq!(closed.closed_at, Some(day(9)));
    assert!(s.sql.starts_with("UPDATE issues SET status = ?, closed_at = ?, "));
    assert!(!c.invalidate_blocked_cache);
    assert!(c.events.iter().any(|e| e.event_type == EventType::Closed));

    let mut done = make_issue("bd-2", "Closed");
    done.status = Status::Closed;
    done.closed_at = Some(day(3));
    db.create(&done).unwrap();
    let reopen = IssueUpdate { status: Some(Status::Open), ..IssueUpdate::default() };
    let (open, s) = apply(&mut db, "bd-2", &reopen, &mut ctx()).unwrap();
    assert_eq!(open.closed_at, None);
    assert_eq!(s.params[1], SqlValue::Null);
    let mut held = make_issue("bd-3", "Held");
    held.closed_at = Some(day(3));
    db.create(&held).unwrap();
    let (still, _) = apply(&mut db, "bd-3", &close, &mut ctx()).unwrap();
    assert_eq!(still.closed_at, Some(day(3)));
}

#[test]
fn claims_are_decided_on() {
    let claim = |exclusive: bool| IssueUpdate {
        expect_unassigned: true,
        claim_exclusive: exclusive,
        claim_actor: Some("alice".to_string()),
        ..IssueUpdate::default()
    };
    let by = |who: &str| row(&[who]);
    assert!(claim_query(&IssueUpdate::default(), "bd-1").is_none());
    assert_eq!(check_claim(&claim(false), "bd-1", None), Ok(()));
    assert_eq!(check_claim(&claim(false), "bd-1", Some(&by("  "))), Ok(()));
    assert_eq!(check_claim(&claim(false), "bd-1", Some(&by(" alice "))), Ok(()));
    let taken = |who: &str| {
        Err(BeadsError::Validation {
            field: "claim".to_string(),
            reason: format!("issue bd-1 already assigned to {who}"),
        })
    };
    assert_eq!(check_claim(&claim(true), "bd-1", Some(&by("alice"))), taken("alice"));
    assert_eq!(check_claim(&claim(false), "bd-1", Some(&by("bob"))), taken("bob"));
    let mut issue = make_issue("bd-1", "Claimed");
    let mut c = ctx();
    let refused = update_issue(&mut issue, "bd-1", &claim(true), Some(&by("bob")), &mut c, day(1));
    assert!(refused.is_err() && c.events.is_empty() && c.dirty_ids.is_empty());
    assert!(!claim(false).is_empty() && IssueUpdate::default().is_empty());
}

#[test]
fn test_delete_issue_sets_tombstone() {
    let mut db = Fake::default();
    db.create(&make_issue("bd-d1", "Delete me")).unwrap();
    let issue = require_issue(db.get("bd-d1"), "bd-d1").unwrap();
    let mut c = ctx();
    let s = delete_issue(&issue, "bd-d1", "tester", "cleanup", None, &mut c, day(4));
    db.run(&s);
    let deleted = db.get("bd-d1").unwrap();
    assert_eq!(deleted.status, Status::Tombstone);
    assert_eq!(deleted.delete_reason.as_deref(), Some("cleanup"));
    assert_eq!(deleted.deleted_by.as_deref(), Some("tester"));
    assert_eq!(deleted.deleted_at, Some(day(4)));
    assert_eq!(deleted.original_type.as_deref(), Some("task"));
    assert_eq!(deleted.title, "Delete me");
    assert!(s.params.contains(&SqlValue::text("cleanup")));
    assert!(s.params.contains(&SqlValue::Text(day(4).to_rfc3339())));
    assert_eq!(c.events[0].event_type, EventType::Deleted);
    assert_eq!(c.dirty_ids, vec!["bd-d1".to_string()]);
    assert!(c.invalidate_blocked_cache);
    let s = delete_issue(&issue, "bd-d1", "tester", "cleanup", Some(day(5)), &mut ctx(), day(4));
    assert!(s.params.contains(&SqlValue::Text(day(5).to_rfc3339())));
    let is_tombstone = is_tombstone(db.status(&status_query("bd-d1")).as_ref());
    assert!(is_tombstone);
}

#[test]
fn issues_that_are_not_deleted_are_no_tombstones() {
    let mut db = Fake::default();
    db.create(&make_issue("bd-1", "Open")).unwrap();
    assert!(!is_tombstone(db.status(&status_query("bd-1")).as_ref()));
    assert!(!is_tombstone(db.status(&status_query("bd-2")).as_ref()));
}

/// Runs the steps of a mutation and tells which actions were asked for.
fn mutate(replies: Vec<TxReply>) -> Vec<String> {
    let (mut run, first) = MutationRun::start();
    let mut asked = vec![format!("{first:?}")];
    for reply in replies {
        let action = run.step(reply);
        asked.push(format!("{action:?}"));
        if matches!(action, TxAction::Succeed | TxAction::Fail) {
            break;
        }
    }
    asked
}

#[test]
fn a_body_that_fails_is_rolled_back() {
    let asked = mutate(vec![
        TxReply::Done,
        TxReply::Failed { busy_snapshot: false },
        TxReply::Done,
    ]);
    assert_eq!(asked, vec!["Begin", "RunBody", "Rollback", "Fail"]);
}

#[test]
fn mutations_write_what_was_recorded_and_commit() {
    let mut c = ctx();
    c.record_event(EventType::Updated, "bd-1", Some("note".to_string()), day(1));
    c.mark_dirty("bd-1");
    c.mark_dirty("bd-1");
    let script = closing_statements(&c, day(2));
    assert_eq!(script.len(), 3);
    assert_eq!(script[0].params[6], SqlValue::Text(day(1).to_rfc3339()));
    let asked = mutate(vec![
        TxReply::Done,
        TxReply::BodyDone { script, rebuild: true },
        TxReply::Done,
        TxReply::Done,
        TxReply::Done,
        TxReply::Done,
        TxReply::Done,
    ]);
    let kinds: Vec<&str> = asked.iter().map(|a| a.split(['(', ' ']).next().unwrap()).collect();
    assert_eq!(
        kinds,
        vec![
            "Begin", "RunBody", "Execute", "Execute", "Execute", "RebuildCache", "Commit", "Succeed",
        ]
    );
}

#[test]
fn a_commit_that_lost_a_race_is_tried_again() {
    let mut replies = vec![];
    for _ in 0..5 {
        replies.push(TxReply::Done);
        replies.push(TxReply::BodyDone { script: vec![], rebuild: false });
        replies.push(TxReply::Failed { busy_snapshot: true });
        replies.push(TxReply::Done);
        replies.push(TxReply::Done);
    }
    let asked = mutate(replies);
    let sleeps: Vec<&String> = asked.iter().filter(|a| a.starts_with("Sleep")).collect();
    assert_eq!(sleeps, vec!["Sleep(10)", "Sleep(20)", "Sleep(40)", "Sleep(80)"]);
    assert_eq!(asked.iter().filter(|a| *a == "Begin").count(), 5);
    assert_eq!(asked.last().unwrap(), "Fail");
    let asked = mutate(vec![
        TxReply::Done,
        TxReply::BodyDone { script: vec![], rebuild: false },
        TxReply::Failed { busy_snapshot: false },
        TxReply::Done,
    ]);
    assert_eq!(asked, vec!["Begin", "RunBody", "Commit", "Rollback", "Fail"]);
}

/// Rebuilds the cache, given the rows of each query in turn.
fn rebuild(answers: Vec<Vec<Row>>) -> (Vec<Statement>, Option<usize>) {
    let mut answers = answers.into_iter();
    let mut written = vec![];
    let (mut run, mut action) = CacheRebuild::start();
    loop {
        let reply = match action {
            CacheAction::Execute(s) => {
                written.push(s);
                CacheReply::Executed
            }
            CacheAction::Query(_) => match answers.next() {
                Some(rows) => CacheReply::Rows(rows),
                None => CacheReply::Failed,
            },
            CacheAction::Done(n) => return (written, Some(n)),
            CacheAction::Fail => return (written, None),
        };
        action = run.step(reply);
    }
}

fn cached(issue: &Issue, entry: &Statement) -> Row {
    let mut values = row_of_new_issue(issue);
    values.push(entry.params[1].clone());
    Row { values }
}

#[test]
fn entries_of_the_cache_are_read_back() {
    let blocked = make_issue("bd-b2", "Blocked");
    let (written, count) = rebuild(vec![vec![row(&["bd-b2", "bd-b1:open"])], vec![], vec![]]);
    assert_eq!(count, Some(1));
    assert_eq!(written.len(), 2);
    let blocked_issues = get_blocked_issues(&vec![cached(&blocked, &written[1])]).unwrap();
    assert_eq!(blocked_issues.len(), 1);
    assert_eq!(blocked_issues[0].0.id, "bd-b2");
    assert_eq!(blocked_issues[0].1.len(), 1);
    assert_eq!(
        get_blockers(Some(&Row { values: vec![written[1].params[1].clone()] })),
        vec!["bd-b1:open".to_string()]
    );
}

#[test]
fn entries_of_the_cache_may_hold_quotes() {
    let issue = make_issue("bd-x1", "Blocked");
    let rows = vec![row(&["bd-x1", "orphan:foo\"bar:unknown"])];
    let (written, _) = rebuild(vec![rows, vec![], vec![]]);
    let blocked = get_blocked_issues(&vec![cached(&issue, &written[1])]).unwrap();
    assert_eq!(blocked.len(), 1);
    assert_eq!(blocked[0].0.id, "bd-x1");
    let blockers = &blocked[0].1;
    assert_eq!(blockers.len(), 1);
    assert_eq!(blockers[0], "orphan:foo\"bar:unknown");
}

#[test]
fn any_new_dependency_invalidates_the_cache() {
    let mut c = ctx();
    let none = Row { values: vec![SqlValue::Integer(0)] };
    assert!(cycle_check("bd-c1", "bd-b1", "related").is_none());
    let added = add_dependency(&none, "bd-c1", "bd-b1", "related", "tester", &mut c, day(1));
    assert!(added.is_some());
    assert!(c.invalidate_blocked_cache);
    let (written, count) = rebuild(vec![vec![], vec![], vec![]]);
    assert_eq!(count, Some(0));
    assert_eq!(written.len(), 1);
    assert_eq!(written[0].sql, "DELETE FROM blocked_issues_cache");
}

#[test]
fn blocking_spreads_from_parents_to_children() {
    let (written, count) = rebuild(vec![
        vec![row(&["a", "x:open"]), row(&["a", "y:open"])],
        vec![row(&["d", "p"])],
        vec![row(&["b", "a"]), row(&["b", "d"])],
        vec![row(&["c", "b"])],
        vec![],
    ]);
    assert_eq!(count, Some(4));
    let entries: Vec<(String, Vec<String>)> = written[1..]
        .iter()
        .map(|s| {
            let json = Row { values: vec![s.params[1].clone()] };
            (as_text(&s.params[0]), get_blockers(Some(&json)))
        })
        .collect();
    let names = |list: &[&str]| list.iter().map(|s| s.to_string()).collect::<Vec<_>>();
    assert_eq!(entries[0], ("a".to_string(), names(&["x:open", "y:open"])));
    assert_eq!(entries[1], ("d".to_string(), names(&["p:deferred"])));
    assert_eq!(entries[2], ("b".to_string(), names(&["a:parent-blocked", "d:parent-blocked"])));
    assert_eq!(entries[3], ("c".to_string(), names(&["b:parent-blocked"])));
    assert_eq!(strip_annotations(&entries[2].1), names(&["a", "d"]));
    assert_eq!(as_text(&written[3].params[1]), "[\"a:parent-blocked\",\"d:parent-blocked\"]");
    assert_eq!(as_text(&written[2].params[1]), "[\"p:deferred\"]");
    let endless: Vec<Vec<Row>> = (0..100).map(|_| vec![row(&["c", "b"])]).collect();
    assert_eq!(rebuild(endless).1, Some(52));
    assert_eq!(rebuild(vec![vec![]]).1, None);
    assert!(rebuild_blocked_cache(false).is_none());
    assert_eq!(rebuild_blocked_cache(true).unwrap().sql, "BEGIN");
    assert_eq!(end_rebuild(true).sql, "COMMIT");
    assert_eq!(end_rebuild(false).sql, "ROLLBACK");
    assert_eq!(strip_annotations(&names(&["x", "y:open", "z:a:b"])), names(&["x", "y", "z"]));
    assert_eq!(get_blockers(None), Vec::<String>::new());
    assert_eq!(get_blockers(Some(&row(&["no list"]))), Vec::<String>::new());
}

#[test]
fn adding_and_removing_dependencies_is_recorded() {
    let mut c = ctx();
    let none = Row { values: vec![SqlValue::Integer(0)] };
    let one = Row { values: vec![SqlValue::Integer(1)] };
    let added = add_dependency(&none, "bd-a1", "bd-b1", "blocks", "tester", &mut c, day(1));
    let (insert, touched) = added.unwrap();
    assert_eq!(
        insert.params,
        vec![
            SqlValue::text("bd-a1"),
            SqlValue::text("bd-b1"),
            SqlValue::text("blocks"),
            SqlValue::Text(day(1).to_rfc3339()),
            SqlValue::text("tester"),
        ]
    );
    assert_eq!(touched, touch("bd-a1", day(1)));
    assert_eq!(c.events[0].comment.as_deref(), Some("Added dependency on bd-b1 (blocks)"));
    let again = add_dependency(&one, "bd-a1", "bd-b1", "blocks", "tester", &mut c, day(1));
    assert!(again.is_none());
    assert_eq!(c.events.len(), 1);
    let mut c = ctx();
    let note = note_removed_dependency("bd-b1");
    assert!(link_removed(1, "bd-a1", note, &mut c, day(2)).is_some());
    assert_eq!(c.events[0].event_type, EventType::DependencyRemoved);
    let mut c = ctx();
    assert!(link_removed(0, "bd-a1", String::new(), &mut c, day(2)).is_none());
    assert!(c.events.is_empty() && c.dirty_ids.is_empty() && !c.invalidate_blocked_cache);
}

#[test]
fn dependencies_that_close_a_cycle_are_refused() {
    let query = cycle_check("bd-cy3", "bd-cy1", "blocks").unwrap();
    assert!(query.sql.contains("WITH RECURSIVE"));
    assert_eq!(query.params, vec![SqlValue::text("bd-cy1"), SqlValue::text("bd-cy3")]);
    assert_eq!(check_no_cycle("bd-cy3", "bd-cy1", &vec![]), Ok(()));
    assert_eq!(
        check_no_cycle("bd-cy3", "bd-cy1", &vec![row(&["1"])]),
        Err(BeadsError::DependencyCycle {
            path: "Adding dependency bd-cy3 -> bd-cy1 would create a cycle".to_string()
        })
    );
}

#[test]
fn removing_all_dependencies_touches_every_neighbour() {
    let mut c = ctx();
    let affected = vec![row(&["bd-2"]), row(&["bd-3"])];
    let (statements, removed) = all_links_removed(&affected, 2, 1, "bd-1", &mut c, day(3));
    assert_eq!(removed, 3);
    assert!(statements.len() >= 3);
    assert!(c.dirty_ids.contains(&"bd-1".to_string()));
    assert!(c.dirty_ids.contains(&"bd-2".to_string()));
    assert!(c.dirty_ids.contains(&"bd-3".to_string()));
    let mut c = ctx();
    let (statements, removed) = all_links_removed(&vec![], 0, 0, "bd-1", &mut c, day(3));
    assert_eq!((statements.len(), removed), (0, 0));
    assert!(c.dirty_ids.is_empty());
}

fn stored_comment(id: i64, author: &str, text: &str, date: &str) -> Row {
    Row {
        values: vec![
            SqlValue::Integer(id),
            SqlValue::text("bd-c1"),
            SqlValue::text(author),
            SqlValue::text(text),
            SqlValue::text(date),
        ],
    }
}

#[test]
fn comments_are_read() {
    let rows = vec![
        stored_comment(1, "alice", "first", "2025-07-01T00:00:00Z"),
        stored_comment(2, "bob", "second", "2025-07-02T00:00:00Z"),
    ];
    let comments = get_comments(&rows).unwrap();
    assert_eq!(comments.len(), 2);
    assert_eq!(comments[0].author, "alice");
    assert_eq!(comments[1].author, "bob");
    let all = get_all_comments(&rows).unwrap();
    assert_eq!(all.get("bd-c1").unwrap().len(), 2);
    assert!(get_comments(&vec![stored_comment(1, "a", "b", "never")]).is_err());
}

#[test]
fn inserted_comments_are_fetched() {
    let insert = insert_comment_row("bd-c2", "alice", "Hello there");
    let mut values = vec![SqlValue::Integer(1)];
    values.extend(insert.params.clone());
    values.push(SqlValue::text("2025-07-04 00:00:00"));
    let comment = fetch_comment(&Row { values }).unwrap();
    assert_eq!(comment.issue_id, "bd-c2");
    assert_eq!(comment.author, "alice");
    assert_eq!(comment.body, "Hello there");
    assert!(comment.id > 0);
}

#[test]
fn comments_are_recorded() {
    let mut c = ctx();
    let s = add_comment("bd-c3", "Dirty comment", &mut c, day(1));
    assert_eq!(s, touch("bd-c3", day(1)));
    assert_eq!(c.dirty_ids, vec!["bd-c3".to_string()]);
    assert_eq!(c.events[0].event_type, EventType::Commented);
    assert_eq!(c.events[0].comment.as_deref(), Some("Dirty comment"));
    let mut db = Fake::default();
    db.close(&c);
    assert_eq!(db.dirty.len(), 1);
}

#[test]
fn test_events_have_timestamps() {
    let mut db = Fake::default();
    db.create(&make_issue("bd-e1", "Event Test")).unwrap();
    let created_at = as_text(&db.events[0][6]);
    assert!(
        chrono::DateTime::parse_from_rfc3339(&created_at).is_ok(),
        "Event timestamp should be valid RFC3339"
    );
}

#[test]
fn child_numbers_go_on_from_the_greatest() {
    let next = next_child_number("bd-parent", &vec![]);
    assert_eq!(next, 1, "First child should be .1");
    let mut rows = vec![row(&["bd-parent.1"])];
    let next = next_child_number("bd-parent", &rows);
    assert_eq!(next, 2, "After .1 exists, next should be .2");
    rows.push(row(&["bd-parent.3"]));
    let next = next_child_number("bd-parent", &rows);
    assert_eq!(next, 4, "After .3 exists (skipping .2), next should be .4");
    rows.push(row(&["bd-parent.1.1"]));
    let next = next_child_number("bd-parent", &rows);
    assert_eq!(next, 4, "Grandchild should not affect parent's next child number");
    let next_for_child1 = next_child_number("bd-parent.1", &vec![row(&["bd-parent.1.1"])]);
    assert_eq!(
        next_for_child1, 2,
        "After bd-parent.1.1 exists, next for bd-parent.1 should be .2"
    );
    let odd = vec![row(&["bd-parent.x"]), row(&["other.9"]), row(&["bd-parent.4294967295"])];
    assert_eq!(next_child_number("bd-parent", &odd), u32::MAX);
}

#[test]
fn imported_relations_replace_older_ones() {
    let comment = Comment {
        id: 7,
        issue_id: "elsewhere".to_string(),
        author: "alice".to_string(),
        body: "hi".to_string(),
        created_at: day(1),
    };
    let s = sync_comments_for_import("bd-1", &vec![comment]);
    assert_eq!(s.len(), 2);
    assert_eq!(s[0].sql, "DELETE FROM comments WHERE issue_id = ?");
    assert_eq!(s[1].params[0], SqlValue::Integer(7));
    assert_eq!(s[1].params[1], SqlValue::text("bd-1"));
    let s = sync_dependencies_for_import("bd-1", &vec![]);
    assert_eq!(s.len(), 1);
    assert_eq!(s[0].sql, "DELETE FROM dependencies WHERE issue_id = ?");
}

#[test]
fn dependencies_are_read() {
    let link = |id: &str, kind: &str| {
        Row {
            values: vec![
                SqlValue::text(id),
                SqlValue::text("bd-9"),
                SqlValue::text(kind),
                SqlValue::text("2025-07-01 00:00:00"),
                SqlValue::text("alice"),
                SqlValue::text(""),
                SqlValue::Null,
            ],
        }
    };
    let deps = get_dependencies_full(&vec![link("bd-1", "blocks"), link("bd-1", "odd")]).unwrap();
    assert_eq!(deps[0].dep_type, DependencyType::Blocks);
    assert_eq!(deps[1].dep_type, DependencyType::Custom("odd".to_string()));
    assert_eq!(deps[0].created_by.as_deref(), Some("alice"));
    let all = get_all_dependency_records(&vec![link("b", "blocks"), link("a", "blocks")]).unwrap();
    assert_eq!((all.key(0), all.key(1)), ("b", "a"));
    let near = metadata_from_rows(&vec![Row {
        values: vec![
            SqlValue::text("bd-2"),
            SqlValue::text("Title"),
            SqlValue::text("closed"),
            SqlValue::Integer(0),
            SqlValue::text("blocks"),
        ],
    }]);
    assert_eq!(near[0].id, "bd-2");
    assert_eq!(near[0].status, Status::Closed);
    assert_eq!(single_text(Some(&row(&["p"]))), Some("p".to_string()));
    assert_eq!(single_text(None), None);
}

#[test]
fn children_are_counted() {
    let child = |parent: &str, status: &str| row(&[parent, status]);
    let counts = get_epic_counts(&vec![
        child("e", "open"),
        child("e", "closed"),
        child("e", "tombstone"),
        child("f", "open"),
    ]);
    assert_eq!(counts.get("f"), Some(&(1, 0)));
    assert_eq!(counts.get("e").unwrap().0, 3);
    let mut m = beads_store::assoc::TextMap::new();
    put_counts(
        &mut m,
        &vec![Row { values: vec![SqlValue::text("a"), SqlValue::Integer(3)] }],
    );
    assert_eq!(m.get("a"), Some(&3));
    assert_eq!(wrapped_count(&Row { values: vec![SqlValue::Integer(5)] }), 5);
    assert_eq!(wrapped_count(&Row { values: vec![] }), 0);
}

#[test]
fn details_hold_what_was_asked_for() {
    let issue = make_issue("bd-1", "Detailed");
    let d = get_issue_details(
        issue.clone(),
        vec!["l".to_string()],
        vec![],
        vec![],
        None,
        None,
        Some("bd-0".to_string()),
    );
    assert_eq!(d.issue.id, "bd-1");
    assert!(d.comments.is_empty() && d.events.is_empty());
    assert_eq!(d.parent.as_deref(), Some("bd-0"));
    let e = get_issue_for_export(issue, vec!["l".to_string()], vec![], vec![]);
    assert_eq!(e.labels, vec!["l".to_string()]);
    assert_eq!(e.title, "Detailed");
}
