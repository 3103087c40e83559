//! Dependencies between issues: adding, removing and reading them.

use crate::assoc::TextMap;
use crate::chunk::list_texts_in_runs;
use crate::clock::Timestamp;
use crate::error::BeadsError;
use crate::issues::{check_cycle, note_dependency, refuse_cycle, would_create_cycle};
use crate::model::{Dependency, DependencyType, EventType, Priority, Status};
use crate::mutation::MutationContext;
use crate::rows::{datetime_in, priority_in, stored_dependency_type, stored_status};
use crate::scan::write_decimal;
use crate::sql::{size_from, texts_in_column, Row, SqlValue, Statement};
use crate::text::{joined, joined3, same_text};
use vstd::prelude::*;

verus! {

use crate::assoc::put_in;
use crate::chunk::list_statements;
use crate::clock::{rfc3339, Instant};
use crate::error::{outcome, BeadsErrorView};
use crate::issues::{cycle_error, cycle_statement, dependency_note};
use crate::model::{DependencyTypeView, DependencyView, StatusView};
use crate::mutation::MutationContextView;
use crate::rows::{datetime_at, dependency_type_of, priority_at, status_of};
use crate::scan::decimal;
use crate::sql::{
    column_texts,
    integer_at_or_zero,
    size_of,
    stmt,
    text_at,
    text_at_or,
    SqlCell,
    StatementView,
};

/// The statement that sets when an issue was last changed.
pub open spec fn touch_statement(id: Seq<char>, now: Instant) -> StatementView {
    stmt(
        "UPDATE issues SET updated_at = ? WHERE id = ?"@,
        seq![SqlCell::Text(rfc3339(now)), SqlCell::Text(id)],
    )
}

/// Sets when an issue was last changed.
pub fn touch(id: &str, now: Timestamp) -> (r: Statement)
    ensures
        r.deep_view() == touch_statement(id@, now.deep_view()),
{
    Statement::with_texts2(
        "UPDATE issues SET updated_at = ? WHERE id = ?",
        now.to_rfc3339().as_str(),
        id,
    )
}

/// The query that has to find nothing before a dependency is added, `None` where the dependency
/// cannot block and so cannot close a cycle that matters.
pub fn cycle_check(issue_id: &str, depends_on_id: &str, dep_type: &str) -> (r: Option<Statement>)
    ensures
        r.deep_view() == (if DependencyTypeView::of_name(dep_type@).blocking() {
            Some(cycle_statement(issue_id@, depends_on_id@, true))
        } else {
            None
        }),
{
    if DependencyType::from_name(dep_type).is_blocking() {
        Some(check_cycle(issue_id, depends_on_id, true))
    } else {
        None
    }
}

/// Refuses a dependency of an issue on itself, and one where the query for a way back found
/// something.
pub fn check_no_cycle(issue_id: &str, depends_on_id: &str, found: &Vec<Row>) -> (r: Result<
    (),
    BeadsError,
>)
    ensures
        outcome(r) == (if issue_id@ == depends_on_id@ || found.len() > 0 {
            Err(cycle_error(issue_id@, depends_on_id@))
        } else {
            Ok(())
        }),
{
    if would_create_cycle(issue_id, depends_on_id, found) {
        Err(refuse_cycle(issue_id, depends_on_id))
    } else {
        Ok(())
    }
}

/// Query for how many dependencies there are between two issues.
pub fn dependency_exists_between(issue_id: &str, depends_on_id: &str) -> (r: Statement)
    ensures
        r.deep_view() == stmt(
            "SELECT COUNT(*) FROM dependencies WHERE issue_id = ? AND depends_on_id = ?"@,
            seq![SqlCell::Text(issue_id@), SqlCell::Text(depends_on_id@)],
        ),
        crate::asked::ask_links_between(issue_id@, depends_on_id@).is(r.deep_view()),
{
    proof {
        crate::asked::lemma_ask_links_between_text(issue_id@, depends_on_id@);
    }
    Statement::with_texts2(
        "SELECT COUNT(*) FROM dependencies WHERE issue_id = ? AND depends_on_id = ?",
        issue_id,
        depends_on_id,
    )
}

/// Whether a query for a count found anything.
pub fn counts_any(row: &Row) -> (r: bool)
    ensures
        r == (integer_at_or_zero(row.deep_view(), 0) > 0),
{
    row.integer_or_zero(0) > 0
}

/// The statement that adds a dependency.
pub open spec fn dependency_insert(
    issue_id: Seq<char>,
    depends_on_id: Seq<char>,
    dep_type: Seq<char>,
    actor: Seq<char>,
    now: Instant,
) -> StatementView {
    stmt(
        "INSERT INTO dependencies (issue_id, depends_on_id, type, created_at, created_by) VALUES (?, ?, ?, ?, ?)"@,
        seq![
            SqlCell::Text(issue_id),
            SqlCell::Text(depends_on_id),
            SqlCell::Text(dep_type),
            SqlCell::Text(rfc3339(now)),
            SqlCell::Text(actor),
        ],
    )
}

/// Add a dependency between issues, given the row that counts the dependencies between them.
///
/// Returns the statements to execute, `None` where the dependency is there already.
pub fn add_dependency(
    existing: &Row,
    issue_id: &str,
    depends_on_id: &str,
    dep_type: &str,
    actor: &str,
    ctx: &mut MutationContext,
    now: Timestamp,
) -> (r: Option<(Statement, Statement)>)
    ensures
        integer_at_or_zero(existing.deep_view(), 0) > 0 ==> r is None && final(ctx).deep_view()
            == old(ctx).deep_view(),
        integer_at_or_zero(existing.deep_view(), 0) <= 0 ==> {
            &&& r.deep_view() == Some(
                (
                    dependency_insert(issue_id@, depends_on_id@, dep_type@, actor@, now.deep_view()),
                    touch_statement(issue_id@, now.deep_view()),
                ),
            )
            &&& final(ctx).deep_view() == old(ctx).deep_view().with_event(
                EventType::DependencyAdded,
                issue_id@,
                Some(dependency_note(depends_on_id@, dep_type@)),
                now.deep_view(),
            ).with_dirty(issue_id@).with_stale_cache()
        },
        r is Some ==> crate::mutation::recorded(
            old(ctx).deep_view(),
            final(ctx).deep_view(),
            EventType::DependencyAdded,
            issue_id@,
            now.deep_view(),
        ) && final(ctx).deep_view().invalidate_blocked_cache,
{
    proof {
        crate::mutation::lemma_recorded(
            old(ctx).deep_view(),
            EventType::DependencyAdded,
            issue_id@,
            Some(dependency_note(depends_on_id@, dep_type@)),
            now.deep_view(),
        );
    }
    if counts_any(existing) {
        return None;
    }
    let params: Vec<SqlValue> = vec![
        SqlValue::text(issue_id),
        SqlValue::text(depends_on_id),
        SqlValue::text(dep_type),
        SqlValue::Text(now.to_rfc3339()),
        SqlValue::text(actor),
    ];
    assert(params.deep_view() =~= dependency_insert(
        issue_id@,
        depends_on_id@,
        dep_type@,
        actor@,
        now.deep_view(),
    ).params);
    let insert = Statement {
        sql: "INSERT INTO dependencies (issue_id, depends_on_id, type, created_at, created_by) VALUES (?, ?, ?, ?, ?)".to_owned(),
        params,
    };
    let note = note_dependency(depends_on_id, dep_type);
    ctx.record_event(EventType::DependencyAdded, issue_id, Some(note), now);
    ctx.mark_dirty(issue_id);
    ctx.invalidate_cache();
    Some((insert, touch(issue_id, now)))
}

/// Statement that removes a dependency link.
pub fn remove_dependency(issue_id: &str, depends_on_id: &str) -> (r: Statement)
    ensures
        r.deep_view() == stmt(
            "DELETE FROM dependencies WHERE issue_id = ? AND depends_on_id = ?"@,
            seq![SqlCell::Text(issue_id@), SqlCell::Text(depends_on_id@)],
        ),
        crate::written::drop_dependency_removed(issue_id@, depends_on_id@).is(r.deep_view()),
{
    proof {
        crate::written::lemma_drop_dependency_removed_text(issue_id@, depends_on_id@);
    }
    Statement::with_texts2(
        "DELETE FROM dependencies WHERE issue_id = ? AND depends_on_id = ?",
        issue_id,
        depends_on_id,
    )
}

/// Statement that removes the link of an issue to its parent.
pub fn remove_parent(issue_id: &str) -> (r: Statement)
    ensures
        r.deep_view() == stmt(
            "DELETE FROM dependencies WHERE issue_id = ? AND type = 'parent-child'"@,
            seq![SqlCell::Text(issue_id@)],
        ),
        crate::written::drop_parent_removed(issue_id@).is(r.deep_view()),
{
    proof {
        crate::written::lemma_drop_parent_removed_text(issue_id@);
    }
    Statement::with_text(
        "DELETE FROM dependencies WHERE issue_id = ? AND type = 'parent-child'",
        issue_id,
    )
}

/// What is left to do once a link has been removed, given how many rows went: nothing where none
/// did.
pub fn link_removed(
    removed: usize,
    issue_id: &str,
    note: String,
    ctx: &mut MutationContext,
    now: Timestamp,
) -> (r: Option<Statement>)
    ensures
        removed == 0 ==> r is None && final(ctx).deep_view() == old(ctx).deep_view(),
        removed > 0 ==> {
            &&& r.deep_view() == Some(touch_statement(issue_id@, now.deep_view()))
            &&& final(ctx).deep_view() == old(ctx).deep_view().with_event(
                EventType::DependencyRemoved,
                issue_id@,
                Some(note@),
                now.deep_view(),
            ).with_dirty(issue_id@).with_stale_cache()
        },
        removed > 0 ==> crate::mutation::recorded(
            old(ctx).deep_view(),
            final(ctx).deep_view(),
            EventType::DependencyRemoved,
            issue_id@,
            now.deep_view(),
        ) && final(ctx).deep_view().invalidate_blocked_cache,
{
    proof {
        crate::mutation::lemma_recorded(
            old(ctx).deep_view(),
            EventType::DependencyRemoved,
            issue_id@,
            Some(note@),
            now.deep_view(),
        );
    }
    if removed == 0 {
        return None;
    }
    ctx.record_event(EventType::DependencyRemoved, issue_id, Some(note), now);
    ctx.mark_dirty(issue_id);
    ctx.invalidate_cache();
    Some(touch(issue_id, now))
}

/// What is said of a removed dependency.
pub fn note_removed_dependency(depends_on_id: &str) -> (r: String)
    ensures
        r@ == "Removed dependency on "@ + depends_on_id@,
{
    joined("Removed dependency on ", depends_on_id)
}

/// What is said of a removed parent.
pub fn note_removed_parent() -> (r: String)
    ensures
        r@ == "Removed parent"@,
{
    "Removed parent".to_owned()
}

/// Query for the issues on the other end of the dependencies of an issue.
pub fn affected_by(issue_id: &str) -> (r: Statement)
    ensures
        r.deep_view() == stmt(
            "SELECT DISTINCT issue_id FROM dependencies WHERE depends_on_id = ? UNION SELECT DISTINCT depends_on_id FROM dependencies WHERE issue_id = ?"@,
            seq![SqlCell::Text(issue_id@), SqlCell::Text(issue_id@)],
        ),
        crate::across::ask_affected(issue_id@).is(r.deep_view()),
{
    proof {
        crate::across::lemma_ask_affected_text(issue_id@);
    }
    Statement::with_texts2(
        "SELECT DISTINCT issue_id FROM dependencies WHERE depends_on_id = ? UNION SELECT DISTINCT depends_on_id FROM dependencies WHERE issue_id = ?",
        issue_id,
        issue_id,
    )
}

/// Statements that remove all dependencies of an issue, and all on it.
pub fn remove_all_dependencies(issue_id: &str) -> (r: (Statement, Statement))
    ensures
        r.0.deep_view() == stmt(
            "DELETE FROM dependencies WHERE issue_id = ?"@,
            seq![SqlCell::Text(issue_id@)],
        ),
        r.1.deep_view() == stmt(
            "DELETE FROM dependencies WHERE depends_on_id = ?"@,
            seq![SqlCell::Text(issue_id@)],
        ),
        crate::written::drop_dependencies_removed(issue_id@).is(r.0.deep_view()),
        crate::written::drop_dependents_removed(issue_id@).is(r.1.deep_view()),
{
    proof {
        crate::written::lemma_drop_dependents_removed_text(issue_id@);
        crate::written::lemma_drop_dependencies_removed_text(issue_id@);
    }
    (
        Statement::with_text("DELETE FROM dependencies WHERE issue_id = ?", issue_id),
        Statement::with_text("DELETE FROM dependencies WHERE depends_on_id = ?", issue_id),
    )
}

/// The statements that set when issues were last changed.
pub open spec fn touch_all(ids: Seq<Seq<char>>, now: Instant) -> Seq<StatementView> {
    ids.map_values(|id: Seq<char>| touch_statement(id, now))
}

/// The context with issues marked dirty.
pub open spec fn all_dirty(ctx: MutationContextView, ids: Seq<Seq<char>>) -> MutationContextView
    decreases ids.len(),
{
    if ids.len() == 0 {
        ctx
    } else {
        all_dirty(ctx, ids.drop_last()).with_dirty(ids.last())
    }
}

/// What is left to do once all dependencies of an issue have been removed, given the rows of the
/// issues affected and how many links went in each direction: nothing where none did.
///
/// The second part of the result is how many links went.
pub fn all_links_removed(
    affected: &Vec<Row>,
    outgoing: usize,
    incoming: usize,
    issue_id: &str,
    ctx: &mut MutationContext,
    now: Timestamp,
) -> (r: (Vec<Statement>, usize))
    requires
        outgoing + incoming <= usize::MAX,
    ensures
        r.1 == outgoing + incoming,
        r.1 == 0 ==> r.0.deep_view() == Seq::<StatementView>::empty() && final(ctx).deep_view()
            == old(ctx).deep_view(),
        r.1 > 0 ==> {
            let others = column_texts(affected.deep_view(), 0);
            &&& r.0.deep_view() == touch_all(seq![issue_id@] + others, now.deep_view())
            &&& final(ctx).deep_view() == all_dirty(
                old(ctx).deep_view().with_event(
                    EventType::DependencyRemoved,
                    issue_id@,
                    Some("Removed "@ + decimal(r.1 as nat) + " dependency links"@),
                    now.deep_view(),
                ).with_dirty(issue_id@),
                others,
            ).with_stale_cache()
        },
        r.1 > 0 ==> {
            &&& final(ctx).deep_view().events.len() == old(ctx).deep_view().events.len() + 1
            &&& final(ctx).deep_view().events.last().event_type is DependencyRemoved
            &&& final(ctx).deep_view().events.last().issue_id == issue_id@
            &&& final(ctx).deep_view().dirty_ids.contains(issue_id@)
            &&& forall|id: Seq<char>|
                column_texts(affected.deep_view(), 0).contains(id)
                    ==> #[trigger] final(ctx).deep_view().dirty_ids.contains(id)
            &&& final(ctx).deep_view().invalidate_blocked_cache
        },
{
    proof {
        let note = Some(
            "Removed "@ + decimal((outgoing + incoming) as nat) + " dependency links"@,
        );
        let own = old(ctx).deep_view().with_event(
            EventType::DependencyRemoved,
            issue_id@,
            note,
            now.deep_view(),
        ).with_dirty(issue_id@);
        crate::mutation::lemma_recorded(
            old(ctx).deep_view(),
            EventType::DependencyRemoved,
            issue_id@,
            note,
            now.deep_view(),
        );
        crate::outcomes::lemma_all_dirty(own, column_texts(affected.deep_view(), 0));
    }
    let total: usize = outgoing + incoming;
    let mut out: Vec<Statement> = Vec::new();
    assert(out.deep_view() =~= seq![]);
    if total == 0 {
        return (out, 0);
    }
    let others = texts_in_column(affected, 0);
    let ghost all = others.deep_view();
    out.push(touch(issue_id, now));
    let note = joined3("Removed ", write_decimal(total as u64).as_str(), " dependency links");
    ctx.record_event(EventType::DependencyRemoved, issue_id, Some(note), now);
    ctx.mark_dirty(issue_id);
    let ghost marked = ctx.deep_view();
    let mut i: usize = 0;
    assert(out.deep_view() =~= touch_all(seq![issue_id@] + all.take(0), now.deep_view()));
    while i < others.len()
        invariant
            i <= others.len(),
            all == others.deep_view(),
            out.deep_view() == touch_all(seq![issue_id@] + all.take(i as int), now.deep_view()),
            ctx.deep_view() == all_dirty(marked, all.take(i as int)),
        decreases others.len() - i,
    {
        let ghost before = out.deep_view();
        assert(all.take(i + 1).drop_last() =~= all.take(i as int));
        assert(all.take(i + 1).last() == others@[i as int]@);
        out.push(touch(others[i].as_str(), now));
        ctx.mark_dirty(others[i].as_str());
        assert(out.deep_view() =~= before.push(touch_statement(all[i as int], now.deep_view())));
        assert(seq![issue_id@] + all.take(i + 1) =~= (seq![issue_id@] + all.take(i as int)).push(
            all[i as int],
        ));
        assert(out.deep_view() =~= touch_all(seq![issue_id@] + all.take(i + 1), now.deep_view()));
        i += 1;
    }
    assert(all.take(all.len() as int) =~= all);
    ctx.invalidate_cache();
    (out, total)
}

/// An issue at the other end of a dependency, with the dependency's type.
#[derive(Debug, Clone)]
pub struct IssueWithDependencyMetadata {
    pub id: String,
    pub title: String,
    pub status: Status,
    pub priority: Priority,
    pub dep_type: String,
}

/// The view of [`IssueWithDependencyMetadata`].
#[verifier::ext_equal]
pub struct IssueWithDependencyMetadataView {
    pub id: Seq<char>,
    pub title: Seq<char>,
    pub status: StatusView,
    pub priority: i32,
    pub dep_type: Seq<char>,
}

impl DeepView for IssueWithDependencyMetadata {
    type V = IssueWithDependencyMetadataView;

    open spec fn deep_view(&self) -> IssueWithDependencyMetadataView {
        IssueWithDependencyMetadataView {
            id: self.id@,
            title: self.title@,
            status: self.status.deep_view(),
            priority: self.priority.deep_view(),
            dep_type: self.dep_type@,
        }
    }
}

/// Query for the dependencies of an issue with metadata.
pub fn get_dependencies_with_metadata(issue_id: &str) -> (r: Statement)
    ensures
        r.deep_view() == stmt(
            "SELECT d.depends_on_id, i.title, i.status, i.priority, d.type, i.created_at FROM dependencies d LEFT JOIN issues i ON d.depends_on_id = i.id WHERE d.issue_id = ? ORDER BY i.priority ASC, i.created_at DESC"@,
            seq![SqlCell::Text(issue_id@)],
        ),
        crate::across::ask_dependencies_in_full(issue_id@).is(r.deep_view()),
{
    proof {
        crate::across::lemma_ask_dependencies_in_full_text(issue_id@);
    }
    Statement::with_text(
        "SELECT d.depends_on_id, i.title, i.status, i.priority, d.type, i.created_at FROM dependencies d LEFT JOIN issues i ON d.depends_on_id = i.id WHERE d.issue_id = ? ORDER BY i.priority ASC, i.created_at DESC",
        issue_id,
    )
}

/// Query for the dependents of an issue with metadata.
pub fn get_dependents_with_metadata(issue_id: &str) -> (r: Statement)
    ensures
        r.deep_view() == stmt(
            "SELECT d.issue_id, i.title, i.status, i.priority, d.type, i.created_at FROM dependencies d LEFT JOIN issues i ON d.issue_id = i.id WHERE d.depends_on_id = ? ORDER BY i.priority ASC, i.created_at DESC"@,
            seq![SqlCell::Text(issue_id@)],
        ),
        crate::across::ask_dependents_in_full(issue_id@).is(r.deep_view()),
{
    proof {
        crate::across::lemma_ask_dependents_in_full_text(issue_id@);
    }
    Statement::with_text(
        "SELECT d.issue_id, i.title, i.status, i.priority, d.type, i.created_at FROM dependencies d LEFT JOIN issues i ON d.issue_id = i.id WHERE d.depends_on_id = ? ORDER BY i.priority ASC, i.created_at DESC",
        issue_id,
    )
}

/// The issue and dependency in a row of either query with metadata.
pub open spec fn metadata_of(row: Seq<SqlCell>) -> IssueWithDependencyMetadataView {
    IssueWithDependencyMetadataView {
        id: text_at_or(row, 0, seq![]),
        title: text_at_or(row, 1, seq![]),
        status: status_of(text_at(row, 2)),
        priority: priority_at(row, 3),
        dep_type: text_at_or(row, 4, "blocks"@),
    }
}

/// Reads the rows of either query with metadata.
pub fn metadata_from_rows(rows: &Vec<Row>) -> (r: Vec<IssueWithDependencyMetadata>)
    ensures
        r.deep_view() == rows.deep_view().map_values(|row: Seq<SqlCell>| metadata_of(row)),
{
    let mut out: Vec<IssueWithDependencyMetadata> = Vec::new();
    let mut i: usize = 0;
    while i < rows.len()
        invariant
            i <= rows.len(),
            out.len() == i,
            forall|k: int|
                0 <= k < i ==> (#[trigger] out@[k]).deep_view() == metadata_of(
                    rows@[k].deep_view(),
                ),
        decreases rows.len() - i,
    {
        let row = &rows[i];
        let status = row.text(2);
        out.push(
            IssueWithDependencyMetadata {
                id: row.text_or_empty(0),
                title: row.text_or_empty(1),
                status: stored_status(&status),
                priority: priority_in(row, 3),
                dep_type: row.text_or(4, "blocks"),
            },
        );
        i += 1;
    }
    assert(out.deep_view() =~= rows.deep_view().map_values(
        |row: Seq<SqlCell>| metadata_of(row),
    ));
    out
}

/// Query for the parent of an issue.
pub fn get_parent_id(issue_id: &str) -> (r: Statement)
    ensures
        r.deep_view() == stmt(
            "SELECT depends_on_id FROM dependencies WHERE issue_id = ? AND type = 'parent-child'"@,
            seq![SqlCell::Text(issue_id@)],
        ),
        crate::asked::ask_parent_of(issue_id@).is(r.deep_view()),
{
    proof {
        crate::asked::lemma_ask_parent_of_text(issue_id@);
    }
    Statement::with_text(
        "SELECT depends_on_id FROM dependencies WHERE issue_id = ? AND type = 'parent-child'",
        issue_id,
    )
}

/// The first text of the row of a query for one value, `None` where there is no row or no text.
pub fn single_text(row: Option<&Row>) -> (r: Option<String>)
    ensures
        r.deep_view() == (match row.deep_view() {
            Some(cells) => text_at(cells, 0),
            None => None,
        }),
{
    match row {
        Some(row) => row.text(0),
        None => None,
    }
}

/// Query for the IDs of direct children (parent-child deps) that are still open/in-progress.
pub fn get_open_child_ids(parent_id: &str) -> (r: Statement)
    ensures
        r.deep_view() == stmt(
            "SELECT d.issue_id FROM dependencies d JOIN issues i ON i.id = d.issue_id WHERE d.depends_on_id = ? AND d.type = 'parent-child' AND i.status IN ('open', 'in_progress')"@,
            seq![SqlCell::Text(parent_id@)],
        ),
        crate::across::ask_open_children(parent_id@).is(r.deep_view()),
{
    proof {
        crate::across::lemma_ask_open_children_text(parent_id@);
    }
    Statement::with_text(
        "SELECT d.issue_id FROM dependencies d JOIN issues i ON i.id = d.issue_id WHERE d.depends_on_id = ? AND d.type = 'parent-child' AND i.status IN ('open', 'in_progress')",
        parent_id,
    )
}

/// Query for the IDs of issues that depend on this one.
pub fn get_dependents(issue_id: &str) -> (r: Statement)
    ensures
        r.deep_view() == stmt(
            "SELECT issue_id FROM dependencies WHERE depends_on_id = ?"@,
            seq![SqlCell::Text(issue_id@)],
        ),
        crate::asked::ask_dependents_of(issue_id@).is(r.deep_view()),
{
    proof {
        crate::asked::lemma_ask_dependents_of_text(issue_id@);
    }
    Statement::with_text("SELECT issue_id FROM dependencies WHERE depends_on_id = ?", issue_id)
}

/// Query for the IDs of issues that this one depends on.
pub fn get_dependencies(issue_id: &str) -> (r: Statement)
    ensures
        r.deep_view() == stmt(
            "SELECT depends_on_id FROM dependencies WHERE issue_id = ?"@,
            seq![SqlCell::Text(issue_id@)],
        ),
        crate::asked::ask_dependencies_of(issue_id@).is(r.deep_view()),
{
    proof {
        crate::asked::lemma_ask_dependencies_of_text(issue_id@);
    }
    Statement::with_text("SELECT depends_on_id FROM dependencies WHERE issue_id = ?", issue_id)
}

/// Query for how many dependencies an issue has.
pub fn count_dependencies(issue_id: &str) -> (r: Statement)
    ensures
        r.deep_view() == stmt(
            "SELECT count(*) FROM dependencies WHERE issue_id = ?"@,
            seq![SqlCell::Text(issue_id@)],
        ),
        crate::asked::ask_dependency_total(issue_id@).is(r.deep_view()),
{
    proof {
        crate::asked::lemma_ask_dependency_total_text(issue_id@);
    }
    Statement::with_text("SELECT count(*) FROM dependencies WHERE issue_id = ?", issue_id)
}

/// Query for how many issues depend on this one.
pub fn count_dependents(issue_id: &str) -> (r: Statement)
    ensures
        r.deep_view() == stmt(
            "SELECT count(*) FROM dependencies WHERE depends_on_id = ?"@,
            seq![SqlCell::Text(issue_id@)],
        ),
        crate::asked::ask_dependent_total(issue_id@).is(r.deep_view()),
{
    proof {
        crate::asked::lemma_ask_dependent_total_text(issue_id@);
    }
    Statement::with_text("SELECT count(*) FROM dependencies WHERE depends_on_id = ?", issue_id)
}

/// The count in the row of a query for one, wrapped into a size.
pub fn wrapped_count(row: &Row) -> (r: usize)
    ensures
        r == #[verifier::truncate] (integer_at_or_zero(row.deep_view(), 0) as usize),
{
    let n: i64 = row.integer_or_zero(0);
    #[verifier::truncate]
    (n as usize)
}

/// The count in the row of a query for one, 0 where it is no size.
pub fn count_in(row: &Row) -> (r: usize)
    ensures
        r == size_of(integer_at_or_zero(row.deep_view(), 0)),
{
    size_from(row.integer_or_zero(0))
}

/// Queries that count dependencies for multiple issues, one for each run of IDs.
pub fn count_dependencies_for_issues(issue_ids: &Vec<String>) -> (r: Vec<Statement>)
    ensures
        r.deep_view() == list_statements(
            "SELECT issue_id, COUNT(*) FROM dependencies WHERE issue_id IN ("@,
            issue_ids.deep_view(),
            ","@,
            ") GROUP BY issue_id"@,
        ),
        forall|k: int|
            0 <= k < r.deep_view().len() ==> crate::across::ask_dependency_counts(
                crate::chunk::chunked(
                    issue_ids.deep_view(),
                    crate::chunk::SQLITE_VAR_LIMIT as int,
                )[k],
            ).is(#[trigger] r.deep_view()[k]),
{
    proof {
        assert forall|run: Seq<Seq<char>>|
            crate::across::ask_dependency_counts(run).is(
                #[trigger] crate::chunk::list_statement(
                    "SELECT issue_id, COUNT(*) FROM dependencies WHERE issue_id IN ("@,
                    run,
                    ","@,
                    ") GROUP BY issue_id"@,
                ),
            ) by {
            crate::across::lemma_dependency_counts_text(run);
        }
    }
    list_texts_in_runs(
        "SELECT issue_id, COUNT(*) FROM dependencies WHERE issue_id IN (",
        issue_ids,
        ",",
        ") GROUP BY issue_id",
    )
}

/// Queries that count dependents for multiple issues, one for each run of IDs.
pub fn count_dependents_for_issues(issue_ids: &Vec<String>) -> (r: Vec<Statement>)
    ensures
        r.deep_view() == list_statements(
            "SELECT depends_on_id, COUNT(*) FROM dependencies WHERE depends_on_id IN ("@,
            issue_ids.deep_view(),
            ","@,
            ") GROUP BY depends_on_id"@,
        ),
        forall|k: int|
            0 <= k < r.deep_view().len() ==> crate::across::ask_dependent_counts(
                crate::chunk::chunked(
                    issue_ids.deep_view(),
                    crate::chunk::SQLITE_VAR_LIMIT as int,
                )[k],
            ).is(#[trigger] r.deep_view()[k]),
{
    proof {
        assert forall|run: Seq<Seq<char>>|
            crate::across::ask_dependent_counts(run).is(
                #[trigger] crate::chunk::list_statement(
                    "SELECT depends_on_id, COUNT(*) FROM dependencies WHERE depends_on_id IN ("@,
                    run,
                    ","@,
                    ") GROUP BY depends_on_id"@,
                ),
            ) by {
            crate::across::lemma_dependent_counts_text(run);
        }
    }
    list_texts_in_runs(
        "SELECT depends_on_id, COUNT(*) FROM dependencies WHERE depends_on_id IN (",
        issue_ids,
        ",",
        ") GROUP BY depends_on_id",
    )
}

/// Counts by issue, put into a map one row after the other.
pub open spec fn counts_into(
    m: Seq<(Seq<char>, usize)>,
    rows: Seq<Seq<SqlCell>>,
) -> Seq<(Seq<char>, usize)>
    decreases rows.len(),
{
    if rows.len() == 0 {
        m
    } else {
        put_in(
            counts_into(m, rows.drop_last()),
            text_at_or(rows.last(), 0, seq![]),
            size_of(integer_at_or_zero(rows.last(), 1)),
        )
    }
}

/// Puts the counts in rows into a map.
pub fn put_counts(m: &mut TextMap<usize>, rows: &Vec<Row>)
    ensures
        final(m).deep_view() == counts_into(old(m).deep_view(), rows.deep_view()),
{
    let ghost start = m.deep_view();
    let ghost all = rows.deep_view();
    let mut i: usize = 0;
    assert(all.take(0) =~= seq![]);
    while i < rows.len()
        invariant
            i <= rows.len(),
            all == rows.deep_view(),
            m.deep_view() == counts_into(start, all.take(i as int)),
        decreases rows.len() - i,
    {
        assert(all.take(i + 1).drop_last() =~= all.take(i as int));
        assert(all.take(i + 1).last() == rows@[i as int].deep_view());
        let id = rows[i].text_or_empty(0);
        m.insert(id.as_str(), size_from(rows[i].integer_or_zero(1)));
        i += 1;
    }
    assert(all.take(all.len() as int) =~= all);
}

/// Query for the status of every child of every parent.
pub fn epic_counts_query() -> (r: Statement)
    ensures
        r.deep_view() == stmt(
            "SELECT d.depends_on_id AS epic_id, i.status FROM dependencies d JOIN issues i ON d.issue_id = i.id WHERE d.type = 'parent-child'"@,
            seq![],
        ),
        crate::across::ask_epic_rows().is(r.deep_view()),
{
    proof {
        crate::across::lemma_ask_epic_rows_text();
    }
    Statement::plain(
        "SELECT d.depends_on_id AS epic_id, i.status FROM dependencies d JOIN issues i ON d.issue_id = i.id WHERE d.type = 'parent-child'",
    )
}

/// The rows for a parent.
pub open spec fn rows_of_parent(rows: Seq<Seq<SqlCell>>, parent: Seq<char>) -> Seq<Seq<SqlCell>>
    decreases rows.len(),
{
    if rows.len() == 0 {
        seq![]
    } else if text_at_or(rows.last(), 0, seq![]) == parent {
        rows_of_parent(rows.drop_last(), parent).push(rows.last())
    } else {
        rows_of_parent(rows.drop_last(), parent)
    }
}

/// A row reports a child that is closed or deleted.
pub open spec fn child_is_closed(row: Seq<SqlCell>) -> bool {
    let status = text_at_or(row, 1, seq![]);
    status == "closed"@ || status == "tombstone"@
}

/// How many of the rows report a closed child.
pub open spec fn closed_children(rows: Seq<Seq<SqlCell>>) -> nat
    decreases rows.len(),
{
    if rows.len() == 0 {
        0
    } else {
        closed_children(rows.drop_last()) + if child_is_closed(rows.last()) {
            1nat
        } else {
            0nat
        }
    }
}

proof fn lemma_parent_rows(rows: Seq<Seq<SqlCell>>, parent: Seq<char>)
    ensures
        rows_of_parent(rows, parent).len() <= rows.len(),
        closed_children(rows_of_parent(rows, parent)) <= rows_of_parent(rows, parent).len(),
    decreases rows.len(),
{
    if rows.len() > 0 {
        let front = rows.drop_last();
        lemma_parent_rows(front, parent);
        let r = rows_of_parent(front, parent);
        assert(r.push(rows.last()).drop_last() =~= r);
    }
}

/// The rows of a parent are all rows that name it, and the closed ones among them are exactly those
/// whose status text is the name of a terminal status, closed or tombstone. Where every row of a
/// parent says closed, both counts are the same; a row that says anything else that is no tombstone
/// keeps them apart.
pub proof fn lemma_counts_terminal_children(rows: Seq<Seq<SqlCell>>, parent: Seq<char>)
    ensures
        rows_of_parent(rows, parent) == rows.filter(
            |row: Seq<SqlCell>| text_at_or(row, 0, seq![]) == parent,
        ),
        closed_children(rows_of_parent(rows, parent)) == rows_of_parent(rows, parent).filter(
            |row: Seq<SqlCell>|
                StatusView::of_name(text_at_or(row, 1, seq![])) matches Some(status)
                    && status.terminal(),
        ).len(),
        (forall|k: int|
            0 <= k < rows.len() && text_at(#[trigger] rows[k], 0) == Some(parent) ==> text_at(
                rows[k],
                1,
            ) == Some(StatusView::Closed.name()) || text_at(rows[k], 1) == Some(
                StatusView::Tombstone.name(),
            )) && parent.len() > 0 ==> closed_children(rows_of_parent(rows, parent))
            == rows_of_parent(rows, parent).len(),
        (exists|k: int|
            0 <= k < rows.len() && text_at_or(#[trigger] rows[k], 0, seq![]) == parent
                && text_at_or(rows[k], 1, seq![]) != "closed"@ && text_at_or(rows[k], 1, seq![])
                != "tombstone"@) ==> closed_children(rows_of_parent(rows, parent))
            < rows_of_parent(rows, parent).len(),
    decreases rows.len(),
{
    let of_parent = |row: Seq<SqlCell>| text_at_or(row, 0, seq![]) == parent;
    let terminal = |row: Seq<SqlCell>|
        StatusView::of_name(text_at_or(row, 1, seq![])) matches Some(status) && status.terminal();
    reveal(Seq::filter);
    lemma_parent_rows(rows, parent);
    if rows.len() > 0 {
        let front = rows.drop_last();
        let last = rows.last();
        lemma_counts_terminal_children(front, parent);
        lemma_parent_rows(front, parent);
        let own = rows_of_parent(front, parent);
        lemma_terminal_names(text_at_or(last, 1, seq![]));
        if of_parent(last) {
            assert(own.push(last).drop_last() =~= own);
            assert(own.push(last).filter(terminal) == if terminal(last) {
                own.filter(terminal).push(last)
            } else {
                own.filter(terminal)
            });
        }
        assert forall|k: int| 0 <= k < front.len() implies #[trigger] front[k] == rows[k] by {}
        if exists|k: int|
            0 <= k < rows.len() && text_at_or(#[trigger] rows[k], 0, seq![]) == parent
                && text_at_or(rows[k], 1, seq![]) != "closed"@ && text_at_or(rows[k], 1, seq![])
                != "tombstone"@ {
            let k = choose|k: int|
                0 <= k < rows.len() && text_at_or(#[trigger] rows[k], 0, seq![]) == parent
                    && text_at_or(rows[k], 1, seq![]) != "closed"@ && text_at_or(
                    rows[k],
                    1,
                    seq![],
                ) != "tombstone"@;
            if k < front.len() {
                assert(front[k] == rows[k]);
            }
        }
    }
}

/// The names of terminal statuses.
proof fn lemma_terminal_names(s: Seq<char>)
    ensures
        (StatusView::of_name(s) matches Some(status) && status.terminal()) <==> s == "closed"@ || s
            == "tombstone"@,
{
    crate::rows::lemma_status_reads_back(StatusView::Closed);
    crate::rows::lemma_status_reads_back(StatusView::Tombstone);
    crate::rows::lemma_status_reads_back(StatusView::Open);
    crate::rows::lemma_status_reads_back(StatusView::InProgress);
    crate::rows::lemma_status_reads_back(StatusView::Blocked);
    crate::rows::lemma_status_reads_back(StatusView::Deferred);
    crate::rows::lemma_status_reads_back(StatusView::Pinned);
}

/// Get epic counts (total children, closed children) for all epics, given the rows of the query
/// for them.
///
/// Returns a map from epic ID to (`total_children`, `closed_children`).
pub fn get_epic_counts(rows: &Vec<Row>) -> (r: TextMap<(usize, usize)>)
    ensures
        forall|parent: Seq<char>| #[trigger]
            crate::assoc::get_in(r.deep_view(), parent) == ({
                let own = rows_of_parent(rows.deep_view(), parent);
                if own.len() == 0 {
                    None
                } else {
                    Some((own.len() as usize, closed_children(own) as usize))
                }
            }),
        crate::assoc::unique_keys(r.deep_view()),
{
    let ghost all = rows.deep_view();
    let mut counts: TextMap<(usize, usize)> = TextMap::new();
    let mut i: usize = 0;
    while i < rows.len()
        invariant
            i <= rows.len(),
            all == rows.deep_view(),
            crate::assoc::unique_keys(counts.deep_view()),
            forall|parent: Seq<char>| #[trigger]
                crate::assoc::get_in(counts.deep_view(), parent) == ({
                    let own = rows_of_parent(all.take(i as int), parent);
                    if own.len() == 0 {
                        None
                    } else {
                        Some((own.len() as usize, closed_children(own) as usize))
                    }
                }),
        decreases rows.len() - i,
    {
        let ghost front = all.take(i as int);
        assert(all.take(i + 1).drop_last() =~= front);
        assert(all.take(i + 1).last() == rows@[i as int].deep_view());
        let epic_id = rows[i].text_or_empty(0);
        let status = rows[i].text_or_empty(1);
        let closed = same_text(status.as_str(), "closed") || same_text(
            status.as_str(),
            "tombstone",
        );
        let ghost before = counts.deep_view();
        let ghost own = rows_of_parent(front, epic_id@);
        proof {
            lemma_parent_rows(front, epic_id@);
            assert(own.push(rows@[i as int].deep_view()).drop_last() =~= own);
        }
        let (total, done) = match counts.get(epic_id.as_str()) {
            Some(c) => (c.0, c.1),
            None => (0usize, 0usize),
        };
        assert(total == own.len());
        assert(done == closed_children(own)) by {
            if own.len() == 0 {
                assert(own =~= seq![]);
            }
        }
        let done: usize = if closed {
            done + 1
        } else {
            done
        };
        let total: usize = total + 1;
        proof {
            crate::assoc::lemma_put_in_keys(before, epic_id@, (total, done));
        }
        counts.insert(epic_id.as_str(), (total, done));
        assert forall|parent: Seq<char>| #[trigger]
            crate::assoc::get_in(counts.deep_view(), parent) == ({
                let own = rows_of_parent(all.take(i + 1), parent);
                if own.len() == 0 {
                    None
                } else {
                    Some((own.len() as usize, closed_children(own) as usize))
                }
            }) by {
            crate::assoc::lemma_put_in(before, epic_id@, (total, done), parent);
        }
        i += 1;
    }
    assert(all.take(all.len() as int) =~= all);
    counts
}

/// Query for all dependency records of all issues.
pub fn all_dependency_records_query() -> (r: Statement)
    ensures
        r.deep_view() == stmt(
            "SELECT issue_id, depends_on_id, type, created_at, created_by, metadata, thread_id FROM dependencies ORDER BY issue_id, depends_on_id"@,
            seq![],
        ),
        crate::asked::ask_all_links().is(r.deep_view()),
{
    proof {
        crate::asked::lemma_ask_all_links_text();
    }
    Statement::plain(
        "SELECT issue_id, depends_on_id, type, created_at, created_by, metadata, thread_id FROM dependencies ORDER BY issue_id, depends_on_id",
    )
}

/// Query for the dependencies of an issue as full records.
pub fn dependencies_full_query(issue_id: &str) -> (r: Statement)
    ensures
        r.deep_view() == stmt(
            "SELECT issue_id, depends_on_id, type, created_at, created_by, metadata, thread_id FROM dependencies WHERE issue_id = ? ORDER BY depends_on_id"@,
            seq![SqlCell::Text(issue_id@)],
        ),
        crate::asked::ask_links_of(issue_id@).is(r.deep_view()),
{
    proof {
        crate::asked::lemma_ask_links_of_text(issue_id@);
    }
    Statement::with_text(
        "SELECT issue_id, depends_on_id, type, created_at, created_by, metadata, thread_id FROM dependencies WHERE issue_id = ? ORDER BY depends_on_id",
        issue_id,
    )
}

/// The dependency in a row, or the error of its date.
pub open spec fn dependency_of_row(row: Seq<SqlCell>) -> Result<DependencyView, BeadsErrorView> {
    match datetime_at(row, 3) {
        Ok(created_at) => Ok(
            DependencyView {
                issue_id: text_at_or(row, 0, seq![]),
                depends_on_id: text_at_or(row, 1, seq![]),
                dep_type: dependency_type_of(text_at(row, 2)),
                created_at,
                created_by: text_at(row, 4),
                metadata: text_at(row, 5),
                thread_id: text_at(row, 6),
            },
        ),
        Err(e) => Err(e),
    }
}

fn dependency_from_row(row: &Row) -> (r: Result<Dependency, BeadsError>)
    ensures
        outcome(r) == dependency_of_row(row.deep_view()),
{
    match datetime_in(row, 3) {
        Ok(created_at) => {
            let dep_type = row.text(2);
            Ok(
                Dependency {
                    issue_id: row.text_or_empty(0),
                    depends_on_id: row.text_or_empty(1),
                    dep_type: stored_dependency_type(&dep_type),
                    created_at,
                    created_by: row.text(4),
                    metadata: row.text(5),
                    thread_id: row.text(6),
                },
            )
        },
        Err(e) => Err(e),
    }
}

/// The dependencies in rows, or the error of the first row that cannot be read.
pub open spec fn dependencies_of_rows(rows: Seq<Seq<SqlCell>>) -> Result<
    Seq<DependencyView>,
    BeadsErrorView,
>
    decreases rows.len(),
{
    if rows.len() == 0 {
        Ok(seq![])
    } else {
        match dependencies_of_rows(rows.drop_last()) {
            Ok(front) => match dependency_of_row(rows.last()) {
                Ok(d) => Ok(front.push(d)),
                Err(e) => Err(e),
            },
            Err(e) => Err(e),
        }
    }
}

proof fn lemma_dependencies_error(rows: Seq<Seq<SqlCell>>, k: int)
    requires
        0 <= k <= rows.len(),
        dependencies_of_rows(rows.take(k)) is Err,
    ensures
        dependencies_of_rows(rows) == dependencies_of_rows(rows.take(k)),
    decreases rows.len() - k,
{
    if k == rows.len() {
        assert(rows.take(k) =~= rows);
    } else {
        assert(rows.drop_last().take(k) =~= rows.take(k));
        lemma_dependencies_error(rows.drop_last(), k);
    }
}

/// Get dependencies as full records, from the rows of either query for them.
pub fn get_dependencies_full(rows: &Vec<Row>) -> (r: Result<Vec<Dependency>, BeadsError>)
    ensures
        outcome(r) == dependencies_of_rows(rows.deep_view()),
{
    let ghost all = rows.deep_view();
    let mut out: Vec<Dependency> = Vec::new();
    let mut i: usize = 0;
    assert(out.deep_view() =~= seq![]);
    while i < rows.len()
        invariant
            all == rows.deep_view(),
            i <= rows.len(),
            dependencies_of_rows(all.take(i as int)) == Ok::<Seq<DependencyView>, BeadsErrorView>(
                out.deep_view(),
            ),
        decreases rows.len() - i,
    {
        assert(all.take(i + 1).drop_last() =~= all.take(i as int));
        assert(all.take(i + 1).last() == rows@[i as int].deep_view());
        match dependency_from_row(&rows[i]) {
            Ok(d) => {
                let ghost before = out.deep_view();
                let ghost item = d.deep_view();
                out.push(d);
                assert(out.deep_view() =~= before.push(item));
            },
            Err(e) => {
                proof {
                    lemma_dependencies_error(all, i + 1);
                }
                return Err(e);
            },
        }
        i += 1;
    }
    assert(all.take(all.len() as int) =~= all);
    Ok(out)
}

/// Dependencies, paired with the issue that has them.
pub open spec fn by_issue(deps: Seq<DependencyView>) -> Seq<(Seq<char>, DependencyView)> {
    deps.map_values(|d: DependencyView| (d.issue_id, d))
}

/// Get all dependency records for all issues, from the rows of the query for them.
///
/// Returns a map from `issue_id` to its list of Dependency records.
pub fn get_all_dependency_records(rows: &Vec<Row>) -> (r: Result<
    TextMap<Vec<Dependency>>,
    BeadsError,
>)
    ensures
        outcome(r) == (match dependencies_of_rows(rows.deep_view()) {
            Ok(deps) => Ok(crate::assoc::grouped(by_issue(deps))),
            Err(e) => Err(e),
        }),
{
    let deps = match get_dependencies_full(rows) {
        Ok(deps) => deps,
        Err(e) => {
            return Err(e);
        },
    };
    let ghost all = by_issue(deps.deep_view());
    let ghost raw = deps@;
    let mut out: TextMap<Vec<Dependency>> = TextMap::new();
    let mut rest = deps;
    let ghost mut n: int = 0;
    assert(crate::assoc::grouped(all.take(0)) =~= seq![]);
    assert(raw.skip(0) =~= raw);
    while rest.len() > 0
        invariant
            0 <= n <= raw.len(),
            all.len() == raw.len(),
            forall|k: int|
                0 <= k < raw.len() ==> #[trigger] all[k] == (raw[k].issue_id@, raw[k].deep_view()),
            rest@ == raw.skip(n),
            out.deep_view() == crate::assoc::grouped(all.take(n)),
        decreases rest.len(),
    {
        let d = rest.remove(0);
        assert(d == raw[n]);
        assert(rest@ =~= raw.skip(n + 1));
        assert(all.take(n + 1).drop_last() =~= all.take(n));
        assert(all.take(n + 1).last() == all[n]);
        let id = d.issue_id.clone();
        out.append(id.as_str(), d);
        proof {
            n = n + 1;
        }
    }
    assert(all.take(n) =~= all);
    Ok(out)
}

/// The statement that adds a dependency of an imported issue.
pub open spec fn import_dependency(issue_id: Seq<char>, d: DependencyView) -> StatementView {
    stmt(
        "INSERT OR IGNORE INTO dependencies (issue_id, depends_on_id, type, created_at, created_by, metadata, thread_id) VALUES (?, ?, ?, ?, ?, ?, ?)"@,
        seq![
            SqlCell::Text(issue_id),
            SqlCell::Text(d.depends_on_id),
            SqlCell::Text(d.dep_type.name()),
            SqlCell::Text(rfc3339(d.created_at)),
            crate::sql::cell_or(d.created_by, "import"@),
            crate::sql::cell_or(d.metadata, "{}"@),
            crate::sql::cell_or(d.thread_id, ""@),
        ],
    )
}

/// An imported dependency is read back from the row it is written to: it is the dependency of the
/// importing issue, on the issue and of the type that was imported, made when and by whom it was,
/// with what is written for a missing author, metadata and thread. A custom type with the name of
/// a built-in one is read as that one.
pub proof fn lemma_imported_dependency_reads_back(issue_id: Seq<char>, d: DependencyView)
    requires
        crate::rows::reads_back(d.created_at),
        d.dep_type matches DependencyTypeView::Custom(name) ==> DependencyTypeView::of_name(
            name,
        ) is Custom,
    ensures
        dependency_of_row(import_dependency(issue_id, d).params) == Ok::<
            DependencyView,
            BeadsErrorView,
        >(
            DependencyView {
                issue_id,
                depends_on_id: d.depends_on_id,
                dep_type: d.dep_type,
                created_at: d.created_at,
                created_by: Some(
                    match d.created_by {
                        Some(s) => s,
                        None => "import"@,
                    },
                ),
                metadata: Some(
                    match d.metadata {
                        Some(s) => s,
                        None => "{}"@,
                    },
                ),
                thread_id: Some(
                    match d.thread_id {
                        Some(s) => s,
                        None => ""@,
                    },
                ),
            },
        ),
{
    crate::model::lemma_dependency_type_reads_back(d.dep_type);
}

/// Sync dependencies for an issue (remove existing, add new).
pub fn sync_dependencies_for_import(issue_id: &str, dependencies: &Vec<Dependency>) -> (r: Vec<
    Statement,
>)
    ensures
        r.deep_view() == seq![
            stmt("DELETE FROM dependencies WHERE issue_id = ?"@, seq![SqlCell::Text(issue_id@)]),
        ] + dependencies.deep_view().map_values(
            |d: DependencyView| import_dependency(issue_id@, d),
        ),
        crate::written::drop_dependencies_removed(issue_id@).is(r.deep_view()[0]),
{
    proof {
        crate::written::lemma_drop_dependencies_removed_text(issue_id@);
    }
    let mut out: Vec<Statement> = Vec::new();
    out.push(Statement::with_text("DELETE FROM dependencies WHERE issue_id = ?", issue_id));
    let mut i: usize = 0;
    while i < dependencies.len()
        invariant
            i <= dependencies.len(),
            out.len() == i + 1,
            out@[0].deep_view() == stmt(
                "DELETE FROM dependencies WHERE issue_id = ?"@,
                seq![SqlCell::Text(issue_id@)],
            ),
            forall|k: int|
                1 <= k < i + 1 ==> (#[trigger] out@[k]).deep_view() == import_dependency(
                    issue_id@,
                    dependencies@[k - 1].deep_view(),
                ),
        decreases dependencies.len() - i,
    {
        let d = &dependencies[i];
        let params: Vec<SqlValue> = vec![
            SqlValue::text(issue_id),
            SqlValue::text(d.depends_on_id.as_str()),
            SqlValue::text(d.dep_type.as_str()),
            SqlValue::Text(d.created_at.to_rfc3339()),
            SqlValue::text_or(&d.created_by, "import"),
            SqlValue::text_or(&d.metadata, "{}"),
            SqlValue::text_or(&d.thread_id, ""),
        ];
        assert(params.deep_view() =~= import_dependency(issue_id@, d.deep_view()).params);
        out.push(
            Statement {
                sql: "INSERT OR IGNORE INTO dependencies (issue_id, depends_on_id, type, created_at, created_by, metadata, thread_id) VALUES (?, ?, ?, ?, ?, ?, ?)".to_owned(),
                params,
            },
        );
        i += 1;
    }
    assert(out.deep_view() =~= seq![
        stmt("DELETE FROM dependencies WHERE issue_id = ?"@, seq![SqlCell::Text(issue_id@)]),
    ] + dependencies.deep_view().map_values(|d: DependencyView| import_dependency(issue_id@, d)));
    out
}

} // verus!
