//! Rows of the issues table: reading an issue from a row and writing it to one.

use crate::clock::{opt_rfc3339, parse_datetime, parse_opt_datetime, Timestamp};
use crate::error::BeadsError;
use crate::model::{Comment, Dependency, DependencyType, Issue, IssueType, Priority, Status};
use crate::sql::{Row, SqlValue};
use vstd::prelude::*;

verus! {

use crate::clock::{
    datetime_outcome,
    four_digit_year,
    opt_datetime_outcome,
    read_datetime,
    rfc3339,
    rfc3339_opt,
    Instant,
};
use crate::error::{outcome, BeadsErrorView};
use crate::model::{DependencyTypeView, IssueTypeView, IssueView, StatusView};
use crate::sql::{
    cell_of_bool,
    cell_of_number,
    cell_of_opt,
    cell_or,
    integer_at,
    integer_at_or_zero,
    text_at,
    text_at_or,
    SqlCell,
};

/// The status that a stored text denotes: open where there is none, a custom one where the text
/// names no built-in status.
pub open spec fn status_of(s: Option<Seq<char>>) -> StatusView {
    match s {
        Some(s) => match StatusView::of_name(s) {
            Some(status) => status,
            None => StatusView::Custom(s),
        },
        None => StatusView::Open,
    }
}

/// Reads a stored status.
pub fn parse_status(s: Option<&str>) -> (r: Status)
    ensures
        r.deep_view() == status_of(s.deep_view()),
{
    match s {
        Some(s) => match Status::from_name(s) {
            Some(status) => status,
            None => Status::Custom(s.to_owned()),
        },
        None => Status::Open,
    }
}

/// The type that a stored text denotes: a task where there is none or it names no built-in type.
pub open spec fn issue_type_of(s: Option<Seq<char>>) -> IssueTypeView {
    match s {
        Some(s) => match IssueTypeView::of_name(s) {
            Some(t) => t,
            None => IssueTypeView::Task,
        },
        None => IssueTypeView::Task,
    }
}

/// Reads a stored issue type.
pub fn parse_issue_type(s: Option<&str>) -> (r: IssueType)
    ensures
        r.deep_view() == issue_type_of(s.deep_view()),
{
    match s {
        Some(s) => match IssueType::from_name(s) {
            Some(t) => t,
            None => IssueType::Task,
        },
        None => IssueType::Task,
    }
}

/// The dependency type that a stored text denotes: a blocking one where there is none.
pub open spec fn dependency_type_of(s: Option<Seq<char>>) -> DependencyTypeView {
    match s {
        Some(s) => DependencyTypeView::of_name(s),
        None => DependencyTypeView::Blocks,
    }
}

/// A text, with the empty text taken as none.
pub open spec fn non_empty(s: Option<Seq<char>>) -> Option<Seq<char>> {
    match s {
        Some(s) => if s.len() == 0 {
            None
        } else {
            Some(s)
        },
        None => None,
    }
}

/// Convert empty string to None.
/// The database stores empty strings for NOT NULL DEFAULT '' fields,
/// but the API contract expects None for unset values.
pub fn empty_to_none(s: Option<String>) -> (r: Option<String>)
    ensures
        r.deep_view() == non_empty(s.deep_view()),
{
    match s {
        Some(s) => {
            if s.as_str().is_empty() {
                None
            } else {
                Some(s)
            }
        },
        None => None,
    }
}

/// A number in a column, cut down to 32 bits.
pub open spec fn number_at(row: Seq<SqlCell>, i: int) -> Option<i32> {
    match integer_at(row, i) {
        Some(n) => Some(#[verifier::truncate] (n as i32)),
        None => None,
    }
}

/// Reads a number from a column.
pub fn number_in(row: &Row, i: usize) -> (r: Option<i32>)
    ensures
        r == number_at(row.deep_view(), i as int),
{
    match row.integer(i) {
        Some(n) => Some(#[verifier::truncate] (n as i32)),
        None => None,
    }
}

/// A priority in a column, medium where there is none.
pub open spec fn priority_at(row: Seq<SqlCell>, i: int) -> i32 {
    match number_at(row, i) {
        Some(n) => n,
        None => 2,
    }
}

/// Reads a priority from a column.
pub fn priority_in(row: &Row, i: usize) -> (r: Priority)
    ensures
        r.deep_view() == priority_at(row.deep_view(), i as int),
{
    match number_in(row, i) {
        Some(n) => Priority(n),
        None => Priority(2),
    }
}

/// A point in time in a column, an error where it cannot be read.
pub open spec fn datetime_at(row: Seq<SqlCell>, i: int) -> Result<Instant, BeadsErrorView> {
    let s = text_at_or(row, i, seq![]);
    datetime_outcome(s, read_datetime(s))
}

/// Reads a point in time from a column.
pub fn datetime_in(row: &Row, i: usize) -> (r: Result<Timestamp, BeadsError>)
    ensures
        outcome(r) == datetime_at(row.deep_view(), i as int),
{
    let s = row.text_or_empty(i);
    parse_datetime(s.as_str())
}

/// An optional point in time in a column, an error where it cannot be read.
pub open spec fn opt_datetime_at(row: Seq<SqlCell>, i: int) -> Result<
    Option<Instant>,
    BeadsErrorView,
> {
    opt_datetime_outcome(text_at(row, i))
}

/// Reads an optional point in time from a column.
pub fn opt_datetime_in(row: &Row, i: usize) -> (r: Result<Option<Timestamp>, BeadsError>)
    ensures
        outcome(r) == opt_datetime_at(row.deep_view(), i as int),
{
    let s = row.text(i);
    parse_opt_datetime(&s)
}

/// A text in a column, with the empty text taken as none.
pub open spec fn soft_text_at(row: Seq<SqlCell>, i: int) -> Option<Seq<char>> {
    non_empty(text_at(row, i))
}

/// Reads a text from a column, with the empty text taken as none.
pub fn soft_text_in(row: &Row, i: usize) -> (r: Option<String>)
    ensures
        r.deep_view() == soft_text_at(row.deep_view(), i as int),
{
    empty_to_none(row.text(i))
}

/// The issue in a row of the issues table, or the error of the first date in it that cannot be read.
pub open spec fn issue_of_row(row: Seq<SqlCell>) -> Result<IssueView, BeadsErrorView> {
    let created_at = datetime_at(row, 13);
    let updated_at = datetime_at(row, 15);
    let closed_at = opt_datetime_at(row, 16);
    let due_at = opt_datetime_at(row, 19);
    let defer_until = opt_datetime_at(row, 20);
    let deleted_at = opt_datetime_at(row, 24);
    let compacted_at = opt_datetime_at(row, 29);
    if created_at is Err {
        Err(created_at->Err_0)
    } else if updated_at is Err {
        Err(updated_at->Err_0)
    } else if closed_at is Err {
        Err(closed_at->Err_0)
    } else if due_at is Err {
        Err(due_at->Err_0)
    } else if defer_until is Err {
        Err(defer_until->Err_0)
    } else if deleted_at is Err {
        Err(deleted_at->Err_0)
    } else if compacted_at is Err {
        Err(compacted_at->Err_0)
    } else {
        Ok(
            IssueView {
                id: text_at_or(row, 0, seq![]),
                content_hash: text_at(row, 1),
                title: text_at_or(row, 2, seq![]),
                description: soft_text_at(row, 3),
                design: soft_text_at(row, 4),
                acceptance_criteria: soft_text_at(row, 5),
                notes: soft_text_at(row, 6),
                status: status_of(text_at(row, 7)),
                priority: priority_at(row, 8),
                issue_type: issue_type_of(text_at(row, 9)),
                assignee: soft_text_at(row, 10),
                owner: soft_text_at(row, 11),
                estimated_minutes: number_at(row, 12),
                created_at: created_at->Ok_0,
                created_by: soft_text_at(row, 14),
                updated_at: updated_at->Ok_0,
                closed_at: closed_at->Ok_0,
                close_reason: soft_text_at(row, 17),
                closed_by_session: soft_text_at(row, 18),
                due_at: due_at->Ok_0,
                defer_until: defer_until->Ok_0,
                external_ref: text_at(row, 21),
                source_system: soft_text_at(row, 22),
                source_repo: soft_text_at(row, 23),
                deleted_at: deleted_at->Ok_0,
                deleted_by: soft_text_at(row, 25),
                delete_reason: soft_text_at(row, 26),
                original_type: soft_text_at(row, 27),
                compaction_level: number_at(row, 28),
                compacted_at: compacted_at->Ok_0,
                compacted_at_commit: text_at(row, 30),
                original_size: number_at(row, 31),
                sender: soft_text_at(row, 32),
                ephemeral: integer_at_or_zero(row, 33) != 0,
                pinned: integer_at_or_zero(row, 34) != 0,
                is_template: integer_at_or_zero(row, 35) != 0,
                labels: seq![],
                dependencies: seq![],
                comments: seq![],
            },
        )
    }
}

/// Reads an issue from a row of the issues table. Labels, dependencies and comments are not in it.
pub fn issue_from_row(row: &Row) -> (r: Result<Issue, BeadsError>)
    ensures
        outcome(r) == issue_of_row(row.deep_view()),
{
    let created_at = match datetime_in(row, 13) {
        Ok(t) => t,
        Err(e) => {
            return Err(e);
        },
    };
    let updated_at = match datetime_in(row, 15) {
        Ok(t) => t,
        Err(e) => {
            return Err(e);
        },
    };
    let closed_at = match opt_datetime_in(row, 16) {
        Ok(t) => t,
        Err(e) => {
            return Err(e);
        },
    };
    let due_at = match opt_datetime_in(row, 19) {
        Ok(t) => t,
        Err(e) => {
            return Err(e);
        },
    };
    let defer_until = match opt_datetime_in(row, 20) {
        Ok(t) => t,
        Err(e) => {
            return Err(e);
        },
    };
    let deleted_at = match opt_datetime_in(row, 24) {
        Ok(t) => t,
        Err(e) => {
            return Err(e);
        },
    };
    let compacted_at = match opt_datetime_in(row, 29) {
        Ok(t) => t,
        Err(e) => {
            return Err(e);
        },
    };
    let status = row.text(7);
    let issue_type = row.text(9);
    let labels: Vec<String> = Vec::new();
    let dependencies: Vec<Dependency> = Vec::new();
    let comments: Vec<Comment> = Vec::new();
    assert(labels.deep_view() =~= seq![]);
    assert(dependencies.deep_view() =~= seq![]);
    assert(comments.deep_view() =~= seq![]);
    Ok(
        Issue {
            id: row.text_or_empty(0),
            content_hash: row.text(1),
            title: row.text_or_empty(2),
            description: soft_text_in(row, 3),
            design: soft_text_in(row, 4),
            acceptance_criteria: soft_text_in(row, 5),
            notes: soft_text_in(row, 6),
            status: stored_status(&status),
            priority: priority_in(row, 8),
            issue_type: stored_type(&issue_type),
            assignee: soft_text_in(row, 10),
            owner: soft_text_in(row, 11),
            estimated_minutes: number_in(row, 12),
            created_at,
            created_by: soft_text_in(row, 14),
            updated_at,
            closed_at,
            close_reason: soft_text_in(row, 17),
            closed_by_session: soft_text_in(row, 18),
            due_at,
            defer_until,
            external_ref: row.text(21),
            source_system: soft_text_in(row, 22),
            source_repo: soft_text_in(row, 23),
            deleted_at,
            deleted_by: soft_text_in(row, 25),
            delete_reason: soft_text_in(row, 26),
            original_type: soft_text_in(row, 27),
            compaction_level: number_in(row, 28),
            compacted_at,
            compacted_at_commit: row.text(30),
            original_size: number_in(row, 31),
            sender: soft_text_in(row, 32),
            ephemeral: row.integer_or_zero(33) != 0,
            pinned: row.integer_or_zero(34) != 0,
            is_template: row.integer_or_zero(35) != 0,
            labels,
            dependencies,
            comments,
        },
    )
}

/// Reads a stored status that may be missing.
pub fn stored_status(s: &Option<String>) -> (r: Status)
    ensures
        r.deep_view() == status_of(s.deep_view()),
{
    match s {
        Some(s) => parse_status(Some(s.as_str())),
        None => parse_status(None),
    }
}

/// Reads a stored issue type that may be missing.
pub fn stored_type(s: &Option<String>) -> (r: IssueType)
    ensures
        r.deep_view() == issue_type_of(s.deep_view()),
{
    match s {
        Some(s) => parse_issue_type(Some(s.as_str())),
        None => parse_issue_type(None),
    }
}

/// Reads a stored dependency type that may be missing.
pub fn stored_dependency_type(s: &Option<String>) -> (r: DependencyType)
    ensures
        r.deep_view() == dependency_type_of(s.deep_view()),
{
    match s {
        Some(s) => DependencyType::from_name(s.as_str()),
        None => DependencyType::Blocks,
    }
}

/// The issues in rows, or the error of the first row that cannot be read.
pub open spec fn issues_of_rows(rows: Seq<Seq<SqlCell>>) -> Result<Seq<IssueView>, BeadsErrorView>
    decreases rows.len(),
{
    if rows.len() == 0 {
        Ok(seq![])
    } else {
        match issues_of_rows(rows.drop_last()) {
            Ok(front) => match issue_of_row(rows.last()) {
                Ok(issue) => Ok(front.push(issue)),
                Err(e) => Err(e),
            },
            Err(e) => Err(e),
        }
    }
}

proof fn lemma_issues_error(rows: Seq<Seq<SqlCell>>, k: int)
    requires
        0 <= k <= rows.len(),
        issues_of_rows(rows.take(k)) is Err,
    ensures
        issues_of_rows(rows) == issues_of_rows(rows.take(k)),
    decreases rows.len() - k,
{
    if k == rows.len() {
        assert(rows.take(k) =~= rows);
    } else {
        assert(rows.drop_last().take(k) =~= rows.take(k));
        lemma_issues_error(rows.drop_last(), k);
    }
}

/// Reads the issues in rows.
pub fn issues_from_rows(rows: &Vec<Row>) -> (r: Result<Vec<Issue>, BeadsError>)
    ensures
        outcome(r) == issues_of_rows(rows.deep_view()),
{
    let ghost all = rows.deep_view();
    let mut out: Vec<Issue> = Vec::new();
    let mut i: usize = 0;
    assert(out.deep_view() =~= seq![]);
    while i < rows.len()
        invariant
            all == rows.deep_view(),
            i <= rows.len(),
            issues_of_rows(all.take(i as int)) == Ok::<Seq<IssueView>, BeadsErrorView>(
                out.deep_view(),
            ),
        decreases rows.len() - i,
    {
        assert(all.take(i + 1).drop_last() =~= all.take(i as int));
        assert(all.take(i + 1).last() == rows@[i as int].deep_view());
        match issue_from_row(&rows[i]) {
            Ok(issue) => {
                let ghost before = out.deep_view();
                let ghost item = issue.deep_view();
                out.push(issue);
                assert(out.deep_view() =~= before.push(item));
            },
            Err(e) => {
                proof {
                    lemma_issues_error(all, i + 1);
                }
                return Err(e);
            },
        }
        i += 1;
    }
    assert(all.take(all.len() as int) =~= all);
    Ok(out)
}

/// The issue in the row of a query for one issue, `None` where there was no row.
pub open spec fn opt_issue_of(row: Option<Seq<SqlCell>>) -> Result<Option<IssueView>, BeadsErrorView> {
    match row {
        Some(row) => match issue_of_row(row) {
            Ok(issue) => Ok(Some(issue)),
            Err(e) => Err(e),
        },
        None => Ok(None),
    }
}

/// Reads the issue from the row of a query for one issue.
pub fn opt_issue_from(row: Option<&Row>) -> (r: Result<Option<Issue>, BeadsError>)
    ensures
        outcome(r) == opt_issue_of(row.deep_view()),
{
    match row {
        Some(row) => match issue_from_row(row) {
            Ok(issue) => Ok(Some(issue)),
            Err(e) => Err(e),
        },
        None => Ok(None),
    }
}

/// A number, 0 where there is none.
pub open spec fn number_or_zero(n: Option<i32>) -> i32 {
    match n {
        Some(n) => n,
        None => 0,
    }
}

fn or_zero(n: Option<i32>) -> (r: i32)
    ensures
        r == number_or_zero(n),
{
    match n {
        Some(n) => n,
        None => 0,
    }
}

/// The row that a new issue is written to: texts that are not set become empty.
pub open spec fn new_row(i: IssueView) -> Seq<SqlCell> {
    seq![
        SqlCell::Text(i.id),
        cell_of_opt(i.content_hash),
        SqlCell::Text(i.title),
        cell_or(i.description, ""@),
        cell_or(i.design, ""@),
        cell_or(i.acceptance_criteria, ""@),
        cell_or(i.notes, ""@),
        SqlCell::Text(i.status.name()),
        SqlCell::Integer(i.priority as i64),
        SqlCell::Text(i.issue_type.name()),
        cell_of_opt(i.assignee),
        cell_or(i.owner, ""@),
        cell_of_number(i.estimated_minutes),
        SqlCell::Text(rfc3339(i.created_at)),
        cell_or(i.created_by, ""@),
        SqlCell::Text(rfc3339(i.updated_at)),
        cell_of_opt(rfc3339_opt(i.closed_at)),
        cell_or(i.close_reason, ""@),
        cell_or(i.closed_by_session, ""@),
        cell_of_opt(rfc3339_opt(i.due_at)),
        cell_of_opt(rfc3339_opt(i.defer_until)),
        cell_of_opt(i.external_ref),
        cell_or(i.source_system, ""@),
        cell_or(i.source_repo, "."@),
        cell_of_opt(rfc3339_opt(i.deleted_at)),
        cell_or(i.deleted_by, ""@),
        cell_or(i.delete_reason, ""@),
        cell_or(i.original_type, ""@),
        cell_of_number(Some(number_or_zero(i.compaction_level))),
        cell_of_opt(rfc3339_opt(i.compacted_at)),
        cell_of_opt(i.compacted_at_commit),
        cell_of_number(Some(number_or_zero(i.original_size))),
        cell_or(i.sender, ""@),
        cell_of_bool(i.ephemeral),
        cell_of_bool(i.pinned),
        cell_of_bool(i.is_template),
    ]
}

/// The row that an imported issue is written to: texts that are not set become null.
pub open spec fn import_row(i: IssueView) -> Seq<SqlCell> {
    seq![
        SqlCell::Text(i.id),
        cell_of_opt(i.content_hash),
        SqlCell::Text(i.title),
        cell_of_opt(i.description),
        cell_of_opt(i.design),
        cell_of_opt(i.acceptance_criteria),
        cell_of_opt(i.notes),
        SqlCell::Text(i.status.name()),
        SqlCell::Integer(i.priority as i64),
        SqlCell::Text(i.issue_type.name()),
        cell_of_opt(i.assignee),
        cell_of_opt(i.owner),
        cell_of_number(i.estimated_minutes),
        SqlCell::Text(rfc3339(i.created_at)),
        cell_of_opt(i.created_by),
        SqlCell::Text(rfc3339(i.updated_at)),
        cell_of_opt(rfc3339_opt(i.closed_at)),
        cell_of_opt(i.close_reason),
        cell_of_opt(i.closed_by_session),
        cell_of_opt(rfc3339_opt(i.due_at)),
        cell_of_opt(rfc3339_opt(i.defer_until)),
        cell_of_opt(i.external_ref),
        cell_of_opt(i.source_system),
        cell_or(i.source_repo, "."@),
        cell_of_opt(rfc3339_opt(i.deleted_at)),
        cell_of_opt(i.deleted_by),
        cell_of_opt(i.delete_reason),
        cell_of_opt(i.original_type),
        cell_of_number(Some(number_or_zero(i.compaction_level))),
        cell_of_opt(rfc3339_opt(i.compacted_at)),
        cell_of_opt(i.compacted_at_commit),
        cell_of_number(Some(number_or_zero(i.original_size))),
        cell_of_opt(i.sender),
        cell_of_bool(i.ephemeral),
        cell_of_bool(i.pinned),
        cell_of_bool(i.is_template),
    ]
}

/// Writes a new issue to a row.
pub fn row_of_new_issue(issue: &Issue) -> (r: Vec<SqlValue>)
    ensures
        r.deep_view() == new_row(issue.deep_view()),
        four_digit_dates(issue.deep_view()) ==> dates_read_back(issue.deep_view()),
{
    let id = SqlValue::text(issue.id.as_str());
    let content_hash = SqlValue::opt_text(&issue.content_hash);
    let title = SqlValue::text(issue.title.as_str());
    let description = SqlValue::text_or(&issue.description, "");
    let design = SqlValue::text_or(&issue.design, "");
    let acceptance_criteria = SqlValue::text_or(&issue.acceptance_criteria, "");
    let notes = SqlValue::text_or(&issue.notes, "");
    let status = SqlValue::text(issue.status.as_str());
    let priority = SqlValue::Integer(issue.priority.0 as i64);
    let issue_type = SqlValue::text(issue.issue_type.as_str());
    let assignee = SqlValue::opt_text(&issue.assignee);
    let owner = SqlValue::text_or(&issue.owner, "");
    let estimated_minutes = SqlValue::opt_number(&issue.estimated_minutes);
    let created_at = SqlValue::Text(issue.created_at.to_rfc3339());
    let created_by = SqlValue::text_or(&issue.created_by, "");
    let updated_at = SqlValue::Text(issue.updated_at.to_rfc3339());
    let closed_at = SqlValue::opt_text(&opt_rfc3339(&issue.closed_at));
    let close_reason = SqlValue::text_or(&issue.close_reason, "");
    let closed_by_session = SqlValue::text_or(&issue.closed_by_session, "");
    let due_at = SqlValue::opt_text(&opt_rfc3339(&issue.due_at));
    let defer_until = SqlValue::opt_text(&opt_rfc3339(&issue.defer_until));
    let external_ref = SqlValue::opt_text(&issue.external_ref);
    let source_system = SqlValue::text_or(&issue.source_system, "");
    let source_repo = SqlValue::text_or(&issue.source_repo, ".");
    let deleted_at = SqlValue::opt_text(&opt_rfc3339(&issue.deleted_at));
    let deleted_by = SqlValue::text_or(&issue.deleted_by, "");
    let delete_reason = SqlValue::text_or(&issue.delete_reason, "");
    let original_type = SqlValue::text_or(&issue.original_type, "");
    let compaction_level = SqlValue::Integer(or_zero(issue.compaction_level) as i64);
    let compacted_at = SqlValue::opt_text(&opt_rfc3339(&issue.compacted_at));
    let compacted_at_commit = SqlValue::opt_text(&issue.compacted_at_commit);
    let original_size = SqlValue::Integer(or_zero(issue.original_size) as i64);
    let sender = SqlValue::text_or(&issue.sender, "");
    let ephemeral = SqlValue::truth(issue.ephemeral);
    let pinned = SqlValue::truth(issue.pinned);
    let is_template = SqlValue::truth(issue.is_template);
    let row: Vec<SqlValue> = vec![
        id,
        content_hash,
        title,
        description,
        design,
        acceptance_criteria,
        notes,
        status,
        priority,
        issue_type,
        assignee,
        owner,
        estimated_minutes,
        created_at,
        created_by,
        updated_at,
        closed_at,
        close_reason,
        closed_by_session,
        due_at,
        defer_until,
        external_ref,
        source_system,
        source_repo,
        deleted_at,
        deleted_by,
        delete_reason,
        original_type,
        compaction_level,
        compacted_at,
        compacted_at_commit,
        original_size,
        sender,
        ephemeral,
        pinned,
        is_template,
    ];
    proof {
        let want = new_row(issue.deep_view());
        assert(row.deep_view() =~= want);
    }
    row
}

/// Writes an imported issue to a row.
pub fn row_of_imported_issue(issue: &Issue) -> (r: Vec<SqlValue>)
    ensures
        r.deep_view() == import_row(issue.deep_view()),
        four_digit_dates(issue.deep_view()) ==> dates_read_back(issue.deep_view()),
{
    let id = SqlValue::text(issue.id.as_str());
    let content_hash = SqlValue::opt_text(&issue.content_hash);
    let title = SqlValue::text(issue.title.as_str());
    let description = SqlValue::opt_text(&issue.description);
    let design = SqlValue::opt_text(&issue.design);
    let acceptance_criteria = SqlValue::opt_text(&issue.acceptance_criteria);
    let notes = SqlValue::opt_text(&issue.notes);
    let status = SqlValue::text(issue.status.as_str());
    let priority = SqlValue::Integer(issue.priority.0 as i64);
    let issue_type = SqlValue::text(issue.issue_type.as_str());
    let assignee = SqlValue::opt_text(&issue.assignee);
    let owner = SqlValue::opt_text(&issue.owner);
    let estimated_minutes = SqlValue::opt_number(&issue.estimated_minutes);
    let created_at = SqlValue::Text(issue.created_at.to_rfc3339());
    let created_by = SqlValue::opt_text(&issue.created_by);
    let updated_at = SqlValue::Text(issue.updated_at.to_rfc3339());
    let closed_at = SqlValue::opt_text(&opt_rfc3339(&issue.closed_at));
    let close_reason = SqlValue::opt_text(&issue.close_reason);
    let closed_by_session = SqlValue::opt_text(&issue.closed_by_session);
    let due_at = SqlValue::opt_text(&opt_rfc3339(&issue.due_at));
    let defer_until = SqlValue::opt_text(&opt_rfc3339(&issue.defer_until));
    let external_ref = SqlValue::opt_text(&issue.external_ref);
    let source_system = SqlValue::opt_text(&issue.source_system);
    let source_repo = SqlValue::text_or(&issue.source_repo, ".");
    let deleted_at = SqlValue::opt_text(&opt_rfc3339(&issue.deleted_at));
    let deleted_by = SqlValue::opt_text(&issue.deleted_by);
    let delete_reason = SqlValue::opt_text(&issue.delete_reason);
    let original_type = SqlValue::opt_text(&issue.original_type);
    let compaction_level = SqlValue::Integer(or_zero(issue.compaction_level) as i64);
    let compacted_at = SqlValue::opt_text(&opt_rfc3339(&issue.compacted_at));
    let compacted_at_commit = SqlValue::opt_text(&issue.compacted_at_commit);
    let original_size = SqlValue::Integer(or_zero(issue.original_size) as i64);
    let sender = SqlValue::opt_text(&issue.sender);
    let ephemeral = SqlValue::truth(issue.ephemeral);
    let pinned = SqlValue::truth(issue.pinned);
    let is_template = SqlValue::truth(issue.is_template);
    let row: Vec<SqlValue> = vec![
        id,
        content_hash,
        title,
        description,
        design,
        acceptance_criteria,
        notes,
        status,
        priority,
        issue_type,
        assignee,
        owner,
        estimated_minutes,
        created_at,
        created_by,
        updated_at,
        closed_at,
        close_reason,
        closed_by_session,
        due_at,
        defer_until,
        external_ref,
        source_system,
        source_repo,
        deleted_at,
        deleted_by,
        delete_reason,
        original_type,
        compaction_level,
        compacted_at,
        compacted_at_commit,
        original_size,
        sender,
        ephemeral,
        pinned,
        is_template,
    ];
    proof {
        let want = import_row(issue.deep_view());
        assert(row.deep_view() =~= want);
    }
    row
}

/// The dates of an issue lie in the years 0 to 9999.
pub open spec fn four_digit_dates(i: IssueView) -> bool {
    &&& four_digit_year(i.created_at.seconds)
    &&& four_digit_year(i.updated_at.seconds)
    &&& i.closed_at matches Some(t) ==> four_digit_year(t.seconds)
    &&& i.due_at matches Some(t) ==> four_digit_year(t.seconds)
    &&& i.defer_until matches Some(t) ==> four_digit_year(t.seconds)
    &&& i.deleted_at matches Some(t) ==> four_digit_year(t.seconds)
    &&& i.compacted_at matches Some(t) ==> four_digit_year(t.seconds)
}

/// A date is read back from the text in which it is stored.
pub open spec fn reads_back(t: Instant) -> bool {
    read_datetime(rfc3339(t)) == Some(t)
}

/// The dates of an issue are read back from the texts in which they are stored.
pub open spec fn dates_read_back(i: IssueView) -> bool {
    &&& reads_back(i.created_at)
    &&& reads_back(i.updated_at)
    &&& i.closed_at matches Some(t) ==> reads_back(t)
    &&& i.due_at matches Some(t) ==> reads_back(t)
    &&& i.defer_until matches Some(t) ==> reads_back(t)
    &&& i.deleted_at matches Some(t) ==> reads_back(t)
    &&& i.compacted_at matches Some(t) ==> reads_back(t)
}

/// An issue as the database keeps it: empty texts are none, a missing source repository is the
/// current directory, missing compaction numbers are zero, names of built-in statuses and types
/// denote these, other types are tasks, and labels, dependencies and comments are kept elsewhere.
pub open spec fn as_stored(i: IssueView) -> IssueView {
    IssueView {
        description: non_empty(i.description),
        design: non_empty(i.design),
        acceptance_criteria: non_empty(i.acceptance_criteria),
        notes: non_empty(i.notes),
        status: status_of(Some(i.status.name())),
        issue_type: issue_type_of(Some(i.issue_type.name())),
        assignee: non_empty(i.assignee),
        owner: non_empty(i.owner),
        created_by: non_empty(i.created_by),
        close_reason: non_empty(i.close_reason),
        closed_by_session: non_empty(i.closed_by_session),
        source_system: non_empty(i.source_system),
        source_repo: non_empty(Some(match i.source_repo {
            Some(s) => s,
            None => "."@,
        })),
        deleted_by: non_empty(i.deleted_by),
        delete_reason: non_empty(i.delete_reason),
        original_type: non_empty(i.original_type),
        compaction_level: Some(number_or_zero(i.compaction_level)),
        original_size: Some(number_or_zero(i.original_size)),
        sender: non_empty(i.sender),
        labels: seq![],
        dependencies: seq![],
        comments: seq![],
        ..i
    }
}

/// A new issue is read back from the row it is written to.
#[verifier::spinoff_prover]
#[verifier::rlimit(50)]
pub proof fn lemma_new_row_reads_back(i: IssueView)
    requires
        dates_read_back(i),
    ensures
        issue_of_row(new_row(i)) == Ok::<IssueView, BeadsErrorView>(as_stored(i)),
{
    let row = new_row(i);
    reveal_strlit("");
    assert(""@ =~= seq![]);
    assert(issue_of_row(row)->Ok_0 =~= as_stored(i));
}

/// An imported issue is read back from the row it is written to.
#[verifier::spinoff_prover]
#[verifier::rlimit(50)]
pub proof fn lemma_import_row_reads_back(i: IssueView)
    requires
        dates_read_back(i),
    ensures
        issue_of_row(import_row(i)) == Ok::<IssueView, BeadsErrorView>(as_stored(i)),
{
    let row = import_row(i);
    assert(issue_of_row(row)->Ok_0 =~= as_stored(i));
}

/// A column behind those of an issue changes nothing of the issue that is read.
#[verifier::spinoff_prover]
#[verifier::rlimit(50)]
pub proof fn lemma_further_column(row: Seq<SqlCell>, extra: SqlCell)
    requires
        row.len() == 36,
    ensures
        issue_of_row(row.push(extra)) == issue_of_row(row),
{
}

/// A status is read back from its name, unless it is a custom one with a built-in name.
pub proof fn lemma_status_reads_back(s: StatusView)
    requires
        s matches StatusView::Custom(name) ==> StatusView::of_name(name) is None,
    ensures
        status_of(Some(s.name())) == s,
{
    reveal_strlit("open");
    reveal_strlit("in_progress");
    reveal_strlit("blocked");
    reveal_strlit("deferred");
    reveal_strlit("closed");
    reveal_strlit("tombstone");
    reveal_strlit("pinned");
    assert("open"@.len() == 4);
    assert("in_progress"@.len() == 11);
    assert("blocked"@.len() == 7);
    assert("deferred"@.len() == 8);
    assert("closed"@.len() == 6);
    assert("tombstone"@.len() == 9);
    assert("pinned"@.len() == 6);
    assert("pinned"@[0] == 'p');
    assert("closed"@[0] == 'c');
}

/// A built-in issue type is read back from its name.
pub proof fn lemma_issue_type_reads_back(t: IssueTypeView)
    requires
        !(t is Custom),
    ensures
        issue_type_of(Some(t.name())) == t,
{
    reveal_strlit("task");
    reveal_strlit("bug");
    reveal_strlit("feature");
    reveal_strlit("epic");
    reveal_strlit("chore");
    reveal_strlit("docs");
    reveal_strlit("question");
    assert("task"@.len() == 4);
    assert("bug"@.len() == 3);
    assert("feature"@.len() == 7);
    assert("epic"@.len() == 4);
    assert("chore"@.len() == 5);
    assert("docs"@.len() == 4);
    assert("question"@.len() == 8);
    assert("task"@[0] == 't');
    assert("epic"@[0] == 'e');
    assert("docs"@[0] == 'd');
}

} // verus!
