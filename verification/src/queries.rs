//! Queries for issues by filter: listing, searching, and what is ready to be worked on.

use crate::chunk::{chunks, SQLITE_VAR_LIMIT};
use crate::clock::Timestamp;
use crate::issues::select_issues;
use crate::model::{IssueType, Priority, Status};
use crate::pattern::escape_like_pattern;
use crate::scan::trim;
use crate::sql::{text_values, SqlBuilder, SqlValue, Statement};
use crate::text::{joined, joined3, same_text};
use vstd::prelude::*;

verus! {

use crate::chunk::chunked;
use crate::clock::{rfc3339, Instant};
use crate::issues::select_columns;
use crate::model::{IssueTypeView, StatusView};
use crate::pattern::escaped;
use crate::scan::trimmed;
use crate::sql::{assembled, listed, one_of, raw, raw_bind, raw_if, text_cells, Piece, SqlCell};

/// Filter options for listing issues.
#[derive(Debug, Clone, Default)]
pub struct ListFilters {
    pub statuses: Option<Vec<Status>>,
    pub types: Option<Vec<IssueType>>,
    pub priorities: Option<Vec<Priority>>,
    pub assignee: Option<String>,
    pub unassigned: bool,
    pub include_closed: bool,
    pub include_deferred: bool,
    pub include_templates: bool,
    pub title_contains: Option<String>,
    pub limit: Option<usize>,
    /// Sort field (priority, `created_at`, `updated_at`, title)
    pub sort: Option<String>,
    /// Reverse sort order
    pub reverse: bool,
    /// Filter by labels (all specified labels must match)
    pub labels: Option<Vec<String>>,
    /// Filter by labels (OR logic)
    pub labels_or: Option<Vec<String>>,
    /// Filter by `updated_at` <= timestamp
    pub updated_before: Option<Timestamp>,
    /// Filter by `updated_at` >= timestamp
    pub updated_after: Option<Timestamp>,
}

/// The view of [`ListFilters`].
#[verifier::ext_equal]
pub struct ListFiltersView {
    pub statuses: Option<Seq<StatusView>>,
    pub types: Option<Seq<IssueTypeView>>,
    pub priorities: Option<Seq<i32>>,
    pub assignee: Option<Seq<char>>,
    pub unassigned: bool,
    pub include_closed: bool,
    pub include_deferred: bool,
    pub include_templates: bool,
    pub title_contains: Option<Seq<char>>,
    pub limit: Option<usize>,
    pub sort: Option<Seq<char>>,
    pub reverse: bool,
    pub labels: Option<Seq<Seq<char>>>,
    pub labels_or: Option<Seq<Seq<char>>>,
    pub updated_before: Option<Instant>,
    pub updated_after: Option<Instant>,
}

impl DeepView for ListFilters {
    type V = ListFiltersView;

    open spec fn deep_view(&self) -> ListFiltersView {
        ListFiltersView {
            statuses: self.statuses.deep_view(),
            types: self.types.deep_view(),
            priorities: self.priorities.deep_view(),
            assignee: self.assignee.deep_view(),
            unassigned: self.unassigned,
            include_closed: self.include_closed,
            include_deferred: self.include_deferred,
            include_templates: self.include_templates,
            title_contains: self.title_contains.deep_view(),
            limit: self.limit,
            sort: self.sort.deep_view(),
            reverse: self.reverse,
            labels: self.labels.deep_view(),
            labels_or: self.labels_or.deep_view(),
            updated_before: self.updated_before.deep_view(),
            updated_after: self.updated_after.deep_view(),
        }
    }
}

/// Filter options for ready issues.
#[derive(Debug, Clone, Default)]
pub struct ReadyFilters {
    pub assignee: Option<String>,
    pub unassigned: bool,
    pub labels_and: Vec<String>,
    pub labels_or: Vec<String>,
    pub types: Option<Vec<IssueType>>,
    pub priorities: Option<Vec<Priority>>,
    pub include_deferred: bool,
    pub limit: Option<usize>,
    /// Filter to children of this parent issue ID.
    pub parent: Option<String>,
    /// Include all descendants (grandchildren, etc.) not just direct children.
    pub recursive: bool,
}

/// The view of [`ReadyFilters`].
#[verifier::ext_equal]
pub struct ReadyFiltersView {
    pub assignee: Option<Seq<char>>,
    pub unassigned: bool,
    pub labels_and: Seq<Seq<char>>,
    pub labels_or: Seq<Seq<char>>,
    pub types: Option<Seq<IssueTypeView>>,
    pub priorities: Option<Seq<i32>>,
    pub include_deferred: bool,
    pub limit: Option<usize>,
    pub parent: Option<Seq<char>>,
    pub recursive: bool,
}

impl DeepView for ReadyFilters {
    type V = ReadyFiltersView;

    open spec fn deep_view(&self) -> ReadyFiltersView {
        ReadyFiltersView {
            assignee: self.assignee.deep_view(),
            unassigned: self.unassigned,
            labels_and: self.labels_and.deep_view(),
            labels_or: self.labels_or.deep_view(),
            types: self.types.deep_view(),
            priorities: self.priorities.deep_view(),
            include_deferred: self.include_deferred,
            limit: self.limit,
            parent: self.parent.deep_view(),
            recursive: self.recursive,
        }
    }
}

/// Sort policy for ready issues.
#[derive(Debug, Clone, Copy, Default, PartialEq, Eq, Structural)]
pub enum ReadySortPolicy {
    /// P0/P1 first by `created_at` ASC, then others by `created_at` ASC
    #[default]
    Hybrid,
    /// Sort by priority ASC, then `created_at` ASC
    Priority,
    /// Sort by `created_at` ASC only
    Oldest,
}

/// The items of an optional list.
pub open spec fn items<T>(list: Option<Seq<T>>) -> Seq<T> {
    match list {
        Some(list) => list,
        None => seq![],
    }
}

/// Statuses as values to bind.
pub open spec fn status_cells(list: Seq<StatusView>) -> Seq<SqlCell> {
    list.map_values(|s: StatusView| SqlCell::Text(s.name()))
}

/// Issue types as values to bind.
pub open spec fn type_cells(list: Seq<IssueTypeView>) -> Seq<SqlCell> {
    list.map_values(|t: IssueTypeView| SqlCell::Text(t.name()))
}

/// Priorities as values to bind.
pub open spec fn priority_cells(list: Seq<i32>) -> Seq<SqlCell> {
    list.map_values(|p: i32| SqlCell::Integer(p as i64))
}

/// A text that is looked for anywhere inside another, as a pattern.
pub open spec fn inside_pattern(s: Seq<char>) -> Seq<char> {
    "%"@ + escaped(s) + "%"@
}

/// The condition that every one of these labels is on the issue.
pub open spec fn every_label(labels: Seq<Seq<char>>) -> Seq<Piece>
    decreases labels.len(),
{
    if labels.len() == 0 {
        seq![]
    } else {
        every_label(labels.drop_last()) + raw_bind(
            " AND id IN (SELECT issue_id FROM labels WHERE label = "@,
            SqlCell::Text(labels.last()),
        ) + raw(")"@)
    }
}

/// The condition that one of these labels is on the issue, nothing for no labels.
pub open spec fn any_label(labels: Seq<Seq<char>>) -> Seq<Piece> {
    one_of(
        " AND id IN (SELECT issue_id FROM labels WHERE label IN ("@,
        text_cells(labels),
        "))"@,
    )
}

/// The condition on the assignee.
pub open spec fn assignee_is(assignee: Option<Seq<char>>) -> Seq<Piece> {
    match assignee {
        Some(s) => raw_bind(" AND assignee = "@, SqlCell::Text(s)),
        None => seq![],
    }
}

/// The condition on the title.
pub open spec fn title_carries(text: Option<Seq<char>>) -> Seq<Piece> {
    match text {
        Some(s) => raw_bind(" AND title LIKE "@, SqlCell::Text(inside_pattern(s))) + raw(
            " ESCAPE '\\'"@,
        ),
        None => seq![],
    }
}

/// A query with the conditions that listing and searching share.
pub open spec fn with_filters(
    query: Seq<Piece>,
    f: ListFiltersView,
    close: Seq<char>,
) -> Seq<Piece> {
    query + one_of(" AND status IN ("@, status_cells(items(f.statuses)), close) + one_of(
        " AND issue_type IN ("@,
        type_cells(items(f.types)),
        close,
    ) + one_of(" AND priority IN ("@, priority_cells(items(f.priorities)), close) + assignee_is(
        f.assignee,
    ) + raw_if(f.unassigned, " AND assignee IS NULL"@) + raw_if(
        !f.include_closed && f.include_deferred,
        " AND status NOT IN ('closed', 'tombstone')"@,
    ) + raw_if(
        !f.include_closed && !f.include_deferred,
        " AND status NOT IN ('closed', 'tombstone', 'deferred')"@,
    ) + raw_if(!f.include_templates, " AND (is_template = 0 OR is_template IS NULL)"@)
        + every_label(items(f.labels)) + any_label(items(f.labels_or)) + title_carries(
        f.title_contains,
    )
}

/// The condition on a date column.
pub open spec fn date_is(text: Seq<char>, t: Option<Instant>) -> Seq<Piece> {
    match t {
        Some(t) => raw_bind(text, SqlCell::Text(rfc3339(t))),
        None => seq![],
    }
}

/// The order of a listing: by the field asked for, each in its natural direction unless reversed;
/// by priority and age for no field or an unknown one.
pub open spec fn list_order(sort: Option<Seq<char>>, reverse: bool) -> Seq<char> {
    match sort {
        Some(field) => if field == "priority"@ {
            if reverse {
                " ORDER BY priority DESC, created_at ASC"@
            } else {
                " ORDER BY priority ASC, created_at DESC"@
            }
        } else if field == "created_at"@ || field == "created"@ {
            if reverse {
                " ORDER BY created_at ASC"@
            } else {
                " ORDER BY created_at DESC"@
            }
        } else if field == "updated_at"@ || field == "updated"@ {
            if reverse {
                " ORDER BY updated_at ASC"@
            } else {
                " ORDER BY updated_at DESC"@
            }
        } else if field == "title"@ {
            if reverse {
                " ORDER BY title COLLATE NOCASE DESC"@
            } else {
                " ORDER BY title COLLATE NOCASE ASC"@
            }
        } else {
            " ORDER BY priority ASC, created_at DESC"@
        },
        None => if reverse {
            " ORDER BY priority DESC, created_at ASC"@
        } else {
            " ORDER BY priority ASC, created_at DESC"@
        },
    }
}

/// The limit of a query, none for no limit and for the limit 0.
pub open spec fn limit_pieces(limit: Option<usize>, value: spec_fn(usize) -> i64) -> Seq<Piece> {
    match limit {
        Some(n) => if n > 0 {
            raw_bind(" LIMIT "@, SqlCell::Integer(value(n)))
        } else {
            seq![]
        },
        None => seq![],
    }
}

/// A limit as it is bound by listing and searching: wrapped into 64 bits with a sign.
pub open spec fn wrapped_limit() -> spec_fn(usize) -> i64 {
    |n: usize| #[verifier::truncate] (n as i64)
}

/// A limit as it is bound by the query for ready issues: capped at the greatest number there is.
pub open spec fn capped_limit() -> spec_fn(usize) -> i64 {
    |n: usize|
        if n <= i64::MAX {
            n as i64
        } else {
            i64::MAX
        }
}

/// The query that lists issues.
pub open spec fn list_pieces(f: ListFiltersView) -> Seq<Piece> {
    with_filters(raw(select_columns() + " WHERE 1=1"@), f, ") "@) + date_is(
        " AND updated_at <= "@,
        f.updated_before,
    ) + date_is(" AND updated_at >= "@, f.updated_after) + raw(list_order(f.sort, f.reverse))
        + limit_pieces(f.limit, wrapped_limit())
}

/// The query for issues whose title, description or ID carries the text looked for.
pub open spec fn search_start(query: Seq<char>) -> Seq<Piece> {
    let pattern = SqlCell::Text(inside_pattern(query));
    raw(select_columns() + " WHERE 1=1"@) + raw_bind(" AND (title LIKE "@, pattern) + raw_bind(
        " ESCAPE '\\' OR description LIKE "@,
        pattern,
    ) + raw_bind(" ESCAPE '\\' OR id LIKE "@, pattern) + raw(" ESCAPE '\\')"@)
}

/// The query that searches issues.
pub open spec fn search_pieces(query: Seq<char>, f: ListFiltersView) -> Seq<Piece> {
    with_filters(search_start(query), f, ")"@) + raw(
        " ORDER BY priority ASC, created_at DESC"@,
    ) + limit_pieces(f.limit, wrapped_limit())
}

/// The conditions that make an issue ready: open or in progress, not blocked, not put off to a
/// later date, not pinned, neither ephemeral nor a wisp, and no template. With deferred issues
/// included, deferred ones are ready too, whatever date they are put off to.
pub open spec fn ready_condition(include_deferred: bool) -> Seq<Piece> {
    raw_if(include_deferred, " AND status IN ('open', 'in_progress', 'deferred')"@) + raw_if(
        !include_deferred,
        " AND status IN ('open', 'in_progress')"@,
    ) + raw(
        " AND NOT EXISTS (SELECT 1 FROM blocked_issues_cache WHERE issue_id = issues.id)"@,
    ) + raw_if(
        !include_deferred,
        " AND (defer_until IS NULL OR datetime(defer_until) <= datetime('now'))"@,
    ) + raw(" AND (pinned = 0 OR pinned IS NULL)"@) + raw(
        " AND (ephemeral = 0 OR ephemeral IS NULL)"@,
    ) + raw(" AND id NOT LIKE '%-wisp-%'"@) + raw(
        " AND (is_template = 0 OR is_template IS NULL)"@,
    )
}

/// The condition that an issue is one of many, in runs that one list can hold.
pub open spec fn among(runs: Seq<Seq<Seq<char>>>) -> Seq<Piece>
    decreases runs.len(),
{
    if runs.len() == 0 {
        seq![]
    } else {
        let front = among(runs.drop_last());
        let sep = if runs.len() > 1 {
            raw(" OR "@)
        } else {
            seq![]
        };
        front + sep + raw("id IN ("@) + listed(text_cells(runs.last()), ","@) + raw(")"@)
    }
}

/// The condition on the parent: a child of it, or one of its descendants.
pub open spec fn parent_condition(
    parent: Option<Seq<char>>,
    recursive: bool,
    descendants: Seq<Seq<char>>,
) -> Seq<Piece> {
    match parent {
        Some(id) => if recursive {
            if descendants.len() == 0 {
                raw(" AND 1 = 0"@)
            } else {
                raw(" AND ("@) + among(chunked(descendants, SQLITE_VAR_LIMIT as int)) + raw(")"@)
            }
        } else {
            raw_bind(
                " AND id IN (SELECT issue_id FROM dependencies WHERE depends_on_id = "@,
                SqlCell::Text(id),
            ) + raw(" AND type = 'parent-child')"@)
        },
        None => seq![],
    }
}

/// The order of ready issues.
pub open spec fn ready_order(sort: ReadySortPolicy) -> Seq<char> {
    match sort {
        ReadySortPolicy::Hybrid =>
            " ORDER BY CASE WHEN priority <= 1 THEN 0 ELSE 1 END, created_at ASC"@,
        ReadySortPolicy::Priority => " ORDER BY priority ASC, created_at ASC"@,
        ReadySortPolicy::Oldest => " ORDER BY created_at ASC"@,
    }
}

/// The query for ready issues, given the descendants of the parent asked for.
pub open spec fn ready_pieces(
    f: ReadyFiltersView,
    sort: ReadySortPolicy,
    descendants: Seq<Seq<char>>,
) -> Seq<Piece> {
    raw(select_columns() + " WHERE 1=1"@) + ready_condition(f.include_deferred) + one_of(
        " AND issue_type IN ("@,
        type_cells(items(f.types)),
        ") "@,
    ) + one_of(" AND priority IN ("@, priority_cells(items(f.priorities)), ")"@) + assignee_is(
        f.assignee,
    ) + raw_if(f.unassigned, " AND assignee IS NULL"@) + every_label(f.labels_and) + any_label(
        f.labels_or,
    ) + parent_condition(f.parent, f.recursive, descendants) + raw(ready_order(sort))
        + limit_pieces(f.limit, capped_limit())
}

fn status_values(list: &Option<Vec<Status>>) -> (r: Vec<SqlValue>)
    ensures
        r.deep_view() == status_cells(items(list.deep_view())),
{
    let mut out: Vec<SqlValue> = Vec::new();
    match list {
        Some(list) => {
            let mut i: usize = 0;
            while i < list.len()
                invariant
                    i <= list.len(),
                    out.len() == i,
                    forall|k: int|
                        0 <= k < i ==> (#[trigger] out@[k]).deep_view() == SqlCell::Text(
                            list@[k].deep_view().name(),
                        ),
                decreases list.len() - i,
            {
                out.push(SqlValue::text(list[i].as_str()));
                i += 1;
            }
        },
        None => {},
    }
    assert(out.deep_view() =~= status_cells(items(list.deep_view())));
    out
}

fn type_values(list: &Option<Vec<IssueType>>) -> (r: Vec<SqlValue>)
    ensures
        r.deep_view() == type_cells(items(list.deep_view())),
{
    let mut out: Vec<SqlValue> = Vec::new();
    match list {
        Some(list) => {
            let mut i: usize = 0;
            while i < list.len()
                invariant
                    i <= list.len(),
                    out.len() == i,
                    forall|k: int|
                        0 <= k < i ==> (#[trigger] out@[k]).deep_view() == SqlCell::Text(
                            list@[k].deep_view().name(),
                        ),
                decreases list.len() - i,
            {
                out.push(SqlValue::text(list[i].as_str()));
                i += 1;
            }
        },
        None => {},
    }
    assert(out.deep_view() =~= type_cells(items(list.deep_view())));
    out
}

fn priority_values(list: &Option<Vec<Priority>>) -> (r: Vec<SqlValue>)
    ensures
        r.deep_view() == priority_cells(items(list.deep_view())),
{
    let mut out: Vec<SqlValue> = Vec::new();
    match list {
        Some(list) => {
            let mut i: usize = 0;
            while i < list.len()
                invariant
                    i <= list.len(),
                    out.len() == i,
                    forall|k: int|
                        0 <= k < i ==> (#[trigger] out@[k]).deep_view() == SqlCell::Integer(
                            list@[k].0 as i64,
                        ),
                decreases list.len() - i,
            {
                out.push(SqlValue::Integer(list[i].0 as i64));
                i += 1;
            }
        },
        None => {},
    }
    assert(out.deep_view() =~= priority_cells(items(list.deep_view())));
    out
}

fn put_every_label(b: &mut SqlBuilder, labels: &Vec<String>)
    requires
        old(b).wf(),
    ensures
        final(b).wf(),
        final(b).pieces() == old(b).pieces() + every_label(labels.deep_view()),
{
    let ghost start = b.pieces();
    let ghost all = labels.deep_view();
    let mut i: usize = 0;
    assert(start + every_label(all.take(0)) =~= start);
    while i < labels.len()
        invariant
            b.wf(),
            i <= labels.len(),
            all == labels.deep_view(),
            b.pieces() == start + every_label(all.take(i as int)),
        decreases labels.len() - i,
    {
        assert(all.take(i + 1).drop_last() =~= all.take(i as int));
        assert(all.take(i + 1).last() == labels@[i as int]@);
        b.raw_bind(
            " AND id IN (SELECT issue_id FROM labels WHERE label = ",
            SqlValue::text(labels[i].as_str()),
        );
        b.raw(")");
        assert(b.pieces() =~= start + every_label(all.take(i + 1)));
        i += 1;
    }
    assert(all.take(all.len() as int) =~= all);
}

fn put_any_label(b: &mut SqlBuilder, labels: &Vec<String>)
    requires
        old(b).wf(),
    ensures
        final(b).wf(),
        final(b).pieces() == old(b).pieces() + any_label(labels.deep_view()),
{
    b.one_of(
        " AND id IN (SELECT issue_id FROM labels WHERE label IN (",
        text_values(labels),
        "))",
    );
}

fn put_assignee(b: &mut SqlBuilder, assignee: &Option<String>)
    requires
        old(b).wf(),
    ensures
        final(b).wf(),
        final(b).pieces() == old(b).pieces() + assignee_is(assignee.deep_view()),
{
    match assignee {
        Some(s) => {
            b.raw_bind(" AND assignee = ", SqlValue::text(s.as_str()));
        },
        None => {
            assert(b.pieces() =~= old(b).pieces() + assignee_is(None));
        },
    }
}

fn pattern_inside(s: &str) -> (r: String)
    ensures
        r@ == inside_pattern(s@),
{
    joined3("%", escape_like_pattern(s).as_str(), "%")
}

fn put_filters(b: &mut SqlBuilder, f: &ListFilters, close: &str)
    requires
        old(b).wf(),
    ensures
        final(b).wf(),
        final(b).pieces() == with_filters(old(b).pieces(), f.deep_view(), close@),
{
    b.one_of(" AND status IN (", status_values(&f.statuses), close);
    b.one_of(" AND issue_type IN (", type_values(&f.types), close);
    b.one_of(" AND priority IN (", priority_values(&f.priorities), close);
    put_assignee(b, &f.assignee);
    b.raw_if(f.unassigned, " AND assignee IS NULL");
    b.raw_if(
        !f.include_closed && f.include_deferred,
        " AND status NOT IN ('closed', 'tombstone')",
    );
    b.raw_if(
        !f.include_closed && !f.include_deferred,
        " AND status NOT IN ('closed', 'tombstone', 'deferred')",
    );
    b.raw_if(!f.include_templates, " AND (is_template = 0 OR is_template IS NULL)");
    let none: Vec<String> = Vec::new();
    assert(none.deep_view() =~= seq![]);
    match &f.labels {
        Some(labels) => put_every_label(b, labels),
        None => put_every_label(b, &none),
    }
    match &f.labels_or {
        Some(labels) => put_any_label(b, labels),
        None => put_any_label(b, &none),
    }
    match &f.title_contains {
        Some(s) => put_title(b, s.as_str()),
        None => {
            assert(b.pieces() =~= b.pieces() + title_carries(None));
        },
    }
}

fn put_title(b: &mut SqlBuilder, text: &str)
    requires
        old(b).wf(),
    ensures
        final(b).wf(),
        final(b).pieces() == old(b).pieces() + title_carries(Some(text@)),
{
    b.raw_bind(" AND title LIKE ", SqlValue::Text(pattern_inside(text)));
    b.raw(" ESCAPE '\\'");
    assert(b.pieces() =~= old(b).pieces() + title_carries(Some(text@)));
}

fn put_date(b: &mut SqlBuilder, text: &str, t: &Option<Timestamp>)
    requires
        old(b).wf(),
    ensures
        final(b).wf(),
        final(b).pieces() == old(b).pieces() + date_is(text@, t.deep_view()),
{
    match t {
        Some(t) => {
            b.raw_bind(text, SqlValue::Text(t.to_rfc3339()));
        },
        None => {
            assert(b.pieces() =~= old(b).pieces() + date_is(text@, None));
        },
    }
}

fn order_of_list(sort: &Option<String>, reverse: bool) -> (r: &'static str)
    ensures
        r@ == list_order(sort.deep_view(), reverse),
{
    match sort {
        Some(field) => {
            let field = field.as_str();
            if same_text(field, "priority") {
                if reverse {
                    " ORDER BY priority DESC, created_at ASC"
                } else {
                    " ORDER BY priority ASC, created_at DESC"
                }
            } else if same_text(field, "created_at") || same_text(field, "created") {
                if reverse {
                    " ORDER BY created_at ASC"
                } else {
                    " ORDER BY created_at DESC"
                }
            } else if same_text(field, "updated_at") || same_text(field, "updated") {
                if reverse {
                    " ORDER BY updated_at ASC"
                } else {
                    " ORDER BY updated_at DESC"
                }
            } else if same_text(field, "title") {
                if reverse {
                    " ORDER BY title COLLATE NOCASE DESC"
                } else {
                    " ORDER BY title COLLATE NOCASE ASC"
                }
            } else {
                " ORDER BY priority ASC, created_at DESC"
            }
        },
        None => {
            if reverse {
                " ORDER BY priority DESC, created_at ASC"
            } else {
                " ORDER BY priority ASC, created_at DESC"
            }
        },
    }
}

fn put_wrapped_limit(b: &mut SqlBuilder, limit: Option<usize>)
    requires
        old(b).wf(),
    ensures
        final(b).wf(),
        final(b).pieces() == old(b).pieces() + limit_pieces(limit, wrapped_limit()),
{
    match limit {
        Some(n) => {
            if n > 0 {
                b.raw_bind(" LIMIT ", SqlValue::Integer(#[verifier::truncate] (n as i64)));
            }
        },
        None => {},
    }
    assert(b.pieces() =~= old(b).pieces() + limit_pieces(limit, wrapped_limit()));
}

/// Query that lists issues with optional filters.
pub fn list_issues(filters: &ListFilters) -> (r: Statement)
    ensures
        r.deep_view() == assembled(list_pieces(filters.deep_view())),
{
    let mut b = SqlBuilder::new();
    b.raw(joined(select_issues(), " WHERE 1=1").as_str());
    assert(b.pieces() =~= raw(select_columns() + " WHERE 1=1"@));
    put_filters(&mut b, filters, ") ");
    put_date(&mut b, " AND updated_at <= ", &filters.updated_before);
    put_date(&mut b, " AND updated_at >= ", &filters.updated_after);
    b.raw(order_of_list(&filters.sort, filters.reverse));
    put_wrapped_limit(&mut b, filters.limit);
    assert(b.pieces() =~= list_pieces(filters.deep_view()));
    b.finish()
}

/// Query that searches issues with optional filters, `None` where there is nothing to look for.
pub fn search_issues(query: &str, filters: &ListFilters) -> (r: Option<Statement>)
    ensures
        r.deep_view() == (if trimmed(query@).len() == 0 {
            None
        } else {
            Some(assembled(search_pieces(trimmed(query@), filters.deep_view())))
        }),
{
    let text = trim(query);
    if text.as_str().is_empty() {
        return None;
    }
    let pattern = pattern_inside(text.as_str());
    let mut b = SqlBuilder::new();
    b.raw(joined(select_issues(), " WHERE 1=1").as_str());
    b.raw_bind(" AND (title LIKE ", SqlValue::text(pattern.as_str()));
    b.raw_bind(" ESCAPE '\\' OR description LIKE ", SqlValue::text(pattern.as_str()));
    b.raw_bind(" ESCAPE '\\' OR id LIKE ", SqlValue::text(pattern.as_str()));
    b.raw(" ESCAPE '\\')");
    assert(b.pieces() =~= search_start(text@));
    put_filters(&mut b, filters, ")");
    b.raw(" ORDER BY priority ASC, created_at DESC");
    put_wrapped_limit(&mut b, filters.limit);
    assert(b.pieces() =~= search_pieces(text@, filters.deep_view()));
    Some(b.finish())
}

fn put_among(b: &mut SqlBuilder, runs: &Vec<Vec<String>>)
    requires
        old(b).wf(),
    ensures
        final(b).wf(),
        final(b).pieces() == old(b).pieces() + among(runs.deep_view()),
{
    let ghost start = b.pieces();
    let ghost all = runs.deep_view();
    let mut i: usize = 0;
    assert(start + among(all.take(0)) =~= start);
    while i < runs.len()
        invariant
            b.wf(),
            i <= runs.len(),
            all == runs.deep_view(),
            b.pieces() == start + among(all.take(i as int)),
        decreases runs.len() - i,
    {
        assert(all.take(i + 1).drop_last() =~= all.take(i as int));
        assert(all.take(i + 1).last() == runs@[i as int].deep_view());
        b.raw_if(i > 0, " OR ");
        b.raw("id IN (");
        b.list(text_values(&runs[i]), ",");
        b.raw(")");
        assert(b.pieces() =~= start + among(all.take(i + 1)));
        i += 1;
    }
    assert(all.take(all.len() as int) =~= all);
}

fn put_parent(b: &mut SqlBuilder, filters: &ReadyFilters, descendants: &Vec<String>)
    requires
        old(b).wf(),
    ensures
        final(b).wf(),
        final(b).pieces() == old(b).pieces() + parent_condition(
            filters.parent.deep_view(),
            filters.recursive,
            descendants.deep_view(),
        ),
{
    let ghost start = b.pieces();
    match &filters.parent {
        Some(id) => {
            if filters.recursive {
                if descendants.len() == 0 {
                    b.raw(" AND 1 = 0");
                } else {
                    b.raw(" AND (");
                    put_among(b, &chunks(descendants, SQLITE_VAR_LIMIT));
                    b.raw(")");
                }
            } else {
                b.raw_bind(
                    " AND id IN (SELECT issue_id FROM dependencies WHERE depends_on_id = ",
                    SqlValue::text(id.as_str()),
                );
                b.raw(" AND type = 'parent-child')");
            }
        },
        None => {},
    }
    assert(b.pieces() =~= start + parent_condition(
        filters.parent.deep_view(),
        filters.recursive,
        descendants.deep_view(),
    ));
}

fn put_ready_condition(b: &mut SqlBuilder, include_deferred: bool)
    requires
        old(b).wf(),
    ensures
        final(b).wf(),
        final(b).pieces() == old(b).pieces() + ready_condition(include_deferred),
{
    let ghost start = b.pieces();
    b.raw_if(include_deferred, " AND status IN ('open', 'in_progress', 'deferred')");
    b.raw_if(!include_deferred, " AND status IN ('open', 'in_progress')");
    b.raw(" AND NOT EXISTS (SELECT 1 FROM blocked_issues_cache WHERE issue_id = issues.id)");
    b.raw_if(
        !include_deferred,
        " AND (defer_until IS NULL OR datetime(defer_until) <= datetime('now'))",
    );
    b.raw(" AND (pinned = 0 OR pinned IS NULL)");
    b.raw(" AND (ephemeral = 0 OR ephemeral IS NULL)");
    b.raw(" AND id NOT LIKE '%-wisp-%'");
    b.raw(" AND (is_template = 0 OR is_template IS NULL)");
    assert(b.pieces() =~= start + ready_condition(include_deferred));
}

/// Query for ready issues (unblocked, not deferred, not pinned, not ephemeral).
///
/// Ready definition:
/// 1. Status is `open` OR `in_progress`
/// 2. NOT in `blocked_issues_cache`
/// 3. `defer_until` is NULL or <= now (unless `include_deferred`)
/// 4. `pinned = 0` (not pinned)
/// 5. `ephemeral = 0` AND ID does not contain `-wisp-`
///
/// With a parent and `recursive`, the issues are taken from `descendants`, the IDs of all
/// descendants of the parent.
pub fn get_ready_issues(
    filters: &ReadyFilters,
    sort: ReadySortPolicy,
    descendants: &Vec<String>,
) -> (r: Statement)
    ensures
        r.deep_view() == assembled(
            ready_pieces(filters.deep_view(), sort, descendants.deep_view()),
        ),
{
    let mut b = SqlBuilder::new();
    b.raw(joined(select_issues(), " WHERE 1=1").as_str());
    put_ready_condition(&mut b, filters.include_deferred);
    b.one_of(" AND issue_type IN (", type_values(&filters.types), ") ");
    b.one_of(" AND priority IN (", priority_values(&filters.priorities), ")");
    put_assignee(&mut b, &filters.assignee);
    b.raw_if(filters.unassigned, " AND assignee IS NULL");
    put_every_label(&mut b, &filters.labels_and);
    put_any_label(&mut b, &filters.labels_or);
    put_parent(&mut b, filters, descendants);
    b.raw(
        match sort {
            ReadySortPolicy::Hybrid =>
                " ORDER BY CASE WHEN priority <= 1 THEN 0 ELSE 1 END, created_at ASC",
            ReadySortPolicy::Priority => " ORDER BY priority ASC, created_at ASC",
            ReadySortPolicy::Oldest => " ORDER BY created_at ASC",
        },
    );
    let ghost before_limit = b.pieces();
    match filters.limit {
        Some(n) => {
            if n > 0 {
                let value: i64 = if n as u64 <= i64::MAX as u64 {
                    n as i64
                } else {
                    i64::MAX
                };
                b.raw_bind(" LIMIT ", SqlValue::Integer(value));
            }
        },
        None => {},
    }
    assert(b.pieces() =~= before_limit + limit_pieces(filters.limit, capped_limit()));
    assert(b.pieces() =~= ready_pieces(filters.deep_view(), sort, descendants.deep_view()));
    b.finish()
}

} // verus!
