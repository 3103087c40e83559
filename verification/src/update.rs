//! Updating an issue: which columns change, what is recorded, and who may claim it.

use crate::clock::{opt_rfc3339, Timestamp};
use crate::error::BeadsError;
use crate::model::{EventType, Issue, IssueType, Priority, Status};
use crate::mutation::MutationContext;
use crate::scan::{trim, write_signed};
use crate::sql::{Row, SqlBuilder, SqlValue, Statement};
use crate::text::{copy_opt, joined, joined3, same_opt, same_text};
use vstd::prelude::*;

verus! {

use crate::clock::{four_digit_year, rfc3339, rfc3339_opt, Instant};
use crate::error::{outcome, BeadsErrorView};
use crate::model::{IssueTypeView, IssueView, StatusView};
use crate::mutation::MutationContextView;
use crate::rows::{
    issue_of_row,
    issue_type_of,
    non_empty,
    reads_back,
    status_of,
};
use crate::scan::{signed_decimal, trimmed};
use crate::sql::{
    assembled,
    cell_of_number,
    cell_of_opt,
    cell_or,
    raw,
    raw_bind,
    stmt,
    text_at,
    Piece,
    SqlCell,
    StatementView,
};

/// Fields to update on an issue.
#[derive(Debug, Clone, Default)]
pub struct IssueUpdate {
    pub title: Option<String>,
    pub description: Option<Option<String>>,
    pub design: Option<Option<String>>,
    pub acceptance_criteria: Option<Option<String>>,
    pub notes: Option<Option<String>>,
    pub status: Option<Status>,
    pub priority: Option<Priority>,
    pub issue_type: Option<IssueType>,
    pub assignee: Option<Option<String>>,
    pub owner: Option<Option<String>>,
    pub estimated_minutes: Option<Option<i32>>,
    pub due_at: Option<Option<Timestamp>>,
    pub defer_until: Option<Option<Timestamp>>,
    pub external_ref: Option<Option<String>>,
    pub closed_at: Option<Option<Timestamp>>,
    pub close_reason: Option<Option<String>>,
    pub closed_by_session: Option<Option<String>>,
    pub deleted_at: Option<Option<Timestamp>>,
    pub deleted_by: Option<Option<String>>,
    pub delete_reason: Option<Option<String>>,
    /// If true, do not rebuild the blocked cache after update.
    /// Caller is responsible for rebuilding cache if needed.
    pub skip_cache_rebuild: bool,
    /// If true, verify the issue is unassigned (or assigned to `claim_actor`)
    /// inside the IMMEDIATE transaction to prevent TOCTOU races.
    pub expect_unassigned: bool,
    /// If true, reject re-claims even by the same actor.
    pub claim_exclusive: bool,
    /// The actor performing the claim (used for idempotent same-actor check).
    pub claim_actor: Option<String>,
}

/// The view of [`IssueUpdate`].
#[verifier::ext_equal]
pub struct IssueUpdateView {
    pub title: Option<Seq<char>>,
    pub description: Option<Option<Seq<char>>>,
    pub design: Option<Option<Seq<char>>>,
    pub acceptance_criteria: Option<Option<Seq<char>>>,
    pub notes: Option<Option<Seq<char>>>,
    pub status: Option<StatusView>,
    pub priority: Option<i32>,
    pub issue_type: Option<IssueTypeView>,
    pub assignee: Option<Option<Seq<char>>>,
    pub owner: Option<Option<Seq<char>>>,
    pub estimated_minutes: Option<Option<i32>>,
    pub due_at: Option<Option<Instant>>,
    pub defer_until: Option<Option<Instant>>,
    pub external_ref: Option<Option<Seq<char>>>,
    pub closed_at: Option<Option<Instant>>,
    pub close_reason: Option<Option<Seq<char>>>,
    pub closed_by_session: Option<Option<Seq<char>>>,
    pub deleted_at: Option<Option<Instant>>,
    pub deleted_by: Option<Option<Seq<char>>>,
    pub delete_reason: Option<Option<Seq<char>>>,
    pub skip_cache_rebuild: bool,
    pub expect_unassigned: bool,
    pub claim_exclusive: bool,
    pub claim_actor: Option<Seq<char>>,
}

impl DeepView for IssueUpdate {
    type V = IssueUpdateView;

    open spec fn deep_view(&self) -> IssueUpdateView {
        IssueUpdateView {
            title: self.title.deep_view(),
            description: self.description.deep_view(),
            design: self.design.deep_view(),
            acceptance_criteria: self.acceptance_criteria.deep_view(),
            notes: self.notes.deep_view(),
            status: self.status.deep_view(),
            priority: self.priority.deep_view(),
            issue_type: self.issue_type.deep_view(),
            assignee: self.assignee.deep_view(),
            owner: self.owner.deep_view(),
            estimated_minutes: self.estimated_minutes.deep_view(),
            due_at: self.due_at.deep_view(),
            defer_until: self.defer_until.deep_view(),
            external_ref: self.external_ref.deep_view(),
            closed_at: self.closed_at.deep_view(),
            close_reason: self.close_reason.deep_view(),
            closed_by_session: self.closed_by_session.deep_view(),
            deleted_at: self.deleted_at.deep_view(),
            deleted_by: self.deleted_by.deep_view(),
            delete_reason: self.delete_reason.deep_view(),
            skip_cache_rebuild: self.skip_cache_rebuild,
            expect_unassigned: self.expect_unassigned,
            claim_exclusive: self.claim_exclusive,
            claim_actor: self.claim_actor.deep_view(),
        }
    }
}

impl IssueUpdateView {
    /// Nothing is to change, and nothing to be checked.
    pub open spec fn empty(self) -> bool {
        &&& self.title is None
        &&& self.description is None
        &&& self.design is None
        &&& self.acceptance_criteria is None
        &&& self.notes is None
        &&& self.status is None
        &&& self.priority is None
        &&& self.issue_type is None
        &&& self.assignee is None
        &&& self.owner is None
        &&& self.estimated_minutes is None
        &&& self.due_at is None
        &&& self.defer_until is None
        &&& self.external_ref is None
        &&& self.closed_at is None
        &&& self.close_reason is None
        &&& self.closed_by_session is None
        &&& self.deleted_at is None
        &&& self.deleted_by is None
        &&& self.delete_reason is None
        &&& !self.expect_unassigned
    }

    /// An update of nothing.
    pub open spec fn nothing() -> Self {
        IssueUpdateView {
            title: None,
            description: None,
            design: None,
            acceptance_criteria: None,
            notes: None,
            status: None,
            priority: None,
            issue_type: None,
            assignee: None,
            owner: None,
            estimated_minutes: None,
            due_at: None,
            defer_until: None,
            external_ref: None,
            closed_at: None,
            close_reason: None,
            closed_by_session: None,
            deleted_at: None,
            deleted_by: None,
            delete_reason: None,
            skip_cache_rebuild: false,
            expect_unassigned: false,
            claim_exclusive: false,
            claim_actor: None,
        }
    }
}

impl IssueUpdate {
    /// Whether nothing is to change, and nothing to be checked.
    #[must_use]
    pub fn is_empty(&self) -> (r: bool)
        ensures
            r == self.deep_view().empty(),
    {
        self.title.is_none()
            && self.description.is_none()
            && self.design.is_none()
            && self.acceptance_criteria.is_none()
            && self.notes.is_none()
            && self.status.is_none()
            && self.priority.is_none()
            && self.issue_type.is_none()
            && self.assignee.is_none()
            && self.owner.is_none()
            && self.estimated_minutes.is_none()
            && self.due_at.is_none()
            && self.defer_until.is_none()
            && self.external_ref.is_none()
            && self.closed_at.is_none()
            && self.close_reason.is_none()
            && self.closed_by_session.is_none()
            && self.deleted_at.is_none()
            && self.deleted_by.is_none()
            && self.delete_reason.is_none()
            && !self.expect_unassigned
    }

    /// An update of nothing.
    pub fn nothing() -> (r: Self)
        ensures
            r.deep_view() == IssueUpdateView::nothing(),
    {
        IssueUpdate {
            title: None,
            description: None,
            design: None,
            acceptance_criteria: None,
            notes: None,
            status: None,
            priority: None,
            issue_type: None,
            assignee: None,
            owner: None,
            estimated_minutes: None,
            due_at: None,
            defer_until: None,
            external_ref: None,
            closed_at: None,
            close_reason: None,
            closed_by_session: None,
            deleted_at: None,
            deleted_by: None,
            delete_reason: None,
            skip_cache_rebuild: false,
            expect_unassigned: false,
            claim_exclusive: false,
            claim_actor: None,
        }
    }
}

/// A column that an update can set.
#[derive(Debug, Clone, Copy, PartialEq, Eq, Structural)]
pub enum Column {
    Title,
    Description,
    Design,
    AcceptanceCriteria,
    Notes,
    Status,
    Priority,
    IssueType,
    Assignee,
    Owner,
    EstimatedMinutes,
    UpdatedAt,
    ClosedAt,
    CloseReason,
    ClosedBySession,
    DueAt,
    DeferUntil,
    ExternalRef,
    DeletedAt,
    DeletedBy,
    DeleteReason,
    ContentHash,
}

impl DeepView for Column {
    type V = Column;

    open spec fn deep_view(&self) -> Column {
        *self
    }
}

impl Column {
    /// The name of the column.
    pub open spec fn name(self) -> Seq<char> {
        match self {
            Column::Title => "title"@,
            Column::Description => "description"@,
            Column::Design => "design"@,
            Column::AcceptanceCriteria => "acceptance_criteria"@,
            Column::Notes => "notes"@,
            Column::Status => "status"@,
            Column::Priority => "priority"@,
            Column::IssueType => "issue_type"@,
            Column::Assignee => "assignee"@,
            Column::Owner => "owner"@,
            Column::EstimatedMinutes => "estimated_minutes"@,
            Column::UpdatedAt => "updated_at"@,
            Column::ClosedAt => "closed_at"@,
            Column::CloseReason => "close_reason"@,
            Column::ClosedBySession => "closed_by_session"@,
            Column::DueAt => "due_at"@,
            Column::DeferUntil => "defer_until"@,
            Column::ExternalRef => "external_ref"@,
            Column::DeletedAt => "deleted_at"@,
            Column::DeletedBy => "deleted_by"@,
            Column::DeleteReason => "delete_reason"@,
            Column::ContentHash => "content_hash"@,
        }
    }

    /// The place of the column in a row of the issues table.
    pub open spec fn place(self) -> int {
        match self {
            Column::Title => 2,
            Column::Description => 3,
            Column::Design => 4,
            Column::AcceptanceCriteria => 5,
            Column::Notes => 6,
            Column::Status => 7,
            Column::Priority => 8,
            Column::IssueType => 9,
            Column::Assignee => 10,
            Column::Owner => 11,
            Column::EstimatedMinutes => 12,
            Column::UpdatedAt => 15,
            Column::ClosedAt => 16,
            Column::CloseReason => 17,
            Column::ClosedBySession => 18,
            Column::DueAt => 19,
            Column::DeferUntil => 20,
            Column::ExternalRef => 21,
            Column::DeletedAt => 24,
            Column::DeletedBy => 25,
            Column::DeleteReason => 26,
            Column::ContentHash => 1,
        }
    }

    /// The name of the column.
    pub fn as_str(self) -> (r: &'static str)
        ensures
            r@ == self.name(),
    {
        match self {
            Column::Title => "title",
            Column::Description => "description",
            Column::Design => "design",
            Column::AcceptanceCriteria => "acceptance_criteria",
            Column::Notes => "notes",
            Column::Status => "status",
            Column::Priority => "priority",
            Column::IssueType => "issue_type",
            Column::Assignee => "assignee",
            Column::Owner => "owner",
            Column::EstimatedMinutes => "estimated_minutes",
            Column::UpdatedAt => "updated_at",
            Column::ClosedAt => "closed_at",
            Column::CloseReason => "close_reason",
            Column::ClosedBySession => "closed_by_session",
            Column::DueAt => "due_at",
            Column::DeferUntil => "defer_until",
            Column::ExternalRef => "external_ref",
            Column::DeletedAt => "deleted_at",
            Column::DeletedBy => "deleted_by",
            Column::DeleteReason => "delete_reason",
            Column::ContentHash => "content_hash",
        }
    }
}

/// A column and the value it is set to.
#[derive(Debug, Clone, PartialEq, Eq)]
pub struct Assignment {
    pub column: Column,
    pub value: SqlValue,
}

impl DeepView for Assignment {
    type V = (Column, SqlCell);

    open spec fn deep_view(&self) -> (Column, SqlCell) {
        (self.column, self.value.deep_view())
    }
}

/// The assignments that are made, out of those that may be made.
pub open spec fn made(slots: Seq<Option<(Column, SqlCell)>>) -> Seq<(Column, SqlCell)>
    decreases slots.len(),
{
    if slots.len() == 0 {
        seq![]
    } else {
        match slots.last() {
            Some(a) => made(slots.drop_last()).push(a),
            None => made(slots.drop_last()),
        }
    }
}

/// The value of a field after an update of it.
pub open spec fn patched<T>(old_value: T, update: Option<T>) -> T {
    match update {
        Some(v) => v,
        None => old_value,
    }
}

/// A text column, set to the empty text where the field is cleared.
pub open spec fn soft_slot(
    column: Column,
    update: Option<Option<Seq<char>>>,
) -> Option<(Column, SqlCell)> {
    match update {
        Some(v) => Some((column, cell_or(v, ""@))),
        None => None,
    }
}

/// A text column, set to null where the field is cleared.
pub open spec fn null_slot(
    column: Column,
    update: Option<Option<Seq<char>>>,
) -> Option<(Column, SqlCell)> {
    match update {
        Some(v) => Some((column, cell_of_opt(v))),
        None => None,
    }
}

/// A date column, set to null where the field is cleared.
pub open spec fn date_slot(
    column: Column,
    update: Option<Option<Instant>>,
) -> Option<(Column, SqlCell)> {
    match update {
        Some(v) => Some((column, cell_of_opt(rfc3339_opt(v)))),
        None => None,
    }
}

/// What a change of status does to the date of closing: closing sets it where it is not set,
/// any other status clears it, and a date in the update itself goes before both.
pub open spec fn implied_closed_at(
    issue: IssueView,
    u: IssueUpdateView,
    now: Instant,
) -> Option<Option<Instant>> {
    match u.status {
        Some(status) => if u.closed_at is Some {
            None
        } else if status is Closed {
            if issue.closed_at is None {
                Some(Some(now))
            } else {
                None
            }
        } else if issue.closed_at is Some {
            Some(None)
        } else {
            None
        },
        None => None,
    }
}

/// The assignments that an update may make, in their order.
pub open spec fn update_slots(issue: IssueView, u: IssueUpdateView, now: Instant) -> Seq<
    Option<(Column, SqlCell)>,
> {
    seq![
        match u.title {
            Some(t) => Some((Column::Title, SqlCell::Text(t))),
            None => None,
        },
        soft_slot(Column::Description, u.description),
        soft_slot(Column::Design, u.design),
        soft_slot(Column::AcceptanceCriteria, u.acceptance_criteria),
        soft_slot(Column::Notes, u.notes),
        match u.status {
            Some(s) => Some((Column::Status, SqlCell::Text(s.name()))),
            None => None,
        },
        date_slot(Column::ClosedAt, implied_closed_at(issue, u, now)),
        match u.priority {
            Some(p) => Some((Column::Priority, SqlCell::Integer(p as i64))),
            None => None,
        },
        match u.issue_type {
            Some(t) => Some((Column::IssueType, SqlCell::Text(t.name()))),
            None => None,
        },
        null_slot(Column::Assignee, u.assignee),
        soft_slot(Column::Owner, u.owner),
        match u.estimated_minutes {
            Some(n) => Some((Column::EstimatedMinutes, cell_of_number(n))),
            None => None,
        },
        null_slot(Column::ExternalRef, u.external_ref),
        soft_slot(Column::CloseReason, u.close_reason),
        soft_slot(Column::ClosedBySession, u.closed_by_session),
        date_slot(Column::DeletedAt, u.deleted_at),
        soft_slot(Column::DeletedBy, u.deleted_by),
        soft_slot(Column::DeleteReason, u.delete_reason),
        date_slot(Column::DueAt, u.due_at),
        date_slot(Column::DeferUntil, u.defer_until),
        date_slot(Column::ClosedAt, u.closed_at),
    ]
}

/// The issue with an update applied to it.
pub open spec fn updated(issue: IssueView, u: IssueUpdateView, now: Instant) -> IssueView {
    IssueView {
        title: patched(issue.title, u.title),
        description: patched(issue.description, u.description),
        design: patched(issue.design, u.design),
        acceptance_criteria: patched(issue.acceptance_criteria, u.acceptance_criteria),
        notes: patched(issue.notes, u.notes),
        status: patched(issue.status, u.status),
        priority: patched(issue.priority, u.priority),
        issue_type: patched(issue.issue_type, u.issue_type),
        assignee: patched(issue.assignee, u.assignee),
        owner: patched(issue.owner, u.owner),
        estimated_minutes: patched(issue.estimated_minutes, u.estimated_minutes),
        external_ref: patched(issue.external_ref, u.external_ref),
        close_reason: patched(issue.close_reason, u.close_reason),
        closed_by_session: patched(issue.closed_by_session, u.closed_by_session),
        deleted_at: patched(issue.deleted_at, u.deleted_at),
        deleted_by: patched(issue.deleted_by, u.deleted_by),
        delete_reason: patched(issue.delete_reason, u.delete_reason),
        due_at: patched(issue.due_at, u.due_at),
        defer_until: patched(issue.defer_until, u.defer_until),
        closed_at: patched(
            patched(issue.closed_at, implied_closed_at(issue, u, now)),
            u.closed_at,
        ),
        ..issue
    }
}

/// What an update records: changes of title, status, priority and assignee, closing, that the
/// blocked cache is stale after a change of status, and that the issue is dirty.
pub open spec fn update_records(
    ctx: MutationContextView,
    id: Seq<char>,
    issue: IssueView,
    u: IssueUpdateView,
    now: Instant,
) -> MutationContextView {
    let c = match u.title {
        Some(title) => ctx.with_field_change(
            EventType::Updated,
            id,
            Some(issue.title),
            Some(title),
            Some("Title changed"@),
            now,
        ),
        None => ctx,
    };
    let c = match u.status {
        Some(status) => status_records(c, id, issue, status, u, now),
        None => c,
    };
    let c = match u.priority {
        Some(priority) => if priority != issue.priority {
            c.with_field_change(
                EventType::PriorityChanged,
                id,
                Some(signed_decimal(issue.priority as int)),
                Some(signed_decimal(priority as int)),
                None,
                now,
            )
        } else {
            c
        },
        None => c,
    };
    let c = match u.assignee {
        Some(assignee) => if issue.assignee != assignee {
            c.with_field_change(EventType::AssigneeChanged, id, issue.assignee, assignee, None, now)
        } else {
            c
        },
        None => c,
    };
    c.with_dirty(id)
}

/// What a change of status records.
pub open spec fn status_records(
    ctx: MutationContextView,
    id: Seq<char>,
    issue: IssueView,
    status: StatusView,
    u: IssueUpdateView,
    now: Instant,
) -> MutationContextView {
    let c = ctx.with_field_change(
        EventType::StatusChanged,
        id,
        Some(issue.status.name()),
        Some(status.name()),
        None,
        now,
    );
    let c = if status is Closed {
        c.with_event(
            EventType::Closed,
            id,
            match u.close_reason {
                Some(reason) => reason,
                None => None,
            },
            now,
        )
    } else {
        c
    };
    if u.skip_cache_rebuild {
        c
    } else {
        c.with_stale_cache()
    }
}

fn assign(list: &mut Vec<Assignment>, column: Column, value: SqlValue)
    ensures
        final(list).deep_view() == old(list).deep_view().push((column, value.deep_view())),
{
    let ghost item = (column, value.deep_view());
    list.push(Assignment { column, value });
    assert(list.deep_view() =~= old(list).deep_view().push(item));
}

fn assign_soft(
    list: &mut Vec<Assignment>,
    column: Column,
    field: &mut Option<String>,
    update: &Option<Option<String>>,
)
    ensures
        final(list).deep_view() == add_slot(
            old(list).deep_view(),
            soft_slot(column, update.deep_view()),
        ),
        final(field).deep_view() == patched(old(field).deep_view(), update.deep_view()),
{
    match update {
        Some(v) => {
            *field = copy_opt(v);
            assign(list, column, SqlValue::text_or(v, ""));
        },
        None => {},
    }
}

fn assign_null(
    list: &mut Vec<Assignment>,
    column: Column,
    field: &mut Option<String>,
    update: &Option<Option<String>>,
)
    ensures
        final(list).deep_view() == add_slot(
            old(list).deep_view(),
            null_slot(column, update.deep_view()),
        ),
        final(field).deep_view() == patched(old(field).deep_view(), update.deep_view()),
{
    match update {
        Some(v) => {
            *field = copy_opt(v);
            assign(list, column, SqlValue::opt_text(v));
        },
        None => {},
    }
}

fn assign_date(
    list: &mut Vec<Assignment>,
    column: Column,
    field: &mut Option<Timestamp>,
    update: &Option<Option<Timestamp>>,
)
    ensures
        final(list).deep_view() == add_slot(
            old(list).deep_view(),
            date_slot(column, update.deep_view()),
        ),
        final(field).deep_view() == patched(old(field).deep_view(), update.deep_view()),
        update.deep_view() matches Some(Some(t)) ==> (four_digit_year(t.seconds) ==> reads_back(t)),
{
    match update {
        Some(v) => {
            *field = *v;
            assign(list, column, SqlValue::opt_text(&opt_rfc3339(v)));
        },
        None => {},
    }
}

/// A list with an assignment that may be made at its end.
pub open spec fn add_slot(
    list: Seq<(Column, SqlCell)>,
    slot: Option<(Column, SqlCell)>,
) -> Seq<(Column, SqlCell)> {
    match slot {
        Some(a) => list.push(a),
        None => list,
    }
}

proof fn lemma_made_push(
    slots: Seq<Option<(Column, SqlCell)>>,
    slot: Option<(Column, SqlCell)>,
)
    ensures
        made(slots.push(slot)) == add_slot(made(slots), slot),
{
    assert(slots.push(slot).drop_last() =~= slots);
}

/// Applies an update to an issue and lists the assignments it makes.
pub fn apply_update(
    issue: &mut Issue,
    id: &str,
    updates: &IssueUpdate,
    ctx: &mut MutationContext,
    now: Timestamp,
) -> (r: Vec<Assignment>)
    ensures
        r.deep_view() == made(
            update_slots(old(issue).deep_view(), updates.deep_view(), now.deep_view()),
        ),
        final(issue).deep_view() == updated(
            old(issue).deep_view(),
            updates.deep_view(),
            now.deep_view(),
        ),
        final(ctx).deep_view() == update_records(
            old(ctx).deep_view(),
            id@,
            old(issue).deep_view(),
            updates.deep_view(),
            now.deep_view(),
        ),
        update_in_range(updates.deep_view(), now.deep_view()) && reads_back(now.deep_view())
            ==> update_reads_back(updates.deep_view(), now.deep_view()),
{
    let ghost before = issue.deep_view();
    let ghost u = updates.deep_view();
    let ghost at = now.deep_view();
    let ghost slots = update_slots(before, u, at);
    let mut out: Vec<Assignment> = Vec::new();
    assert(out.deep_view() =~= made(slots.take(0)));

    record_update(issue, id, updates, ctx, now);
    apply_texts(&mut out, issue, updates);
    apply_status(&mut out, issue, updates, now);
    apply_kind(&mut out, issue, updates);
    apply_rest(&mut out, issue, updates);
    proof {
        lemma_made_parts(slots);
        assert(issue.deep_view() =~= updated(before, u, at));
    }
    out
}

/// The dates that an update writes lie in the years 0 to 9999.
pub open spec fn update_in_range(u: IssueUpdateView, now: Instant) -> bool {
    &&& four_digit_year(now.seconds)
    &&& u.closed_at matches Some(Some(t)) ==> four_digit_year(t.seconds)
    &&& u.deleted_at matches Some(Some(t)) ==> four_digit_year(t.seconds)
    &&& u.due_at matches Some(Some(t)) ==> four_digit_year(t.seconds)
    &&& u.defer_until matches Some(Some(t)) ==> four_digit_year(t.seconds)
}

/// The dates that an update writes are read back from the texts in which they are stored.
pub open spec fn update_reads_back(u: IssueUpdateView, now: Instant) -> bool {
    &&& reads_back(now)
    &&& u.closed_at matches Some(Some(t)) ==> reads_back(t)
    &&& u.deleted_at matches Some(Some(t)) ==> reads_back(t)
    &&& u.due_at matches Some(Some(t)) ==> reads_back(t)
    &&& u.defer_until matches Some(Some(t)) ==> reads_back(t)
}

spec fn texts_done(issue: IssueView, u: IssueUpdateView) -> IssueView {
    IssueView {
        title: patched(issue.title, u.title),
        description: patched(issue.description, u.description),
        design: patched(issue.design, u.design),
        acceptance_criteria: patched(issue.acceptance_criteria, u.acceptance_criteria),
        notes: patched(issue.notes, u.notes),
        ..issue
    }
}

spec fn status_done(issue: IssueView, u: IssueUpdateView, now: Instant) -> IssueView {
    IssueView {
        status: patched(issue.status, u.status),
        closed_at: patched(issue.closed_at, implied_closed_at(issue, u, now)),
        ..issue
    }
}

spec fn kind_done(issue: IssueView, u: IssueUpdateView) -> IssueView {
    IssueView {
        priority: patched(issue.priority, u.priority),
        issue_type: patched(issue.issue_type, u.issue_type),
        assignee: patched(issue.assignee, u.assignee),
        owner: patched(issue.owner, u.owner),
        estimated_minutes: patched(issue.estimated_minutes, u.estimated_minutes),
        external_ref: patched(issue.external_ref, u.external_ref),
        ..issue
    }
}

spec fn rest_done(issue: IssueView, u: IssueUpdateView) -> IssueView {
    IssueView {
        close_reason: patched(issue.close_reason, u.close_reason),
        closed_by_session: patched(issue.closed_by_session, u.closed_by_session),
        deleted_at: patched(issue.deleted_at, u.deleted_at),
        deleted_by: patched(issue.deleted_by, u.deleted_by),
        delete_reason: patched(issue.delete_reason, u.delete_reason),
        due_at: patched(issue.due_at, u.due_at),
        defer_until: patched(issue.defer_until, u.defer_until),
        closed_at: patched(issue.closed_at, u.closed_at),
        ..issue
    }
}

spec fn add_slots(
    list: Seq<(Column, SqlCell)>,
    slots: Seq<Option<(Column, SqlCell)>>,
    from: int,
    to: int,
) -> Seq<(Column, SqlCell)>
    decreases to - from,
{
    if from >= to {
        list
    } else {
        add_slot(add_slots(list, slots, from, to - 1), slots[to - 1])
    }
}

proof fn lemma_made_range(slots: Seq<Option<(Column, SqlCell)>>, from: int, to: int)
    requires
        0 <= from <= to <= slots.len(),
    ensures
        add_slots(made(slots.take(from)), slots, from, to) == made(slots.take(to)),
    decreases to - from,
{
    if from < to {
        lemma_made_range(slots, from, to - 1);
        lemma_made_push(slots.take(to - 1), slots[to - 1]);
        assert(slots.take(to - 1).push(slots[to - 1]) =~= slots.take(to));
    }
}

proof fn lemma_made_parts(slots: Seq<Option<(Column, SqlCell)>>)
    requires
        slots.len() == 21,
    ensures
        made(slots) == add_slots(
            add_slots(add_slots(add_slots(made(slots.take(0)), slots, 0, 5), slots, 5, 7), slots, 7, 13),
            slots,
            13,
            21,
        ),
{
    lemma_made_range(slots, 0, 5);
    lemma_made_range(slots, 5, 7);
    lemma_made_range(slots, 7, 13);
    lemma_made_range(slots, 13, 21);
    assert(slots.take(21) =~= slots);
}

fn record_update(
    issue: &Issue,
    id: &str,
    updates: &IssueUpdate,
    ctx: &mut MutationContext,
    now: Timestamp,
)
    ensures
        final(ctx).deep_view() == update_records(
            old(ctx).deep_view(),
            id@,
            issue.deep_view(),
            updates.deep_view(),
            now.deep_view(),
        ),
{
    match &updates.title {
        Some(title) => {
            ctx.record_field_change(
                EventType::Updated,
                id,
                Some(issue.title.clone()),
                Some(title.clone()),
                Some("Title changed".to_owned()),
                now,
            );
        },
        None => {},
    }
    match &updates.status {
        Some(status) => {
            ctx.record_field_change(
                EventType::StatusChanged,
                id,
                Some(issue.status.as_str().to_owned()),
                Some(status.as_str().to_owned()),
                None,
                now,
            );
            if status.is_closed() {
                let reason = match &updates.close_reason {
                    Some(reason) => copy_opt(reason),
                    None => None,
                };
                ctx.record_event(EventType::Closed, id, reason, now);
            }
            if !updates.skip_cache_rebuild {
                ctx.invalidate_cache();
            }
        },
        None => {},
    }
    match updates.priority {
        Some(priority) => {
            if priority.0 != issue.priority.0 {
                ctx.record_field_change(
                    EventType::PriorityChanged,
                    id,
                    Some(write_signed(issue.priority.0)),
                    Some(write_signed(priority.0)),
                    None,
                    now,
                );
            }
        },
        None => {},
    }
    match &updates.assignee {
        Some(assignee) => {
            if !same_opt(&issue.assignee, assignee) {
                ctx.record_field_change(
                    EventType::AssigneeChanged,
                    id,
                    copy_opt(&issue.assignee),
                    copy_opt(assignee),
                    None,
                    now,
                );
            }
        },
        None => {},
    }
    ctx.mark_dirty(id);
}

#[verifier::rlimit(60)]
#[verifier::spinoff_prover]
fn apply_texts(out: &mut Vec<Assignment>, issue: &mut Issue, updates: &IssueUpdate)
    ensures
        forall|i: IssueView, now: Instant| #[trigger]
            add_slots(
                old(out).deep_view(),
                update_slots(i, updates.deep_view(), now),
                0,
                5,
            ) == final(out).deep_view(),
        final(issue).deep_view() == texts_done(old(issue).deep_view(), updates.deep_view()),
{
    reveal_with_fuel(add_slots, 6);
    match &updates.title {
        Some(title) => {
            issue.title = title.clone();
            assign(out, Column::Title, SqlValue::text(title.as_str()));
        },
        None => {},
    }
    assign_soft(out, Column::Description, &mut issue.description, &updates.description);
    assign_soft(out, Column::Design, &mut issue.design, &updates.design);
    assign_soft(
        out,
        Column::AcceptanceCriteria,
        &mut issue.acceptance_criteria,
        &updates.acceptance_criteria,
    );
    assign_soft(out, Column::Notes, &mut issue.notes, &updates.notes);
}

fn apply_status(
    out: &mut Vec<Assignment>,
    issue: &mut Issue,
    updates: &IssueUpdate,
    now: Timestamp,
)
    ensures
        forall|i: IssueView|
            i.closed_at == old(issue).deep_view().closed_at ==> #[trigger] add_slots(
                old(out).deep_view(),
                update_slots(i, updates.deep_view(), now.deep_view()),
                5,
                7,
            ) == final(out).deep_view(),
        final(issue).deep_view() == status_done(
            old(issue).deep_view(),
            updates.deep_view(),
            now.deep_view(),
        ),
{
    reveal_with_fuel(add_slots, 3);
    match &updates.status {
        Some(status) => {
            issue.status = status.copy();
            assign(out, Column::Status, SqlValue::text(status.as_str()));
            let implied: Option<Option<Timestamp>> = if updates.closed_at.is_some() {
                None
            } else if status.is_closed() {
                if issue.closed_at.is_none() {
                    Some(Some(now))
                } else {
                    None
                }
            } else if issue.closed_at.is_some() {
                Some(None)
            } else {
                None
            };
            assert(implied.deep_view() == implied_closed_at(
                old(issue).deep_view(),
                updates.deep_view(),
                now.deep_view(),
            ));
            assign_date(out, Column::ClosedAt, &mut issue.closed_at, &implied);
        },
        None => {},
    }
}

#[verifier::rlimit(60)]
#[verifier::spinoff_prover]
fn apply_kind(out: &mut Vec<Assignment>, issue: &mut Issue, updates: &IssueUpdate)
    ensures
        forall|i: IssueView, now: Instant| #[trigger]
            add_slots(
                old(out).deep_view(),
                update_slots(i, updates.deep_view(), now),
                7,
                13,
            ) == final(out).deep_view(),
        final(issue).deep_view() == kind_done(old(issue).deep_view(), updates.deep_view()),
{
    reveal_with_fuel(add_slots, 7);
    match updates.priority {
        Some(priority) => {
            issue.priority = priority;
            assign(out, Column::Priority, SqlValue::Integer(priority.0 as i64));
        },
        None => {},
    }
    match &updates.issue_type {
        Some(issue_type) => {
            issue.issue_type = issue_type.copy();
            assign(out, Column::IssueType, SqlValue::text(issue_type.as_str()));
        },
        None => {},
    }
    assign_null(out, Column::Assignee, &mut issue.assignee, &updates.assignee);
    assign_soft(out, Column::Owner, &mut issue.owner, &updates.owner);
    match &updates.estimated_minutes {
        Some(minutes) => {
            issue.estimated_minutes = *minutes;
            assign(out, Column::EstimatedMinutes, SqlValue::opt_number(minutes));
        },
        None => {},
    }
    assign_null(out, Column::ExternalRef, &mut issue.external_ref, &updates.external_ref);
}

#[verifier::rlimit(60)]
#[verifier::spinoff_prover]
fn apply_rest(out: &mut Vec<Assignment>, issue: &mut Issue, updates: &IssueUpdate)
    ensures
        forall|i: IssueView, now: Instant| #[trigger]
            add_slots(
                old(out).deep_view(),
                update_slots(i, updates.deep_view(), now),
                13,
                21,
            ) == final(out).deep_view(),
        final(issue).deep_view() == rest_done(old(issue).deep_view(), updates.deep_view()),
        forall|now: Instant| #[trigger]
            update_in_range(updates.deep_view(), now) && reads_back(now) ==> update_reads_back(
                updates.deep_view(),
                now,
            ),
{
    reveal_with_fuel(add_slots, 9);
    assign_soft(out, Column::CloseReason, &mut issue.close_reason, &updates.close_reason);
    assign_soft(
        out,
        Column::ClosedBySession,
        &mut issue.closed_by_session,
        &updates.closed_by_session,
    );
    assign_date(out, Column::DeletedAt, &mut issue.deleted_at, &updates.deleted_at);
    assign_soft(out, Column::DeletedBy, &mut issue.deleted_by, &updates.deleted_by);
    assign_soft(out, Column::DeleteReason, &mut issue.delete_reason, &updates.delete_reason);
    assign_date(out, Column::DueAt, &mut issue.due_at, &updates.due_at);
    assign_date(out, Column::DeferUntil, &mut issue.defer_until, &updates.defer_until);
    assign_date(out, Column::ClosedAt, &mut issue.closed_at, &updates.closed_at);
}

/// The assignments as they stand in a statement, separated by commas.
pub open spec fn assignment_pieces(list: Seq<(Column, SqlCell)>) -> Seq<Piece>
    decreases list.len(),
{
    if list.len() == 0 {
        seq![]
    } else {
        let front = assignment_pieces(list.drop_last());
        let sep = if list.len() > 1 {
            raw(", "@)
        } else {
            seq![]
        };
        front + sep + raw_bind(list.last().0.name() + " = "@, list.last().1)
    }
}

/// What every update sets besides its own fields: when it happened and the new content hash.
pub open spec fn stamps(now: Instant, hash: Seq<char>) -> Seq<(Column, SqlCell)> {
    seq![
        (Column::UpdatedAt, SqlCell::Text(rfc3339(now))),
        (Column::ContentHash, SqlCell::Text(hash)),
    ]
}

/// The statement that makes the assignments.
pub open spec fn update_statement(
    list: Seq<(Column, SqlCell)>,
    now: Instant,
    hash: Seq<char>,
    id: Seq<char>,
) -> StatementView {
    assembled(
        raw("UPDATE issues SET "@) + assignment_pieces(list + stamps(now, hash)) + raw_bind(
            " WHERE id = "@,
            SqlCell::Text(id),
        ) + raw(" "@),
    )
}

/// Makes the statement for an update, given the content hash of the updated issue.
pub fn update_to_statement(
    assignments: Vec<Assignment>,
    now: Timestamp,
    content_hash: &str,
    id: &str,
) -> (r: Statement)
    ensures
        r.deep_view() == update_statement(
            assignments.deep_view(),
            now.deep_view(),
            content_hash@,
            id@,
        ),
        four_digit_year(now.deep_view().seconds) ==> reads_back(now.deep_view()),
{
    let ghost given = assignments.deep_view();
    let mut list = assignments;
    assign(&mut list, Column::UpdatedAt, SqlValue::Text(now.to_rfc3339()));
    assign(&mut list, Column::ContentHash, SqlValue::text(content_hash));
    let ghost all = list.deep_view();
    assert(all =~= given + stamps(now.deep_view(), content_hash@));
    let mut b = SqlBuilder::new();
    b.raw("UPDATE issues SET ");
    let mut i: usize = 0;
    let ghost head = raw("UPDATE issues SET "@);
    assert(b.pieces() =~= head + assignment_pieces(all.take(0)));
    while i < list.len()
        invariant
            b.wf(),
            i <= list.len(),
            all == list.deep_view(),
            b.pieces() == head + assignment_pieces(all.take(i as int)),
        decreases list.len() - i,
    {
        let ghost start = b.pieces();
        assert(all.take(i + 1).drop_last() =~= all.take(i as int));
        assert(all.take(i + 1).last() == list@[i as int].deep_view());
        b.raw_if(i > 0, ", ");
        let name = joined(list[i].column.as_str(), " = ");
        b.raw_bind(name.as_str(), list[i].value.copy());
        assert(b.pieces() =~= head + assignment_pieces(all.take(i + 1)));
        i += 1;
    }
    assert(all.take(all.len() as int) =~= all);
    b.raw_bind(" WHERE id = ", SqlValue::text(id));
    b.raw(" ");
    assert(b.pieces() =~= head + assignment_pieces(all) + raw_bind(
        " WHERE id = "@,
        SqlCell::Text(id@),
    ) + raw(" "@));
    b.finish()
}

/// A row with an assignment made.
pub open spec fn set_column(row: Seq<SqlCell>, a: (Column, SqlCell)) -> Seq<SqlCell> {
    row.update(a.0.place(), a.1)
}

/// A row with assignments made, one after the other.
pub open spec fn set_columns(row: Seq<SqlCell>, list: Seq<(Column, SqlCell)>) -> Seq<SqlCell>
    decreases list.len(),
{
    if list.len() == 0 {
        row
    } else {
        set_column(set_columns(row, list.drop_last()), list.last())
    }
}

spec fn set_slots(row: Seq<SqlCell>, slots: Seq<Option<(Column, SqlCell)>>, n: int) -> Seq<SqlCell>
    decreases n,
{
    if n <= 0 {
        row
    } else {
        match slots[n - 1] {
            Some(a) => set_column(set_slots(row, slots, n - 1), a),
            None => set_slots(row, slots, n - 1),
        }
    }
}

proof fn lemma_set_slots(row: Seq<SqlCell>, slots: Seq<Option<(Column, SqlCell)>>, n: int)
    requires
        row.len() == 36,
        0 <= n <= slots.len(),
    ensures
        set_columns(row, made(slots.take(n))) == set_slots(row, slots, n),
        set_slots(row, slots, n).len() == row.len(),
    decreases n,
{
    if n > 0 {
        lemma_set_slots(row, slots, n - 1);
        assert(slots.take(n).drop_last() =~= slots.take(n - 1));
        match slots[n - 1] {
            Some(a) => {
                let list = made(slots.take(n - 1));
                assert(list.push(a).drop_last() =~= list);
            },
            None => {},
        }
    }
}

/// The value of a column after an assignment that may be made.
spec fn slot_or(slot: Option<(Column, SqlCell)>, before: SqlCell) -> SqlCell {
    match slot {
        Some(a) => a.1,
        None => before,
    }
}

/// The place that each of the assignments of an update and its stamps is for.
spec fn slot_place(k: int) -> int {
    if k == 0 {
        2
    } else if k == 1 {
        3
    } else if k == 2 {
        4
    } else if k == 3 {
        5
    } else if k == 4 {
        6
    } else if k == 5 {
        7
    } else if k == 6 {
        16
    } else if k == 7 {
        8
    } else if k == 8 {
        9
    } else if k == 9 {
        10
    } else if k == 10 {
        11
    } else if k == 11 {
        12
    } else if k == 12 {
        21
    } else if k == 13 {
        17
    } else if k == 14 {
        18
    } else if k == 15 {
        24
    } else if k == 16 {
        25
    } else if k == 17 {
        26
    } else if k == 18 {
        19
    } else if k == 19 {
        20
    } else if k == 20 {
        16
    } else if k == 21 {
        15
    } else {
        1
    }
}

proof fn lemma_untouched(
    row: Seq<SqlCell>,
    slots: Seq<Option<(Column, SqlCell)>>,
    from: int,
    to: int,
    place: int,
)
    requires
        row.len() == 36,
        0 <= place < 36,
        0 <= from <= to <= slots.len(),
        forall|j: int|
            from <= j < to && (#[trigger] slots[j]) is Some ==> (slots[j]->0).0.place() != place,
    ensures
        set_slots(row, slots, to)[place] == set_slots(row, slots, from)[place],
    decreases to - from,
{
    if from < to {
        lemma_untouched(row, slots, from, to - 1, place);
        lemma_set_slots(row, slots, to - 1);
    }
}

/// A column is set by the only assignment that is for it.
proof fn lemma_set_once(
    row: Seq<SqlCell>,
    slots: Seq<Option<(Column, SqlCell)>>,
    place: int,
    k: int,
)
    requires
        row.len() == 36,
        0 <= place < 36,
        0 <= k < slots.len(),
        slots[k] matches Some(a) ==> a.0.place() == place,
        forall|j: int|
            0 <= j < slots.len() && j != k && (#[trigger] slots[j]) is Some
                ==> (slots[j]->0).0.place() != place,
    ensures
        set_slots(row, slots, slots.len() as int)[place] == slot_or(slots[k], row[place]),
{
    lemma_untouched(row, slots, 0, k, place);
    lemma_untouched(row, slots, k + 1, slots.len() as int, place);
    lemma_set_slots(row, slots, k);
}

spec fn all_slots(
    issue: IssueView,
    u: IssueUpdateView,
    now: Instant,
    hash: Seq<char>,
) -> Seq<Option<(Column, SqlCell)>> {
    update_slots(issue, u, now).push(
        Some((Column::UpdatedAt, SqlCell::Text(rfc3339(now)))),
    ).push(Some((Column::ContentHash, SqlCell::Text(hash))))
}

proof fn lemma_slot_places(issue: IssueView, u: IssueUpdateView, now: Instant, hash: Seq<char>)
    ensures
        all_slots(issue, u, now, hash).len() == 23,
        forall|k: int|
            0 <= k < 23 && (#[trigger] all_slots(issue, u, now, hash)[k]) is Some
                ==> (all_slots(issue, u, now, hash)[k]->0).0.place() == slot_place(k),
{
    let s = all_slots(issue, u, now, hash);
    assert(s[0] matches Some(a) ==> a.0.place() == 2);
    assert(s[1] matches Some(a) ==> a.0.place() == 3);
    assert(s[2] matches Some(a) ==> a.0.place() == 4);
    assert(s[3] matches Some(a) ==> a.0.place() == 5);
    assert(s[4] matches Some(a) ==> a.0.place() == 6);
    assert(s[5] matches Some(a) ==> a.0.place() == 7);
    assert(s[6] matches Some(a) ==> a.0.place() == 16);
    assert(s[7] matches Some(a) ==> a.0.place() == 8);
    assert(s[8] matches Some(a) ==> a.0.place() == 9);
    assert(s[9] matches Some(a) ==> a.0.place() == 10);
    assert(s[10] matches Some(a) ==> a.0.place() == 11);
    assert(s[11] matches Some(a) ==> a.0.place() == 12);
    assert(s[12] matches Some(a) ==> a.0.place() == 21);
    assert(s[13] matches Some(a) ==> a.0.place() == 17);
    assert(s[14] matches Some(a) ==> a.0.place() == 18);
    assert(s[15] matches Some(a) ==> a.0.place() == 24);
    assert(s[16] matches Some(a) ==> a.0.place() == 25);
    assert(s[17] matches Some(a) ==> a.0.place() == 26);
    assert(s[18] matches Some(a) ==> a.0.place() == 19);
    assert(s[19] matches Some(a) ==> a.0.place() == 20);
    assert(s[20] matches Some(a) ==> a.0.place() == 16);
    assert(s[21] matches Some(a) ==> a.0.place() == 15);
    assert(s[22] matches Some(a) ==> a.0.place() == 1);
}

/// The row after an update, column by column.
spec fn row_after(row: Seq<SqlCell>, s: Seq<Option<(Column, SqlCell)>>) -> Seq<SqlCell> {
    seq![
        row[0],
        slot_or(s[22], row[1]),
        slot_or(s[0], row[2]),
        slot_or(s[1], row[3]),
        slot_or(s[2], row[4]),
        slot_or(s[3], row[5]),
        slot_or(s[4], row[6]),
        slot_or(s[5], row[7]),
        slot_or(s[7], row[8]),
        slot_or(s[8], row[9]),
        slot_or(s[9], row[10]),
        slot_or(s[10], row[11]),
        slot_or(s[11], row[12]),
        row[13],
        row[14],
        slot_or(s[21], row[15]),
        slot_or(s[20], slot_or(s[6], row[16])),
        slot_or(s[13], row[17]),
        slot_or(s[14], row[18]),
        slot_or(s[18], row[19]),
        slot_or(s[19], row[20]),
        slot_or(s[12], row[21]),
        row[22],
        row[23],
        slot_or(s[15], row[24]),
        slot_or(s[16], row[25]),
        slot_or(s[17], row[26]),
        row[27],
        row[28],
        row[29],
        row[30],
        row[31],
        row[32],
        row[33],
        row[34],
        row[35],
    ]
}

proof fn lemma_row_after(row: Seq<SqlCell>, s: Seq<Option<(Column, SqlCell)>>)
    requires
        row.len() == 36,
        s.len() == 23,
        forall|k: int|
            0 <= k < 23 && (#[trigger] s[k]) is Some ==> (s[k]->0).0.place() == slot_place(k),
    ensures
        set_slots(row, s, 23) == row_after(row, s),
{
    lemma_set_slots(row, s, 23);
    lemma_untouched(row, s, 0, 23, 0);
    lemma_set_once(row, s, 1, 22);
    lemma_set_once(row, s, 2, 0);
    lemma_set_once(row, s, 3, 1);
    lemma_set_once(row, s, 4, 2);
    lemma_set_once(row, s, 5, 3);
    lemma_set_once(row, s, 6, 4);
    lemma_set_once(row, s, 7, 5);
    lemma_set_once(row, s, 8, 7);
    lemma_set_once(row, s, 9, 8);
    lemma_set_once(row, s, 10, 9);
    lemma_set_once(row, s, 11, 10);
    lemma_set_once(row, s, 12, 11);
    lemma_untouched(row, s, 0, 23, 13);
    lemma_untouched(row, s, 0, 23, 14);
    lemma_set_once(row, s, 15, 21);
    lemma_untouched(row, s, 0, 6, 16);
    lemma_untouched(row, s, 7, 20, 16);
    lemma_untouched(row, s, 21, 23, 16);
    lemma_set_slots(row, s, 6);
    lemma_set_slots(row, s, 20);
    lemma_set_once(row, s, 17, 13);
    lemma_set_once(row, s, 18, 14);
    lemma_set_once(row, s, 19, 18);
    lemma_set_once(row, s, 20, 19);
    lemma_set_once(row, s, 21, 12);
    lemma_untouched(row, s, 0, 23, 22);
    lemma_untouched(row, s, 0, 23, 23);
    lemma_set_once(row, s, 24, 15);
    lemma_set_once(row, s, 25, 16);
    lemma_set_once(row, s, 26, 17);
    lemma_untouched(row, s, 0, 23, 27);
    lemma_untouched(row, s, 0, 23, 28);
    lemma_untouched(row, s, 0, 23, 29);
    lemma_untouched(row, s, 0, 23, 30);
    lemma_untouched(row, s, 0, 23, 31);
    lemma_untouched(row, s, 0, 23, 32);
    lemma_untouched(row, s, 0, 23, 33);
    lemma_untouched(row, s, 0, 23, 34);
    lemma_untouched(row, s, 0, 23, 35);
    assert(set_slots(row, s, 23) =~= row_after(row, s));
}

/// An issue that was read from the database, as it is read back after an update of it.
pub open spec fn stored_update(
    issue: IssueView,
    u: IssueUpdateView,
    now: Instant,
    hash: Seq<char>,
) -> IssueView {
    let i = updated(issue, u, now);
    IssueView {
        description: non_empty(i.description),
        design: non_empty(i.design),
        acceptance_criteria: non_empty(i.acceptance_criteria),
        notes: non_empty(i.notes),
        status: match u.status {
            Some(s) => status_of(Some(s.name())),
            None => issue.status,
        },
        issue_type: match u.issue_type {
            Some(t) => issue_type_of(Some(t.name())),
            None => issue.issue_type,
        },
        assignee: non_empty(i.assignee),
        owner: non_empty(i.owner),
        close_reason: non_empty(i.close_reason),
        closed_by_session: non_empty(i.closed_by_session),
        deleted_by: non_empty(i.deleted_by),
        delete_reason: non_empty(i.delete_reason),
        updated_at: now,
        content_hash: Some(hash),
        ..i
    }
}

/// Once an update has been written to the row from which the issue was read, the row reads as
/// the issue with exactly the updated fields changed, and with the new stamps.
pub proof fn lemma_update_reads_back(
    row: Seq<SqlCell>,
    issue: IssueView,
    u: IssueUpdateView,
    now: Instant,
    hash: Seq<char>,
)
    requires
        row.len() == 36,
        issue_of_row(row) == Ok::<IssueView, BeadsErrorView>(issue),
        update_reads_back(u, now),
    ensures
        issue_of_row(
            set_columns(row, made(update_slots(issue, u, now)) + stamps(now, hash)),
        ) == Ok::<IssueView, BeadsErrorView>(stored_update(issue, u, now, hash)),
{
    let slots = update_slots(issue, u, now);
    let all = all_slots(issue, u, now, hash);
    lemma_made_push(slots, all[21]);
    lemma_made_push(slots.push(all[21]), all[22]);
    assert(made(slots).push(all[21]->0).push(all[22]->0) =~= made(slots) + stamps(now, hash));
    lemma_set_slots(row, all, 23);
    assert(all.take(23) =~= all);
    lemma_slot_places(issue, u, now, hash);
    lemma_row_after(row, all);
    lemma_row_after_reads_back(row, issue, u, now, hash);
}

proof fn lemma_row_after_reads_back(
    row: Seq<SqlCell>,
    issue: IssueView,
    u: IssueUpdateView,
    now: Instant,
    hash: Seq<char>,
)
    requires
        row.len() == 36,
        issue_of_row(row) == Ok::<IssueView, BeadsErrorView>(issue),
        update_reads_back(u, now),
    ensures
        issue_of_row(row_after(row, all_slots(issue, u, now, hash))) == Ok::<
            IssueView,
            BeadsErrorView,
        >(stored_update(issue, u, now, hash)),
{
    reveal_strlit("");
    assert(""@ =~= seq![]);
    let after = row_after(row, all_slots(issue, u, now, hash));
    assert(issue_of_row(after)->Ok_0 =~= stored_update(issue, u, now, hash));
}

/// Whether a claim goes through: it does where none is asked for, where the issue is unassigned,
/// and where the claimant has the issue already and the claim is not exclusive.
pub open spec fn claim_outcome(
    u: IssueUpdateView,
    id: Seq<char>,
    current: Option<Seq<char>>,
) -> Result<(), BeadsErrorView> {
    let holder = non_empty(
        match current {
            Some(s) => Some(trimmed(s)),
            None => None,
        },
    );
    let claimant = match u.claim_actor {
        Some(actor) => actor,
        None => ""@,
    };
    match holder {
        Some(holder) => if u.expect_unassigned && (u.claim_exclusive || holder != claimant) {
            Err(
                BeadsErrorView::Validation {
                    field: "claim"@,
                    reason: "issue "@ + id + (" already assigned to "@ + holder),
                },
            )
        } else {
            Ok(())
        },
        None => Ok(()),
    }
}

/// The query for who has the issue, `None` where an update claims nothing.
pub fn claim_query(updates: &IssueUpdate, id: &str) -> (r: Option<Statement>)
    ensures
        r.deep_view() == (if updates.expect_unassigned {
            Some(
                stmt("SELECT assignee FROM issues WHERE id = ?"@, seq![SqlCell::Text(id@)]),
            )
        } else {
            None
        }),
        r.deep_view() matches Some(s) ==> crate::asked::ask_assignee_of(id@).is(s),
{
    proof {
        crate::asked::lemma_ask_assignee_of_text(id@);
    }
    if updates.expect_unassigned {
        Some(Statement::with_text("SELECT assignee FROM issues WHERE id = ?", id))
    } else {
        None
    }
}

/// Decides on a claim, given the row that the query for the assignee found.
pub fn check_claim(updates: &IssueUpdate, id: &str, row: Option<&Row>) -> (r: Result<
    (),
    BeadsError,
>)
    ensures
        outcome(r) == claim_outcome(
            updates.deep_view(),
            id@,
            match row.deep_view() {
                Some(cells) => text_at(cells, 0),
                None => None,
            },
        ),
{
    if !updates.expect_unassigned {
        return Ok(());
    }
    let current = match row {
        Some(row) => row.text(0),
        None => None,
    };
    match current {
        Some(s) => {
            let holder = trim(s.as_str());
            if holder.as_str().is_empty() {
                return Ok(());
            }
            let same = match &updates.claim_actor {
                Some(actor) => same_text(holder.as_str(), actor.as_str()),
                None => same_text(holder.as_str(), ""),
            };
            if !updates.claim_exclusive && same {
                return Ok(());
            }
            let tail = joined(" already assigned to ", holder.as_str());
            Err(BeadsError::validation("claim", joined3("issue ", id, tail.as_str()).as_str()))
        },
        None => Ok(()),
    }
}

/// What an update asks of the database first: nothing where it is empty.
pub open spec fn update_needed(found: Option<IssueView>, id: Seq<char>, u: IssueUpdateView) -> Result<
    bool,
    BeadsErrorView,
> {
    match found {
        Some(_) => Ok(!u.empty()),
        None => Err(BeadsErrorView::IssueNotFound { id }),
    }
}

/// Whether an update has anything to do: an error where the issue does not exist.
pub fn needs_update(found: &Option<Issue>, id: &str, updates: &IssueUpdate) -> (r: Result<
    bool,
    BeadsError,
>)
    ensures
        outcome(r) == update_needed(found.deep_view(), id@, updates.deep_view()),
{
    match found {
        Some(_) => Ok(!updates.is_empty()),
        None => Err(BeadsError::not_found(id)),
    }
}

/// Update an issue, given the row that the query for its assignee found where the update claims
/// it: the claim is decided on first, and where it is refused nothing changes.
///
/// Returns the assignments to make.
pub fn update_issue(
    issue: &mut Issue,
    id: &str,
    updates: &IssueUpdate,
    claim_row: Option<&Row>,
    ctx: &mut MutationContext,
    now: Timestamp,
) -> (r: Result<Vec<Assignment>, BeadsError>)
    ensures
        ({
            let claim = claim_outcome(
                updates.deep_view(),
                id@,
                match claim_row.deep_view() {
                    Some(cells) => text_at(cells, 0),
                    None => None,
                },
            );
            match claim {
                Ok(_) => {
                    &&& outcome(r) == Ok::<Seq<(Column, SqlCell)>, BeadsErrorView>(
                        made(
                            update_slots(
                                old(issue).deep_view(),
                                updates.deep_view(),
                                now.deep_view(),
                            ),
                        ),
                    )
                    &&& final(issue).deep_view() == updated(
                        old(issue).deep_view(),
                        updates.deep_view(),
                        now.deep_view(),
                    )
                    &&& final(ctx).deep_view() == update_records(
                        old(ctx).deep_view(),
                        id@,
                        old(issue).deep_view(),
                        updates.deep_view(),
                        now.deep_view(),
                    )
                },
                Err(e) => {
                    &&& outcome(r) == Err::<Seq<(Column, SqlCell)>, BeadsErrorView>(e)
                    &&& *final(issue) == *old(issue)
                    &&& *final(ctx) == *old(ctx)
                },
            }
        }),
{
    match check_claim(updates, id, claim_row) {
        Ok(_) => Ok(apply_update(issue, id, updates, ctx, now)),
        Err(error) => Err(error),
    }
}

} // verus!
