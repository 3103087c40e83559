//! Putting an imported issue in the place of the stored one, all or nothing.

use crate::issues::upsert_issue_for_import;
use crate::model::Issue;
use crate::sql::Statement;
use vstd::prelude::*;

verus! {

use crate::issues::{delete_statement, insert_statement};
use crate::model::IssueView;
use crate::rows::import_row;
use crate::sql::{stmt, SqlCell, StatementView};

/// How far an upsert has come.
#[derive(Debug, Clone, Copy, PartialEq, Eq, Structural)]
pub enum UpsertPhase {
    Beginning,
    Deleting,
    Inserting,
    /// The new row was inserted or not.
    Committing { inserted: bool },
    RollingBack,
    Over { success: bool, inserted: bool },
}

/// What the driver does next.
#[derive(Debug, PartialEq, Eq)]
pub enum UpsertAction {
    /// Execute the statement.
    Execute(Statement),
    /// The upsert succeeded. It tells whether a row was inserted.
    Succeed { inserted: bool },
    /// The upsert failed with the error of the first action that failed.
    Fail,
}

/// The view of [`UpsertAction`].
#[verifier::ext_equal]
pub enum UpsertActionView {
    Execute(StatementView),
    Succeed { inserted: bool },
    Fail,
}

impl DeepView for UpsertAction {
    type V = UpsertActionView;

    open spec fn deep_view(&self) -> UpsertActionView {
        match self {
            UpsertAction::Execute(s) => UpsertActionView::Execute(s.deep_view()),
            UpsertAction::Succeed { inserted } => UpsertActionView::Succeed { inserted: *inserted },
            UpsertAction::Fail => UpsertActionView::Fail,
        }
    }
}

/// What came of a statement.
#[derive(Debug, Clone, Copy, PartialEq, Eq, Structural)]
pub enum UpsertReply {
    /// It changed so many rows.
    Done { changed: usize },
    Failed,
}

/// The statement that opens the transaction.
pub open spec fn begin() -> StatementView {
    stmt("BEGIN IMMEDIATE"@, seq![])
}

/// The statement that makes the changes last.
pub open spec fn commit() -> StatementView {
    stmt("COMMIT"@, seq![])
}

/// The statement that takes the changes back.
pub open spec fn rollback() -> StatementView {
    stmt("ROLLBACK"@, seq![])
}

/// The next phase and action, given what came of the last statement.
///
/// A failure inside the transaction is answered with a rollback.
pub open spec fn upsert_step(issue: IssueView, phase: UpsertPhase, reply: UpsertReply) -> (
    UpsertPhase,
    UpsertActionView,
) {
    match (phase, reply) {
        (UpsertPhase::Beginning, UpsertReply::Done { .. }) => (
            UpsertPhase::Deleting,
            UpsertActionView::Execute(delete_statement(issue.id)),
        ),
        (UpsertPhase::Beginning, UpsertReply::Failed) => (
            UpsertPhase::Over { success: false, inserted: false },
            UpsertActionView::Fail,
        ),
        (UpsertPhase::Deleting, UpsertReply::Done { .. }) => (
            UpsertPhase::Inserting,
            UpsertActionView::Execute(insert_statement(import_row(issue))),
        ),
        (UpsertPhase::Inserting, UpsertReply::Done { changed }) => (
            UpsertPhase::Committing { inserted: changed > 0 },
            UpsertActionView::Execute(commit()),
        ),
        (UpsertPhase::Committing { inserted }, UpsertReply::Done { .. }) => (
            UpsertPhase::Over { success: true, inserted },
            UpsertActionView::Succeed { inserted },
        ),
        (UpsertPhase::RollingBack, _) => (
            UpsertPhase::Over { success: false, inserted: false },
            UpsertActionView::Fail,
        ),
        (UpsertPhase::Over { success, inserted }, _) => (
            phase,
            if success {
                UpsertActionView::Succeed { inserted }
            } else {
                UpsertActionView::Fail
            },
        ),
        (_, UpsertReply::Failed) => (
            UpsertPhase::RollingBack,
            UpsertActionView::Execute(rollback()),
        ),
    }
}

/// An upsert under way: each reply of the driver leads to the next action.
#[derive(Debug)]
pub struct UpsertRun {
    phase: UpsertPhase,
    delete: Statement,
    insert: Statement,
}

impl UpsertRun {
    /// How far the upsert has come.
    pub closed spec fn phase(&self) -> UpsertPhase {
        self.phase
    }

    /// The upsert puts this issue in its place.
    pub closed spec fn puts(&self, issue: IssueView) -> bool {
        &&& self.delete.deep_view() == delete_statement(issue.id)
        &&& self.insert.deep_view() == insert_statement(import_row(issue))
    }

    /// An upsert of which nothing was done yet, with the statement to execute first.
    pub fn start(issue: &Issue) -> (r: (UpsertRun, Statement))
        ensures
            r.0.phase() == UpsertPhase::Beginning,
            r.0.puts(issue.deep_view()),
            r.1.deep_view() == begin(),
    {
        let (delete, insert) = upsert_issue_for_import(issue);
        (
            UpsertRun { phase: UpsertPhase::Beginning, delete, insert },
            Statement::plain("BEGIN IMMEDIATE"),
        )
    }

    /// The next action, given what came of the last statement.
    pub fn step(&mut self, reply: UpsertReply) -> (r: UpsertAction)
        ensures
            forall|issue: IssueView| #[trigger]
                old(self).puts(issue) ==> final(self).puts(issue) && (
                    final(self).phase(),
                    r.deep_view(),
                ) == upsert_step(issue, old(self).phase(), reply),
    {
        match (self.phase, reply) {
            (UpsertPhase::Beginning, UpsertReply::Done { .. }) => {
                self.phase = UpsertPhase::Deleting;
                UpsertAction::Execute(self.delete.copy())
            },
            (UpsertPhase::Deleting, UpsertReply::Done { .. }) => {
                self.phase = UpsertPhase::Inserting;
                UpsertAction::Execute(self.insert.copy())
            },
            (UpsertPhase::Inserting, UpsertReply::Done { changed }) => {
                self.phase = UpsertPhase::Committing { inserted: changed > 0 };
                UpsertAction::Execute(Statement::plain("COMMIT"))
            },
            (UpsertPhase::Committing { inserted }, UpsertReply::Done { .. }) => {
                self.phase = UpsertPhase::Over { success: true, inserted };
                UpsertAction::Succeed { inserted }
            },
            (UpsertPhase::Over { success, inserted }, _) => {
                if success {
                    UpsertAction::Succeed { inserted }
                } else {
                    UpsertAction::Fail
                }
            },
            (UpsertPhase::Beginning, UpsertReply::Failed) | (UpsertPhase::RollingBack, _) => {
                self.phase = UpsertPhase::Over { success: false, inserted: false };
                UpsertAction::Fail
            },
            (_, UpsertReply::Failed) => {
                self.phase = UpsertPhase::RollingBack;
                UpsertAction::Execute(Statement::plain("ROLLBACK"))
            },
        }
    }
}

/// The issues table: the rows that last, and the rows that an open transaction sees.
#[verifier::ext_equal]
pub struct Table {
    pub kept: Seq<Seq<SqlCell>>,
    pub seen: Seq<Seq<SqlCell>>,
}

/// The rows of other issues.
pub open spec fn rows_without(rows: Seq<Seq<SqlCell>>, id: Seq<char>) -> Seq<Seq<SqlCell>> {
    rows.filter(|row: Seq<SqlCell>| row[0] != SqlCell::Text(id))
}

/// The rows with the issue in the place of any row that it had.
pub open spec fn rows_with(rows: Seq<Seq<SqlCell>>, issue: IssueView) -> Seq<Seq<SqlCell>> {
    rows_without(rows, issue.id).push(import_row(issue))
}

/// What a statement that succeeds does to the table: nothing lasts before the commit.
pub open spec fn performed(t: Table, issue: IssueView, s: StatementView) -> Table {
    if s == begin() || s == rollback() {
        Table { seen: t.kept, ..t }
    } else if s == delete_statement(issue.id) {
        Table { seen: rows_without(t.seen, issue.id), ..t }
    } else if s == insert_statement(import_row(issue)) {
        Table { seen: t.seen.push(import_row(issue)), ..t }
    } else if s == commit() {
        Table { kept: t.seen, ..t }
    } else {
        t
    }
}

/// The phase, the next action and the table after these replies. A statement that fails changes
/// nothing.
pub open spec fn upsert_run(issue: IssueView, rows: Seq<Seq<SqlCell>>, replies: Seq<UpsertReply>) -> (
    UpsertPhase,
    UpsertActionView,
    Table,
)
    decreases replies.len(),
{
    if replies.len() == 0 {
        (
            UpsertPhase::Beginning,
            UpsertActionView::Execute(begin()),
            Table { kept: rows, seen: rows },
        )
    } else {
        let (phase, action, table) = upsert_run(issue, rows, replies.drop_last());
        let reply = replies.last();
        let (next, then_do) = upsert_step(issue, phase, reply);
        let after = match (action, reply) {
            (UpsertActionView::Execute(s), UpsertReply::Done { .. }) => performed(table, issue, s),
            _ => table,
        };
        (next, then_do, after)
    }
}

proof fn lemma_statements_differ(issue: IssueView)
    ensures
        begin() != commit(),
        begin() != rollback(),
        commit() != rollback(),
        delete_statement(issue.id) != begin(),
        delete_statement(issue.id) != commit(),
        delete_statement(issue.id) != rollback(),
        insert_statement(import_row(issue)) != begin(),
        insert_statement(import_row(issue)) != commit(),
        insert_statement(import_row(issue)) != rollback(),
        insert_statement(import_row(issue)) != delete_statement(issue.id),
{
    reveal_strlit("BEGIN IMMEDIATE");
    reveal_strlit("COMMIT");
    reveal_strlit("ROLLBACK");
    assert(begin().sql.len() == 15);
    assert(commit().sql.len() == 6);
    assert(rollback().sql.len() == 8);
    assert(begin().params.len() == 0 && commit().params.len() == 0 && rollback().params.len() == 0);
    assert(delete_statement(issue.id).params.len() == 1);
    assert(insert_statement(import_row(issue)).params.len() == 36);
}

/// What the table holds in each phase.
spec fn consistent(
    issue: IssueView,
    rows: Seq<Seq<SqlCell>>,
    phase: UpsertPhase,
    action: UpsertActionView,
    t: Table,
) -> bool {
    match phase {
        UpsertPhase::Beginning => action == UpsertActionView::Execute(begin()) && t.kept == rows,
        UpsertPhase::Deleting => {
            &&& action == UpsertActionView::Execute(delete_statement(issue.id))
            &&& t.kept == rows
            &&& t.seen == rows
        },
        UpsertPhase::Inserting => {
            &&& action == UpsertActionView::Execute(insert_statement(import_row(issue)))
            &&& t.kept == rows
            &&& t.seen == rows_without(rows, issue.id)
        },
        UpsertPhase::Committing { .. } => {
            &&& action == UpsertActionView::Execute(commit())
            &&& t.kept == rows
            &&& t.seen == rows_with(rows, issue)
        },
        UpsertPhase::RollingBack => action == UpsertActionView::Execute(rollback()) && t.kept
            == rows,
        UpsertPhase::Over { success, inserted } => if success {
            action == UpsertActionView::Succeed { inserted } && t.kept == rows_with(rows, issue)
        } else {
            action is Fail && t.kept == rows
        },
    }
}

proof fn lemma_consistent(issue: IssueView, rows: Seq<Seq<SqlCell>>, replies: Seq<UpsertReply>)
    ensures
        ({
            let (phase, action, t) = upsert_run(issue, rows, replies);
            consistent(issue, rows, phase, action, t)
        }),
    decreases replies.len(),
{
    lemma_statements_differ(issue);
    if replies.len() > 0 {
        lemma_consistent(issue, rows, replies.drop_last());
    }
}

/// An upsert is atomic. Once it succeeded, the issue has one row, with its fields, and the rows of
/// other issues are as before; at any other time, and where it failed, the rows that last are those
/// from before. Nothing but the issues table is written to.
pub proof fn lemma_upsert_is_atomic(
    issue: IssueView,
    rows: Seq<Seq<SqlCell>>,
    replies: Seq<UpsertReply>,
)
    ensures
        ({
            let (phase, action, t) = upsert_run(issue, rows, replies);
            &&& action is Succeed ==> t.kept == rows_with(rows, issue)
            &&& !(action is Succeed) ==> t.kept == rows
            &&& action matches UpsertActionView::Execute(s) ==> s == begin() || s == commit() || s
                == rollback() || s == delete_statement(issue.id) || s == insert_statement(
                import_row(issue),
            )
        }),
        forall|k: int|
            0 <= k < rows_with(rows, issue).len() ==> (rows_with(rows, issue)[k][0]
                == SqlCell::Text(issue.id) <==> k == rows_with(rows, issue).len() - 1),
{
    lemma_consistent(issue, rows, replies);
    let other = |row: Seq<SqlCell>| row[0] != SqlCell::Text(issue.id);
    assert forall|k: int| 0 <= k < rows_with(rows, issue).len() implies (rows_with(rows, issue)[k][0]
        == SqlCell::Text(issue.id) <==> k == rows_with(rows, issue).len() - 1) by {
        if k < rows_without(rows, issue.id).len() {
            rows.lemma_filter_pred(other, k);
        }
    }
}

/// An upsert ends: after five replies at most, it succeeded or failed.
pub proof fn lemma_upsert_ends(
    issue: IssueView,
    rows: Seq<Seq<SqlCell>>,
    replies: Seq<UpsertReply>,
)
    requires
        replies.len() >= 5,
    ensures
        !(upsert_run(issue, rows, replies).1 is Execute),
{
    lemma_rank(issue, rows, replies);
}

/// How many replies an upsert in a phase has had at least.
spec fn rank(phase: UpsertPhase) -> nat {
    match phase {
        UpsertPhase::Beginning => 0,
        UpsertPhase::Deleting => 1,
        UpsertPhase::Inserting => 2,
        UpsertPhase::Committing { .. } => 3,
        UpsertPhase::RollingBack => 4,
        UpsertPhase::Over { .. } => 5,
    }
}

proof fn lemma_rank(issue: IssueView, rows: Seq<Seq<SqlCell>>, replies: Seq<UpsertReply>)
    ensures
        ({
            let (phase, action, t) = upsert_run(issue, rows, replies);
            &&& phase is Over || replies.len() <= rank(phase)
            &&& action is Execute <==> !(phase is Over)
        }),
    decreases replies.len(),
{
    if replies.len() > 0 {
        lemma_rank(issue, rows, replies.drop_last());
    }
}

} // verus!
