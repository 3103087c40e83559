//! Creating, importing, deleting and finding issues.

use crate::chunk::list_texts_in_runs;
use crate::clock::Timestamp;
use crate::error::BeadsError;
use crate::model::{Comment, Dependency, EventType, Issue};
use crate::mutation::MutationContext;
use crate::pattern::escape_like_pattern;
use crate::rows::{row_of_imported_issue, row_of_new_issue};
use crate::scan::{before_first, parse_u32, strip_prefix};
use crate::sql::{texts_in_column, Row, SqlValue, Statement};
use crate::text::{joined, same_text};
use vstd::prelude::*;

verus! {

use crate::chunk::list_statements;
use crate::clock::{rfc3339, Instant};
use crate::error::{outcome, BeadsErrorView};
use crate::model::{CommentView, DependencyView, IssueView, StatusView};
use crate::mutation::MutationContextView;
use crate::pattern::escaped;
use crate::rows::{
    as_stored,
    dates_read_back,
    four_digit_dates,
    import_row,
    issue_of_row,
    lemma_status_reads_back,
    new_row,
    non_empty,
    reads_back,
    status_of,
};
use crate::scan::{behind_prefix, read_u32, until};
use crate::sql::{
    cell_or,
    column_texts,
    integer_at,
    stmt,
    text_at,
    text_at_or,
    SqlCell,
    StatementView,
};

/// One step of a change to the database.
#[derive(Debug, PartialEq, Eq)]
pub enum Step {
    /// Execute the statement.
    Run(Statement),
    /// Stop with the error if the query finds anything.
    Refuse { query: Statement, error: BeadsError },
    /// Stop with the error.
    Stop { error: BeadsError },
}

/// The view of [`Step`].
#[verifier::ext_equal]
pub enum StepView {
    Run(StatementView),
    Refuse { query: StatementView, error: BeadsErrorView },
    Stop { error: BeadsErrorView },
}

impl DeepView for Step {
    type V = StepView;

    open spec fn deep_view(&self) -> StepView {
        match self {
            Step::Run(s) => StepView::Run(s.deep_view()),
            Step::Refuse { query, error } => StepView::Refuse {
                query: query.deep_view(),
                error: error.deep_view(),
            },
            Step::Stop { error } => StepView::Stop { error: error.deep_view() },
        }
    }
}

fn add_step(steps: &mut Vec<Step>, step: Step)
    ensures
        final(steps).deep_view() == old(steps).deep_view().push(step.deep_view()),
{
    let ghost item = step.deep_view();
    steps.push(step);
    assert(steps.deep_view() =~= old(steps).deep_view().push(item));
}

/// The statement that inserts a row into the issues table.
pub open spec fn insert_statement(row: Seq<SqlCell>) -> StatementView {
    stmt(
        "INSERT INTO issues (id, content_hash, title, description, design, acceptance_criteria, notes, status, priority, issue_type, assignee, owner, estimated_minutes, created_at, created_by, updated_at, closed_at, close_reason, closed_by_session, due_at, defer_until, external_ref, source_system, source_repo, deleted_at, deleted_by, delete_reason, original_type, compaction_level, compacted_at, compacted_at_commit, original_size, sender, ephemeral, pinned, is_template) VALUES (?, ?, ?, ?, ?, ?, ?, ?, ?, ?, ?, ?, ?, ?, ?, ?, ?, ?, ?, ?, ?, ?, ?, ?, ?, ?, ?, ?, ?, ?, ?, ?, ?, ?, ?, ?)"@,
        row,
    )
}

fn insert_row(row: Vec<SqlValue>) -> (r: Statement)
    ensures
        r.deep_view() == insert_statement(row.deep_view()),
{
    Statement {
        sql: "INSERT INTO issues (id, content_hash, title, description, design, acceptance_criteria, notes, status, priority, issue_type, assignee, owner, estimated_minutes, created_at, created_by, updated_at, closed_at, close_reason, closed_by_session, due_at, defer_until, external_ref, source_system, source_repo, deleted_at, deleted_by, delete_reason, original_type, compaction_level, compacted_at, compacted_at_commit, original_size, sender, ephemeral, pinned, is_template) VALUES (?, ?, ?, ?, ?, ?, ?, ?, ?, ?, ?, ?, ?, ?, ?, ?, ?, ?, ?, ?, ?, ?, ?, ?, ?, ?, ?, ?, ?, ?, ?, ?, ?, ?, ?, ?)".to_owned(),
        params: row,
    }
}

/// The text of the query that follows dependencies from one issue and looks for another.
pub open spec fn cycle_sql(blocking_only: bool) -> Seq<char> {
    let filter = if blocking_only {
        "AND type IN ('blocks', 'parent-child', 'conditional-blocks')"@
    } else {
        ""@
    };
    "WITH RECURSIVE transitive_deps(id) AS (SELECT depends_on_id FROM dependencies WHERE issue_id = ?1 "@
        + filter
        + " UNION SELECT d.depends_on_id FROM dependencies d JOIN transitive_deps td ON d.issue_id = td.id WHERE 1=1 "@
        + filter + ") SELECT 1 FROM transitive_deps WHERE id = ?2 LIMIT 1;"@
}

/// The query that finds a row where a dependency of `issue_id` on `depends_on_id` would close a
/// cycle: it starts from the issue depended on and looks for the dependent one.
pub open spec fn cycle_statement(
    issue_id: Seq<char>,
    depends_on_id: Seq<char>,
    blocking_only: bool,
) -> StatementView {
    stmt(
        cycle_sql(blocking_only),
        seq![SqlCell::Text(depends_on_id), SqlCell::Text(issue_id)],
    )
}

/// Query for a way along dependencies from the issue depended on back to the dependent one.
///
/// If `blocking_only` is true, only considers blocking dependency types
/// ('blocks', 'parent-child', 'conditional-blocks') for cycle detection.
/// Between two different issues, the dependency would create a cycle exactly if the query finds a
/// row.
pub fn check_cycle(issue_id: &str, depends_on_id: &str, blocking_only: bool) -> (r: Statement)
    ensures
        r.deep_view() == cycle_statement(issue_id@, depends_on_id@, blocking_only),
{
    let filter = if blocking_only {
        "AND type IN ('blocks', 'parent-child', 'conditional-blocks')"
    } else {
        ""
    };
    let mut sql =
        "WITH RECURSIVE transitive_deps(id) AS (SELECT depends_on_id FROM dependencies WHERE issue_id = ?1 ".to_owned();
    sql.append(filter);
    sql.append(
        " UNION SELECT d.depends_on_id FROM dependencies d JOIN transitive_deps td ON d.issue_id = td.id WHERE 1=1 ",
    );
    sql.append(filter);
    sql.append(") SELECT 1 FROM transitive_deps WHERE id = ?2 LIMIT 1;");
    Statement::with_texts2(sql.as_str(), depends_on_id, issue_id)
}

/// Check if adding a dependency would create a cycle, given the rows of the query for a way back.
///
/// A dependency of an issue on itself is a cycle.
pub fn would_create_cycle(issue_id: &str, depends_on_id: &str, found: &Vec<Row>) -> (r: bool)
    ensures
        r == (issue_id@ == depends_on_id@ || found.len() > 0),
{
    same_text(issue_id, depends_on_id) || found.len() > 0
}

/// The error for a dependency that would close a cycle.
pub open spec fn cycle_error(issue_id: Seq<char>, depends_on_id: Seq<char>) -> BeadsErrorView {
    BeadsErrorView::DependencyCycle {
        path: "Adding dependency "@ + issue_id + " -> "@ + depends_on_id
            + " would create a cycle"@,
    }
}

/// The error for a dependency that would close a cycle.
pub fn refuse_cycle(issue_id: &str, depends_on_id: &str) -> (r: BeadsError)
    ensures
        r.deep_view() == cycle_error(issue_id@, depends_on_id@),
{
    let mut path = "Adding dependency ".to_owned();
    path.append(issue_id);
    path.append(" -> ");
    path.append(depends_on_id);
    path.append(" would create a cycle");
    BeadsError::DependencyCycle { path }
}

/// The error for an issue whose ID is taken.
pub open spec fn id_taken(id: Seq<char>) -> BeadsErrorView {
    BeadsErrorView::UniqueViolation { columns: "issues.id = "@ + id }
}

/// The step that puts a label on an issue.
pub open spec fn label_step(id: Seq<char>, label: Seq<char>) -> StepView {
    StepView::Run(
        stmt(
            "INSERT INTO labels (issue_id, label) VALUES (?, ?)"@,
            seq![SqlCell::Text(id), SqlCell::Text(label)],
        ),
    )
}

/// The steps that add a dependency of a new issue, refused first where it would close a cycle.
pub open spec fn dependency_steps(
    id: Seq<char>,
    dep: DependencyView,
    actor: Seq<char>,
) -> Seq<StepView> {
    let add = StepView::Run(
        stmt(
            "INSERT INTO dependencies (issue_id, depends_on_id, type, created_at, created_by) VALUES (?, ?, ?, ?, ?)"@,
            seq![
                SqlCell::Text(id),
                SqlCell::Text(dep.depends_on_id),
                SqlCell::Text(dep.dep_type.name()),
                SqlCell::Text(rfc3339(dep.created_at)),
                cell_or(dep.created_by, actor),
            ],
        ),
    );
    if dep.dep_type.blocking() && id == dep.depends_on_id {
        seq![StepView::Stop { error: cycle_error(id, dep.depends_on_id) }, add]
    } else if dep.dep_type.blocking() {
        seq![
            StepView::Refuse {
                query: cycle_statement(id, dep.depends_on_id, true),
                error: cycle_error(id, dep.depends_on_id),
            },
            add,
        ]
    } else {
        seq![add]
    }
}

/// The step that adds a comment to a new issue.
pub open spec fn comment_step(id: Seq<char>, comment: CommentView) -> StepView {
    StepView::Run(
        stmt(
            "INSERT INTO comments (issue_id, author, text, created_at) VALUES (?, ?, ?, ?)"@,
            seq![
                SqlCell::Text(id),
                SqlCell::Text(comment.author),
                SqlCell::Text(comment.body),
                SqlCell::Text(rfc3339(comment.created_at)),
            ],
        ),
    )
}

/// The steps that put labels on an issue.
pub open spec fn labels_steps(id: Seq<char>, labels: Seq<Seq<char>>) -> Seq<StepView> {
    labels.map_values(|label: Seq<char>| label_step(id, label))
}

/// The steps that add the dependencies of a new issue.
pub open spec fn dependencies_steps(
    id: Seq<char>,
    deps: Seq<DependencyView>,
    actor: Seq<char>,
) -> Seq<StepView>
    decreases deps.len(),
{
    if deps.len() == 0 {
        seq![]
    } else {
        dependencies_steps(id, deps.drop_last(), actor) + dependency_steps(id, deps.last(), actor)
    }
}

/// The steps that add the comments of a new issue.
pub open spec fn comments_steps(id: Seq<char>, comments: Seq<CommentView>) -> Seq<StepView> {
    comments.map_values(|c: CommentView| comment_step(id, c))
}

/// The steps that create an issue: refused where the ID is taken, then the issue itself, its
/// labels, its dependencies and its comments.
pub open spec fn create_steps(issue: IssueView, actor: Seq<char>) -> Seq<StepView> {
    seq![
        StepView::Refuse {
            query: stmt("SELECT id FROM issues WHERE id = ?"@, seq![SqlCell::Text(issue.id)]),
            error: id_taken(issue.id),
        },
        StepView::Run(insert_statement(new_row(issue))),
    ] + labels_steps(issue.id, issue.labels) + dependencies_steps(
        issue.id,
        issue.dependencies,
        actor,
    ) + comments_steps(issue.id, issue.comments)
}

/// What adding labels records.
pub open spec fn labels_records(
    ctx: MutationContextView,
    id: Seq<char>,
    labels: Seq<Seq<char>>,
    now: Instant,
) -> MutationContextView
    decreases labels.len(),
{
    if labels.len() == 0 {
        ctx
    } else {
        labels_records(ctx, id, labels.drop_last(), now).with_event(
            EventType::LabelAdded,
            id,
            Some("Added label "@ + labels.last()),
            now,
        )
    }
}

/// What is said of an added dependency.
pub open spec fn dependency_note(depends_on_id: Seq<char>, dep_type: Seq<char>) -> Seq<char> {
    "Added dependency on "@ + depends_on_id + " ("@ + dep_type + ")"@
}

/// What is said of an added dependency.
pub fn note_dependency(depends_on_id: &str, dep_type: &str) -> (r: String)
    ensures
        r@ == dependency_note(depends_on_id@, dep_type@),
{
    let mut s = "Added dependency on ".to_owned();
    s.append(depends_on_id);
    s.append(" (");
    s.append(dep_type);
    s.append(")");
    s
}

/// What adding dependencies records: each makes the blocked cache stale.
pub open spec fn dependencies_records(
    ctx: MutationContextView,
    id: Seq<char>,
    deps: Seq<DependencyView>,
    now: Instant,
) -> MutationContextView
    decreases deps.len(),
{
    if deps.len() == 0 {
        ctx
    } else {
        dependencies_records(ctx, id, deps.drop_last(), now).with_event(
            EventType::DependencyAdded,
            id,
            Some(dependency_note(deps.last().depends_on_id, deps.last().dep_type.name())),
            now,
        ).with_stale_cache()
    }
}

/// What adding comments records.
pub open spec fn comments_records(
    ctx: MutationContextView,
    id: Seq<char>,
    comments: Seq<CommentView>,
    now: Instant,
) -> MutationContextView
    decreases comments.len(),
{
    if comments.len() == 0 {
        ctx
    } else {
        comments_records(ctx, id, comments.drop_last(), now).with_event(
            EventType::Commented,
            id,
            Some(comments.last().body),
            now,
        )
    }
}

/// What creating an issue records.
pub open spec fn create_records(
    ctx: MutationContextView,
    issue: IssueView,
    now: Instant,
) -> MutationContextView {
    let c = labels_records(ctx, issue.id, issue.labels, now);
    let c = dependencies_records(c, issue.id, issue.dependencies, now);
    let c = comments_records(c, issue.id, issue.comments, now);
    c.with_event(EventType::Created, issue.id, Some("Created issue: "@ + issue.title), now)
        .with_dirty(issue.id)
}

fn label_insert(id: &str, label: &str) -> (r: Step)
    ensures
        r.deep_view() == label_step(id@, label@),
{
    Step::Run(
        Statement::with_texts2("INSERT INTO labels (issue_id, label) VALUES (?, ?)", id, label),
    )
}

fn dependency_insert(id: &str, dep: &Dependency, actor: &str) -> (r: Step)
    ensures
        r.deep_view() == dependency_steps(id@, dep.deep_view(), actor@).last(),
{
    let params: Vec<SqlValue> = vec![
        SqlValue::text(id),
        SqlValue::text(dep.depends_on_id.as_str()),
        SqlValue::text(dep.dep_type.as_str()),
        SqlValue::Text(dep.created_at.to_rfc3339()),
        SqlValue::text_or(&dep.created_by, actor),
    ];
    assert(params.deep_view() =~= dependency_steps(
        id@,
        dep.deep_view(),
        actor@,
    ).last()->Run_0.params);
    Step::Run(
        Statement {
            sql: "INSERT INTO dependencies (issue_id, depends_on_id, type, created_at, created_by) VALUES (?, ?, ?, ?, ?)".to_owned(),
            params,
        },
    )
}

fn comment_insert(id: &str, comment: &Comment) -> (r: Step)
    ensures
        r.deep_view() == comment_step(id@, comment.deep_view()),
{
    let params: Vec<SqlValue> = vec![
        SqlValue::text(id),
        SqlValue::text(comment.author.as_str()),
        SqlValue::text(comment.body.as_str()),
        SqlValue::Text(comment.created_at.to_rfc3339()),
    ];
    assert(params.deep_view() =~= comment_step(id@, comment.deep_view())->Run_0.params);
    Step::Run(
        Statement {
            sql: "INSERT INTO comments (issue_id, author, text, created_at) VALUES (?, ?, ?, ?)".to_owned(),
            params,
        },
    )
}

fn create_labels(
    steps: &mut Vec<Step>,
    issue: &Issue,
    ctx: &mut MutationContext,
    now: Timestamp,
)
    ensures
        final(steps).deep_view() == old(steps).deep_view() + labels_steps(
            issue.id@,
            issue.labels.deep_view(),
        ),
        final(ctx).deep_view() == labels_records(
            old(ctx).deep_view(),
            issue.id@,
            issue.labels.deep_view(),
            now.deep_view(),
        ),
{
    let ghost start = steps.deep_view();
    let ghost c0 = ctx.deep_view();
    let ghost all = issue.labels.deep_view();
    let mut i: usize = 0;
    assert(start + labels_steps(issue.id@, all.take(0)) =~= start);
    while i < issue.labels.len()
        invariant
            i <= issue.labels.len(),
            all == issue.labels.deep_view(),
            steps.deep_view() == start + labels_steps(issue.id@, all.take(i as int)),
            ctx.deep_view() == labels_records(c0, issue.id@, all.take(i as int), now.deep_view()),
        decreases issue.labels.len() - i,
    {
        let ghost before = steps.deep_view();
        assert(all.take(i + 1).drop_last() =~= all.take(i as int));
        assert(all.take(i + 1).last() == issue.labels@[i as int]@);
        add_step(steps, label_insert(issue.id.as_str(), issue.labels[i].as_str()));
        let note = joined("Added label ", issue.labels[i].as_str());
        ctx.record_event(EventType::LabelAdded, issue.id.as_str(), Some(note), now);
        assert(steps.deep_view() =~= start + labels_steps(issue.id@, all.take(i + 1)));
        i += 1;
    }
    assert(all.take(all.len() as int) =~= all);
}

fn create_dependencies(
    steps: &mut Vec<Step>,
    issue: &Issue,
    actor: &str,
    ctx: &mut MutationContext,
    now: Timestamp,
)
    ensures
        final(steps).deep_view() == old(steps).deep_view() + dependencies_steps(
            issue.id@,
            issue.dependencies.deep_view(),
            actor@,
        ),
        final(ctx).deep_view() == dependencies_records(
            old(ctx).deep_view(),
            issue.id@,
            issue.dependencies.deep_view(),
            now.deep_view(),
        ),
{
    let ghost start = steps.deep_view();
    let ghost c0 = ctx.deep_view();
    let ghost all = issue.dependencies.deep_view();
    let mut i: usize = 0;
    assert(start + dependencies_steps(issue.id@, all.take(0), actor@) =~= start);
    while i < issue.dependencies.len()
        invariant
            i <= issue.dependencies.len(),
            all == issue.dependencies.deep_view(),
            steps.deep_view() == start + dependencies_steps(
                issue.id@,
                all.take(i as int),
                actor@,
            ),
            ctx.deep_view() == dependencies_records(
                c0,
                issue.id@,
                all.take(i as int),
                now.deep_view(),
            ),
        decreases issue.dependencies.len() - i,
    {
        let ghost before = steps.deep_view();
        assert(all.take(i + 1).drop_last() =~= all.take(i as int));
        assert(all.take(i + 1).last() == issue.dependencies@[i as int].deep_view());
        let id = issue.id.as_str();
        let dep = &issue.dependencies[i];
        if dep.dep_type.is_blocking() {
            let error = refuse_cycle(id, dep.depends_on_id.as_str());
            let step = if same_text(id, dep.depends_on_id.as_str()) {
                Step::Stop { error }
            } else {
                Step::Refuse { query: check_cycle(id, dep.depends_on_id.as_str(), true), error }
            };
            add_step(steps, step);
        }
        add_step(steps, dependency_insert(id, dep, actor));
        assert(steps.deep_view() =~= before + dependency_steps(id@, dep.deep_view(), actor@));
        assert(steps.deep_view() =~= start + dependencies_steps(id@, all.take(i + 1), actor@));
        let note = note_dependency(dep.depends_on_id.as_str(), dep.dep_type.as_str());
        ctx.record_event(EventType::DependencyAdded, id, Some(note), now);
        ctx.invalidate_cache();
        i += 1;
    }
    assert(all.take(all.len() as int) =~= all);
}

fn create_comments(
    steps: &mut Vec<Step>,
    issue: &Issue,
    ctx: &mut MutationContext,
    now: Timestamp,
)
    ensures
        final(steps).deep_view() == old(steps).deep_view() + comments_steps(
            issue.id@,
            issue.comments.deep_view(),
        ),
        final(ctx).deep_view() == comments_records(
            old(ctx).deep_view(),
            issue.id@,
            issue.comments.deep_view(),
            now.deep_view(),
        ),
{
    let ghost start = steps.deep_view();
    let ghost c0 = ctx.deep_view();
    let ghost all = issue.comments.deep_view();
    let mut i: usize = 0;
    assert(start + comments_steps(issue.id@, all.take(0)) =~= start);
    while i < issue.comments.len()
        invariant
            i <= issue.comments.len(),
            all == issue.comments.deep_view(),
            steps.deep_view() == start + comments_steps(issue.id@, all.take(i as int)),
            ctx.deep_view() == comments_records(
                c0,
                issue.id@,
                all.take(i as int),
                now.deep_view(),
            ),
        decreases issue.comments.len() - i,
    {
        assert(all.take(i + 1).drop_last() =~= all.take(i as int));
        assert(all.take(i + 1).last() == issue.comments@[i as int].deep_view());
        add_step(steps, comment_insert(issue.id.as_str(), &issue.comments[i]));
        let note = issue.comments[i].body.clone();
        ctx.record_event(EventType::Commented, issue.id.as_str(), Some(note), now);
        assert(steps.deep_view() =~= start + comments_steps(issue.id@, all.take(i + 1)));
        i += 1;
    }
    assert(all.take(all.len() as int) =~= all);
}

/// Create a new issue: the steps to take, in order, with what they record.
///
/// The steps stop with an error if the ID is taken or a blocking dependency would close a cycle.
pub fn create_issue(
    issue: &Issue,
    actor: &str,
    ctx: &mut MutationContext,
    now: Timestamp,
) -> (r: Vec<Step>)
    ensures
        r.deep_view() == create_steps(issue.deep_view(), actor@),
        final(ctx).deep_view() == create_records(
            old(ctx).deep_view(),
            issue.deep_view(),
            now.deep_view(),
        ),
        four_digit_dates(issue.deep_view()) ==> issue_of_row(r.deep_view()[1]->Run_0.params)
            == Ok::<IssueView, BeadsErrorView>(as_stored(issue.deep_view())),
{
    let id = issue.id.as_str();
    let mut steps: Vec<Step> = Vec::new();
    assert(steps.deep_view() =~= seq![]);
    add_step(
        &mut steps,
        Step::Refuse {
            query: Statement::with_text("SELECT id FROM issues WHERE id = ?", id),
            error: BeadsError::UniqueViolation { columns: joined("issues.id = ", id) },
        },
    );
    add_step(&mut steps, Step::Run(insert_row(row_of_new_issue(issue))));
    proof {
        if dates_read_back(issue.deep_view()) {
            crate::rows::lemma_new_row_reads_back(issue.deep_view());
        }
    }
    create_labels(&mut steps, issue, ctx, now);
    create_dependencies(&mut steps, issue, actor, ctx, now);
    create_comments(&mut steps, issue, ctx, now);
    let note = joined("Created issue: ", issue.title.as_str());
    ctx.record_event(EventType::Created, id, Some(note), now);
    ctx.mark_dirty(id);
    assert(steps.deep_view() =~= create_steps(issue.deep_view(), actor@));
    steps
}

/// The statement that deletes the row of an issue.
pub open spec fn delete_statement(id: Seq<char>) -> StatementView {
    stmt("DELETE FROM issues WHERE id = ?"@, seq![SqlCell::Text(id)])
}

/// Upsert an issue (create or update) for import operations: the old row goes, the new one comes.
/// This does NOT trigger dirty tracking or events.
///
/// To handle both cases atomically, the statements are executed in one transaction, as
/// [`crate::upsert::UpsertRun`] does.
pub fn upsert_issue_for_import(issue: &Issue) -> (r: (Statement, Statement))
    ensures
        r.0.deep_view() == delete_statement(issue.id@),
        r.1.deep_view() == insert_statement(import_row(issue.deep_view())),
        four_digit_dates(issue.deep_view()) ==> issue_of_row(r.1.deep_view().params) == Ok::<
            IssueView,
            BeadsErrorView,
        >(as_stored(issue.deep_view())),
{
    let row = row_of_imported_issue(issue);
    proof {
        if dates_read_back(issue.deep_view()) {
            crate::rows::lemma_import_row_reads_back(issue.deep_view());
        }
    }
    (
        Statement::with_text("DELETE FROM issues WHERE id = ?", issue.id.as_str()),
        insert_row(row),
    )
}

/// The statement that turns an issue into a tombstone.
pub open spec fn tombstone_statement(
    issue: IssueView,
    id: Seq<char>,
    actor: Seq<char>,
    reason: Seq<char>,
    deleted_at: Instant,
    now: Instant,
) -> StatementView {
    stmt(
        "UPDATE issues SET status = 'tombstone', deleted_at = ?, deleted_by = ?, delete_reason = ?, original_type = ?, updated_at = ? WHERE id = ?"@,
        seq![
            SqlCell::Text(rfc3339(deleted_at)),
            SqlCell::Text(actor),
            SqlCell::Text(reason),
            SqlCell::Text(issue.issue_type.name()),
            SqlCell::Text(rfc3339(now)),
            SqlCell::Text(id),
        ],
    )
}

/// Delete an issue by creating a tombstone.
///
/// The type that the issue has is kept as its original type. Without a date of deletion, it is
/// deleted now.
pub fn delete_issue(
    issue: &Issue,
    id: &str,
    actor: &str,
    reason: &str,
    deleted_at: Option<Timestamp>,
    ctx: &mut MutationContext,
    now: Timestamp,
) -> (r: Statement)
    ensures
        r.deep_view() == tombstone_statement(
            issue.deep_view(),
            id@,
            actor@,
            reason@,
            match deleted_at {
                Some(t) => t.deep_view(),
                None => now.deep_view(),
            },
            now.deep_view(),
        ),
        final(ctx).deep_view() == old(ctx).deep_view().with_event(
            EventType::Deleted,
            id@,
            Some("Deleted issue: "@ + reason@),
            now.deep_view(),
        ).with_dirty(id@).with_stale_cache(),
        crate::mutation::recorded(
            old(ctx).deep_view(),
            final(ctx).deep_view(),
            EventType::Deleted,
            id@,
            now.deep_view(),
        ),
        final(ctx).deep_view().invalidate_blocked_cache,
{
    proof {
        crate::mutation::lemma_recorded(
            old(ctx).deep_view(),
            EventType::Deleted,
            id@,
            Some("Deleted issue: "@ + reason@),
            now.deep_view(),
        );
    }
    let timestamp = match deleted_at {
        Some(t) => t,
        None => now,
    };
    let params: Vec<SqlValue> = vec![
        SqlValue::Text(timestamp.to_rfc3339()),
        SqlValue::text(actor),
        SqlValue::text(reason),
        SqlValue::text(issue.issue_type.as_str()),
        SqlValue::Text(now.to_rfc3339()),
        SqlValue::text(id),
    ];
    assert(params.deep_view() =~= tombstone_statement(
        issue.deep_view(),
        id@,
        actor@,
        reason@,
        timestamp.deep_view(),
        now.deep_view(),
    ).params);
    ctx.record_event(EventType::Deleted, id, Some(joined("Deleted issue: ", reason)), now);
    ctx.mark_dirty(id);
    ctx.invalidate_cache();
    Statement {
        sql: "UPDATE issues SET status = 'tombstone', deleted_at = ?, deleted_by = ?, delete_reason = ?, original_type = ?, updated_at = ? WHERE id = ?".to_owned(),
        params,
    }
}

/// A row of the issues table after the issue was deleted.
pub open spec fn tombstone_row(
    row: Seq<SqlCell>,
    issue: IssueView,
    actor: Seq<char>,
    reason: Seq<char>,
    deleted_at: Instant,
    now: Instant,
) -> Seq<SqlCell> {
    row.update(7, SqlCell::Text("tombstone"@)).update(
        24,
        SqlCell::Text(rfc3339(deleted_at)),
    ).update(25, SqlCell::Text(actor)).update(26, SqlCell::Text(reason)).update(
        27,
        SqlCell::Text(issue.issue_type.name()),
    ).update(15, SqlCell::Text(rfc3339(now)))
}

/// A deleted issue is read back as a tombstone that tells when, by whom and why it was deleted
/// and what type it had; else it is the issue that it was.
pub proof fn lemma_deleted_issue_reads_back(
    row: Seq<SqlCell>,
    issue: IssueView,
    actor: Seq<char>,
    reason: Seq<char>,
    deleted_at: Instant,
    now: Instant,
)
    requires
        row.len() == 36,
        issue_of_row(row) == Ok::<IssueView, BeadsErrorView>(issue),
        reads_back(deleted_at),
        reads_back(now),
    ensures
        issue_of_row(tombstone_row(row, issue, actor, reason, deleted_at, now)) == Ok::<
            IssueView,
            BeadsErrorView,
        >(
            IssueView {
                status: StatusView::Tombstone,
                deleted_at: Some(deleted_at),
                deleted_by: non_empty(Some(actor)),
                delete_reason: non_empty(Some(reason)),
                original_type: non_empty(Some(issue.issue_type.name())),
                updated_at: now,
                ..issue
            },
        ),
{
    lemma_status_reads_back(StatusView::Tombstone);
    let after = tombstone_row(row, issue, actor, reason, deleted_at, now);
    assert(same_places(row, after)) by {
        assert forall|k: int| 0 <= k < 36 && kept_place(k) implies #[trigger] after[k] == row[k] by {}
    }
    lemma_tombstone_is_read(
        row,
        after,
        issue,
        SqlCell::Text(actor),
        SqlCell::Text(reason),
        SqlCell::Text(issue.issue_type.name()),
        deleted_at,
        now,
    );
}

spec fn kept_place(k: int) -> bool {
    k != 7 && k != 15 && k != 24 && k != 25 && k != 26 && k != 27
}

spec fn same_places(row: Seq<SqlCell>, after: Seq<SqlCell>) -> bool {
    forall|k: int| 0 <= k < 36 && kept_place(k) ==> #[trigger] after[k] == row[k]
}

#[verifier::rlimit(60)]
#[verifier::spinoff_prover]
proof fn lemma_tombstone_is_read(
    row: Seq<SqlCell>,
    after: Seq<SqlCell>,
    issue: IssueView,
    actor: SqlCell,
    reason: SqlCell,
    kind: SqlCell,
    deleted_at: Instant,
    now: Instant,
)
    requires
        row.len() == 36,
        after.len() == 36,
        same_places(row, after),
        after[7] == SqlCell::Text("tombstone"@),
        after[15] == SqlCell::Text(rfc3339(now)),
        after[24] == SqlCell::Text(rfc3339(deleted_at)),
        after[25] == actor,
        after[26] == reason,
        after[27] == kind,
        actor is Text,
        reason is Text,
        kind is Text,
        issue_of_row(row) == Ok::<IssueView, BeadsErrorView>(issue),
        status_of(Some("tombstone"@)) is Tombstone,
        reads_back(deleted_at),
        reads_back(now),
    ensures
        issue_of_row(after) == Ok::<IssueView, BeadsErrorView>(
            IssueView {
                status: StatusView::Tombstone,
                deleted_at: Some(deleted_at),
                deleted_by: non_empty(Some(actor->Text_0)),
                delete_reason: non_empty(Some(reason->Text_0)),
                original_type: non_empty(Some(kind->Text_0)),
                updated_at: now,
                ..issue
            },
        ),
{
    assert forall|k: int| 0 <= k < 36 && kept_place(k) implies text_at(after, k) == text_at(row, k)
        && integer_at(after, k) == integer_at(row, k) by {
        assert(after[k] == row[k]);
    }
    let r = issue_of_row(after)->Ok_0;
    assert(issue_of_row(after) is Ok);
    assert(r.id == issue.id);
    assert(r.content_hash == issue.content_hash);
    assert(r.title == issue.title);
    assert(r.description == issue.description);
    assert(r.design == issue.design);
    assert(r.acceptance_criteria == issue.acceptance_criteria);
    assert(r.notes == issue.notes);
    assert(r.priority == issue.priority);
    assert(r.issue_type == issue.issue_type);
    assert(r.assignee == issue.assignee);
    assert(r.owner == issue.owner);
    assert(r.estimated_minutes == issue.estimated_minutes);
    assert(r.created_at == issue.created_at);
    assert(r.created_by == issue.created_by);
    assert(r.closed_at == issue.closed_at);
    assert(r.close_reason == issue.close_reason);
    assert(r.closed_by_session == issue.closed_by_session);
    assert(r.due_at == issue.due_at);
    assert(r.defer_until == issue.defer_until);
    assert(r.external_ref == issue.external_ref);
    assert(r.source_system == issue.source_system);
    assert(r.source_repo == issue.source_repo);
    assert(r.compaction_level == issue.compaction_level);
    assert(r.compacted_at == issue.compacted_at);
    assert(r.compacted_at_commit == issue.compacted_at_commit);
    assert(r.original_size == issue.original_size);
    assert(r.sender == issue.sender);
    assert(r.ephemeral == issue.ephemeral);
    assert(r.pinned == issue.pinned);
    assert(r.is_template == issue.is_template);
    assert(r.updated_at == now && r.deleted_at == Some(deleted_at));
}

/// The issue that a query for one issue found, an error where there is none.
pub open spec fn required_issue(found: Option<IssueView>, id: Seq<char>) -> Result<
    IssueView,
    BeadsErrorView,
> {
    match found {
        Some(issue) => Ok(issue),
        None => Err(BeadsErrorView::IssueNotFound { id }),
    }
}

/// The issue that a query for one issue found, an error where there is none.
pub fn require_issue(found: Option<Issue>, id: &str) -> (r: Result<Issue, BeadsError>)
    ensures
        outcome(r) == required_issue(found.deep_view(), id@),
{
    match found {
        Some(issue) => Ok(issue),
        None => Err(BeadsError::not_found(id)),
    }
}

/// The columns of an issue, in the order in which an issue is read from a row.
pub open spec fn select_columns() -> Seq<char> {
    "SELECT id, content_hash, title, description, design, acceptance_criteria, notes, status, priority, issue_type, assignee, owner, estimated_minutes, created_at, created_by, updated_at, closed_at, close_reason, closed_by_session, due_at, defer_until, external_ref, source_system, source_repo, deleted_at, deleted_by, delete_reason, original_type, compaction_level, compacted_at, compacted_at_commit, original_size, sender, ephemeral, pinned, is_template FROM issues"@
}

/// The start of every query for issues.
pub fn select_issues() -> (r: &'static str)
    ensures
        r@ == select_columns(),
{
    "SELECT id, content_hash, title, description, design, acceptance_criteria, notes, status, priority, issue_type, assignee, owner, estimated_minutes, created_at, created_by, updated_at, closed_at, close_reason, closed_by_session, due_at, defer_until, external_ref, source_system, source_repo, deleted_at, deleted_by, delete_reason, original_type, compaction_level, compacted_at, compacted_at_commit, original_size, sender, ephemeral, pinned, is_template FROM issues"
}

/// Query for an issue by ID.
pub fn get_issue(id: &str) -> (r: Statement)
    ensures
        r.deep_view() == stmt(
            select_columns() + " WHERE id = ?"@,
            seq![SqlCell::Text(id@)],
        ),
        crate::columns::ask_issue_by_id(id@).is(r.deep_view()),
{
    proof {
        crate::columns::lemma_ask_issue_by_id_text(id@);
    }
    Statement::with_text(joined(select_issues(), " WHERE id = ?").as_str(), id)
}

/// Queries for multiple issues by ID, one for each run of IDs.
pub fn get_issues_by_ids(ids: &Vec<String>) -> (r: Vec<Statement>)
    ensures
        r.deep_view() == list_statements(
            select_columns() + " WHERE id IN ("@,
            ids.deep_view(),
            ","@,
            ")"@,
        ),
{
    let open = joined(select_issues(), " WHERE id IN (");
    list_texts_in_runs(open.as_str(), ids, ",", ")")
}

/// Query for an issue by external reference.
pub fn find_by_external_ref(external_ref: &str) -> (r: Statement)
    ensures
        r.deep_view() == stmt(
            select_columns() + " WHERE external_ref = ?"@,
            seq![SqlCell::Text(external_ref@)],
        ),
        crate::columns::ask_issue_by_external_ref(external_ref@).is(r.deep_view()),
{
    proof {
        crate::columns::lemma_ask_issue_by_external_ref_text(external_ref@);
    }
    Statement::with_text(joined(select_issues(), " WHERE external_ref = ?").as_str(), external_ref)
}

/// Query for an issue by content hash.
pub fn find_by_content_hash(content_hash: &str) -> (r: Statement)
    ensures
        r.deep_view() == stmt(
            select_columns() + " WHERE content_hash = ?"@,
            seq![SqlCell::Text(content_hash@)],
        ),
        crate::columns::ask_issue_by_content_hash(content_hash@).is(r.deep_view()),
{
    proof {
        crate::columns::lemma_ask_issue_by_content_hash_text(content_hash@);
    }
    Statement::with_text(joined(select_issues(), " WHERE content_hash = ?").as_str(), content_hash)
}

/// Query for all issues for export.
///
/// Includes tombstones (for sync propagation), excludes ephemerals and wisps.
/// Returns issues sorted by ID for deterministic output.
pub fn get_all_issues_for_export() -> (r: Statement)
    ensures
        r.deep_view() == stmt(
            select_columns()
                + " WHERE (ephemeral = 0 OR ephemeral IS NULL) AND id NOT LIKE '%-wisp-%' ORDER BY id ASC"@,
            seq![],
        ),
        crate::columns::ask_exported_issues().is(r.deep_view()),
{
    proof {
        crate::columns::lemma_ask_exported_issues_text();
    }
    Statement::plain(
        joined(
            select_issues(),
            " WHERE (ephemeral = 0 OR ephemeral IS NULL) AND id NOT LIKE '%-wisp-%' ORDER BY id ASC",
        ).as_str(),
    )
}

/// Query for whether an issue ID exists: it does exactly if the query finds a row.
pub fn id_exists(id: &str) -> (r: Statement)
    ensures
        r.deep_view() == stmt(
            "SELECT 1 FROM issues WHERE id = ? LIMIT 1"@,
            seq![SqlCell::Text(id@)],
        ),
        crate::asked::ask_issue_id_taken(id@).is(r.deep_view()),
{
    proof {
        crate::asked::lemma_ask_issue_id_taken_text(id@);
    }
    Statement::with_text("SELECT 1 FROM issues WHERE id = ? LIMIT 1", id)
}

/// Query for the issue IDs that end with the given hash.
pub fn find_ids_by_hash(hash_suffix: &str) -> (r: Statement)
    ensures
        r.deep_view() == stmt(
            "SELECT id FROM issues WHERE id LIKE ? ESCAPE '\\'"@,
            seq![SqlCell::Text("%-"@ + escaped(hash_suffix@))],
        ),
{
    let pattern = joined("%-", escape_like_pattern(hash_suffix).as_str());
    Statement::with_text("SELECT id FROM issues WHERE id LIKE ? ESCAPE '\\'", pattern.as_str())
}

/// Query for the number of issues.
pub fn count_issues() -> (r: Statement)
    ensures
        r.deep_view() == stmt("SELECT count(*) FROM issues"@, seq![]),
        crate::asked::ask_issue_total().is(r.deep_view()),
{
    proof {
        crate::asked::lemma_ask_issue_total_text();
    }
    Statement::plain("SELECT count(*) FROM issues")
}

/// Query for the number of issues that are exported.
pub fn count_exportable_issues() -> (r: Statement)
    ensures
        r.deep_view() == stmt(
            "SELECT COUNT(*) FROM issues WHERE ephemeral = 0 AND id NOT LIKE '%-wisp-%'"@,
            seq![],
        ),
        crate::asked::ask_exportable_total().is(r.deep_view()),
{
    proof {
        crate::asked::lemma_ask_exportable_total_text();
    }
    Statement::plain("SELECT COUNT(*) FROM issues WHERE ephemeral = 0 AND id NOT LIKE '%-wisp-%'")
}

/// Query for all issue IDs.
pub fn get_all_ids() -> (r: Statement)
    ensures
        r.deep_view() == stmt("SELECT id FROM issues ORDER BY id"@, seq![]),
        crate::asked::ask_all_issue_ids().is(r.deep_view()),
{
    proof {
        crate::asked::lemma_ask_all_issue_ids_text();
    }
    Statement::plain("SELECT id FROM issues ORDER BY id")
}

/// Query for the status of an issue.
pub fn status_query(id: &str) -> (r: Statement)
    ensures
        r.deep_view() == stmt(
            "SELECT status FROM issues WHERE id = ?"@,
            seq![SqlCell::Text(id@)],
        ),
        crate::asked::ask_status_of_issue(id@).is(r.deep_view()),
{
    proof {
        crate::asked::lemma_ask_status_of_issue_text(id@);
    }
    Statement::with_text("SELECT status FROM issues WHERE id = ?", id)
}

/// Whether an issue is a tombstone (deleted), given the row that the query for its status found.
pub fn is_tombstone(row: Option<&Row>) -> (r: bool)
    ensures
        r == (match row.deep_view() {
            Some(cells) => text_at_or(cells, 0, seq![]) == "tombstone"@,
            None => false,
        }),
{
    match row {
        Some(row) => same_text(row.text_or_empty(0).as_str(), "tombstone"),
        None => false,
    }
}

/// Query for the issues whose ID starts with the ID of a parent and a dot.
pub fn child_ids_query(parent_id: &str) -> (r: Statement)
    ensures
        r.deep_view() == stmt(
            "SELECT id FROM issues WHERE id LIKE ? ESCAPE '\\'"@,
            seq![SqlCell::Text(escaped(parent_id@) + ".%"@)],
        ),
{
    let pattern = joined(escape_like_pattern(parent_id).as_str(), ".%");
    Statement::with_text("SELECT id FROM issues WHERE id LIKE ? ESCAPE '\\'", pattern.as_str())
}

/// The number that an ID carries as a direct child of a parent, or as a descendant of one.
pub open spec fn child_number(parent_id: Seq<char>, id: Seq<char>) -> Option<u32> {
    match behind_prefix(id, parent_id + "."@) {
        Some(rest) => read_u32(until(rest, '.')),
        None => None,
    }
}

/// The greatest child number among IDs, 0 where there is none.
pub open spec fn max_child(parent_id: Seq<char>, ids: Seq<Seq<char>>) -> u32
    decreases ids.len(),
{
    if ids.len() == 0 {
        0
    } else {
        let front = max_child(parent_id, ids.drop_last());
        match child_number(parent_id, ids.last()) {
            Some(n) => if n > front {
                n
            } else {
                front
            },
            None => front,
        }
    }
}

/// Find the next available child number for a parent issue, given the rows of the query for its
/// children.
///
/// Looks for existing issues with IDs like `{parent_id}.N` and returns the next
/// available number. For example, if `bd-abc.1` and `bd-abc.2` exist, returns 3.
pub fn next_child_number(parent_id: &str, rows: &Vec<Row>) -> (r: u32)
    ensures
        r == (if max_child(parent_id@, column_texts(rows.deep_view(), 0)) == u32::MAX {
            u32::MAX
        } else {
            (max_child(parent_id@, column_texts(rows.deep_view(), 0)) + 1) as u32
        }),
{
    let ids = texts_in_column(rows, 0);
    let ghost all = ids.deep_view();
    let prefix = joined(parent_id, ".");
    let mut max: u32 = 0;
    let mut i: usize = 0;
    assert(all.take(0) =~= seq![]);
    while i < ids.len()
        invariant
            i <= ids.len(),
            all == ids.deep_view(),
            prefix@ == parent_id@ + "."@,
            max == max_child(parent_id@, all.take(i as int)),
        decreases ids.len() - i,
    {
        assert(all.take(i + 1).drop_last() =~= all.take(i as int));
        assert(all.take(i + 1).last() == ids@[i as int]@);
        let number = match strip_prefix(ids[i].as_str(), prefix.as_str()) {
            Some(rest) => parse_u32(before_first(rest.as_str(), '.').as_str()),
            None => None,
        };
        match number {
            Some(n) => {
                if n > max {
                    max = n;
                }
            },
            None => {},
        }
        i += 1;
    }
    assert(all.take(all.len() as int) =~= all);
    if max == u32::MAX {
        max
    } else {
        max + 1
    }
}

/// The next child number is greater than that of every child, short of the greatest number there
/// is, so that no child has it.
pub proof fn lemma_next_child_is_free(parent_id: Seq<char>, ids: Seq<Seq<char>>, k: int)
    requires
        0 <= k < ids.len(),
    ensures
        child_number(parent_id, ids[k]) matches Some(n) ==> n <= max_child(parent_id, ids),
    decreases ids.len(),
{
    if k < ids.len() - 1 {
        lemma_next_child_is_free(parent_id, ids.drop_last(), k);
        assert(ids.drop_last()[k] == ids[k]);
    }
}

} // verus!
