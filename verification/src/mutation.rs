//! Mutations: what a change leaves to be written, and the transaction protocol around it.

use crate::clock::Timestamp;
use crate::model::{Event, EventType};
use crate::sql::{SqlValue, Statement};
use crate::text::holds;
use vstd::prelude::*;

verus! {

use crate::clock::{rfc3339, Instant};
use crate::model::EventView;
use crate::sql::{cell_of_opt, stmt, SqlCell, StatementView};

/// A sequence with `x` at its end, unless `x` is in it already.
pub open spec fn insert_once(s: Seq<Seq<char>>, x: Seq<char>) -> Seq<Seq<char>> {
    if s.contains(x) {
        s
    } else {
        s.push(x)
    }
}

/// Inserting keeps a sequence free of duplicates, keeps what is in it and puts `x` in it.
pub proof fn lemma_insert_once(s: Seq<Seq<char>>, x: Seq<char>)
    requires
        s.no_duplicates(),
    ensures
        insert_once(s, x).no_duplicates(),
        insert_once(s, x).to_set() == s.to_set().insert(x),
{
    let r = insert_once(s, x);
    assert forall|t: Seq<char>| r.to_set().contains(t) <==> s.to_set().insert(x).contains(t) by {
        if s.contains(t) {
            let k = s.index_of(t);
            assert(r[k] == t);
        }
        if !s.contains(x) {
            assert(r[s.len() as int] == x);
        }
    }
    assert(r.to_set() =~= s.to_set().insert(x));
}

/// Puts a text into a list, unless it is in it already.
pub fn put_once(list: &mut Vec<String>, x: &str)
    ensures
        final(list).deep_view() == insert_once(old(list).deep_view(), x@),
{
    if !holds(list, x) {
        list.push(x.to_owned());
        assert(list.deep_view() =~= old(list).deep_view().push(x@));
    }
}

/// Context for a mutation operation, tracking side effects.
#[derive(Debug)]
pub struct MutationContext {
    pub op_name: String,
    pub actor: String,
    pub events: Vec<Event>,
    /// IDs of changed issues, none of them twice.
    pub dirty_ids: Vec<String>,
    pub invalidate_blocked_cache: bool,
}

/// The view of [`MutationContext`].
#[verifier::ext_equal]
pub struct MutationContextView {
    pub op_name: Seq<char>,
    pub actor: Seq<char>,
    pub events: Seq<EventView>,
    pub dirty_ids: Seq<Seq<char>>,
    pub invalidate_blocked_cache: bool,
}

impl DeepView for MutationContext {
    type V = MutationContextView;

    open spec fn deep_view(&self) -> MutationContextView {
        MutationContextView {
            op_name: self.op_name@,
            actor: self.actor@,
            events: self.events.deep_view(),
            dirty_ids: self.dirty_ids.deep_view(),
            invalidate_blocked_cache: self.invalidate_blocked_cache,
        }
    }
}

impl MutationContextView {
    /// A context in which nothing has been recorded.
    pub open spec fn fresh(op_name: Seq<char>, actor: Seq<char>) -> Self {
        MutationContextView {
            op_name,
            actor,
            events: seq![],
            dirty_ids: seq![],
            invalidate_blocked_cache: false,
        }
    }

    /// No dirty ID occurs twice.
    pub open spec fn wf(self) -> bool {
        self.dirty_ids.no_duplicates()
    }

    /// The context with one more event.
    pub open spec fn with_event(
        self,
        event_type: EventType,
        issue_id: Seq<char>,
        details: Option<Seq<char>>,
        now: Instant,
    ) -> Self {
        self.with_field_change(event_type, issue_id, None, None, details, now)
    }

    /// The context with one more event that carries an old and a new value.
    pub open spec fn with_field_change(
        self,
        event_type: EventType,
        issue_id: Seq<char>,
        old_value: Option<Seq<char>>,
        new_value: Option<Seq<char>>,
        comment: Option<Seq<char>>,
        now: Instant,
    ) -> Self {
        MutationContextView {
            events: self.events.push(
                EventView {
                    id: 0,
                    issue_id,
                    event_type,
                    actor: self.actor,
                    old_value,
                    new_value,
                    comment,
                    created_at: now,
                },
            ),
            ..self
        }
    }

    /// The context with an issue marked dirty.
    pub open spec fn with_dirty(self, issue_id: Seq<char>) -> Self {
        MutationContextView { dirty_ids: insert_once(self.dirty_ids, issue_id), ..self }
    }

    /// The context with the blocked cache marked stale.
    pub open spec fn with_stale_cache(self) -> Self {
        MutationContextView { invalidate_blocked_cache: true, ..self }
    }
}

impl MutationContext {
    /// A context in which nothing has been recorded.
    #[must_use]
    pub fn new(op_name: &str, actor: &str) -> (r: Self)
        ensures
            r.deep_view() == MutationContextView::fresh(op_name@, actor@),
            r.deep_view().wf(),
    {
        let events: Vec<Event> = Vec::new();
        let dirty_ids: Vec<String> = Vec::new();
        assert(events.deep_view() =~= seq![]);
        assert(dirty_ids.deep_view() =~= seq![]);
        MutationContext {
            op_name: op_name.to_owned(),
            actor: actor.to_owned(),
            events,
            dirty_ids,
            invalidate_blocked_cache: false,
        }
    }

    /// Record an event. The database assigns its ID.
    pub fn record_event(
        &mut self,
        event_type: EventType,
        issue_id: &str,
        details: Option<String>,
        now: Timestamp,
    )
        ensures
            final(self).deep_view() == old(self).deep_view().with_event(
                event_type,
                issue_id@,
                details.deep_view(),
                now.deep_view(),
            ),
    {
        self.record_field_change(event_type, issue_id, None, None, details, now);
    }

    /// Record a field change event with old and new values.
    pub fn record_field_change(
        &mut self,
        event_type: EventType,
        issue_id: &str,
        old_value: Option<String>,
        new_value: Option<String>,
        comment: Option<String>,
        now: Timestamp,
    )
        ensures
            final(self).deep_view() == old(self).deep_view().with_field_change(
                event_type,
                issue_id@,
                old_value.deep_view(),
                new_value.deep_view(),
                comment.deep_view(),
                now.deep_view(),
            ),
    {
        let event = Event {
            id: 0,
            issue_id: issue_id.to_owned(),
            event_type,
            actor: self.actor.clone(),
            old_value,
            new_value,
            comment,
            created_at: now,
        };
        let ghost item = event.deep_view();
        self.events.push(event);
        assert(self.events.deep_view() =~= old(self).events.deep_view().push(item));
    }

    /// Mark an issue as changed.
    pub fn mark_dirty(&mut self, issue_id: &str)
        ensures
            final(self).deep_view() == old(self).deep_view().with_dirty(issue_id@),
            old(self).deep_view().wf() ==> final(self).deep_view().wf(),
    {
        proof {
            if self.deep_view().wf() {
                lemma_insert_once(self.dirty_ids.deep_view(), issue_id@);
            }
        }
        put_once(&mut self.dirty_ids, issue_id);
    }

    /// Mark the blocked cache as stale.
    pub fn invalidate_cache(&mut self)
        ensures
            final(self).deep_view() == old(self).deep_view().with_stale_cache(),
    {
        self.invalidate_blocked_cache = true;
    }
}

/// A change is recorded: there is one event more, of this type and on this issue, by the one who makes
/// the change and at this time; the issue is dirty; and what was recorded before stays.
pub open spec fn recorded(
    before: MutationContextView,
    after: MutationContextView,
    event_type: EventType,
    id: Seq<char>,
    now: Instant,
) -> bool {
    &&& after.actor == before.actor
    &&& after.events.len() == before.events.len() + 1
    &&& after.events.drop_last() == before.events
    &&& after.events.last().event_type == event_type
    &&& after.events.last().issue_id == id
    &&& after.events.last().actor == before.actor
    &&& after.events.last().created_at == now
    &&& after.dirty_ids.contains(id)
    &&& forall|x: Seq<char>| before.dirty_ids.contains(x) ==> #[trigger] after.dirty_ids.contains(x)
}

/// An event and a dirty mark record a change.
pub proof fn lemma_recorded(
    ctx: MutationContextView,
    event_type: EventType,
    id: Seq<char>,
    details: Option<Seq<char>>,
    now: Instant,
)
    ensures
        recorded(ctx, ctx.with_event(event_type, id, details, now).with_dirty(id), event_type, id, now),
        recorded(
            ctx,
            ctx.with_event(event_type, id, details, now).with_dirty(id).with_stale_cache(),
            event_type,
            id,
            now,
        ),
{
    let after = ctx.with_event(event_type, id, details, now).with_dirty(id);
    assert(after.events.drop_last() =~= ctx.events);
    if !ctx.dirty_ids.contains(id) {
        assert(after.dirty_ids[ctx.dirty_ids.len() as int] == id);
    }
    assert forall|x: Seq<char>| ctx.dirty_ids.contains(x) implies #[trigger] after.dirty_ids.contains(
        x,
    ) by {
        let k = choose|k: int| 0 <= k < ctx.dirty_ids.len() && ctx.dirty_ids[k] == x;
        assert(after.dirty_ids[k] == x);
    }
}

/// The statement that writes an event.
pub open spec fn event_insert(e: EventView) -> StatementView {
    stmt(
        "INSERT INTO events (issue_id, event_type, actor, old_value, new_value, comment, created_at) VALUES (?, ?, ?, ?, ?, ?, ?)"@,
        seq![
            SqlCell::Text(e.issue_id),
            SqlCell::Text(e.event_type.name()),
            SqlCell::Text(e.actor),
            cell_of_opt(e.old_value),
            cell_of_opt(e.new_value),
            cell_of_opt(e.comment),
            SqlCell::Text(rfc3339(e.created_at)),
        ],
    )
}

/// The two statements that leave exactly one dirty mark on an issue.
pub open spec fn dirty_marks(id: Seq<char>, now: Instant) -> Seq<StatementView> {
    seq![
        stmt("DELETE FROM dirty_issues WHERE issue_id = ?"@, seq![SqlCell::Text(id)]),
        stmt(
            "INSERT INTO dirty_issues (issue_id, marked_at) VALUES (?, ?)"@,
            seq![SqlCell::Text(id), SqlCell::Text(rfc3339(now))],
        ),
    ]
}

/// The statements that write the events.
pub open spec fn event_script(events: Seq<EventView>) -> Seq<StatementView> {
    events.map_values(|e: EventView| event_insert(e))
}

/// The statements that mark issues dirty.
pub open spec fn dirty_script(ids: Seq<Seq<char>>, now: Instant) -> Seq<StatementView>
    decreases ids.len(),
{
    if ids.len() == 0 {
        seq![]
    } else {
        dirty_script(ids.drop_last(), now) + dirty_marks(ids.last(), now)
    }
}

/// What is written between the body of a mutation and its commit: the events, then the dirty
/// marks.
pub open spec fn closing_script(ctx: MutationContextView, now: Instant) -> Seq<StatementView> {
    event_script(ctx.events) + dirty_script(ctx.dirty_ids, now)
}

fn insert_of_event(e: &Event) -> (r: Statement)
    ensures
        r.deep_view() == event_insert(e.deep_view()),
{
    let mut params: Vec<SqlValue> = Vec::new();
    params.push(SqlValue::text(e.issue_id.as_str()));
    params.push(SqlValue::text(e.event_type.as_str()));
    params.push(SqlValue::text(e.actor.as_str()));
    params.push(SqlValue::opt_text(&e.old_value));
    params.push(SqlValue::opt_text(&e.new_value));
    params.push(SqlValue::opt_text(&e.comment));
    params.push(SqlValue::Text(e.created_at.to_rfc3339()));
    assert(params.deep_view() =~= event_insert(e.deep_view()).params);
    Statement {
        sql: "INSERT INTO events (issue_id, event_type, actor, old_value, new_value, comment, created_at) VALUES (?, ?, ?, ?, ?, ?, ?)".to_owned(),
        params,
    }
}

/// The statements that close a mutation.
pub fn closing_statements(ctx: &MutationContext, now: Timestamp) -> (r: Vec<Statement>)
    ensures
        r.deep_view() == closing_script(ctx.deep_view(), now.deep_view()),
{
    let mut out: Vec<Statement> = Vec::new();
    let ghost events = ctx.events.deep_view();
    let ghost ids = ctx.dirty_ids.deep_view();
    let ghost at = now.deep_view();
    let mut i: usize = 0;
    while i < ctx.events.len()
        invariant
            i <= ctx.events.len(),
            events == ctx.events.deep_view(),
            out.len() == i,
            forall|k: int| 0 <= k < i ==> (#[trigger] out@[k]).deep_view() == event_insert(events[k]),
        decreases ctx.events.len() - i,
    {
        out.push(insert_of_event(&ctx.events[i]));
        i += 1;
    }
    assert(out.deep_view() =~= event_script(events) + dirty_script(ids.take(0), at));
    let mut j: usize = 0;
    while j < ctx.dirty_ids.len()
        invariant
            j <= ctx.dirty_ids.len(),
            ids == ctx.dirty_ids.deep_view(),
            at == now.deep_view(),
            out.deep_view() == event_script(events) + dirty_script(ids.take(j as int), at),
        decreases ctx.dirty_ids.len() - j,
    {
        let ghost before = out.deep_view();
        let id = ctx.dirty_ids[j].as_str();
        out.push(Statement::with_text("DELETE FROM dirty_issues WHERE issue_id = ?", id));
        assert(out.deep_view() =~= before.push(dirty_marks(id@, at)[0]));
        let stamp = now.to_rfc3339();
        out.push(
            Statement::with_texts2(
                "INSERT INTO dirty_issues (issue_id, marked_at) VALUES (?, ?)",
                id,
                stamp.as_str(),
            ),
        );
        assert(out.deep_view() =~= before + dirty_marks(id@, at));
        assert(ids.take(j + 1).drop_last() =~= ids.take(j as int));
        assert(ids.take(j + 1).last() == id@);
        assert(out.deep_view() =~= event_script(events) + dirty_script(ids.take(j + 1), at));
        j += 1;
    }
    assert(ids.take(ids.len() as int) =~= ids);
    out
}

/// How often a mutation is tried.
pub const MAX_RETRIES: u32 = 5;

/// How long to wait before the next try, in milliseconds: ten, doubled with each try.
pub open spec fn backoff(attempt: nat) -> nat
    decreases attempt,
{
    if attempt == 0 {
        10
    } else {
        2 * backoff((attempt - 1) as nat)
    }
}

/// Where a mutation stands.
#[derive(Debug, Clone, Copy, PartialEq, Eq, Structural)]
pub enum Phase {
    /// The transaction is being opened.
    Beginning,
    /// The body of the mutation runs.
    Body,
    /// The statements that close the mutation are being executed.
    Writing,
    /// The blocked cache is being rebuilt.
    Caching,
    /// The transaction is being committed.
    Committing,
    /// The transaction is being rolled back, to try again or to give up.
    RollingBack { retry: bool },
    /// Waiting before the next try.
    Waiting,
    /// The mutation is over.
    Over { success: bool },
}

/// What the driver has to do next.
#[derive(Debug, PartialEq, Eq)]
pub enum TxAction {
    /// Execute `BEGIN IMMEDIATE`.
    Begin,
    /// Run the body with a fresh context.
    RunBody,
    /// Execute a statement.
    Execute(Statement),
    /// Rebuild the blocked cache.
    RebuildCache,
    /// Execute `COMMIT`.
    Commit,
    /// Execute `ROLLBACK`, whatever comes of it.
    Rollback,
    /// Sleep this many milliseconds.
    Sleep(u64),
    /// Return the result of the body.
    Succeed,
    /// Return the error that was reported before the rollback.
    Fail,
}

/// The view of [`TxAction`].
#[verifier::ext_equal]
pub enum TxActionView {
    Begin,
    RunBody,
    Execute(StatementView),
    RebuildCache,
    Commit,
    Rollback,
    Sleep(nat),
    Succeed,
    Fail,
}

impl DeepView for TxAction {
    type V = TxActionView;

    open spec fn deep_view(&self) -> TxActionView {
        match self {
            TxAction::Begin => TxActionView::Begin,
            TxAction::RunBody => TxActionView::RunBody,
            TxAction::Execute(s) => TxActionView::Execute(s.deep_view()),
            TxAction::RebuildCache => TxActionView::RebuildCache,
            TxAction::Commit => TxActionView::Commit,
            TxAction::Rollback => TxActionView::Rollback,
            TxAction::Sleep(ms) => TxActionView::Sleep(*ms as nat),
            TxAction::Succeed => TxActionView::Succeed,
            TxAction::Fail => TxActionView::Fail,
        }
    }
}

/// What came of the last action.
#[derive(Debug)]
pub enum TxReply {
    /// It succeeded.
    Done,
    /// The body succeeded and left these statements to execute.
    BodyDone { script: Vec<Statement>, rebuild: bool },
    /// It failed; `busy_snapshot` where the database lost a race with another writer.
    Failed { busy_snapshot: bool },
}

/// The view of [`TxReply`].
#[verifier::ext_equal]
pub enum TxReplyView {
    Done,
    BodyDone { script: Seq<StatementView>, rebuild: bool },
    Failed { busy_snapshot: bool },
}

impl DeepView for TxReply {
    type V = TxReplyView;

    open spec fn deep_view(&self) -> TxReplyView {
        match self {
            TxReply::Done => TxReplyView::Done,
            TxReply::BodyDone { script, rebuild } => TxReplyView::BodyDone {
                script: script.deep_view(),
                rebuild: *rebuild,
            },
            TxReply::Failed { busy_snapshot } => TxReplyView::Failed {
                busy_snapshot: *busy_snapshot,
            },
        }
    }
}

/// The state of a mutation.
#[verifier::ext_equal]
pub struct TxState {
    pub attempt: nat,
    pub phase: Phase,
    pub script: Seq<StatementView>,
    pub next: nat,
    pub rebuild: bool,
}

impl TxState {
    /// The state before anything was done.
    pub open spec fn start() -> Self {
        TxState {
            attempt: 0,
            phase: Phase::Beginning,
            script: seq![],
            next: 0,
            rebuild: false,
        }
    }

    /// The attempts are counted within their limit, the position lies in the script.
    pub open spec fn wf(self) -> bool {
        self.attempt < MAX_RETRIES && self.next <= self.script.len()
    }

    pub open spec fn in_phase(self, phase: Phase) -> Self {
        TxState { phase, ..self }
    }

    /// Whether a commit that failed is tried again.
    pub open spec fn retries(self, busy_snapshot: bool) -> bool {
        busy_snapshot && self.attempt + 1 < MAX_RETRIES
    }
}

/// Executes what is left of the script, then rebuilds the cache where asked, then commits.
pub open spec fn tx_proceed(s: TxState) -> (TxState, TxActionView) {
    if s.next < s.script.len() {
        (
            TxState { phase: Phase::Writing, next: s.next + 1, ..s },
            TxActionView::Execute(s.script[s.next as int]),
        )
    } else if s.rebuild {
        (
            TxState { phase: Phase::Caching, rebuild: false, ..s },
            TxActionView::RebuildCache,
        )
    } else {
        (s.in_phase(Phase::Committing), TxActionView::Commit)
    }
}

/// Rolls the transaction back.
pub open spec fn tx_roll_back(s: TxState, retry: bool) -> (TxState, TxActionView) {
    (s.in_phase(Phase::RollingBack { retry }), TxActionView::Rollback)
}

/// The next state and action, given what came of the last action.
///
/// A failure inside the transaction is answered with a rollback. Only a commit that lost a race
/// is tried again.
pub open spec fn tx_step(s: TxState, reply: TxReplyView) -> (TxState, TxActionView) {
    let failed = reply is Failed;
    match s.phase {
        Phase::Beginning => if failed {
            (s.in_phase(Phase::Over { success: false }), TxActionView::Fail)
        } else {
            (s.in_phase(Phase::Body), TxActionView::RunBody)
        },
        Phase::Body => match reply {
            TxReplyView::Failed { .. } => tx_roll_back(s, false),
            TxReplyView::BodyDone { script, rebuild } => tx_proceed(
                TxState { script, next: 0, rebuild, ..s },
            ),
            TxReplyView::Done => tx_proceed(
                TxState { script: seq![], next: 0, rebuild: false, ..s },
            ),
        },
        Phase::Writing => if failed {
            tx_roll_back(s, false)
        } else {
            tx_proceed(s)
        },
        Phase::Caching => if failed {
            tx_roll_back(s, false)
        } else {
            tx_proceed(s)
        },
        Phase::Committing => match reply {
            TxReplyView::Failed { busy_snapshot } => tx_roll_back(s, s.retries(busy_snapshot)),
            _ => (s.in_phase(Phase::Over { success: true }), TxActionView::Succeed),
        },
        Phase::RollingBack { retry } => if retry {
            (s.in_phase(Phase::Waiting), TxActionView::Sleep(backoff(s.attempt)))
        } else {
            (s.in_phase(Phase::Over { success: false }), TxActionView::Fail)
        },
        Phase::Waiting => if s.attempt + 1 < MAX_RETRIES {
            (
                TxState { attempt: s.attempt + 1, phase: Phase::Beginning, ..s },
                TxActionView::Begin,
            )
        } else {
            (s.in_phase(Phase::Over { success: false }), TxActionView::Fail)
        },
        Phase::Over { success } => (
            s,
            if success {
                TxActionView::Succeed
            } else {
                TxActionView::Fail
            },
        ),
    }
}

/// A mutation under way: each reply of the driver leads to the next action.
#[derive(Debug)]
pub struct MutationRun {
    attempt: u32,
    phase: Phase,
    script: Vec<Statement>,
    next: usize,
    rebuild: bool,
}

impl DeepView for MutationRun {
    type V = TxState;

    closed spec fn deep_view(&self) -> TxState {
        TxState {
            attempt: self.attempt as nat,
            phase: self.phase,
            script: self.script.deep_view(),
            next: self.next as nat,
            rebuild: self.rebuild,
        }
    }
}

fn backoff_millis(attempt: u32) -> (r: u64)
    requires
        attempt < MAX_RETRIES,
    ensures
        r == backoff(attempt as nat),
{
    let mut ms: u64 = 10;
    let mut i: u32 = 0;
    while i < attempt
        invariant
            i <= attempt < MAX_RETRIES,
            ms == backoff(i as nat),
            i == 0 ==> ms == 10,
            i == 1 ==> ms == 20,
            i == 2 ==> ms == 40,
            i == 3 ==> ms == 80,
            i == 4 ==> ms == 160,
        decreases attempt - i,
    {
        ms = 2 * ms;
        i += 1;
    }
    ms
}

impl MutationRun {
    /// A mutation of which nothing was done yet. Its first action is to begin.
    pub fn start() -> (r: (MutationRun, TxAction))
        ensures
            r.0.deep_view() == TxState::start(),
            r.0.deep_view().wf(),
            r.1.deep_view() == TxActionView::Begin,
    {
        let script: Vec<Statement> = Vec::new();
        assert(script.deep_view() =~= seq![]);
        (
            MutationRun { attempt: 0, phase: Phase::Beginning, script, next: 0, rebuild: false },
            TxAction::Begin,
        )
    }

    fn proceed(&mut self) -> (r: TxAction)
        requires
            old(self).deep_view().wf(),
        ensures
            final(self).deep_view().wf(),
            (final(self).deep_view(), r.deep_view()) == tx_proceed(old(self).deep_view()),
    {
        if self.next < self.script.len() {
            let statement = self.script[self.next].copy();
            self.phase = Phase::Writing;
            self.next = self.next + 1;
            TxAction::Execute(statement)
        } else if self.rebuild {
            self.phase = Phase::Caching;
            self.rebuild = false;
            TxAction::RebuildCache
        } else {
            self.phase = Phase::Committing;
            TxAction::Commit
        }
    }

    fn roll_back(&mut self, retry: bool) -> (r: TxAction)
        requires
            old(self).deep_view().wf(),
        ensures
            final(self).deep_view().wf(),
            (final(self).deep_view(), r.deep_view()) == tx_roll_back(
                old(self).deep_view(),
                retry,
            ),
    {
        self.phase = Phase::RollingBack { retry };
        TxAction::Rollback
    }

    fn over(&mut self, success: bool) -> (r: TxAction)
        requires
            old(self).deep_view().wf(),
        ensures
            final(self).deep_view().wf(),
            final(self).deep_view() == old(self).deep_view().in_phase(Phase::Over { success }),
            r.deep_view() == (if success {
                TxActionView::Succeed
            } else {
                TxActionView::Fail
            }),
    {
        self.phase = Phase::Over { success };
        if success {
            TxAction::Succeed
        } else {
            TxAction::Fail
        }
    }

    /// The next action, given what came of the last one.
    pub fn step(&mut self, reply: TxReply) -> (r: TxAction)
        requires
            old(self).deep_view().wf(),
        ensures
            final(self).deep_view().wf(),
            (final(self).deep_view(), r.deep_view()) == tx_step(
                old(self).deep_view(),
                reply.deep_view(),
            ),
    {
        let failed = match &reply {
            TxReply::Failed { .. } => true,
            _ => false,
        };
        match self.phase {
            Phase::Beginning => {
                if failed {
                    self.over(false)
                } else {
                    self.phase = Phase::Body;
                    TxAction::RunBody
                }
            },
            Phase::Body => {
                match reply {
                    TxReply::Failed { .. } => self.roll_back(false),
                    TxReply::BodyDone { script, rebuild } => {
                        self.script = script;
                        self.next = 0;
                        self.rebuild = rebuild;
                        self.proceed()
                    },
                    TxReply::Done => {
                        self.script = Vec::new();
                        assert(self.script.deep_view() =~= seq![]);
                        self.next = 0;
                        self.rebuild = false;
                        self.proceed()
                    },
                }
            },
            Phase::Writing => {
                if failed {
                    self.roll_back(false)
                } else {
                    self.proceed()
                }
            },
            Phase::Caching => {
                if failed {
                    self.roll_back(false)
                } else {
                    self.proceed()
                }
            },
            Phase::Committing => {
                match reply {
                    TxReply::Failed { busy_snapshot } => {
                        let retry = busy_snapshot && self.attempt + 1 < MAX_RETRIES;
                        self.roll_back(retry)
                    },
                    _ => self.over(true),
                }
            },
            Phase::RollingBack { retry } => {
                if retry {
                    self.phase = Phase::Waiting;
                    TxAction::Sleep(backoff_millis(self.attempt))
                } else {
                    self.over(false)
                }
            },
            Phase::Waiting => {
                if self.attempt + 1 < MAX_RETRIES {
                    self.attempt = self.attempt + 1;
                    self.phase = Phase::Beginning;
                    TxAction::Begin
                } else {
                    self.over(false)
                }
            },
            Phase::Over { success } => self.over(success),
        }
    }
}

/// The state after a run of replies.
pub open spec fn tx_run(replies: Seq<TxReplyView>) -> TxState
    decreases replies.len(),
{
    if replies.len() == 0 {
        TxState::start()
    } else {
        tx_step(tx_run(replies.drop_last()), replies.last()).0
    }
}

/// The actions of a run of replies, the first one to begin.
pub open spec fn tx_actions(replies: Seq<TxReplyView>) -> Seq<TxActionView>
    decreases replies.len(),
{
    if replies.len() == 0 {
        seq![TxActionView::Begin]
    } else {
        tx_actions(replies.drop_last()).push(
            tx_step(tx_run(replies.drop_last()), replies.last()).1,
        )
    }
}

/// How often an action occurs.
pub open spec fn occurrences(actions: Seq<TxActionView>, a: TxActionView) -> nat
    decreases actions.len(),
{
    if actions.len() == 0 {
        0
    } else {
        occurrences(actions.drop_last(), a) + if actions.last() == a {
            1nat
        } else {
            0nat
        }
    }
}

/// Whatever the replies, a transaction is begun five times at most.
pub proof fn lemma_attempts_are_bounded(replies: Seq<TxReplyView>)
    ensures
        occurrences(tx_actions(replies), TxActionView::Begin) == tx_run(replies).attempt + 1,
        tx_run(replies).wf(),
        occurrences(tx_actions(replies), TxActionView::Begin) <= MAX_RETRIES,
    decreases replies.len(),
{
    if replies.len() == 0 {
        reveal_with_fuel(occurrences, 2);
        assert(seq![TxActionView::Begin].drop_last() =~= seq![]);
    } else {
        lemma_attempts_are_bounded(replies.drop_last());
        let all = tx_actions(replies);
        assert(all.drop_last() =~= tx_actions(replies.drop_last()));
    }
}

/// A transaction is open: it was begun, and neither committed nor rolled back since.
pub open spec fn tx_open(s: TxState) -> bool {
    s.phase is Body || s.phase is Writing || s.phase is Caching || s.phase is Committing
}

/// A mutation fails only where its transaction could not be opened or has been rolled back:
/// a failure inside an open transaction is answered with a rollback.
pub proof fn lemma_failure_is_rolled_back(s: TxState, reply: TxReplyView)
    ensures
        tx_open(s) && reply is Failed ==> tx_step(s, reply).1 is Rollback,
        tx_step(s, reply).1 is Fail ==> !tx_open(s),
{
}

/// A mutation succeeds only after a commit that succeeded, and a commit is tried only when
/// everything that the body left to write has been executed.
pub proof fn lemma_commit_comes_last(s: TxState, reply: TxReplyView)
    requires
        s.wf(),
    ensures
        tx_step(s, reply).1 is Commit ==> {
            let after = tx_step(s, reply).0;
            after.next == after.script.len() && !after.rebuild
        },
        tx_step(s, reply).1 is Succeed && !(s.phase is Over) ==> s.phase is Committing
            && !(reply is Failed),
{
}

/// The statements that a run of replies has had executed since the body ended are a prefix of
/// what the body left to write, in its order.
pub proof fn lemma_script_is_executed_in_order(s: TxState, reply: TxReplyView)
    requires
        s.wf(),
        s.phase is Writing,
    ensures
        tx_step(s, reply).1 is Execute ==> tx_step(s, reply).1->Execute_0
            == s.script[s.next as int] && tx_step(s, reply).0.next == s.next + 1 && tx_step(
            s,
            reply,
        ).0.script == s.script,
{
}

} // verus!
