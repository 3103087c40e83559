//! Closing issues in one database: what is asked of it, what it is told to do, and what becomes
//! of each issue.

use crate::assoc::TextMap;
use crate::batch::compute_batch_closable_ids;
use crate::blocked::strip_annotations;
use crate::clock::Timestamp;
use crate::close::{
    CloseArgs,
    CloseExecution,
    CloseOutcome,
    ClosedIssue,
    SkippedIssue,
    UnblockedIssue,
};
use crate::model::{Issue, Status};
use crate::order::sort_unique;
use crate::scan::write_decimal;
use crate::text::{copy_texts, holds, join_texts, joined};
use crate::update::IssueUpdate;
use vstd::prelude::*;

verus! {

use crate::assoc::{get_in, has_key, keys_of, list_of, put_in};
use crate::batch::closable_together;
use crate::blocked::blocker_ids;
use crate::clock::{rfc3339, Instant};
use crate::close::{
    CloseArgsView,
    CloseExecutionView,
    CloseOutcomeView,
    ClosedIssueView,
    SkippedIssueView,
    UnblockedIssueView,
};
use crate::links::{closed_children, lemma_counts_terminal_children, rows_of_parent};
use crate::model::{IssueView, StatusView};
use crate::order::sorted_unique;
use crate::scan::decimal;
use crate::sql::{text_at, text_at_or, SqlCell};
use crate::text::join;
use crate::update::IssueUpdateView;

/// The texts of a list that are in a set.
pub open spec fn within(list: Seq<Seq<char>>, set: Set<Seq<char>>) -> Seq<Seq<char>>
    decreases list.len(),
{
    if list.len() == 0 {
        seq![]
    } else if set.contains(list.last()) {
        within(list.drop_last(), set).push(list.last())
    } else {
        within(list.drop_last(), set)
    }
}

/// The texts of a list that are not in a set.
pub open spec fn beyond(list: Seq<Seq<char>>, set: Set<Seq<char>>) -> Seq<Seq<char>>
    decreases list.len(),
{
    if list.len() == 0 {
        seq![]
    } else if set.contains(list.last()) {
        beyond(list.drop_last(), set)
    } else {
        beyond(list.drop_last(), set).push(list.last())
    }
}

/// Parts a list in two: the texts that are in a set, and those that are not.
pub fn partition(list: &Vec<String>, members: &Vec<String>) -> (r: (Vec<String>, Vec<String>))
    ensures
        r.0.deep_view() == within(list.deep_view(), members.deep_view().to_set()),
        r.1.deep_view() == beyond(list.deep_view(), members.deep_view().to_set()),
{
    let ghost all = list.deep_view();
    let ghost set = members.deep_view().to_set();
    let mut inside: Vec<String> = Vec::new();
    let mut outside: Vec<String> = Vec::new();
    let mut i: usize = 0;
    assert(inside.deep_view() =~= seq![]);
    assert(outside.deep_view() =~= seq![]);
    while i < list.len()
        invariant
            i <= list.len(),
            all == list.deep_view(),
            set == members.deep_view().to_set(),
            inside.deep_view() == within(all.take(i as int), set),
            outside.deep_view() == beyond(all.take(i as int), set),
        decreases list.len() - i,
    {
        let ghost a = inside.deep_view();
        let ghost b = outside.deep_view();
        assert(all.take(i + 1).drop_last() =~= all.take(i as int));
        assert(all.take(i + 1).last() == list@[i as int]@);
        if holds(members, list[i].as_str()) {
            inside.push(list[i].clone());
            assert(inside.deep_view() =~= a.push(list@[i as int]@));
        } else {
            outside.push(list[i].clone());
            assert(outside.deep_view() =~= b.push(list@[i as int]@));
        }
        i += 1;
    }
    assert(all.take(all.len() as int) =~= all);
    (inside, outside)
}

/// Why an issue with open children is not closed.
pub open spec fn children_reason(epic: bool, total: nat, closed: nat) -> Seq<char> {
    (if epic {
        "epic"@
    } else {
        "parent issue"@
    }) + " has "@ + decimal((total - closed) as nat) + "/"@ + decimal(total)
        + " open children (use --force to close anyway)"@
}

/// Why an issue is skipped before its blockers are looked at: there is none with this ID, it is
/// closed or deleted already, or it has open children. Force overrides the last.
pub open spec fn skip_reason(
    force: bool,
    counts: Seq<(Seq<char>, (usize, usize))>,
    id: Seq<char>,
    issue: Option<IssueView>,
) -> Option<Seq<char>> {
    match issue {
        None => Some("issue not found"@),
        Some(issue) => if issue.status.terminal() {
            Some("already "@ + issue.status.name())
        } else if force {
            None
        } else {
            match get_in(counts, id) {
                Some(c) => if c.1 < c.0 {
                    Some(children_reason(issue.issue_type is Epic, c.0 as nat, c.1 as nat))
                } else {
                    None
                },
                None => None,
            }
        },
    }
}

/// Why an issue is skipped before its blockers are looked at, `None` where it is not.
pub fn triage(
    force: bool,
    counts: &TextMap<(usize, usize)>,
    id: &str,
    issue: &Option<Issue>,
) -> (r: Option<String>)
    ensures
        r.deep_view() == skip_reason(force, counts.deep_view(), id@, issue.deep_view()),
{
    match issue {
        None => Some("issue not found".to_owned()),
        Some(issue) => {
            if issue.status.is_terminal() {
                return Some(joined("already ", issue.status.as_str()));
            }
            if force {
                return None;
            }
            match counts.get(id) {
                Some(c) => {
                    let (total, closed): (usize, usize) = *c;
                    if closed < total {
                        let mut reason = if issue.issue_type.is_epic() {
                            "epic".to_owned()
                        } else {
                            "parent issue".to_owned()
                        };
                        reason.append(" has ");
                        reason.append(write_decimal((total - closed) as u64).as_str());
                        reason.append("/");
                        reason.append(write_decimal(total as u64).as_str());
                        reason.append(" open children (use --force to close anyway)");
                        Some(reason)
                    } else {
                        None
                    }
                },
                None => None,
            }
        },
    }
}

/// With the counts of an issue's children as they are taken from the rows for them: an issue whose
/// children are all closed or deleted is not skipped for open children, and without force one of
/// whose children any is in another state is skipped, for a reason that gives the number of
/// children in another state and the number of children.
pub proof fn lemma_skips_for_open_children(
    rows: Seq<Seq<SqlCell>>,
    counts: Seq<(Seq<char>, (usize, usize))>,
    id: Seq<char>,
    issue: IssueView,
)
    requires
        rows.len() <= usize::MAX,
        id.len() > 0,
        !issue.status.terminal(),
        get_in(counts, id) == ({
            let own = rows_of_parent(rows, id);
            if own.len() == 0 {
                None
            } else {
                Some((own.len() as usize, closed_children(own) as usize))
            }
        }),
    ensures
        skip_reason(true, counts, id, Some(issue)) is None,
        (forall|k: int|
            0 <= k < rows.len() && text_at(#[trigger] rows[k], 0) == Some(id) ==> text_at(
                rows[k],
                1,
            ) == Some("closed"@) || text_at(rows[k], 1) == Some("tombstone"@)) ==> skip_reason(
            false,
            counts,
            id,
            Some(issue),
        ) is None,
        (exists|k: int|
            0 <= k < rows.len() && text_at(#[trigger] rows[k], 0) == Some(id) && text_at(rows[k], 1)
                != Some("closed"@) && text_at(rows[k], 1) != Some("tombstone"@)) ==> skip_reason(
            false,
            counts,
            id,
            Some(issue),
        ) == Some(
            children_reason(
                issue.issue_type is Epic,
                rows.filter(|row: Seq<SqlCell>| text_at(row, 0) == Some(id)).len(),
                rows.filter(
                    |row: Seq<SqlCell>|
                        text_at(row, 0) == Some(id) && (text_at(row, 1) == Some("closed"@)
                            || text_at(row, 1) == Some("tombstone"@)),
                ).len(),
            ),
        ),
{
    lemma_counts_terminal_children(rows, id);
    lemma_children_filtered(rows, id);
    reveal_strlit("closed");
    reveal_strlit("tombstone");
    if exists|k: int|
        0 <= k < rows.len() && text_at(#[trigger] rows[k], 0) == Some(id) && text_at(rows[k], 1)
            != Some("closed"@) && text_at(rows[k], 1) != Some("tombstone"@) {
        let k = choose|k: int|
            0 <= k < rows.len() && text_at(#[trigger] rows[k], 0) == Some(id) && text_at(rows[k], 1)
                != Some("closed"@) && text_at(rows[k], 1) != Some("tombstone"@);
        assert(text_at_or(rows[k], 0, seq![]) == id);
        assert("closed"@.len() == 6 && "tombstone"@.len() == 9);
        assert(text_at_or(rows[k], 1, seq![]) != "closed"@ && text_at_or(rows[k], 1, seq![])
            != "tombstone"@);
    }
}

proof fn lemma_children_filtered(rows: Seq<Seq<SqlCell>>, id: Seq<char>)
    requires
        id.len() > 0,
    ensures
        rows_of_parent(rows, id).len() <= rows.len(),
        closed_children(rows_of_parent(rows, id)) <= rows_of_parent(rows, id).len(),
        rows_of_parent(rows, id).len() == rows.filter(
            |row: Seq<SqlCell>| text_at(row, 0) == Some(id),
        ).len(),
        closed_children(rows_of_parent(rows, id)) == rows.filter(
            |row: Seq<SqlCell>|
                text_at(row, 0) == Some(id) && (text_at(row, 1) == Some("closed"@) || text_at(
                    row,
                    1,
                ) == Some("tombstone"@)),
        ).len(),
    decreases rows.len(),
{
    reveal(Seq::filter);
    reveal_strlit("closed");
    reveal_strlit("tombstone");
    if rows.len() > 0 {
        lemma_children_filtered(rows.drop_last(), id);
        let own = rows_of_parent(rows.drop_last(), id);
        assert(own.push(rows.last()).drop_last() =~= own);
        assert("closed"@.len() == 6 && "tombstone"@.len() == 9);
        assert(crate::links::child_is_closed(rows.last()) <==> text_at(rows.last(), 1) == Some(
            "closed"@,
        ) || text_at(rows.last(), 1) == Some("tombstone"@));
    }
}

/// Why a blocked issue is skipped.
pub open spec fn blocked_reason(blockers: Seq<Seq<char>>) -> Seq<char> {
    if blockers.len() == 0 {
        "blocked by dependencies"@
    } else {
        "blocked by: "@ + join(blockers, ", "@)
    }
}

/// Why an issue whose children are still open when its turn comes is skipped.
pub open spec fn open_children_reason(children: Seq<Seq<char>>) -> Seq<char> {
    "has "@ + decimal(children.len()) + " open child issue(s): "@ + join(children, ", "@)
}

/// The reason that is noted for closing an issue.
pub open spec fn noted_reason(args: CloseArgsView) -> Seq<char> {
    match args.reason {
        Some(reason) => reason,
        None => "done"@,
    }
}

/// The update that closes an issue.
pub open spec fn close_update(args: CloseArgsView, now: Instant) -> IssueUpdateView {
    IssueUpdateView {
        status: Some(StatusView::Closed),
        closed_at: Some(Some(now)),
        close_reason: Some(Some(noted_reason(args))),
        closed_by_session: match args.session {
            Some(session) => Some(Some(session)),
            None => None,
        },
        skip_cache_rebuild: true,
        ..IssueUpdateView::nothing()
    }
}

fn reason_to_note(args: &CloseArgs) -> (r: String)
    ensures
        r@ == noted_reason(args.deep_view()),
{
    match &args.reason {
        Some(reason) => reason.clone(),
        None => "done".to_owned(),
    }
}

/// The update that closes an issue.
pub fn closing_update(args: &CloseArgs, now: Timestamp) -> (r: IssueUpdate)
    ensures
        r.deep_view() == close_update(args.deep_view(), now.deep_view()),
{
    let mut update = IssueUpdate::nothing();
    update.status = Some(Status::Closed);
    update.closed_at = Some(Some(now));
    update.close_reason = Some(Some(reason_to_note(args)));
    update.closed_by_session = match &args.session {
        Some(session) => Some(Some(session.clone())),
        None => None,
    };
    update.skip_cache_rebuild = true;
    update
}

/// Where closing stands.
#[derive(Debug, Clone, Copy, PartialEq, Eq, Structural)]
pub enum RoutePhase {
    /// The issue in this place is being fetched.
    Lookup { at: usize },
    /// Whether the issue in this place is blocked is being asked.
    Blocked { at: usize },
    /// The blockers of the issue in this place are being fetched.
    Blockers { at: usize },
    /// The open children of the issue in this place are being fetched.
    Children { at: usize },
    /// The issue in this place is being closed.
    Closing { at: usize },
    /// The cache of blocked issues is being refreshed.
    Refresh,
    /// The issues that are blocked now are being fetched.
    After,
    /// The candidate in this place is being fetched.
    Candidate { at: usize },
    /// What was changed is being flushed.
    Flush,
    /// What was changed is being flushed, and nothing is left to do behind it.
    LastFlush,
    /// What was changed is being exported.
    AutoFlush,
    /// Closing is over.
    Over { success: bool },
}

/// What the driver has to do next. Where an action says that the cache is dirty, the driver
/// preserves the cache of blocked issues if the action fails.
#[derive(Debug)]
pub enum RouteAction {
    /// Fetch an issue.
    FetchIssue { id: String, cache_dirty: bool },
    /// Ask whether an issue is blocked.
    AskBlocked { id: String, cache_dirty: bool },
    /// Fetch the blockers of an issue, with their annotations.
    FetchBlockers { id: String, cache_dirty: bool },
    /// Fetch the open children of an issue.
    FetchOpenChildren { id: String },
    /// Update an issue, with recovery where the cache is not dirty.
    Close { id: String, update: IssueUpdate, cache_dirty: bool },
    /// Refresh the cache of blocked issues.
    RefreshCache,
    /// Fetch the IDs of all blocked issues.
    FetchBlocked { cache_dirty: bool },
    /// Flush what was changed.
    Flush,
    /// Export what was changed.
    AutoFlush,
    /// All is done.
    Finish,
    /// Give up with the error of the last action.
    Fail,
}

/// The view of [`RouteAction`].
#[verifier::ext_equal]
pub enum RouteActionView {
    FetchIssue { id: Seq<char>, cache_dirty: bool },
    AskBlocked { id: Seq<char>, cache_dirty: bool },
    FetchBlockers { id: Seq<char>, cache_dirty: bool },
    FetchOpenChildren { id: Seq<char> },
    Close { id: Seq<char>, update: IssueUpdateView, cache_dirty: bool },
    RefreshCache,
    FetchBlocked { cache_dirty: bool },
    Flush,
    AutoFlush,
    Finish,
    Fail,
}

impl DeepView for RouteAction {
    type V = RouteActionView;

    open spec fn deep_view(&self) -> RouteActionView {
        match self {
            RouteAction::FetchIssue { id, cache_dirty } => RouteActionView::FetchIssue {
                id: id@,
                cache_dirty: *cache_dirty,
            },
            RouteAction::AskBlocked { id, cache_dirty } => RouteActionView::AskBlocked {
                id: id@,
                cache_dirty: *cache_dirty,
            },
            RouteAction::FetchBlockers { id, cache_dirty } => RouteActionView::FetchBlockers {
                id: id@,
                cache_dirty: *cache_dirty,
            },
            RouteAction::FetchOpenChildren { id } => RouteActionView::FetchOpenChildren { id: id@ },
            RouteAction::Close { id, update, cache_dirty } => RouteActionView::Close {
                id: id@,
                update: update.deep_view(),
                cache_dirty: *cache_dirty,
            },
            RouteAction::RefreshCache => RouteActionView::RefreshCache,
            RouteAction::FetchBlocked { cache_dirty } => RouteActionView::FetchBlocked {
                cache_dirty: *cache_dirty,
            },
            RouteAction::Flush => RouteActionView::Flush,
            RouteAction::AutoFlush => RouteActionView::AutoFlush,
            RouteAction::Finish => RouteActionView::Finish,
            RouteAction::Fail => RouteActionView::Fail,
        }
    }
}

/// What came of the last action.
#[derive(Debug)]
pub enum RouteReply {
    /// The issue that was fetched, if there is one.
    Found(Option<Issue>),
    /// The answer to a question.
    Answer(bool),
    /// The IDs that were fetched.
    Listed(Vec<String>),
    /// It was done.
    Done,
    /// It failed.
    Failed,
}

/// The view of [`RouteReply`].
#[verifier::ext_equal]
pub enum RouteReplyView {
    Found(Option<IssueView>),
    Answer(bool),
    Listed(Seq<Seq<char>>),
    Done,
    Failed,
}

impl DeepView for RouteReply {
    type V = RouteReplyView;

    open spec fn deep_view(&self) -> RouteReplyView {
        match self {
            RouteReply::Found(issue) => RouteReplyView::Found(issue.deep_view()),
            RouteReply::Answer(b) => RouteReplyView::Answer(*b),
            RouteReply::Listed(list) => RouteReplyView::Listed(list.deep_view()),
            RouteReply::Done => RouteReplyView::Done,
            RouteReply::Failed => RouteReplyView::Failed,
        }
    }
}

impl RouteReplyView {
    /// The issue of the reply, none where it carries none.
    pub open spec fn found(self) -> Option<IssueView> {
        match self {
            RouteReplyView::Found(issue) => issue,
            _ => None,
        }
    }

    /// The answer of the reply, no where it carries none.
    pub open spec fn answer(self) -> bool {
        match self {
            RouteReplyView::Answer(b) => b,
            _ => false,
        }
    }

    /// The IDs of the reply, none where it carries none.
    pub open spec fn listed(self) -> Seq<Seq<char>> {
        match self {
            RouteReplyView::Listed(list) => list,
            _ => seq![],
        }
    }
}

impl RouteReply {
    fn into_found(self) -> (r: Option<Issue>)
        ensures
            r.deep_view() == self.deep_view().found(),
    {
        match self {
            RouteReply::Found(issue) => issue,
            _ => None,
        }
    }

    fn is_yes(&self) -> (r: bool)
        ensures
            r == self.deep_view().answer(),
    {
        match self {
            RouteReply::Answer(b) => *b,
            _ => false,
        }
    }

    fn into_listed(self) -> (r: Vec<String>)
        ensures
            r.deep_view() == self.deep_view().listed(),
    {
        match self {
            RouteReply::Listed(list) => list,
            _ => {
                let none: Vec<String> = Vec::new();
                assert(none.deep_view() =~= seq![]);
                none
            },
        }
    }

    fn failed(&self) -> (r: bool)
        ensures
            r == (self.deep_view() is Failed),
    {
        match self {
            RouteReply::Failed => true,
            _ => false,
        }
    }
}

/// The state of closing issues in one database.
#[verifier::ext_equal]
pub struct RouteState {
    /// The arguments of the command.
    pub args: CloseArgsView,
    /// The issues to close.
    pub ids: Seq<Seq<char>>,
    /// For each parent how many children it has, and how many of them are closed.
    pub counts: Seq<(Seq<char>, (usize, usize))>,
    /// The issues that were blocked before.
    pub before: Seq<Seq<char>>,
    /// Whether to export what was changed.
    pub auto_flush: bool,
    pub phase: RoutePhase,
    /// The titles of the issues that can be closed as far as their own state goes.
    pub titles: Seq<(Seq<char>, Seq<char>)>,
    /// For each of them its blockers among the issues to close.
    pub internal: Seq<(Seq<char>, Seq<Seq<char>>)>,
    /// For each of them its other blockers.
    pub external: Seq<(Seq<char>, Seq<Seq<char>>)>,
    /// The issues that can be closed together.
    pub closable: Set<Seq<char>>,
    /// What was done.
    pub done: CloseExecutionView,
    /// Whether an issue was closed.
    pub dirty: bool,
    /// When the issue that is being closed was closed.
    pub now: Instant,
    /// The issues that are no longer blocked.
    pub candidates: Seq<Seq<char>>,
}

impl RouteState {
    /// The state before anything was done.
    pub open spec fn fresh(
        args: CloseArgsView,
        ids: Seq<Seq<char>>,
        counts: Seq<(Seq<char>, (usize, usize))>,
        before: Seq<Seq<char>>,
        auto_flush: bool,
        now: Instant,
    ) -> Self {
        RouteState {
            args,
            ids,
            counts,
            before,
            auto_flush,
            phase: RoutePhase::Lookup { at: 0 },
            titles: seq![],
            internal: seq![],
            external: seq![],
            closable: Set::empty(),
            done: CloseExecutionView::fresh(),
            dirty: false,
            now,
            candidates: seq![],
        }
    }

    pub open spec fn in_phase(self, phase: RoutePhase) -> Self {
        RouteState { phase, ..self }
    }

    /// The place that the phase speaks of is a place among the issues, or the candidates; an
    /// issue that is being closed has a title.
    pub open spec fn wf(self) -> bool {
        match self.phase {
            RoutePhase::Lookup { at } => at < self.ids.len(),
            RoutePhase::Blocked { at } => at < self.ids.len(),
            RoutePhase::Blockers { at } => at < self.ids.len(),
            RoutePhase::Children { at } => at < self.ids.len() && has_key(
                self.titles,
                self.ids[at as int],
            ),
            RoutePhase::Closing { at } => at < self.ids.len() && has_key(
                self.titles,
                self.ids[at as int],
            ),
            RoutePhase::Candidate { at } => at < self.candidates.len(),
            _ => true,
        }
    }

    /// An issue is skipped.
    pub open spec fn skip(self, id: Seq<char>, reason: Seq<char>) -> Self {
        let skipped = SkippedIssueView { id, reason };
        RouteState {
            done: CloseExecutionView {
                skipped: self.done.skipped.push(skipped),
                ordered_outcomes: self.done.ordered_outcomes.push(
                    CloseOutcomeView::Skipped(skipped),
                ),
                ..self.done
            },
            ..self
        }
    }

    /// An issue is skipped for its open children: that is no outcome in the order of the issues.
    pub open spec fn skip_for_children(self, id: Seq<char>, children: Seq<Seq<char>>) -> Self {
        RouteState {
            done: CloseExecutionView {
                skipped: self.done.skipped.push(
                    SkippedIssueView { id, reason: open_children_reason(children) },
                ),
                ..self.done
            },
            ..self
        }
    }

    /// An issue can be closed as far as its own state goes.
    pub open spec fn accept(self, id: Seq<char>, title: Seq<char>) -> Self {
        RouteState { titles: put_in(self.titles, id, title), ..self }
    }

    /// What blocks an issue, parted by whether it is to be closed too.
    pub open spec fn block(self, id: Seq<char>, blockers: Seq<Seq<char>>) -> Self {
        RouteState {
            internal: put_in(
                self.internal,
                id,
                within(sorted_unique(blockers), self.ids.to_set()),
            ),
            external: put_in(
                self.external,
                id,
                beyond(sorted_unique(blockers), self.ids.to_set()),
            ),
            ..self
        }
    }

    /// The issues that can be closed together are settled: with force all that were accepted.
    pub open spec fn settle(self) -> Self {
        let active = keys_of(self.titles).to_set();
        RouteState {
            closable: if self.args.force {
                active
            } else {
                closable_together(active, self.internal, self.external)
            },
            ..self
        }
    }

    /// The blockers that keep an issue from being closed.
    pub open spec fn obstacles(self, id: Seq<char>) -> Seq<Seq<char>> {
        sorted_unique(
            list_of(get_in(self.external, id)) + beyond(
                list_of(get_in(self.internal, id)),
                self.closable,
            ),
        )
    }

    /// The issue in a place is closed.
    pub open spec fn close(self, id: Seq<char>) -> Self {
        let closed = ClosedIssueView {
            id,
            title: get_in(self.titles, id)->0,
            status: "closed"@,
            closed_at: rfc3339(self.now),
            close_reason: Some(noted_reason(self.args)),
        };
        RouteState {
            done: CloseExecutionView {
                closed: self.done.closed.push(closed),
                ordered_outcomes: self.done.ordered_outcomes.push(CloseOutcomeView::Closed(closed)),
                ..self.done
            },
            dirty: true,
            ..self
        }
    }

    /// A candidate is no longer blocked: it is named where it can be worked on.
    pub open spec fn suggest(self, issue: Option<IssueView>) -> Self {
        match issue {
            Some(issue) => if issue.status.active() {
                RouteState {
                    done: CloseExecutionView {
                        unblocked: self.done.unblocked.push(
                            UnblockedIssueView {
                                id: issue.id,
                                title: issue.title,
                                priority: issue.priority,
                            },
                        ),
                        ..self.done
                    },
                    ..self
                }
            } else {
                self
            },
            None => self,
        }
    }
}

/// Flushes what was changed.
pub open spec fn route_flush(s: RouteState) -> (RouteState, RouteActionView) {
    (s.in_phase(RoutePhase::Flush), RouteActionView::Flush)
}

/// Looks at the candidate in a place, or flushes when all were looked at.
pub open spec fn route_candidate(s: RouteState, at: int) -> (RouteState, RouteActionView) {
    if at < s.candidates.len() {
        (
            s.in_phase(RoutePhase::Candidate { at: at as usize }),
            RouteActionView::FetchIssue { id: s.candidates[at], cache_dirty: s.dirty },
        )
    } else {
        route_flush(s)
    }
}

/// Goes on when the cache is up to date: asks what is blocked now if suggestions are wanted.
pub open spec fn route_suggest(s: RouteState) -> (RouteState, RouteActionView) {
    if s.args.suggest_next && s.done.closed.len() > 0 {
        (
            s.in_phase(RoutePhase::After),
            RouteActionView::FetchBlocked { cache_dirty: s.dirty },
        )
    } else {
        route_flush(s)
    }
}

/// Closes the issue in a place.
pub open spec fn route_close(s: RouteState, at: int, now: Instant) -> (RouteState, RouteActionView) {
    (
        RouteState { now, ..s.in_phase(RoutePhase::Closing { at: at as usize }) },
        RouteActionView::Close {
            id: s.ids[at],
            update: close_update(s.args, now),
            cache_dirty: s.dirty,
        },
    )
}

/// Goes through the issues from a place on: those that were not accepted are settled already,
/// those that are blocked are skipped. When all are settled the cache is refreshed if need be.
pub open spec fn route_closing(s: RouteState, at: int, now: Instant) -> (
    RouteState,
    RouteActionView,
)
    decreases s.ids.len() - at,
{
    if at < 0 || at >= s.ids.len() {
        if s.dirty {
            (s.in_phase(RoutePhase::Refresh), RouteActionView::RefreshCache)
        } else {
            route_suggest(s)
        }
    } else {
        let id = s.ids[at];
        if !has_key(s.titles, id) {
            route_closing(s, at + 1, now)
        } else if s.args.force {
            route_close(s, at, now)
        } else if !s.closable.contains(id) {
            route_closing(s.skip(id, blocked_reason(s.obstacles(id))), at + 1, now)
        } else {
            (
                s.in_phase(RoutePhase::Children { at: at as usize }),
                RouteActionView::FetchOpenChildren { id },
            )
        }
    }
}

/// Looks at the issue in a place, or starts to close when all were looked at.
pub open spec fn route_lookup(s: RouteState, at: int, now: Instant) -> (
    RouteState,
    RouteActionView,
) {
    if at < s.ids.len() {
        (
            s.in_phase(RoutePhase::Lookup { at: at as usize }),
            RouteActionView::FetchIssue { id: s.ids[at], cache_dirty: s.dirty },
        )
    } else {
        route_closing(s.settle(), 0, now)
    }
}

/// The next state and action, given what came of the last action and the present time: each
/// issue is looked at and skipped or accepted with what blocks it; then those that can be closed
/// together are closed in turn; then the cache is refreshed, suggestions are collected, and what
/// was changed is flushed.
pub open spec fn route_step(s: RouteState, reply: RouteReplyView, now: Instant) -> (
    RouteState,
    RouteActionView,
) {
    match s.phase {
        RoutePhase::Over { success } => (
            s,
            if success {
                RouteActionView::Finish
            } else {
                RouteActionView::Fail
            },
        ),
        RoutePhase::After => if reply is Failed {
            (s.in_phase(RoutePhase::LastFlush), RouteActionView::Flush)
        } else {
            route_candidate(
                RouteState { candidates: beyond(s.before, reply.listed().to_set()), ..s },
                0,
            )
        },
        RoutePhase::Candidate { at } => route_candidate(s.suggest(reply.found()), at + 1),
        RoutePhase::AutoFlush => (
            s.in_phase(RoutePhase::Over { success: true }),
            RouteActionView::Finish,
        ),
        _ => if reply is Failed {
            (s.in_phase(RoutePhase::Over { success: false }), RouteActionView::Fail)
        } else {
            match s.phase {
                RoutePhase::Lookup { at } => {
                    let id = s.ids[at as int];
                    match skip_reason(s.args.force, s.counts, id, reply.found()) {
                        Some(reason) => route_lookup(s.skip(id, reason), at + 1, now),
                        None => {
                            let t = s.accept(id, reply.found()->0.title);
                            if s.args.force {
                                route_lookup(t, at + 1, now)
                            } else {
                                (
                                    t.in_phase(RoutePhase::Blocked { at }),
                                    RouteActionView::AskBlocked { id, cache_dirty: s.dirty },
                                )
                            }
                        },
                    }
                },
                RoutePhase::Blocked { at } => {
                    let id = s.ids[at as int];
                    if reply.answer() {
                        (
                            s.in_phase(RoutePhase::Blockers { at }),
                            RouteActionView::FetchBlockers { id, cache_dirty: s.dirty },
                        )
                    } else {
                        route_lookup(s.block(id, seq![]), at + 1, now)
                    }
                },
                RoutePhase::Blockers { at } => route_lookup(
                    s.block(s.ids[at as int], blocker_ids(reply.listed())),
                    at + 1,
                    now,
                ),
                RoutePhase::Children { at } => if reply.listed().len() > 0 {
                    route_closing(
                        s.skip_for_children(s.ids[at as int], reply.listed()),
                        at + 1,
                        now,
                    )
                } else {
                    route_close(s, at as int, now)
                },
                RoutePhase::Closing { at } => route_closing(
                    s.close(s.ids[at as int]),
                    at + 1,
                    now,
                ),
                RoutePhase::Refresh => route_suggest(s),
                RoutePhase::Flush => if s.auto_flush {
                    (s.in_phase(RoutePhase::AutoFlush), RouteActionView::AutoFlush)
                } else {
                    (s.in_phase(RoutePhase::Over { success: true }), RouteActionView::Finish)
                },
                _ => (s.in_phase(RoutePhase::Over { success: true }), RouteActionView::Finish),
            }
        },
    }
}

/// The first state and action.
pub open spec fn route_start(s: RouteState) -> (RouteState, RouteActionView) {
    route_lookup(s, 0, s.now)
}

/// Closing issues in one database, under way: each reply of the driver leads to the next action.
#[derive(Debug)]
pub struct CloseRoute {
    args: CloseArgs,
    ids: Vec<String>,
    counts: TextMap<(usize, usize)>,
    before: Vec<String>,
    auto_flush: bool,
    phase: RoutePhase,
    titles: TextMap<String>,
    internal: TextMap<Vec<String>>,
    external: TextMap<Vec<String>>,
    closable: Vec<String>,
    done: CloseExecution,
    dirty: bool,
    now: Timestamp,
    candidates: Vec<String>,
}

impl DeepView for CloseRoute {
    type V = RouteState;

    closed spec fn deep_view(&self) -> RouteState {
        RouteState {
            args: self.args.deep_view(),
            ids: self.ids.deep_view(),
            counts: self.counts.deep_view(),
            before: self.before.deep_view(),
            auto_flush: self.auto_flush,
            phase: self.phase,
            titles: self.titles.deep_view(),
            internal: self.internal.deep_view(),
            external: self.external.deep_view(),
            closable: self.closable.deep_view().to_set(),
            done: self.done.deep_view(),
            dirty: self.dirty,
            now: self.now.deep_view(),
            candidates: self.candidates.deep_view(),
        }
    }
}

impl CloseRoute {
    /// Closing the issues with these IDs, of which nothing was done yet. Given are for each
    /// parent how many children it has and how many of them are closed, the issues that are
    /// blocked if suggestions are wanted, and whether to export what was changed.
    pub fn start(
        args: CloseArgs,
        ids: Vec<String>,
        counts: TextMap<(usize, usize)>,
        before: Vec<String>,
        auto_flush: bool,
        now: Timestamp,
    ) -> (r: (CloseRoute, RouteAction))
        ensures
            r.0.deep_view().wf(),
            (r.0.deep_view(), r.1.deep_view()) == route_start(
                RouteState::fresh(
                    args.deep_view(),
                    ids.deep_view(),
                    counts.deep_view(),
                    before.deep_view(),
                    auto_flush,
                    now.deep_view(),
                ),
            ),
    {
        let closable: Vec<String> = Vec::new();
        let candidates: Vec<String> = Vec::new();
        assert(closable.deep_view() =~= seq![]);
        assert(candidates.deep_view() =~= seq![]);
        assert(closable.deep_view().to_set() =~= Set::empty());
        let mut route = CloseRoute {
            args,
            ids,
            counts,
            before,
            auto_flush,
            phase: RoutePhase::Lookup { at: 0 },
            titles: TextMap::new(),
            internal: TextMap::new(),
            external: TextMap::new(),
            closable,
            done: CloseExecution::new(),
            dirty: false,
            now,
            candidates,
        };
        let action = route.look_up(0, now);
        (route, action)
    }

    fn look_up(&mut self, at: usize, now: Timestamp) -> (r: RouteAction)
        requires
            at <= old(self).deep_view().ids.len(),
        ensures
            final(self).deep_view().wf(),
            (final(self).deep_view(), r.deep_view()) == route_lookup(
                old(self).deep_view(),
                at as int,
                now.deep_view(),
            ),
    {
        if at < self.ids.len() {
            self.phase = RoutePhase::Lookup { at };
            RouteAction::FetchIssue { id: self.ids[at].clone(), cache_dirty: self.dirty }
        } else {
            self.settle();
            self.go_on_closing(0, now)
        }
    }

    fn settle(&mut self)
        ensures
            final(self).deep_view() == old(self).deep_view().settle(),
    {
        let active = keys(&self.titles);
        self.closable = if self.args.force {
            active
        } else {
            compute_batch_closable_ids(&active, &self.internal, &self.external)
        };
    }

    fn skip(&mut self, at: usize, reason: String)
        requires
            at < old(self).deep_view().ids.len(),
        ensures
            final(self).deep_view() == old(self).deep_view().skip(
                old(self).deep_view().ids[at as int],
                reason@,
            ),
    {
        let ghost before = self.deep_view().done;
        let ghost skipped = SkippedIssueView { id: self.deep_view().ids[at as int], reason: reason@ };
        let copy = reason.clone();
        self.done.skipped.push(SkippedIssue { id: self.ids[at].clone(), reason: copy });
        self.done.ordered_outcomes.push(
            CloseOutcome::Skipped(SkippedIssue { id: self.ids[at].clone(), reason }),
        );
        assert(self.done.skipped.deep_view() =~= before.skipped.push(skipped));
        assert(self.done.ordered_outcomes.deep_view() =~= before.ordered_outcomes.push(
            CloseOutcomeView::Skipped(skipped),
        ));
    }

    fn skip_for_children(&mut self, at: usize, children: &Vec<String>)
        requires
            at < old(self).deep_view().ids.len(),
        ensures
            final(self).deep_view() == old(self).deep_view().skip_for_children(
                old(self).deep_view().ids[at as int],
                children.deep_view(),
            ),
    {
        let ghost before = self.deep_view().done;
        let mut reason = "has ".to_owned();
        reason.append(write_decimal(children.len() as u64).as_str());
        reason.append(" open child issue(s): ");
        reason.append(join_texts(children, ", ").as_str());
        self.done.skipped.push(SkippedIssue { id: self.ids[at].clone(), reason });
        assert(self.done.skipped.deep_view() =~= before.skipped.push(
            SkippedIssueView {
                id: self.deep_view().ids[at as int],
                reason: open_children_reason(children.deep_view()),
            },
        ));
    }

    fn block(&mut self, at: usize, blockers: &Vec<String>)
        requires
            at < old(self).deep_view().ids.len(),
        ensures
            final(self).deep_view() == old(self).deep_view().block(
                old(self).deep_view().ids[at as int],
                blockers.deep_view(),
            ),
    {
        let (internal, external) = partition(&sort_unique(blockers), &self.ids);
        self.internal.insert(self.ids[at].as_str(), internal);
        self.external.insert(self.ids[at].as_str(), external);
    }

    fn obstacles(&self, id: &str) -> (r: Vec<String>)
        ensures
            r.deep_view() == self.deep_view().obstacles(id@),
    {
        let mut list: Vec<String> = match self.external.get(id) {
            Some(external) => copy_texts(external),
            None => {
                let none: Vec<String> = Vec::new();
                assert(none.deep_view() =~= seq![]);
                none
            },
        };
        let ghost front = list.deep_view();
        match self.internal.get(id) {
            Some(internal) => {
                let mut rest = partition(internal, &self.closable).1;
                let ghost back = rest.deep_view();
                list.append(&mut rest);
                assert(list.deep_view() =~= front + back);
            },
            None => {
                assert(beyond(seq![], self.deep_view().closable) =~= seq![]);
                assert(front + seq![] =~= front);
            },
        }
        sort_unique(&list)
    }

    fn close_at(&mut self, at: usize, now: Timestamp) -> (r: RouteAction)
        requires
            at < old(self).deep_view().ids.len(),
            has_key(old(self).deep_view().titles, old(self).deep_view().ids[at as int]),
        ensures
            final(self).deep_view().wf(),
            (final(self).deep_view(), r.deep_view()) == route_close(
                old(self).deep_view(),
                at as int,
                now.deep_view(),
            ),
    {
        self.phase = RoutePhase::Closing { at };
        self.now = now;
        RouteAction::Close {
            id: self.ids[at].clone(),
            update: closing_update(&self.args, now),
            cache_dirty: self.dirty,
        }
    }

    fn closed_at(&mut self, at: usize)
        requires
            at < old(self).deep_view().ids.len(),
            has_key(old(self).deep_view().titles, old(self).deep_view().ids[at as int]),
        ensures
            final(self).deep_view() == old(self).deep_view().close(
                old(self).deep_view().ids[at as int],
            ),
    {
        let ghost s = self.deep_view();
        let ghost id = s.ids[at as int];
        proof {
            crate::assoc::lemma_get_in(s.titles, id);
        }
        let title = match self.titles.get(self.ids[at].as_str()) {
            Some(title) => title.clone(),
            None => String::new(),
        };
        let copy = title.clone();
        let ghost closed = s.close(id).done.closed.last();
        self.done.closed.push(
            ClosedIssue {
                id: self.ids[at].clone(),
                title: copy,
                status: "closed".to_owned(),
                closed_at: self.now.to_rfc3339(),
                close_reason: Some(reason_to_note(&self.args)),
            },
        );
        self.done.ordered_outcomes.push(
            CloseOutcome::Closed(
                ClosedIssue {
                    id: self.ids[at].clone(),
                    title,
                    status: "closed".to_owned(),
                    closed_at: self.now.to_rfc3339(),
                    close_reason: Some(reason_to_note(&self.args)),
                },
            ),
        );
        self.dirty = true;
        assert(self.done.closed.deep_view() =~= s.done.closed.push(closed));
        assert(self.done.ordered_outcomes.deep_view() =~= s.done.ordered_outcomes.push(
            CloseOutcomeView::Closed(closed),
        ));
    }

    fn flush(&mut self) -> (r: RouteAction)
        ensures
            final(self).deep_view().wf(),
            (final(self).deep_view(), r.deep_view()) == route_flush(old(self).deep_view()),
    {
        self.phase = RoutePhase::Flush;
        RouteAction::Flush
    }

    fn ask_for_suggestions(&mut self) -> (r: RouteAction)
        ensures
            final(self).deep_view().wf(),
            (final(self).deep_view(), r.deep_view()) == route_suggest(old(self).deep_view()),
    {
        if self.args.suggest_next && self.done.closed.len() > 0 {
            self.phase = RoutePhase::After;
            RouteAction::FetchBlocked { cache_dirty: self.dirty }
        } else {
            self.flush()
        }
    }

    fn look_at_candidate(&mut self, at: usize) -> (r: RouteAction)
        requires
            at <= old(self).deep_view().candidates.len(),
        ensures
            final(self).deep_view().wf(),
            (final(self).deep_view(), r.deep_view()) == route_candidate(
                old(self).deep_view(),
                at as int,
            ),
    {
        if at < self.candidates.len() {
            self.phase = RoutePhase::Candidate { at };
            RouteAction::FetchIssue { id: self.candidates[at].clone(), cache_dirty: self.dirty }
        } else {
            self.flush()
        }
    }

    fn go_on_closing(&mut self, from: usize, now: Timestamp) -> (r: RouteAction)
        requires
            from <= old(self).deep_view().ids.len(),
        ensures
            final(self).deep_view().wf(),
            (final(self).deep_view(), r.deep_view()) == route_closing(
                old(self).deep_view(),
                from as int,
                now.deep_view(),
            ),
    {
        let mut at: usize = from;
        while at < self.ids.len()
            invariant
                at <= self.deep_view().ids.len(),
                route_closing(old(self).deep_view(), from as int, now.deep_view())
                    == route_closing(self.deep_view(), at as int, now.deep_view()),
            decreases self.deep_view().ids.len() - at,
        {
            let ghost s = self.deep_view();
            let ghost id = s.ids[at as int];
            assert(id == self.ids@[at as int]@);
            assert(has_key(s.titles, id) == has_key(self.titles.deep_view(), id));
            if self.titles.has(self.ids[at].as_str()) {
                if self.args.force {
                    return self.close_at(at, now);
                }
                if holds(&self.closable, self.ids[at].as_str()) {
                    assert(s.closable.contains(id));
                    self.phase = RoutePhase::Children { at };
                    return RouteAction::FetchOpenChildren { id: self.ids[at].clone() };
                }
                assert(!s.closable.contains(id));
                let obstacles = self.obstacles(self.ids[at].as_str());
                let reason = if obstacles.len() == 0 {
                    "blocked by dependencies".to_owned()
                } else {
                    joined("blocked by: ", join_texts(&obstacles, ", ").as_str())
                };
                self.skip(at, reason);
            }
            at += 1;
        }
        if self.dirty {
            self.phase = RoutePhase::Refresh;
            RouteAction::RefreshCache
        } else {
            self.ask_for_suggestions()
        }
    }

    fn over(&mut self, success: bool) -> (r: RouteAction)
        ensures
            final(self).deep_view().wf(),
            final(self).deep_view() == old(self).deep_view().in_phase(RoutePhase::Over { success }),
            r.deep_view() == (if success {
                RouteActionView::Finish
            } else {
                RouteActionView::Fail
            }),
    {
        self.phase = RoutePhase::Over { success };
        if success {
            RouteAction::Finish
        } else {
            RouteAction::Fail
        }
    }

    fn looked_up(&mut self, at: usize, issue: Option<Issue>, now: Timestamp) -> (r: RouteAction)
        requires
            old(self).deep_view().phase == (RoutePhase::Lookup { at }),
            at < old(self).deep_view().ids.len(),
        ensures
            final(self).deep_view().wf(),
            (final(self).deep_view(), r.deep_view()) == route_step(
                old(self).deep_view(),
                RouteReplyView::Found(issue.deep_view()),
                now.deep_view(),
            ),
    {
        assert(self.ids.len() == self.deep_view().ids.len());
        match triage(self.args.force, &self.counts, self.ids[at].as_str(), &issue) {
            Some(reason) => {
                self.skip(at, reason);
                return self.look_up(at + 1, now);
            },
            None => {},
        }
        match issue {
            Some(issue) => {
                self.titles.insert(self.ids[at].as_str(), issue.title);
            },
            None => {},
        }
        if self.args.force {
            self.look_up(at + 1, now)
        } else {
            self.phase = RoutePhase::Blocked { at };
            RouteAction::AskBlocked { id: self.ids[at].clone(), cache_dirty: self.dirty }
        }
    }

    /// The next action, given what came of the last one and the present time.
    pub fn step(&mut self, reply: RouteReply, now: Timestamp) -> (r: RouteAction)
        requires
            old(self).deep_view().wf(),
        ensures
            final(self).deep_view().wf(),
            (final(self).deep_view(), r.deep_view()) == route_step(
                old(self).deep_view(),
                reply.deep_view(),
                now.deep_view(),
            ),
    {
        match self.phase {
            RoutePhase::Over { success } => {
                return if success {
                    RouteAction::Finish
                } else {
                    RouteAction::Fail
                };
            },
            RoutePhase::After => {
                if reply.failed() {
                    self.phase = RoutePhase::LastFlush;
                    return RouteAction::Flush;
                }
                self.candidates = partition(&self.before, &reply.into_listed()).1;
                return self.look_at_candidate(0);
            },
            RoutePhase::Candidate { at } => {
                assert(self.candidates.len() == self.deep_view().candidates.len());
                self.suggest(reply.into_found());
                return self.look_at_candidate(at + 1);
            },
            RoutePhase::AutoFlush => {
                return self.over(true);
            },
            _ => {},
        }
        assert(self.ids.len() == self.deep_view().ids.len());
        if reply.failed() {
            return self.over(false);
        }
        match self.phase {
            RoutePhase::Lookup { at } => {
                let issue = reply.into_found();
                self.looked_up(at, issue, now)
            },
            RoutePhase::Blocked { at } => {
                if reply.is_yes() {
                    self.phase = RoutePhase::Blockers { at };
                    RouteAction::FetchBlockers { id: self.ids[at].clone(), cache_dirty: self.dirty }
                } else {
                    let none: Vec<String> = Vec::new();
                    assert(none.deep_view() =~= seq![]);
                    self.block(at, &none);
                    self.look_up(at + 1, now)
                }
            },
            RoutePhase::Blockers { at } => {
                self.block(at, &strip_annotations(&reply.into_listed()));
                self.look_up(at + 1, now)
            },
            RoutePhase::Children { at } => {
                let children = reply.into_listed();
                if children.len() > 0 {
                    self.skip_for_children(at, &children);
                    self.go_on_closing(at + 1, now)
                } else {
                    self.close_at(at, now)
                }
            },
            RoutePhase::Closing { at } => {
                self.closed_at(at);
                self.go_on_closing(at + 1, now)
            },
            RoutePhase::Refresh => self.ask_for_suggestions(),
            RoutePhase::Flush => {
                if self.auto_flush {
                    self.phase = RoutePhase::AutoFlush;
                    RouteAction::AutoFlush
                } else {
                    self.over(true)
                }
            },
            _ => self.over(true),
        }
    }

    fn suggest(&mut self, issue: Option<Issue>)
        ensures
            final(self).deep_view() == old(self).deep_view().suggest(issue.deep_view()),
    {
        let ghost s = self.deep_view();
        let ghost new = issue.deep_view();
        match issue {
            Some(issue) => {
                if issue.status.is_active() {
                    self.done.unblocked.push(
                        UnblockedIssue {
                            id: issue.id,
                            title: issue.title,
                            priority: issue.priority.0,
                        },
                    );
                    assert(self.done.unblocked.deep_view() =~= s.suggest(new).done.unblocked);
                }
            },
            None => {},
        }
    }

    /// What was done.
    pub fn finish(self) -> (r: CloseExecution)
        ensures
            r.deep_view() == self.deep_view().done,
    {
        self.done
    }
}

/// The keys of a map of texts.
fn keys(map: &TextMap<String>) -> (r: Vec<String>)
    ensures
        r.deep_view() == keys_of(map.deep_view()),
{
    let mut out: Vec<String> = Vec::new();
    let mut i: usize = 0;
    while i < map.len()
        invariant
            i <= map.deep_view().len(),
            out.len() == i,
            forall|k: int| 0 <= k < i ==> (#[trigger] out@[k])@ == map.deep_view()[k].0,
        decreases map.deep_view().len() - i,
    {
        out.push(map.key(i).to_owned());
        i += 1;
    }
    assert(out.deep_view() =~= keys_of(map.deep_view()));
    out
}

} // verus!
