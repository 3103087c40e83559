//! The close command as a whole: which issues are meant, in which databases they are closed, and
//! how the results come together.

use crate::batch::reorder_routed_items_by_requested_inputs;
use crate::close::{
    close_report,
    CliCloseArgs,
    CloseArgs,
    CloseExecution,
    CloseOutcome,
    CloseReport,
    ClosedIssue,
    OutputMode,
    SkippedIssue,
    UnblockedIssue,
};
use crate::error::BeadsError;
use crate::text::copy_texts;
use vstd::prelude::*;

verus! {

use crate::batch::{
    batch_views,
    lemma_reordered_mapped,
    lemma_reordered_matches_inputs,
    lemma_reordered_succeeds,
    mapped_batches,
    misrouted_error,
    reordered,
    times,
    times_routed,
    Misrouted,
};
use crate::close::{
    report_of,
    CloseArgsView,
    CloseExecutionView,
    CloseOutcomeView,
    CloseReportView,
    ClosedIssueView,
    SkippedIssueView,
    UnblockedIssueView,
};
use crate::error::BeadsErrorView;

/// Issues that are in one database.
#[derive(Debug)]
pub struct RoutedBatch {
    /// The issues as they were given.
    pub issue_inputs: Vec<String>,
    /// Whether the database is another project's.
    pub is_external: bool,
    /// Whether the database is in the directory that the command works in.
    pub is_here: bool,
}

/// The view of [`RoutedBatch`].
#[verifier::ext_equal]
pub struct RoutedBatchView {
    pub issue_inputs: Seq<Seq<char>>,
    pub is_external: bool,
    pub is_here: bool,
}

impl DeepView for RoutedBatch {
    type V = RoutedBatchView;

    open spec fn deep_view(&self) -> RoutedBatchView {
        RoutedBatchView {
            issue_inputs: self.issue_inputs.deep_view(),
            is_external: self.is_external,
            is_here: self.is_here,
        }
    }
}

/// Some of the batches are in another project's database.
pub open spec fn any_external(batches: Seq<RoutedBatchView>) -> bool {
    exists|i: int| 0 <= i < batches.len() && (#[trigger] batches[i]).is_external
}

/// Where the command stands.
#[derive(Debug, Clone, Copy, PartialEq, Eq, Structural)]
pub enum CommandPhase {
    /// The issue touched last is being read.
    Touched,
    /// The issues are being grouped by the databases they are in.
    Grouping,
    /// All issues are being closed in the database at hand.
    Local,
    /// The issues of a batch are being closed.
    Batch { at: usize },
    /// The command is over.
    Over,
}

/// What the driver has to do next.
#[derive(Debug)]
pub enum CommandAction {
    /// Read the ID of the issue touched last.
    ReadLastTouched,
    /// Group issues by the databases they are in.
    GroupByRoute { inputs: Vec<String> },
    /// Close issues in the database at hand, or in that of a batch. The database that the command
    /// line names is used where it is kept.
    RunRoute { batch: Option<usize>, args: CloseArgs, keep_database: bool, auto_flush: bool },
    /// Report what was done; the command is over.
    Report(CloseReport),
    /// Return an error; the command is over.
    Refuse(BeadsError),
    /// Give up with the error of the last action.
    Fail,
}

/// The view of [`CommandAction`].
#[verifier::ext_equal]
pub enum CommandActionView {
    ReadLastTouched,
    GroupByRoute { inputs: Seq<Seq<char>> },
    RunRoute { batch: Option<usize>, args: CloseArgsView, keep_database: bool, auto_flush: bool },
    Report(CloseReportView),
    Refuse(BeadsErrorView),
    Fail,
}

impl DeepView for CommandAction {
    type V = CommandActionView;

    open spec fn deep_view(&self) -> CommandActionView {
        match self {
            CommandAction::ReadLastTouched => CommandActionView::ReadLastTouched,
            CommandAction::GroupByRoute { inputs } => CommandActionView::GroupByRoute {
                inputs: inputs.deep_view(),
            },
            CommandAction::RunRoute { batch, args, keep_database, auto_flush } =>
                CommandActionView::RunRoute {
                batch: *batch,
                args: args.deep_view(),
                keep_database: *keep_database,
                auto_flush: *auto_flush,
            },
            CommandAction::Report(report) => CommandActionView::Report(report.deep_view()),
            CommandAction::Refuse(error) => CommandActionView::Refuse(error.deep_view()),
            CommandAction::Fail => CommandActionView::Fail,
        }
    }
}

/// What came of the last action.
#[derive(Debug)]
pub enum CommandReply {
    /// The ID of the issue touched last, empty where there is none.
    Touched(String),
    /// The batches that the issues were grouped into.
    Grouped(Vec<RoutedBatch>),
    /// What was done in a database.
    Executed(CloseExecution),
    /// It failed.
    Failed,
}

/// The view of [`CommandReply`].
#[verifier::ext_equal]
pub enum CommandReplyView {
    Touched(Seq<char>),
    Grouped(Seq<RoutedBatchView>),
    Executed(CloseExecutionView),
    Failed,
}

impl DeepView for CommandReply {
    type V = CommandReplyView;

    open spec fn deep_view(&self) -> CommandReplyView {
        match self {
            CommandReply::Touched(id) => CommandReplyView::Touched(id@),
            CommandReply::Grouped(batches) => CommandReplyView::Grouped(batches.deep_view()),
            CommandReply::Executed(e) => CommandReplyView::Executed(e.deep_view()),
            CommandReply::Failed => CommandReplyView::Failed,
        }
    }
}

/// The state of the command.
#[verifier::ext_equal]
pub struct CommandState {
    pub args: CloseArgsView,
    /// Whether the output is for programs.
    pub structured: bool,
    pub mode: OutputMode,
    pub phase: CommandPhase,
    /// The issues that are meant.
    pub targets: Seq<Seq<char>>,
    pub batches: Seq<RoutedBatchView>,
    /// What became of the issues of the batches that are done.
    pub routed: Seq<(Seq<Seq<char>>, Seq<CloseOutcomeView>)>,
    pub unblocked: Seq<UnblockedIssueView>,
}

impl CommandState {
    /// The state before anything was done.
    pub open spec fn fresh(args: CloseArgsView, use_json: bool, mode: OutputMode) -> Self {
        CommandState {
            args,
            structured: use_json || mode.is_json || mode.is_toon,
            mode,
            phase: CommandPhase::Touched,
            targets: seq![],
            batches: seq![],
            routed: seq![],
            unblocked: seq![],
        }
    }

    pub open spec fn in_phase(self, phase: CommandPhase) -> Self {
        CommandState { phase, ..self }
    }

    /// A batch that is being worked on is one of the batches.
    pub open spec fn wf(self) -> bool {
        self.phase matches CommandPhase::Batch { at } ==> at < self.batches.len()
    }
}

/// The closed issues among outcomes.
pub open spec fn closed_of(list: Seq<CloseOutcomeView>) -> Seq<ClosedIssueView>
    decreases list.len(),
{
    if list.len() == 0 {
        seq![]
    } else {
        match list.last() {
            CloseOutcomeView::Closed(issue) => closed_of(list.drop_last()).push(issue),
            CloseOutcomeView::Skipped(_) => closed_of(list.drop_last()),
        }
    }
}

/// The skipped issues among outcomes.
pub open spec fn skipped_of(list: Seq<CloseOutcomeView>) -> Seq<SkippedIssueView>
    decreases list.len(),
{
    if list.len() == 0 {
        seq![]
    } else {
        match list.last() {
            CloseOutcomeView::Closed(_) => skipped_of(list.drop_last()),
            CloseOutcomeView::Skipped(issue) => skipped_of(list.drop_last()).push(issue),
        }
    }
}

/// Parts outcomes into the closed and the skipped issues.
pub fn part_outcomes(list: Vec<CloseOutcome>) -> (r: (Vec<ClosedIssue>, Vec<SkippedIssue>))
    ensures
        r.0.deep_view() == closed_of(list.deep_view()),
        r.1.deep_view() == skipped_of(list.deep_view()),
{
    let ghost all = list.deep_view();
    let ghost raw = list@;
    let mut closed: Vec<ClosedIssue> = Vec::new();
    let mut skipped: Vec<SkippedIssue> = Vec::new();
    let mut rest = list;
    let ghost mut n: int = 0;
    assert(closed.deep_view() =~= closed_of(all.take(0)));
    assert(skipped.deep_view() =~= skipped_of(all.take(0)));
    assert(raw.skip(0) =~= raw);
    while rest.len() > 0
        invariant
            0 <= n <= raw.len(),
            all.len() == raw.len(),
            forall|k: int| 0 <= k < raw.len() ==> #[trigger] all[k] == raw[k].deep_view(),
            rest@ == raw.skip(n),
            closed.deep_view() == closed_of(all.take(n)),
            skipped.deep_view() == skipped_of(all.take(n)),
        decreases rest.len(),
    {
        let ghost a = closed.deep_view();
        let ghost b = skipped.deep_view();
        let outcome = rest.remove(0);
        assert(outcome == raw[n]);
        assert(rest@ =~= raw.skip(n + 1));
        assert(all.take(n + 1).drop_last() =~= all.take(n));
        assert(all.take(n + 1).last() == all[n]);
        match outcome {
            CloseOutcome::Closed(issue) => {
                let ghost item = issue.deep_view();
                closed.push(issue);
                assert(closed.deep_view() =~= a.push(item));
            },
            CloseOutcome::Skipped(issue) => {
                let ghost item = issue.deep_view();
                skipped.push(issue);
                assert(skipped.deep_view() =~= b.push(item));
            },
        }
        proof {
            n = n + 1;
        }
    }
    assert(all.take(n) =~= all);
    (closed, skipped)
}

/// Reports what was done.
pub open spec fn command_report(
    s: CommandState,
    closed: Seq<ClosedIssueView>,
    skipped: Seq<SkippedIssueView>,
    unblocked: Seq<UnblockedIssueView>,
) -> (CommandState, CommandActionView) {
    (
        s.in_phase(CommandPhase::Over),
        CommandActionView::Report(
            report_of(s.args.suggest_next, s.structured, s.mode, closed, skipped, unblocked),
        ),
    )
}

/// Groups the issues that are meant, unless suggestions are wanted for more than one.
pub open spec fn command_targets(s: CommandState, targets: Seq<Seq<char>>) -> (
    CommandState,
    CommandActionView,
) {
    let t = CommandState { targets, ..s };
    if s.args.suggest_next && targets.len() > 1 {
        (
            t.in_phase(CommandPhase::Over),
            CommandActionView::Refuse(
                BeadsErrorView::Validation {
                    field: "suggest-next"@,
                    reason: "--suggest-next only works with a single issue ID"@,
                },
            ),
        )
    } else {
        (
            t.in_phase(CommandPhase::Grouping),
            CommandActionView::GroupByRoute { inputs: targets },
        )
    }
}

/// Closes the issues of the batch in a place, or brings the results into the order in which the
/// issues were given when all batches are done.
pub open spec fn command_batch(s: CommandState, at: int) -> (CommandState, CommandActionView) {
    if at < s.batches.len() {
        let batch = s.batches[at];
        (
            s.in_phase(CommandPhase::Batch { at: at as usize }),
            CommandActionView::RunRoute {
                batch: Some(at as usize),
                args: s.args.with_ids(batch.issue_inputs),
                keep_database: batch.is_here,
                auto_flush: batch.is_external,
            },
        )
    } else {
        match reordered(s.targets, s.routed) {
            Ok(list) => command_report(s, closed_of(list), skipped_of(list), s.unblocked),
            Err(e) => (
                s.in_phase(CommandPhase::Over),
                CommandActionView::Refuse(misrouted_error(e, "close routing"@)),
            ),
        }
    }
}

/// The first state and action: the issues that are meant are those that were given, or else the
/// one touched last.
pub open spec fn command_start(s: CommandState) -> (CommandState, CommandActionView) {
    if s.args.ids.len() == 0 {
        (s.in_phase(CommandPhase::Touched), CommandActionView::ReadLastTouched)
    } else {
        command_targets(s, s.args.ids)
    }
}

/// The next state and action, given what came of the last action. A reply that does not answer
/// the action counts as a failure.
pub open spec fn command_step(s: CommandState, reply: CommandReplyView) -> (
    CommandState,
    CommandActionView,
) {
    let fail = (s.in_phase(CommandPhase::Over), CommandActionView::Fail);
    match (s.phase, reply) {
        (CommandPhase::Touched, CommandReplyView::Touched(id)) => if id.len() == 0 {
            (
                s.in_phase(CommandPhase::Over),
                CommandActionView::Refuse(
                    BeadsErrorView::Validation {
                        field: "ids"@,
                        reason: "no issue IDs provided and no last-touched issue"@,
                    },
                ),
            )
        } else {
            command_targets(s, seq![id])
        },
        (CommandPhase::Grouping, CommandReplyView::Grouped(batches)) => if any_external(batches) {
            command_batch(CommandState { batches, ..s }, 0)
        } else {
            (
                s.in_phase(CommandPhase::Local),
                CommandActionView::RunRoute {
                    batch: None,
                    args: s.args.with_ids(s.targets),
                    keep_database: true,
                    auto_flush: false,
                },
            )
        },
        (CommandPhase::Batch { at }, CommandReplyView::Executed(e)) => command_batch(
            CommandState {
                routed: s.routed.push((s.batches[at as int].issue_inputs, e.ordered_outcomes)),
                unblocked: s.unblocked + e.unblocked,
                ..s
            },
            at + 1,
        ),
        (CommandPhase::Local, CommandReplyView::Executed(e)) => command_report(
            s,
            e.closed,
            e.skipped,
            e.unblocked,
        ),
        _ => fail,
    }
}

/// The close command under way: each reply of the driver leads to the next action.
#[derive(Debug)]
pub struct CloseCommand {
    args: CloseArgs,
    structured: bool,
    mode: OutputMode,
    phase: CommandPhase,
    targets: Vec<String>,
    batches: Vec<RoutedBatch>,
    routed: Vec<(Vec<String>, Vec<CloseOutcome>)>,
    unblocked: Vec<UnblockedIssue>,
}

impl DeepView for CloseCommand {
    type V = CommandState;

    closed spec fn deep_view(&self) -> CommandState {
        CommandState {
            args: self.args.deep_view(),
            structured: self.structured,
            mode: self.mode,
            phase: self.phase,
            targets: self.targets.deep_view(),
            batches: self.batches.deep_view(),
            routed: self.routed.deep_view(),
            unblocked: self.unblocked.deep_view(),
        }
    }
}

fn has_external(batches: &Vec<RoutedBatch>) -> (r: bool)
    ensures
        r == any_external(batches.deep_view()),
{
    let ghost all = batches.deep_view();
    let mut i: usize = 0;
    while i < batches.len()
        invariant
            i <= batches.len(),
            all == batches.deep_view(),
            forall|k: int| 0 <= k < i ==> !(#[trigger] all[k]).is_external,
        decreases batches.len() - i,
    {
        assert(all[i as int] == batches@[i as int].deep_view());
        if batches[i].is_external {
            return true;
        }
        i += 1;
    }
    false
}

impl CloseCommand {
    fn aim(&mut self, targets: Vec<String>) -> (r: CommandAction)
        ensures
            final(self).deep_view().wf(),
            (final(self).deep_view(), r.deep_view()) == command_targets(
                old(self).deep_view(),
                targets.deep_view(),
            ),
    {
        if self.args.suggest_next && targets.len() > 1 {
            self.targets = targets;
            self.phase = CommandPhase::Over;
            CommandAction::Refuse(
                BeadsError::validation(
                    "suggest-next",
                    "--suggest-next only works with a single issue ID",
                ),
            )
        } else {
            let inputs = copy_texts(&targets);
            self.targets = targets;
            self.phase = CommandPhase::Grouping;
            CommandAction::GroupByRoute { inputs }
        }
    }

    fn report(
        &mut self,
        closed: Vec<ClosedIssue>,
        skipped: Vec<SkippedIssue>,
        unblocked: Vec<UnblockedIssue>,
    ) -> (r: CommandAction)
        ensures
            final(self).deep_view().wf(),
            (final(self).deep_view(), r.deep_view()) == command_report(
                old(self).deep_view(),
                closed.deep_view(),
                skipped.deep_view(),
                unblocked.deep_view(),
            ),
    {
        self.phase = CommandPhase::Over;
        CommandAction::Report(
            close_report(&self.args, self.structured, self.mode, closed, skipped, unblocked),
        )
    }

    fn run_batch(&mut self, at: usize) -> (r: CommandAction)
        requires
            at <= old(self).deep_view().batches.len(),
        ensures
            final(self).deep_view().wf(),
            match command_batch(old(self).deep_view(), at as int) {
                (s, a) => r.deep_view() == a && final(self).deep_view().phase == s.phase && (
                s.phase is Over || final(self).deep_view() == s),
            },
    {
        if at < self.batches.len() {
            self.phase = CommandPhase::Batch { at };
            let batch = &self.batches[at];
            return CommandAction::RunRoute {
                batch: Some(at),
                args: self.args.with_ids(copy_texts(&batch.issue_inputs)),
                keep_database: batch.is_here,
                auto_flush: batch.is_external,
            };
        }
        let mut routed: Vec<(Vec<String>, Vec<CloseOutcome>)> = Vec::new();
        std::mem::swap(&mut routed, &mut self.routed);
        let mut unblocked: Vec<UnblockedIssue> = Vec::new();
        std::mem::swap(&mut unblocked, &mut self.unblocked);
        let ghost f = |o: CloseOutcome| o.deep_view();
        proof {
            assert(routed.deep_view() =~= mapped_batches(batch_views(routed@), f)) by {
                assert forall|i: int| 0 <= i < routed@.len() implies routed.deep_view()[i]
                    == mapped_batches(batch_views(routed@), f)[i] by {
                    assert(routed@[i].1.deep_view() =~= routed@[i].1@.map_values(f));
                }
            }
            lemma_reordered_mapped(self.targets.deep_view(), batch_views(routed@), f);
        }
        match reorder_routed_items_by_requested_inputs(&self.targets, routed, "close routing") {
            Ok(list) => {
                assert(list.deep_view() =~= list@.map_values(f));
                let (closed, skipped) = part_outcomes(list);
                self.report(closed, skipped, unblocked)
            },
            Err(error) => {
                self.phase = CommandPhase::Over;
                CommandAction::Refuse(error)
            },
        }
    }

    /// The next action, given what came of the last one.
    pub fn step(&mut self, reply: CommandReply) -> (r: CommandAction)
        requires
            old(self).deep_view().wf(),
        ensures
            final(self).deep_view().wf(),
            match command_step(old(self).deep_view(), reply.deep_view()) {
                (s, a) => r.deep_view() == a && final(self).deep_view().phase == s.phase && (
                s.phase is Over || final(self).deep_view() == s),
            },
    {
        let ghost s = self.deep_view();
        match (self.phase, reply) {
            (CommandPhase::Touched, CommandReply::Touched(id)) => {
                if id.as_str().unicode_len() == 0 {
                    self.phase = CommandPhase::Over;
                    CommandAction::Refuse(
                        BeadsError::validation(
                            "ids",
                            "no issue IDs provided and no last-touched issue",
                        ),
                    )
                } else {
                    let targets: Vec<String> = vec![id];
                    assert(targets.deep_view() =~= seq![id@]);
                    self.aim(targets)
                }
            },
            (CommandPhase::Grouping, CommandReply::Grouped(batches)) => {
                if has_external(&batches) {
                    self.batches = batches;
                    self.run_batch(0)
                } else {
                    self.phase = CommandPhase::Local;
                    CommandAction::RunRoute {
                        batch: None,
                        args: self.args.with_ids(copy_texts(&self.targets)),
                        keep_database: true,
                        auto_flush: false,
                    }
                }
            },
            (CommandPhase::Batch { at }, CommandReply::Executed(e)) => {
                assert(self.batches.len() == s.batches.len());
                let inputs = copy_texts(&self.batches[at].issue_inputs);
                let ghost item = (inputs.deep_view(), e.ordered_outcomes.deep_view());
                self.routed.push((inputs, e.ordered_outcomes));
                assert(self.routed.deep_view() =~= s.routed.push(item));
                let mut more = e.unblocked;
                let ghost added = more.deep_view();
                self.unblocked.append(&mut more);
                assert(self.unblocked.deep_view() =~= s.unblocked + added);
                self.run_batch(at + 1)
            },
            (CommandPhase::Local, CommandReply::Executed(e)) => self.report(
                e.closed,
                e.skipped,
                e.unblocked,
            ),
            _ => {
                self.phase = CommandPhase::Over;
                CommandAction::Fail
            },
        }
    }
}

/// Execute the close command from CLI args: the command and its first action.
pub fn execute_cli(cli_args: &CliCloseArgs, json: bool, mode: OutputMode) -> (r: (
    CloseCommand,
    CommandAction,
))
    ensures
        r.0.deep_view().wf(),
        (r.0.deep_view(), r.1.deep_view()) == command_start(
            CommandState::fresh(cli_args.deep_view(), json, mode),
        ),
{
    execute_with_args(CloseArgs::from(cli_args), json, mode)
}

/// Execute the close command: the command and its first action.
pub fn execute(ids: Vec<String>, json: bool, mode: OutputMode) -> (r: (CloseCommand, CommandAction))
    ensures
        r.0.deep_view().wf(),
        (r.0.deep_view(), r.1.deep_view()) == command_start(
            CommandState::fresh(
                CloseArgsView {
                    ids: ids.deep_view(),
                    reason: None,
                    force: false,
                    session: None,
                    suggest_next: false,
                },
                json,
                mode,
            ),
        ),
{
    let args = CloseArgs { ids, reason: None, force: false, session: None, suggest_next: false };
    execute_with_args(args, json, mode)
}

/// Execute the close command with full arguments: the command and its first action.
pub fn execute_with_args(args: CloseArgs, use_json: bool, mode: OutputMode) -> (r: (
    CloseCommand,
    CommandAction,
))
    ensures
        r.0.deep_view().wf(),
        (r.0.deep_view(), r.1.deep_view()) == command_start(
            CommandState::fresh(args.deep_view(), use_json, mode),
        ),
{
    let ids = copy_texts(&args.ids);
    let mut command = CloseCommand {
        args,
        structured: use_json || mode.is_json || mode.is_toon,
        mode,
        phase: CommandPhase::Touched,
        targets: Vec::new(),
        batches: Vec::new(),
        routed: Vec::new(),
        unblocked: Vec::new(),
    };
    assert(command.deep_view() =~= CommandState::fresh(args.deep_view(), use_json, mode));
    if ids.len() == 0 {
        return (command, CommandAction::ReadLastTouched);
    }
    let action = command.aim(ids);
    (command, action)
}

proof fn lemma_parted(list: Seq<CloseOutcomeView>)
    ensures
        closed_of(list).len() + skipped_of(list).len() == list.len(),
    decreases list.len(),
{
    if list.len() > 0 {
        lemma_parted(list.drop_last());
    }
}

/// Where the batches hold the issues that were given, each as often, and every batch has one
/// outcome for each of its issues, the results are reported, and each issue is among the closed
/// or the skipped ones; else they are refused.
pub proof fn lemma_batches_come_together(s: CommandState)
    ensures
        ({
            let complete = (forall|i: int|
                0 <= i < s.routed.len() ==> (#[trigger] s.routed[i]).0.len()
                    == s.routed[i].1.len()) && (forall|x: Seq<char>| #[trigger]
                times(s.targets, x) == times_routed(s.routed, x));
            match command_batch(s, s.batches.len() as int).1 {
                CommandActionView::Report(report) => complete && exists|list: Seq<
                    CloseOutcomeView,
                >| #[trigger]
                    reordered(s.targets, s.routed) == Ok::<Seq<CloseOutcomeView>, Misrouted>(list)
                        && closed_of(list).len() + skipped_of(list).len() == s.targets.len(),
                CommandActionView::Refuse(_) => !complete,
                _ => false,
            }
        }),
{
    lemma_reordered_succeeds(s.targets, s.routed);
    lemma_reordered_matches_inputs(s.targets, s.routed);
    match reordered(s.targets, s.routed) {
        Ok(list) => {
            lemma_parted(list);
        },
        Err(_) => {},
    }
}

} // verus!
