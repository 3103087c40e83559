//! The close command: its arguments, its results and how they are reported.

use crate::error::BeadsError;
use crate::scan::write_decimal;
use crate::text::{copy_opt, copy_texts, joined3};
use vstd::prelude::*;

verus! {

use crate::error::BeadsErrorView;
use crate::scan::decimal;

/// Internal arguments for the close command.
#[derive(Debug)]
pub struct CloseArgs {
    /// Issue IDs to close
    pub ids: Vec<String>,
    /// Close reason
    pub reason: Option<String>,
    /// Force close even if blocked
    pub force: bool,
    /// Session ID for `closed_by_session` field
    pub session: Option<String>,
    /// Return newly unblocked issues (single ID only)
    pub suggest_next: bool,
}

/// The view of [`CloseArgs`].
#[verifier::ext_equal]
pub struct CloseArgsView {
    pub ids: Seq<Seq<char>>,
    pub reason: Option<Seq<char>>,
    pub force: bool,
    pub session: Option<Seq<char>>,
    pub suggest_next: bool,
}

impl DeepView for CloseArgs {
    type V = CloseArgsView;

    open spec fn deep_view(&self) -> CloseArgsView {
        CloseArgsView {
            ids: self.ids.deep_view(),
            reason: self.reason.deep_view(),
            force: self.force,
            session: self.session.deep_view(),
            suggest_next: self.suggest_next,
        }
    }
}

impl Clone for CloseArgs {
    fn clone(&self) -> (r: Self)
        ensures
            r.deep_view() == self.deep_view(),
    {
        CloseArgs {
            ids: copy_texts(&self.ids),
            reason: copy_opt(&self.reason),
            force: self.force,
            session: copy_opt(&self.session),
            suggest_next: self.suggest_next,
        }
    }
}

impl Default for CloseArgs {
    fn default() -> (r: Self)
        ensures
            r.deep_view() == (CloseArgsView {
                ids: seq![],
                reason: None,
                force: false,
                session: None,
                suggest_next: false,
            }),
    {
        let ids: Vec<String> = Vec::new();
        assert(ids.deep_view() =~= seq![]);
        CloseArgs { ids, reason: None, force: false, session: None, suggest_next: false }
    }
}

/// The arguments of the close command as they were given on the command line.
#[derive(Debug, Clone, PartialEq, Eq, Default)]
pub struct CliCloseArgs {
    pub ids: Vec<String>,
    pub reason: Option<String>,
    pub force: bool,
    pub session: Option<String>,
    pub suggest_next: bool,
}

impl DeepView for CliCloseArgs {
    type V = CloseArgsView;

    open spec fn deep_view(&self) -> CloseArgsView {
        CloseArgsView {
            ids: self.ids.deep_view(),
            reason: self.reason.deep_view(),
            force: self.force,
            session: self.session.deep_view(),
            suggest_next: self.suggest_next,
        }
    }
}

impl CloseArgs {
    /// The arguments that were given on the command line.
    pub fn from(cli: &CliCloseArgs) -> (r: Self)
        ensures
            r.deep_view() == cli.deep_view(),
    {
        CloseArgs {
            ids: copy_texts(&cli.ids),
            reason: copy_opt(&cli.reason),
            force: cli.force,
            session: copy_opt(&cli.session),
            suggest_next: cli.suggest_next,
        }
    }

    /// The arguments with other issue IDs.
    pub fn with_ids(&self, ids: Vec<String>) -> (r: Self)
        ensures
            r.deep_view() == self.deep_view().with_ids(ids.deep_view()),
    {
        CloseArgs {
            ids,
            reason: copy_opt(&self.reason),
            force: self.force,
            session: copy_opt(&self.session),
            suggest_next: self.suggest_next,
        }
    }
}

impl CloseArgsView {
    /// The arguments with other issue IDs.
    pub open spec fn with_ids(self, ids: Seq<Seq<char>>) -> Self {
        CloseArgsView { ids, ..self }
    }
}

/// An issue that became unblocked after closing.
#[derive(Debug, Clone, PartialEq, Eq)]
pub struct UnblockedIssue {
    pub id: String,
    pub title: String,
    pub priority: i32,
}

/// The view of [`UnblockedIssue`].
#[verifier::ext_equal]
pub struct UnblockedIssueView {
    pub id: Seq<char>,
    pub title: Seq<char>,
    pub priority: i32,
}

impl DeepView for UnblockedIssue {
    type V = UnblockedIssueView;

    open spec fn deep_view(&self) -> UnblockedIssueView {
        UnblockedIssueView {
            id: self.id@,
            title: self.title@,
            priority: self.priority,
        }
    }
}

/// An issue that was closed.
#[derive(Debug, Clone, PartialEq, Eq)]
pub struct ClosedIssue {
    pub id: String,
    pub title: String,
    pub status: String,
    pub closed_at: String,
    pub close_reason: Option<String>,
}

/// The view of [`ClosedIssue`].
#[verifier::ext_equal]
pub struct ClosedIssueView {
    pub id: Seq<char>,
    pub title: Seq<char>,
    pub status: Seq<char>,
    pub closed_at: Seq<char>,
    pub close_reason: Option<Seq<char>>,
}

impl DeepView for ClosedIssue {
    type V = ClosedIssueView;

    open spec fn deep_view(&self) -> ClosedIssueView {
        ClosedIssueView {
            id: self.id@,
            title: self.title@,
            status: self.status@,
            closed_at: self.closed_at@,
            close_reason: self.close_reason.deep_view(),
        }
    }
}

/// An issue that was not closed, and why.
#[derive(Debug, Clone, PartialEq, Eq)]
pub struct SkippedIssue {
    pub id: String,
    pub reason: String,
}

/// The view of [`SkippedIssue`].
#[verifier::ext_equal]
pub struct SkippedIssueView {
    pub id: Seq<char>,
    pub reason: Seq<char>,
}

impl DeepView for SkippedIssue {
    type V = SkippedIssueView;

    open spec fn deep_view(&self) -> SkippedIssueView {
        SkippedIssueView {
            id: self.id@,
            reason: self.reason@,
        }
    }
}

/// Result of a close operation for JSON output.
#[derive(Debug, PartialEq, Eq)]
pub struct CloseResult {
    pub closed: Vec<ClosedIssue>,
    pub skipped: Vec<SkippedIssue>,
}

/// The view of [`CloseResult`].
#[verifier::ext_equal]
pub struct CloseResultView {
    pub closed: Seq<ClosedIssueView>,
    pub skipped: Seq<SkippedIssueView>,
}

impl DeepView for CloseResult {
    type V = CloseResultView;

    open spec fn deep_view(&self) -> CloseResultView {
        CloseResultView {
            closed: self.closed.deep_view(),
            skipped: self.skipped.deep_view(),
        }
    }
}

/// Result of closing with suggest-next.
#[derive(Debug, PartialEq, Eq)]
pub struct CloseWithSuggestResult {
    pub closed: Vec<ClosedIssue>,
    pub skipped: Vec<SkippedIssue>,
    pub unblocked: Vec<UnblockedIssue>,
}

/// The view of [`CloseWithSuggestResult`].
#[verifier::ext_equal]
pub struct CloseWithSuggestResultView {
    pub closed: Seq<ClosedIssueView>,
    pub skipped: Seq<SkippedIssueView>,
    pub unblocked: Seq<UnblockedIssueView>,
}

impl DeepView for CloseWithSuggestResult {
    type V = CloseWithSuggestResultView;

    open spec fn deep_view(&self) -> CloseWithSuggestResultView {
        CloseWithSuggestResultView {
            closed: self.closed.deep_view(),
            skipped: self.skipped.deep_view(),
            unblocked: self.unblocked.deep_view(),
        }
    }
}

/// What became of one issue that was to be closed.
#[derive(Debug, Clone, PartialEq, Eq)]
pub enum CloseOutcome {
    Closed(ClosedIssue),
    Skipped(SkippedIssue),
}

/// The view of [`CloseOutcome`].
#[verifier::ext_equal]
pub enum CloseOutcomeView {
    Closed(ClosedIssueView),
    Skipped(SkippedIssueView),
}

impl DeepView for CloseOutcome {
    type V = CloseOutcomeView;

    open spec fn deep_view(&self) -> CloseOutcomeView {
        match self {
            CloseOutcome::Closed(issue) => CloseOutcomeView::Closed(issue.deep_view()),
            CloseOutcome::Skipped(issue) => CloseOutcomeView::Skipped(issue.deep_view()),
        }
    }
}

/// What came of closing issues in one database.
#[derive(Debug, PartialEq, Eq)]
pub struct CloseExecution {
    pub closed: Vec<ClosedIssue>,
    pub skipped: Vec<SkippedIssue>,
    pub unblocked: Vec<UnblockedIssue>,
    /// What became of the issues, in the order in which they were settled. An issue that was skipped
    /// for its open children has no entry.
    pub ordered_outcomes: Vec<CloseOutcome>,
}

/// The view of [`CloseExecution`].
#[verifier::ext_equal]
pub struct CloseExecutionView {
    pub closed: Seq<ClosedIssueView>,
    pub skipped: Seq<SkippedIssueView>,
    pub unblocked: Seq<UnblockedIssueView>,
    pub ordered_outcomes: Seq<CloseOutcomeView>,
}

impl DeepView for CloseExecution {
    type V = CloseExecutionView;

    open spec fn deep_view(&self) -> CloseExecutionView {
        CloseExecutionView {
            closed: self.closed.deep_view(),
            skipped: self.skipped.deep_view(),
            unblocked: self.unblocked.deep_view(),
            ordered_outcomes: self.ordered_outcomes.deep_view(),
        }
    }
}

impl CloseExecution {
    /// Nothing was done yet.
    pub fn new() -> (r: Self)
        ensures
            r.deep_view() == CloseExecutionView::fresh(),
    {
        let r = CloseExecution {
            closed: Vec::new(),
            skipped: Vec::new(),
            unblocked: Vec::new(),
            ordered_outcomes: Vec::new(),
        };
        assert(r.deep_view() =~= CloseExecutionView::fresh());
        r
    }
}

impl CloseExecutionView {
    /// Nothing was done yet.
    pub open spec fn fresh() -> Self {
        CloseExecutionView {
            closed: seq![],
            skipped: seq![],
            unblocked: seq![],
            ordered_outcomes: seq![],
        }
    }
}

/// The results of the close command in the shape in which programs read them.
#[derive(Debug, PartialEq, Eq)]
pub enum ClosePayload {
    /// A bare list of the closed issues.
    Bare(Vec<ClosedIssue>),
    /// Closed and skipped issues.
    Wrapped(CloseResult),
    /// Closed, skipped and unblocked issues.
    Suggesting(CloseWithSuggestResult),
}

/// The view of [`ClosePayload`].
#[verifier::ext_equal]
pub enum ClosePayloadView {
    Bare(Seq<ClosedIssueView>),
    Wrapped(CloseResultView),
    Suggesting(CloseWithSuggestResultView),
}

impl DeepView for ClosePayload {
    type V = ClosePayloadView;

    open spec fn deep_view(&self) -> ClosePayloadView {
        match self {
            ClosePayload::Bare(closed) => ClosePayloadView::Bare(closed.deep_view()),
            ClosePayload::Wrapped(result) => ClosePayloadView::Wrapped(result.deep_view()),
            ClosePayload::Suggesting(result) => ClosePayloadView::Suggesting(result.deep_view()),
        }
    }
}

/// The shape of the results: with suggestions always the full one; else a bare list of the
/// closed issues unless some were skipped, whose reasons the list would lose.
pub open spec fn payload(
    suggest_next: bool,
    closed: Seq<ClosedIssueView>,
    skipped: Seq<SkippedIssueView>,
    unblocked: Seq<UnblockedIssueView>,
) -> ClosePayloadView {
    if suggest_next {
        ClosePayloadView::Suggesting(CloseWithSuggestResultView { closed, skipped, unblocked })
    } else if skipped.len() == 0 {
        ClosePayloadView::Bare(closed)
    } else {
        ClosePayloadView::Wrapped(CloseResultView { closed, skipped })
    }
}

/// The results in the shape in which programs read them.
pub fn build_close_json_payload(
    args: &CloseArgs,
    closed_issues: Vec<ClosedIssue>,
    skipped_issues: Vec<SkippedIssue>,
    unblocked_issues: Vec<UnblockedIssue>,
) -> (r: ClosePayload)
    ensures
        r.deep_view() == payload(
            args.suggest_next,
            closed_issues.deep_view(),
            skipped_issues.deep_view(),
            unblocked_issues.deep_view(),
        ),
{
    if args.suggest_next {
        // suggest_next always uses the wrapped machine format.
        ClosePayload::Suggesting(
            CloseWithSuggestResult {
                closed: closed_issues,
                skipped: skipped_issues,
                unblocked: unblocked_issues,
            },
        )
    } else if skipped_issues.len() == 0 {
        // Pure-success closes are a bare array.
        ClosePayload::Bare(closed_issues)
    } else {
        // Once skips are present, a bare array loses machine-readable reasons.
        ClosePayload::Wrapped(CloseResult { closed: closed_issues, skipped: skipped_issues })
    }
}

/// The format in which the command was told to write.
#[derive(Debug, Clone, Copy, PartialEq, Eq, Structural)]
pub struct OutputMode {
    pub is_json: bool,
    pub is_toon: bool,
}

/// The way by which structured output goes out.
#[derive(Debug, Clone, Copy, PartialEq, Eq, Structural)]
pub enum Channel {
    /// In TOON.
    Toon,
    /// In JSON, by the output that the command was given.
    Json,
    /// In JSON, by an output made for it.
    FreshJson,
    /// In JSON, printed plainly.
    Printed,
}

/// The way by which structured output goes out: the format that the command was told to write
/// in, and else JSON.
pub open spec fn channel(mode: OutputMode, p: ClosePayloadView) -> Channel {
    if mode.is_toon {
        Channel::Toon
    } else if mode.is_json {
        Channel::Json
    } else if p is Bare {
        Channel::Printed
    } else {
        Channel::FreshJson
    }
}

/// The results in the shape in which programs read them, and the way by which they go out.
pub fn emit_close_structured_output(
    args: &CloseArgs,
    closed_issues: Vec<ClosedIssue>,
    skipped_issues: Vec<SkippedIssue>,
    unblocked_issues: Vec<UnblockedIssue>,
    mode: OutputMode,
) -> (r: (ClosePayload, Channel))
    ensures
        r.0.deep_view() == payload(
            args.suggest_next,
            closed_issues.deep_view(),
            skipped_issues.deep_view(),
            unblocked_issues.deep_view(),
        ),
        r.1 == channel(mode, r.0.deep_view()),
{
    let payload = build_close_json_payload(args, closed_issues, skipped_issues, unblocked_issues);
    let channel = if mode.is_toon {
        Channel::Toon
    } else if mode.is_json {
        Channel::Json
    } else {
        match &payload {
            ClosePayload::Bare(_) => Channel::Printed,
            _ => Channel::FreshJson,
        }
    };
    (payload, channel)
}

/// A line of a report for people.
#[derive(Debug, Clone, PartialEq, Eq)]
pub enum ReportLine {
    Info(String),
    Success(String),
    Warning(String),
    Newline,
    Plain(String),
}

/// The view of [`ReportLine`].
#[verifier::ext_equal]
pub enum ReportLineView {
    Info(Seq<char>),
    Success(Seq<char>),
    Warning(Seq<char>),
    Newline,
    Plain(Seq<char>),
}

impl DeepView for ReportLine {
    type V = ReportLineView;

    open spec fn deep_view(&self) -> ReportLineView {
        match self {
            ReportLine::Info(s) => ReportLineView::Info(s@),
            ReportLine::Success(s) => ReportLineView::Success(s@),
            ReportLine::Warning(s) => ReportLineView::Warning(s@),
            ReportLine::Newline => ReportLineView::Newline,
            ReportLine::Plain(s) => ReportLineView::Plain(s@),
        }
    }
}

/// The line for a closed issue.
pub open spec fn closed_line(issue: ClosedIssueView) -> ReportLineView {
    let text = "Closed "@ + issue.id + ": "@ + issue.title;
    ReportLineView::Success(
        match issue.close_reason {
            Some(reason) => text + " ("@ + reason + ")"@,
            None => text,
        },
    )
}

/// The line for a skipped issue.
pub open spec fn skipped_line(issue: SkippedIssueView) -> ReportLineView {
    ReportLineView::Warning("Skipped "@ + issue.id + ": "@ + issue.reason)
}

/// The line for an unblocked issue.
pub open spec fn unblocked_line(issue: UnblockedIssueView) -> ReportLineView {
    ReportLineView::Plain("  "@ + issue.id + ": "@ + issue.title)
}

/// The report for people.
pub open spec fn lines(
    closed: Seq<ClosedIssueView>,
    skipped: Seq<SkippedIssueView>,
    unblocked: Seq<UnblockedIssueView>,
) -> Seq<ReportLineView> {
    if closed.len() == 0 && skipped.len() == 0 {
        seq![ReportLineView::Info("No issues to close."@)]
    } else {
        let settled = closed.map_values(|c: ClosedIssueView| closed_line(c)) + skipped.map_values(
            |s: SkippedIssueView| skipped_line(s),
        );
        if unblocked.len() == 0 {
            settled
        } else {
            settled.push(ReportLineView::Newline).push(
                ReportLineView::Info("Unblocked "@ + decimal(unblocked.len()) + " issue(s):"@),
            ) + unblocked.map_values(|u: UnblockedIssueView| unblocked_line(u))
        }
    }
}

/// The report for people.
pub fn report_lines(
    closed: &Vec<ClosedIssue>,
    skipped: &Vec<SkippedIssue>,
    unblocked: &Vec<UnblockedIssue>,
) -> (r: Vec<ReportLine>)
    ensures
        r.deep_view() == lines(closed.deep_view(), skipped.deep_view(), unblocked.deep_view()),
{
    let mut out: Vec<ReportLine> = Vec::new();
    if closed.len() == 0 && skipped.len() == 0 {
        out.push(ReportLine::Info("No issues to close.".to_owned()));
        assert(out.deep_view() =~= seq![ReportLineView::Info("No issues to close."@)]);
        return out;
    }
    let ghost first = closed.deep_view().map_values(|c: ClosedIssueView| closed_line(c));
    let ghost second = skipped.deep_view().map_values(|s: SkippedIssueView| skipped_line(s));
    let ghost third = unblocked.deep_view().map_values(|u: UnblockedIssueView| unblocked_line(u));
    assert(out.deep_view() =~= first.take(0));
    let mut i: usize = 0;
    while i < closed.len()
        invariant
            i <= closed.len(),
            first == closed.deep_view().map_values(|c: ClosedIssueView| closed_line(c)),
            out.deep_view() == first.take(i as int),
        decreases closed.len() - i,
    {
        let issue = &closed[i];
        let mut text = joined3("Closed ", issue.id.as_str(), ": ");
        text.append(issue.title.as_str());
        match &issue.close_reason {
            Some(reason) => {
                text.append(" (");
                text.append(reason.as_str());
                text.append(")");
            },
            None => {},
        }
        let ghost before = out.deep_view();
        let ghost line = ReportLineView::Success(text@);
        assert(first[i as int] == closed_line(issue.deep_view()));
        out.push(ReportLine::Success(text));
        assert(out.deep_view() =~= before.push(line));
        assert(first.take(i + 1) =~= first.take(i as int).push(first[i as int]));
        i += 1;
    }
    assert(first.take(first.len() as int) + second.take(0) =~= first.take(i as int));
    let mut i: usize = 0;
    while i < skipped.len()
        invariant
            i <= skipped.len(),
            second == skipped.deep_view().map_values(|s: SkippedIssueView| skipped_line(s)),
            out.deep_view() == first.take(first.len() as int) + second.take(i as int),
        decreases skipped.len() - i,
    {
        let issue = &skipped[i];
        let mut text = joined3("Skipped ", issue.id.as_str(), ": ");
        text.append(issue.reason.as_str());
        let ghost before = out.deep_view();
        let ghost line = ReportLineView::Warning(text@);
        assert(second[i as int] == skipped_line(issue.deep_view()));
        out.push(ReportLine::Warning(text));
        assert(out.deep_view() =~= before.push(line));
        assert(second.take(i + 1) =~= second.take(i as int).push(second[i as int]));
        i += 1;
    }
    let ghost settled = first + second;
    assert(out.deep_view() =~= settled);
    if unblocked.len() > 0 {
        out.push(ReportLine::Newline);
        assert(out.deep_view() =~= settled.push(ReportLineView::Newline));
        let text = joined3(
            "Unblocked ",
            write_decimal(unblocked.len() as u64).as_str(),
            " issue(s):",
        );
        out.push(ReportLine::Info(text));
        let ghost head = settled.push(ReportLineView::Newline).push(
            ReportLineView::Info(
                "Unblocked "@ + decimal(unblocked.deep_view().len()) + " issue(s):"@,
            ),
        );
        assert(out.deep_view() =~= head);
        assert(head + third.take(0) =~= head);
        let mut i: usize = 0;
        while i < unblocked.len()
            invariant
                i <= unblocked.len(),
                third == unblocked.deep_view().map_values(
                    |u: UnblockedIssueView| unblocked_line(u),
                ),
                out.deep_view() == head + third.take(i as int),
            decreases unblocked.len() - i,
        {
            let issue = &unblocked[i];
            let mut text = joined3("  ", issue.id.as_str(), ": ");
            text.append(issue.title.as_str());
            let ghost before = out.deep_view();
            let ghost line = ReportLineView::Plain(text@);
            assert(third[i as int] == unblocked_line(issue.deep_view()));
            out.push(ReportLine::Plain(text));
            assert(out.deep_view() =~= before.push(line));
            assert(third.take(i + 1) =~= third.take(i as int).push(third[i as int]));
            i += 1;
        }
        assert(third.take(third.len() as int) =~= third);
    }
    out
}

/// What the command writes.
#[derive(Debug, PartialEq, Eq)]
pub enum CloseOutput {
    /// For programs.
    Structured(ClosePayload, Channel),
    /// For people.
    Lines(Vec<ReportLine>),
}

/// The view of [`CloseOutput`].
#[verifier::ext_equal]
pub enum CloseOutputView {
    Structured(ClosePayloadView, Channel),
    Lines(Seq<ReportLineView>),
}

impl DeepView for CloseOutput {
    type V = CloseOutputView;

    open spec fn deep_view(&self) -> CloseOutputView {
        match self {
            CloseOutput::Structured(p, c) => CloseOutputView::Structured(p.deep_view(), *c),
            CloseOutput::Lines(list) => CloseOutputView::Lines(list.deep_view()),
        }
    }
}

/// How the command ends: the issue to remember as touched last, what is written, and the error
/// that is returned behind it, if any.
#[derive(Debug, PartialEq, Eq)]
pub struct CloseReport {
    pub last_touched: Option<String>,
    pub output: CloseOutput,
    pub failure: Option<BeadsError>,
}

/// The view of [`CloseReport`].
#[verifier::ext_equal]
pub struct CloseReportView {
    pub last_touched: Option<Seq<char>>,
    pub output: CloseOutputView,
    pub failure: Option<BeadsErrorView>,
}

impl DeepView for CloseReport {
    type V = CloseReportView;

    open spec fn deep_view(&self) -> CloseReportView {
        CloseReportView {
            last_touched: self.last_touched.deep_view(),
            output: self.output.deep_view(),
            failure: self.failure.deep_view(),
        }
    }
}

/// How the command ends: the last closed issue is remembered; what was done is written; where
/// nothing was closed but something skipped, there was nothing to do.
pub open spec fn report_of(
    suggest_next: bool,
    structured: bool,
    mode: OutputMode,
    closed: Seq<ClosedIssueView>,
    skipped: Seq<SkippedIssueView>,
    unblocked: Seq<UnblockedIssueView>,
) -> CloseReportView {
    CloseReportView {
        last_touched: if closed.len() > 0 {
            Some(closed.last().id)
        } else {
            None
        },
        output: if structured {
            let p = payload(suggest_next, closed, skipped, unblocked);
            CloseOutputView::Structured(p, channel(mode, p))
        } else {
            CloseOutputView::Lines(lines(closed, skipped, unblocked))
        },
        failure: if closed.len() == 0 && skipped.len() > 0 {
            Some(
                BeadsErrorView::NothingToDo {
                    reason: "all "@ + decimal(skipped.len()) + " issue(s) skipped"@,
                },
            )
        } else {
            None
        },
    }
}

/// How the command ends.
pub fn close_report(
    args: &CloseArgs,
    structured: bool,
    mode: OutputMode,
    closed: Vec<ClosedIssue>,
    skipped: Vec<SkippedIssue>,
    unblocked: Vec<UnblockedIssue>,
) -> (r: CloseReport)
    ensures
        r.deep_view() == report_of(
            args.suggest_next,
            structured,
            mode,
            closed.deep_view(),
            skipped.deep_view(),
            unblocked.deep_view(),
        ),
{
    let last_touched = if closed.len() > 0 {
        Some(closed[closed.len() - 1].id.clone())
    } else {
        None
    };
    let failure = if closed.len() == 0 && skipped.len() > 0 {
        Some(
            BeadsError::NothingToDo {
                reason: joined3(
                    "all ",
                    write_decimal(skipped.len() as u64).as_str(),
                    " issue(s) skipped",
                ),
            },
        )
    } else {
        None
    };
    let output = if structured {
        let (payload, channel) = emit_close_structured_output(
            args,
            closed,
            skipped,
            unblocked,
            mode,
        );
        CloseOutput::Structured(payload, channel)
    } else {
        CloseOutput::Lines(report_lines(&closed, &skipped, &unblocked))
    };
    CloseReport { last_touched, output, failure }
}

} // verus!
