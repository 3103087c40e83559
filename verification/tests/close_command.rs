//! The close command from its arguments to its report.

use beads_store::assoc::TextMap;
use beads_store::batch::{compute_batch_closable_ids, reorder_routed_items_by_requested_inputs};
use beads_store::clock::Timestamp;
use beads_store::close::{
    build_close_json_payload, close_report, emit_close_structured_output, report_lines, Channel,
    CliCloseArgs, CloseArgs, CloseExecution, CloseOutcome, CloseOutput, ClosePayload, CloseReport,
    ClosedIssue, OutputMode, ReportLine, SkippedIssue, UnblockedIssue,
};
use beads_store::command::{
    execute, execute_cli, execute_with_args, part_outcomes, CommandAction, CommandReply,
    RoutedBatch,
};
use beads_store::error::BeadsError;
use beads_store::model::{Issue, IssueType, Priority, Status};
use beads_store::route::{
    closing_update, partition, triage, CloseRoute, RouteAction, RouteReply,
};

fn texts(list: &[&str]) -> Vec<String> {
    list.iter().map(|s| s.to_string()).collect()
}

fn at(n: i64) -> Timestamp {
    Timestamp::new(1_735_689_600 + n, 0).unwrap()
}

fn closed(id: &str, title: &str) -> ClosedIssue {
    ClosedIssue {
        id: id.to_string(),
        title: title.to_string(),
        status: "closed".to_string(),
        closed_at: "2026-01-01T00:00:00Z".to_string(),
        close_reason: Some("done".to_string()),
    }
}

fn skipped(id: &str, reason: &str) -> SkippedIssue {
    SkippedIssue { id: id.to_string(), reason: reason.to_string() }
}

fn plain() -> OutputMode {
    OutputMode { is_json: false, is_toon: false }
}

fn args(ids: &[&str]) -> CloseArgs {
    CloseArgs { ids: texts(ids), ..CloseArgs::default() }
}

fn issue(id: &str, status: Status) -> Issue {
    Issue { id: id.to_string(), title: format!("Title of {id}"), status, ..Issue::default() }
}

/// A database that answers while issues are closed.
#[derive(Default)]
struct World {
    issues: Vec<Issue>,
    blockers: Vec<(&'static str, Vec<&'static str>)>,
    children: Vec<(&'static str, Vec<&'static str>)>,
    counts: Vec<(&'static str, (usize, usize))>,
    fail_at: Option<&'static str>,
    asked: Vec<String>,
}

impl World {
    fn get(&self, id: &str) -> Option<Issue> {
        self.issues.iter().find(|i| i.id == id).cloned()
    }

    fn blocked(&self) -> Vec<String> {
        let open = |id: &str| self.get(id).is_none_or(|i| !i.status.is_terminal());
        self.blockers
            .iter()
            .filter(|(_, by)| by.iter().any(|b| open(b)))
            .map(|(id, _)| id.to_string())
            .collect()
    }

    /// A blocker with its status, as the cache has it.
    fn annotated(&self, id: &str) -> String {
        match self.get(id) {
            Some(issue) => format!("{id}:{}", issue.status.as_str()),
            None => format!("{id}:unknown"),
        }
    }

    fn answer(&mut self, action: &RouteAction) -> RouteReply {
        let name = format!("{action:?}");
        let name = name.split([' ', '{']).next().unwrap().to_string();
        self.asked.push(name.clone());
        if self.fail_at == Some(name.as_str()) {
            return RouteReply::Failed;
        }
        match action {
            RouteAction::FetchIssue { id, .. } => RouteReply::Found(self.get(id)),
            RouteAction::AskBlocked { id, .. } => RouteReply::Answer(self.blocked().contains(id)),
            RouteAction::FetchBlockers { id, .. } => RouteReply::Listed(
                self.blockers
                    .iter()
                    .filter(|(i, _)| i == id)
                    .flat_map(|(_, by)| by.iter().map(|b| self.annotated(b)))
                    .collect(),
            ),
            RouteAction::FetchOpenChildren { id } => RouteReply::Listed(
                self.children
                    .iter()
                    .filter(|(i, _)| i == id)
                    .flat_map(|(_, by)| texts(by))
                    .collect(),
            ),
            RouteAction::Close { id, update, .. } => {
                for i in self.issues.iter_mut().filter(|i| i.id == *id) {
                    i.status = update.status.clone().unwrap();
                    i.closed_at = update.closed_at.unwrap();
                    i.close_reason = update.close_reason.clone().unwrap();
                }
                RouteReply::Done
            }
            RouteAction::FetchBlocked { .. } => RouteReply::Listed(self.blocked()),
            _ => RouteReply::Done,
        }
    }

    fn close(&mut self, args: CloseArgs, auto_flush: bool) -> Option<CloseExecution> {
        let mut counts = TextMap::new();
        for (id, c) in &self.counts {
            counts.insert(id, *c);
        }
        let before = if args.suggest_next { self.blocked() } else { vec![] };
        let ids = args.ids.clone();
        let (mut route, mut action) =
            CloseRoute::start(args, ids, counts, before, auto_flush, at(0));
        loop {
            match action {
                RouteAction::Finish => return Some(route.finish()),
                RouteAction::Fail => return None,
                _ => {
                    let reply = self.answer(&action);
                    action = route.step(reply, at(1));
                }
            }
        }
    }

    /// Runs the whole command with all issues in one database.
    fn command(&mut self, args: CloseArgs, json: bool) -> Result<CloseReport, BeadsError> {
        let (mut command, mut action) = execute_with_args(args, json, plain());
        loop {
            let reply = match action {
                CommandAction::ReadLastTouched => CommandReply::Touched(String::new()),
                CommandAction::GroupByRoute { inputs } => CommandReply::Grouped(vec![RoutedBatch {
                    issue_inputs: inputs,
                    is_external: false,
                    is_here: true,
                }]),
                CommandAction::RunRoute { batch, args, keep_database, auto_flush } => {
                    assert!(batch.is_none() && keep_database && !auto_flush);
                    match self.close(args, auto_flush) {
                        Some(e) => CommandReply::Executed(e),
                        None => CommandReply::Failed,
                    }
                }
                CommandAction::Report(report) => match report.failure {
                    Some(error) => return Err(error),
                    None => return Ok(report),
                },
                CommandAction::Refuse(error) => return Err(error),
                CommandAction::Fail => return Err(BeadsError::Database("failed".to_string())),
            };
            action = command.step(reply);
        }
    }
}

#[test]
fn test_render_close_json_preserves_bare_array_for_pure_success() {
    let payload = build_close_json_payload(
        &CloseArgs::default(),
        vec![closed("bd-1", "Task 1")],
        vec![],
        vec![],
    );
    assert_eq!(payload, ClosePayload::Bare(vec![closed("bd-1", "Task 1")]));
}

#[test]
fn test_close_result_shape_with_skipped_is_wrapped() {
    let payload = build_close_json_payload(
        &CloseArgs::default(),
        vec![closed("bd-1", "Task 1")],
        vec![skipped("bd-2", "blocked by: bd-3")],
        vec![],
    );
    match payload {
        ClosePayload::Wrapped(result) => {
            assert_eq!(result.closed[0].id, "bd-1");
            assert_eq!(result.skipped[0].id, "bd-2");
        }
        _ => panic!("not wrapped"),
    }
}

#[test]
fn suggestions_are_always_wrapped() {
    let args = CloseArgs { suggest_next: true, ..CloseArgs::default() };
    let next = UnblockedIssue { id: "bd-2".to_string(), title: "Next".to_string(), priority: 1 };
    match build_close_json_payload(&args, vec![], vec![], vec![next]) {
        ClosePayload::Suggesting(result) => assert_eq!(result.unblocked[0].id, "bd-2"),
        _ => panic!("not wrapped"),
    }
}

#[test]
fn structured_output_goes_the_way_it_was_told() {
    let emit = |is_json: bool, is_toon: bool, skip: bool| {
        let skips = if skip { vec![skipped("b", "r")] } else { vec![] };
        let mode = OutputMode { is_json, is_toon };
        let list = vec![closed("a", "A")];
        emit_close_structured_output(&CloseArgs::default(), list, skips, vec![], mode).1
    };
    assert_eq!(emit(true, true, false), Channel::Toon);
    assert_eq!(emit(true, false, true), Channel::Json);
    assert_eq!(emit(false, false, false), Channel::Printed);
    assert_eq!(emit(false, false, true), Channel::FreshJson);
}

#[test]
fn people_read_lines() {
    assert_eq!(
        report_lines(&vec![], &vec![], &vec![]),
        vec![ReportLine::Info("No issues to close.".to_string())]
    );
    let mut bare = closed("bd-2", "B");
    bare.close_reason = None;
    let next = UnblockedIssue { id: "bd-4".to_string(), title: "D".to_string(), priority: 2 };
    assert_eq!(
        report_lines(
            &vec![closed("bd-1", "A"), bare],
            &vec![skipped("bd-3", "already closed")],
            &vec![next],
        ),
        vec![
            ReportLine::Success("Closed bd-1: A (done)".to_string()),
            ReportLine::Success("Closed bd-2: B".to_string()),
            ReportLine::Warning("Skipped bd-3: already closed".to_string()),
            ReportLine::Newline,
            ReportLine::Info("Unblocked 1 issue(s):".to_string()),
            ReportLine::Plain("  bd-4: D".to_string()),
        ]
    );
}

#[test]
fn reports_remember_the_last_closed_issue() {
    let report = close_report(
        &CloseArgs::default(),
        false,
        plain(),
        vec![closed("bd-1", "A"), closed("bd-2", "B")],
        vec![],
        vec![],
    );
    assert_eq!(report.last_touched.as_deref(), Some("bd-2"));
    assert_eq!(report.failure, None);
    let report = close_report(
        &CloseArgs::default(),
        true,
        plain(),
        vec![],
        vec![skipped("a", "r"), skipped("b", "r")],
        vec![],
    );
    assert_eq!(report.last_touched, None);
    assert_eq!(
        report.failure,
        Some(BeadsError::NothingToDo { reason: "all 2 issue(s) skipped".to_string() })
    );
    assert!(matches!(report.output, CloseOutput::Structured(ClosePayload::Wrapped(_), _)));
}

#[test]
fn execute_with_args_closes_requested_blocker_chain_in_one_batch() {
    let mut world = World {
        issues: vec![issue("bd-blocker", Status::Open), issue("bd-blocked", Status::Open)],
        blockers: vec![("bd-blocked", vec!["bd-blocker"])],
        ..World::default()
    };
    let report = world.command(args(&["bd-blocked", "bd-blocker"]), false).unwrap();
    assert_eq!(world.get("bd-blocker").unwrap().status, Status::Closed);
    assert_eq!(world.get("bd-blocked").unwrap().status, Status::Closed);
    assert_eq!(world.get("bd-blocked").unwrap().close_reason.as_deref(), Some("done"));
    assert_eq!(report.last_touched.as_deref(), Some("bd-blocker"));
}

#[test]
fn execute_with_args_returns_nothing_to_do_when_all_requested_issues_are_skipped() {
    let mut world =
        World { issues: vec![issue("bd-closed", Status::Closed)], ..World::default() };
    let err = world
        .command(args(&["bd-closed"]), true)
        .expect_err("all-skipped close should fail");
    assert!(matches!(err, BeadsError::NothingToDo { .. }));
}

#[test]
fn each_issue_is_closed_or_skipped_with_a_reason() {
    let mut epic = issue("bd-epic", Status::Open);
    epic.issue_type = IssueType::Epic;
    let mut world = World {
        issues: vec![
            issue("bd-done", Status::Closed),
            issue("bd-gone", Status::Tombstone),
            epic,
            issue("bd-parent", Status::Open),
            issue("bd-stuck", Status::Open),
            issue("bd-held", Status::Open),
            issue("bd-dots", Status::Open),
            issue("bd-free", Status::InProgress),
        ],
        blockers: vec![
            ("bd-stuck", vec!["bd-z", "bd-y", "bd-z"]),
            ("bd-held", vec!["bd-stuck", "bd-free"]),
        ],
        children: vec![("bd-dots", vec!["bd-dots.1", "bd-dots.2"])],
        counts: vec![("bd-epic", (3, 1)), ("bd-parent", (1, 0)), ("bd-free", (2, 2))],
        ..World::default()
    };
    let ids = [
        "bd-free", "bd-missing", "bd-done", "bd-gone", "bd-epic", "bd-parent", "bd-stuck",
        "bd-held", "bd-dots",
    ];
    let mut asked = args(&ids);
    asked.reason = Some("shipped".to_string());
    asked.session = Some("s1".to_string());
    let e = world.close(asked, false).unwrap();
    let reasons: Vec<(&str, &str)> =
        e.skipped.iter().map(|s| (s.id.as_str(), s.reason.as_str())).collect();
    assert_eq!(
        reasons,
        vec![
            ("bd-missing", "issue not found"),
            ("bd-done", "already closed"),
            ("bd-gone", "already tombstone"),
            ("bd-epic", "epic has 2/3 open children (use --force to close anyway)"),
            ("bd-parent", "parent issue has 1/1 open children (use --force to close anyway)"),
            ("bd-stuck", "blocked by: bd-y, bd-z"),
            ("bd-held", "blocked by: bd-stuck"),
            ("bd-dots", "has 2 open child issue(s): bd-dots.1, bd-dots.2"),
        ]
    );
    assert_eq!(e.closed.len(), 1);
    assert_eq!(e.closed[0].id, "bd-free");
    assert_eq!(e.closed[0].title, "Title of bd-free");
    assert_eq!(e.closed[0].status, "closed");
    assert_eq!(e.closed[0].closed_at, at(1).to_rfc3339());
    assert_eq!(e.closed[0].close_reason.as_deref(), Some("shipped"));
    // Skips for open children are no outcome.
    assert_eq!(e.ordered_outcomes.len(), ids.len() - 1);
    assert_eq!(world.asked.last().unwrap(), "Flush");
    assert!(world.asked.contains(&"RefreshCache".to_string()));
}

#[test]
fn force_closes_whatever_is_open() {
    let mut world = World {
        issues: vec![issue("bd-a", Status::Open), issue("bd-b", Status::Closed)],
        blockers: vec![("bd-a", vec!["bd-z"])],
        children: vec![("bd-a", vec!["bd-a.1"])],
        counts: vec![("bd-a", (1, 0))],
        ..World::default()
    };
    let mut forced = args(&["bd-a", "bd-b"]);
    forced.force = true;
    let e = world.close(forced, true).unwrap();
    assert_eq!(e.closed.len(), 1);
    assert_eq!(e.skipped, vec![skipped("bd-b", "already closed")]);
    assert_eq!(
        world.asked,
        vec!["FetchIssue", "FetchIssue", "Close", "RefreshCache", "Flush", "AutoFlush"]
    );
}

#[test]
fn closing_suggests_what_is_no_longer_blocked() {
    let mut next = issue("bd-next", Status::Open);
    next.priority = Priority(1);
    let mut world = World {
        issues: vec![issue("bd-a", Status::Open), next, issue("bd-pinned", Status::Pinned)],
        blockers: vec![
            ("bd-next", vec!["bd-a"]),
            ("bd-pinned", vec!["bd-a"]),
            ("bd-gone", vec!["bd-a"]),
            ("bd-still", vec!["bd-z"]),
        ],
        ..World::default()
    };
    let mut wanted = args(&["bd-a"]);
    wanted.suggest_next = true;
    let e = world.close(wanted, false).unwrap();
    assert_eq!(
        e.unblocked,
        vec![UnblockedIssue {
            id: "bd-next".to_string(),
            title: "Title of bd-next".to_string(),
            priority: 1,
        }]
    );
}

#[test]
fn failures_end_the_run_unless_the_issues_are_closed() {
    for (at, ends) in [
        ("FetchIssue", true),
        ("AskBlocked", true),
        ("FetchOpenChildren", true),
        ("Close", true),
        ("RefreshCache", true),
        ("Flush", true),
        ("FetchBlocked", false),
        ("AutoFlush", false),
    ] {
        let mut world = World {
            issues: vec![issue("bd-a", Status::Open), issue("bd-n", Status::Open)],
            blockers: vec![("bd-n", vec!["bd-a"])],
            fail_at: Some(at),
            ..World::default()
        };
        let mut wanted = args(&["bd-a"]);
        wanted.suggest_next = true;
        let e = world.close(wanted, true);
        assert_eq!(e.is_none(), ends, "{at}");
        if at == "FetchBlocked" {
            assert!(e.unwrap().unblocked.is_empty());
            assert_eq!(world.asked.last().unwrap(), "Flush");
        }
    }
}

#[test]
fn the_last_touched_issue_is_meant_where_none_is_given() {
    let (mut command, action) = execute(vec![], false, plain());
    assert!(matches!(action, CommandAction::ReadLastTouched));
    match command.step(CommandReply::Touched("bd-7".to_string())) {
        CommandAction::GroupByRoute { inputs } => assert_eq!(inputs, texts(&["bd-7"])),
        other => panic!("{other:?}"),
    }
    let (mut command, _) = execute(vec![], false, plain());
    match command.step(CommandReply::Touched(String::new())) {
        CommandAction::Refuse(error) => assert_eq!(
            error,
            BeadsError::Validation {
                field: "ids".to_string(),
                reason: "no issue IDs provided and no last-touched issue".to_string(),
            }
        ),
        other => panic!("{other:?}"),
    }
}

#[test]
fn suggestions_are_for_one_issue() {
    let cli = CliCloseArgs {
        ids: texts(&["a", "b"]),
        suggest_next: true,
        ..CliCloseArgs::default()
    };
    let (_, action) = execute_cli(&cli, false, plain());
    match action {
        CommandAction::Refuse(error) => assert_eq!(
            error,
            BeadsError::Validation {
                field: "suggest-next".to_string(),
                reason: "--suggest-next only works with a single issue ID".to_string(),
            }
        ),
        other => panic!("{other:?}"),
    }
}

fn run_batches(outcomes: Vec<Vec<CloseOutcome>>) -> CommandAction {
    let (mut command, action) = execute(texts(&["x", "y", "z"]), true, plain());
    assert!(matches!(action, CommandAction::GroupByRoute { .. }));
    let batch = |inputs: &[&str], is_external: bool| RoutedBatch {
        issue_inputs: texts(inputs),
        is_external,
        is_here: !is_external,
    };
    let mut action =
        command.step(CommandReply::Grouped(vec![batch(&["x", "z"], true), batch(&["y"], false)]));
    let mut runs = vec![];
    for list in outcomes {
        match action {
            CommandAction::RunRoute { batch, args, keep_database, auto_flush } => {
                assert_ne!(keep_database, auto_flush);
                runs.push((batch, args.ids));
            }
            other => panic!("{other:?}"),
        }
        let mut e = CloseExecution::new();
        e.ordered_outcomes = list;
        action = command.step(CommandReply::Executed(e));
    }
    assert_eq!(runs, vec![(Some(0), texts(&["x", "z"])), (Some(1), texts(&["y"]))]);
    action
}

#[test]
fn results_from_several_databases_come_in_the_order_of_the_request() {
    let action = run_batches(vec![
        vec![
            CloseOutcome::Closed(closed("x", "X")),
            CloseOutcome::Skipped(skipped("z", "already closed")),
        ],
        vec![CloseOutcome::Closed(closed("y", "Y"))],
    ]);
    match action {
        CommandAction::Report(report) => match report.output {
            CloseOutput::Structured(ClosePayload::Wrapped(result), Channel::FreshJson) => {
                assert_eq!(result.closed, vec![closed("x", "X"), closed("y", "Y")]);
                assert_eq!(result.skipped, vec![skipped("z", "already closed")]);
            }
            other => panic!("{other:?}"),
        },
        other => panic!("{other:?}"),
    }
    let short = run_batches(vec![vec![], vec![CloseOutcome::Closed(closed("y", "Y"))]]);
    match short {
        CommandAction::Refuse(error) => assert_eq!(
            error,
            BeadsError::Config(
                "close routing produced mismatched issue/result counts".to_string()
            )
        ),
        other => panic!("{other:?}"),
    }
}

#[test]
fn routed_items_are_reordered() {
    let requested = texts(&["a", "b", "a", "c"]);
    let routed = vec![
        (texts(&["a", "c", "a"]), vec![1, 2, 3]),
        (texts(&["b"]), vec![4]),
    ];
    assert_eq!(
        reorder_routed_items_by_requested_inputs(&requested, routed, "close routing"),
        Ok(vec![1, 4, 3, 2])
    );
    let error = |routed: Vec<(Vec<String>, Vec<i32>)>| {
        reorder_routed_items_by_requested_inputs(&requested, routed, "close routing").unwrap_err()
    };
    assert_eq!(
        error(vec![(texts(&["a"]), vec![])]),
        BeadsError::Config("close routing produced mismatched issue/result counts".to_string())
    );
    assert_eq!(
        error(vec![(texts(&["z"]), vec![1])]),
        BeadsError::Config("close routing returned unexpected issue input z".to_string())
    );
    assert_eq!(
        error(vec![(texts(&["a", "b"]), vec![1, 2])]),
        BeadsError::Config("close routing did not produce a result for a".to_string())
    );
}

#[test]
fn the_greatest_closable_set_is_found() {
    let mut internal = TextMap::new();
    let mut external = TextMap::new();
    internal.insert("b", texts(&["a"]));
    internal.insert("c", texts(&["b"]));
    internal.insert("p", texts(&["q"]));
    internal.insert("q", texts(&["p"]));
    internal.insert("y", texts(&["x"]));
    external.insert("x", texts(&["outside"]));
    external.insert("a", texts(&[]));
    let all = texts(&["a", "b", "c", "p", "q", "x", "y"]);
    let mut closable = compute_batch_closable_ids(&all, &internal, &external);
    closable.sort();
    assert_eq!(closable, texts(&["a", "b", "c", "p", "q"]));
}

#[test]
fn parts_of_a_route() {
    assert_eq!(
        partition(&texts(&["a", "b", "c"]), &texts(&["c", "a"])),
        (texts(&["a", "c"]), texts(&["b"]))
    );
    let counts: TextMap<(usize, usize)> = TextMap::new();
    assert_eq!(triage(false, &counts, "a", &Some(issue("a", Status::Open))), None);
    assert_eq!(triage(true, &counts, "a", &None).as_deref(), Some("issue not found"));
    let update = closing_update(&args(&["a"]), at(5));
    assert_eq!(update.status, Some(Status::Closed));
    assert_eq!(update.closed_at, Some(Some(at(5))));
    assert_eq!(update.close_reason, Some(Some("done".to_string())));
    assert_eq!(update.closed_by_session, None);
    assert!(update.skip_cache_rebuild);
    let (c, s) = part_outcomes(vec![
        CloseOutcome::Skipped(skipped("a", "r")),
        CloseOutcome::Closed(closed("b", "B")),
    ]);
    assert_eq!((c.len(), s.len()), (1, 1));
}
