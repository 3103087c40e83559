//! The cache of blocked issues: rebuilding it and reading it.

use crate::assoc::{group_pairs, TextMap};
use crate::error::BeadsError;
use crate::json::{decode_texts, encode_texts};
use crate::model::Issue;
use crate::rows::issue_from_row;
use crate::scan::before_first;
use crate::sql::{full_text_pairs, text_pairs, Row, Statement};
use crate::text::joined;
use vstd::prelude::*;

verus! {

use crate::assoc::grouped;
use crate::error::{outcome, BeadsErrorView};
use crate::json::{json_of_texts, texts_of_json};
use crate::model::IssueView;
use crate::rows::issue_of_row;
use crate::scan::until;
use crate::sql::{full_pairs, pairs, stmt, text_at, text_at_or, SqlCell, StatementView};

/// Query for the IDs of blocked issues from the cache.
pub fn get_blocked_ids() -> (r: Statement)
    ensures
        r.deep_view() == stmt("SELECT issue_id FROM blocked_issues_cache"@, seq![]),
        crate::asked::ask_blocked_ids().is(r.deep_view()),
{
    proof {
        crate::asked::lemma_ask_blocked_ids_text();
    }
    Statement::plain("SELECT issue_id FROM blocked_issues_cache")
}

/// Query for issue IDs blocked by `blocks` dependency type only (not full cache).
///
/// This is used for stats computation where blocked count should be based
/// only on `blocks` deps per classic bd semantics.
pub fn get_blocked_by_blocks_deps_only() -> (r: Statement)
    ensures
        r.deep_view() == stmt(
            "SELECT DISTINCT d.issue_id FROM dependencies d LEFT JOIN issues blocker ON d.depends_on_id = blocker.id LEFT JOIN issues blocked ON d.issue_id = blocked.id WHERE d.type = 'blocks' AND blocker.status NOT IN ('closed', 'tombstone') AND blocked.status NOT IN ('closed', 'tombstone')"@,
            seq![],
        ),
        crate::across::ask_blocked_by_blocks().is(r.deep_view()),
{
    proof {
        crate::across::lemma_ask_blocked_by_blocks_text();
    }
    Statement::plain(
        "SELECT DISTINCT d.issue_id FROM dependencies d LEFT JOIN issues blocker ON d.depends_on_id = blocker.id LEFT JOIN issues blocked ON d.issue_id = blocked.id WHERE d.type = 'blocks' AND blocker.status NOT IN ('closed', 'tombstone') AND blocked.status NOT IN ('closed', 'tombstone')",
    )
}

/// Query for whether an issue is blocked (in the blocked cache): it is exactly if the query finds
/// a row.
pub fn is_blocked(issue_id: &str) -> (r: Statement)
    ensures
        r.deep_view() == stmt(
            "SELECT 1 FROM blocked_issues_cache WHERE issue_id = ? LIMIT 1"@,
            seq![SqlCell::Text(issue_id@)],
        ),
        crate::asked::ask_blocked_check(issue_id@).is(r.deep_view()),
{
    proof {
        crate::asked::lemma_ask_blocked_check_text(issue_id@);
    }
    Statement::with_text("SELECT 1 FROM blocked_issues_cache WHERE issue_id = ? LIMIT 1", issue_id)
}

/// Query for what blocks an issue, from the cache.
pub fn blockers_query(issue_id: &str) -> (r: Statement)
    ensures
        r.deep_view() == stmt(
            "SELECT blocked_by FROM blocked_issues_cache WHERE issue_id = ?"@,
            seq![SqlCell::Text(issue_id@)],
        ),
        crate::asked::ask_cached_blockers(issue_id@).is(r.deep_view()),
{
    proof {
        crate::asked::lemma_ask_cached_blockers_text(issue_id@);
    }
    Statement::with_text("SELECT blocked_by FROM blocked_issues_cache WHERE issue_id = ?", issue_id)
}

/// The issue IDs in a list of blockers: what stands before the first colon of each.
pub open spec fn blocker_ids(blockers: Seq<Seq<char>>) -> Seq<Seq<char>> {
    blockers.map_values(|b: Seq<char>| until(b, ':'))
}

/// The issue IDs in a list of blockers: strips the status annotations like ":open".
pub fn strip_annotations(list: &Vec<String>) -> (r: Vec<String>)
    ensures
        r.deep_view() == blocker_ids(list.deep_view()),
{
    let mut out: Vec<String> = Vec::new();
    let mut i: usize = 0;
    while i < list.len()
        invariant
            i <= list.len(),
            out.len() == i,
            forall|k: int| 0 <= k < i ==> (#[trigger] out@[k])@ == until(list@[k]@, ':'),
        decreases list.len() - i,
    {
        out.push(before_first(list[i].as_str(), ':'));
        i += 1;
    }
    assert(out.deep_view() =~= blocker_ids(list.deep_view()));
    out
}

/// Get the actual blockers for an issue, given the row of the query for them.
///
/// Returns the issue IDs that are blocking this issue. The format includes
/// status annotations like "bd-123:open" or "bd-456:parent-blocked".
/// Returns an empty vec if the issue is not blocked or its entry cannot be read.
pub fn get_blockers(row: Option<&Row>) -> (r: Vec<String>)
    ensures
        r.deep_view() == (match row.deep_view() {
            Some(cells) => match text_at(cells, 0) {
                Some(json) => match texts_of_json(json) {
                    Some(list) => list,
                    None => seq![],
                },
                None => seq![],
            },
            None => seq![],
        }),
        forall|list: Seq<Seq<char>>|
            reads_back(list) && row.deep_view() is Some && text_at(row.deep_view()->0, 0) == Some(
                #[trigger] json_of_texts(list),
            ) ==> r.deep_view() == list,
{
    let none: Vec<String> = Vec::new();
    assert(none.deep_view() =~= seq![]);
    match row {
        Some(row) => match row.text(0) {
            Some(json) => match decode_texts(json.as_str()) {
                Some(list) => list,
                None => none,
            },
            None => none,
        },
        None => none,
    }
}

/// The statement that writes an entry of the cache.
pub open spec fn cache_insert(issue_id: Seq<char>, blockers: Seq<Seq<char>>) -> StatementView {
    stmt(
        "INSERT INTO blocked_issues_cache (issue_id, blocked_by) VALUES (?, ?)"@,
        seq![SqlCell::Text(issue_id), SqlCell::Text(json_of_texts(blockers))],
    )
}

/// A list of blockers is read back from the text in which the cache keeps it.
pub open spec fn reads_back(blockers: Seq<Seq<char>>) -> bool {
    texts_of_json(json_of_texts(blockers)) == Some(blockers)
}

fn insert_entry(issue_id: &str, blockers: &Vec<String>) -> (r: Statement)
    ensures
        r.deep_view() == cache_insert(issue_id@, blockers.deep_view()),
        reads_back(blockers.deep_view()),
{
    Statement::with_texts2(
        "INSERT INTO blocked_issues_cache (issue_id, blocked_by) VALUES (?, ?)",
        issue_id,
        encode_texts(blockers).as_str(),
    )
}

/// The entries for issues blocked by a dependency: one for each issue, with all that blocks it.
pub open spec fn direct_inserts(rows: Seq<Seq<SqlCell>>) -> Seq<StatementView> {
    grouped(pairs(rows)).map_values(
        |e: (Seq<char>, Seq<Seq<char>>)| cache_insert(e.0, e.1),
    )
}

/// The entries for children of deferred parents.
pub open spec fn deferred_inserts(rows: Seq<Seq<SqlCell>>) -> Seq<StatementView> {
    pairs(rows).map_values(
        |e: (Seq<char>, Seq<char>)| cache_insert(e.0, seq![e.1 + ":deferred"@]),
    )
}

/// Marks of parents that are blocked.
pub open spec fn parent_marks(parents: Seq<Seq<char>>) -> Seq<Seq<char>> {
    parents.map_values(|p: Seq<char>| p + ":parent-blocked"@)
}

/// The entries for children of blocked parents: one for each child, with all its blocked parents.
pub open spec fn inherited_inserts(rows: Seq<Seq<SqlCell>>) -> Seq<StatementView> {
    grouped(full_pairs(rows)).map_values(
        |e: (Seq<char>, Seq<Seq<char>>)| cache_insert(e.0, parent_marks(e.1)),
    )
}

fn entries_of(m: &TextMap<Vec<String>>) -> (r: Vec<Statement>)
    ensures
        r.deep_view() == m.deep_view().map_values(
            |e: (Seq<char>, Seq<Seq<char>>)| cache_insert(e.0, e.1),
        ),
        forall|k: int| 0 <= k < m.deep_view().len() ==> reads_back(#[trigger] m.deep_view()[k].1),
{
    let mut out: Vec<Statement> = Vec::new();
    let mut i: usize = 0;
    while i < m.len()
        invariant
            i <= m.deep_view().len(),
            out.len() == i,
            forall|k: int|
                0 <= k < i ==> (#[trigger] out@[k]).deep_view() == cache_insert(
                    m.deep_view()[k].0,
                    m.deep_view()[k].1,
                ),
            forall|k: int| 0 <= k < i ==> reads_back(#[trigger] m.deep_view()[k].1),
        decreases m.deep_view().len() - i,
    {
        out.push(insert_entry(m.key(i), m.value(i)));
        i += 1;
    }
    assert(out.deep_view() =~= m.deep_view().map_values(
        |e: (Seq<char>, Seq<Seq<char>>)| cache_insert(e.0, e.1),
    ));
    out
}

/// Makes the entries for issues blocked by a dependency.
pub fn direct_entries(rows: &Vec<Row>) -> (r: Vec<Statement>)
    ensures
        r.deep_view() == direct_inserts(rows.deep_view()),
        forall|k: int|
            0 <= k < grouped(pairs(rows.deep_view())).len() ==> reads_back(
                #[trigger] grouped(pairs(rows.deep_view()))[k].1,
            ),
{
    entries_of(&group_pairs(&text_pairs(rows)))
}

/// Makes the entries for children of deferred parents.
pub fn deferred_entries(rows: &Vec<Row>) -> (r: Vec<Statement>)
    ensures
        r.deep_view() == deferred_inserts(rows.deep_view()),
        forall|k: int|
            0 <= k < pairs(rows.deep_view()).len() ==> reads_back(
                seq![#[trigger] pairs(rows.deep_view())[k].1 + ":deferred"@],
            ),
{
    let links = text_pairs(rows);
    let ghost all = links.deep_view();
    let mut out: Vec<Statement> = Vec::new();
    let mut i: usize = 0;
    while i < links.len()
        invariant
            i <= links.len(),
            all == links.deep_view(),
            out.len() == i,
            forall|k: int|
                0 <= k < i ==> (#[trigger] out@[k]).deep_view() == cache_insert(
                    all[k].0,
                    seq![all[k].1 + ":deferred"@],
                ),
            forall|k: int| 0 <= k < i ==> reads_back(seq![#[trigger] all[k].1 + ":deferred"@]),
        decreases links.len() - i,
    {
        let mut blockers: Vec<String> = Vec::new();
        blockers.push(joined(links[i].1.as_str(), ":deferred"));
        assert(blockers.deep_view() =~= seq![all[i as int].1 + ":deferred"@]);
        out.push(insert_entry(links[i].0.as_str(), &blockers));
        i += 1;
    }
    assert(out.deep_view() =~= deferred_inserts(rows.deep_view()));
    out
}

/// Makes the entries for children of blocked parents.
pub fn inherited_entries(rows: &Vec<Row>) -> (r: Vec<Statement>)
    ensures
        r.deep_view() == inherited_inserts(rows.deep_view()),
        forall|k: int|
            0 <= k < grouped(full_pairs(rows.deep_view())).len() ==> reads_back(
                parent_marks(#[trigger] grouped(full_pairs(rows.deep_view()))[k].1),
            ),
{
    let m = group_pairs(&full_text_pairs(rows));
    let ghost all = m.deep_view();
    let mut out: Vec<Statement> = Vec::new();
    let mut i: usize = 0;
    while i < m.len()
        invariant
            i <= all.len(),
            all == m.deep_view(),
            out.len() == i,
            forall|k: int|
                0 <= k < i ==> (#[trigger] out@[k]).deep_view() == cache_insert(
                    all[k].0,
                    parent_marks(all[k].1),
                ),
            forall|k: int| 0 <= k < i ==> reads_back(parent_marks(#[trigger] all[k].1)),
        decreases all.len() - i,
    {
        let parents = m.value(i);
        let mut marks: Vec<String> = Vec::new();
        let mut j: usize = 0;
        while j < parents.len()
            invariant
                j <= parents.len(),
                marks.len() == j,
                forall|k: int|
                    0 <= k < j ==> (#[trigger] marks@[k])@ == parents@[k]@ + ":parent-blocked"@,
            decreases parents.len() - j,
        {
            marks.push(joined(parents[j].as_str(), ":parent-blocked"));
            j += 1;
        }
        assert(marks.deep_view() =~= parent_marks(parents.deep_view()));
        out.push(insert_entry(m.key(i), &marks));
        i += 1;
    }
    assert(out.deep_view() =~= inherited_inserts(rows.deep_view()));
    out
}

/// How many rounds of inheritance from parents to children are made.
pub const MAX_DEPTH: u32 = 50;

/// Where a rebuild of the cache stands.
#[derive(Debug, Clone, Copy, PartialEq, Eq, Structural)]
pub enum Stage {
    /// The old entries are being removed.
    Clearing,
    /// Issues blocked by a dependency are being looked for.
    Direct,
    /// Their entries are being written.
    DirectEntries,
    /// Children of deferred parents are being looked for.
    Deferred,
    /// Their entries are being written.
    DeferredEntries,
    /// Children of blocked parents are being looked for.
    Inherited,
    /// Their entries are being written.
    InheritedEntries,
    /// The rebuild is over.
    Over { success: bool },
}

/// What the driver has to do next for a rebuild.
#[derive(Debug, PartialEq, Eq)]
pub enum CacheAction {
    /// Execute a statement.
    Execute(Statement),
    /// Run a query and hand its rows back.
    Query(Statement),
    /// The cache is rebuilt, with so many entries written.
    Done(usize),
    /// Give up with the error of the last action.
    Fail,
}

/// The view of [`CacheAction`].
#[verifier::ext_equal]
pub enum CacheActionView {
    Execute(StatementView),
    Query(StatementView),
    Done(usize),
    Fail,
}

impl DeepView for CacheAction {
    type V = CacheActionView;

    open spec fn deep_view(&self) -> CacheActionView {
        match self {
            CacheAction::Execute(s) => CacheActionView::Execute(s.deep_view()),
            CacheAction::Query(s) => CacheActionView::Query(s.deep_view()),
            CacheAction::Done(n) => CacheActionView::Done(*n),
            CacheAction::Fail => CacheActionView::Fail,
        }
    }
}

/// What came of the last action of a rebuild.
#[derive(Debug)]
pub enum CacheReply {
    /// The statement was executed.
    Executed,
    /// The query gave these rows.
    Rows(Vec<Row>),
    /// It failed.
    Failed,
}

/// The view of [`CacheReply`].
#[verifier::ext_equal]
pub enum CacheReplyView {
    Executed,
    Rows(Seq<Seq<SqlCell>>),
    Failed,
}

impl DeepView for CacheReply {
    type V = CacheReplyView;

    open spec fn deep_view(&self) -> CacheReplyView {
        match self {
            CacheReply::Executed => CacheReplyView::Executed,
            CacheReply::Rows(rows) => CacheReplyView::Rows(rows.deep_view()),
            CacheReply::Failed => CacheReplyView::Failed,
        }
    }
}

impl CacheReplyView {
    /// The rows of the reply, none where it carries none.
    pub open spec fn rows(self) -> Seq<Seq<SqlCell>> {
        match self {
            CacheReplyView::Rows(rows) => rows,
            _ => seq![],
        }
    }
}

/// The state of a rebuild.
#[verifier::ext_equal]
pub struct CacheState {
    pub stage: Stage,
    pub depth: nat,
    pub count: nat,
    pub script: Seq<StatementView>,
    pub next: nat,
}

/// The statement that removes the old entries.
pub open spec fn clear_statement() -> StatementView {
    stmt("DELETE FROM blocked_issues_cache"@, seq![])
}

/// The query for issues with a blocking dependency on an issue that is not closed or deleted, or
/// on an issue of this project that does not exist.
pub open spec fn direct_query() -> StatementView {
    stmt(
        "SELECT DISTINCT d.issue_id, d.depends_on_id || ':' || COALESCE(i.status, 'unknown') FROM dependencies d LEFT JOIN issues i ON d.depends_on_id = i.id WHERE d.type IN ('blocks', 'conditional-blocks', 'waits-for') AND (i.status NOT IN ('closed', 'tombstone') OR (i.id IS NULL AND d.depends_on_id NOT LIKE 'external:%'))"@,
        seq![],
    )
}

/// The query for children of deferred parents that have no entry yet.
pub open spec fn deferred_query() -> StatementView {
    stmt(
        "SELECT DISTINCT d.issue_id, d.depends_on_id FROM dependencies d INNER JOIN issues i ON d.depends_on_id = i.id WHERE d.type = 'parent-child' AND i.status = 'deferred' AND NOT EXISTS (SELECT 1 FROM blocked_issues_cache WHERE issue_id = d.issue_id)"@,
        seq![],
    )
}

/// The query for children of blocked parents that have no entry yet.
pub open spec fn inherited_query() -> StatementView {
    stmt(
        "SELECT DISTINCT d.issue_id, d.depends_on_id FROM dependencies d INNER JOIN blocked_issues_cache bc ON d.depends_on_id = bc.issue_id WHERE d.type = 'parent-child' AND NOT EXISTS (SELECT 1 FROM blocked_issues_cache WHERE issue_id = d.issue_id)"@,
        seq![],
    )
}

/// A count with more added to it, capped at the greatest size there is.
pub open spec fn capped_sum(a: nat, b: nat) -> nat {
    if a + b <= usize::MAX {
        a + b
    } else {
        usize::MAX as nat
    }
}

impl CacheState {
    /// The state before anything was done.
    pub open spec fn start() -> Self {
        CacheState { stage: Stage::Clearing, depth: 0, count: 0, script: seq![], next: 0 }
    }

    /// The rounds are counted within their limit, the position lies in the script.
    pub open spec fn bounded(self) -> bool {
        self.depth <= MAX_DEPTH && self.next <= self.script.len() && self.count <= usize::MAX
    }

    /// Another round is under way only where the limit allows for it.
    pub open spec fn wf(self) -> bool {
        self.bounded() && (self.stage is Inherited || self.stage is InheritedEntries ==> self.depth
            < MAX_DEPTH)
    }

    pub open spec fn in_stage(self, stage: Stage) -> Self {
        CacheState { stage, ..self }
    }

    /// The state with entries to write.
    pub open spec fn with_entries(self, stage: Stage, entries: Seq<StatementView>) -> Self {
        CacheState {
            stage,
            script: entries,
            next: 0,
            count: capped_sum(self.count, entries.len()),
            ..self
        }
    }
}

/// Looks for children of blocked parents, unless enough rounds were made.
pub open spec fn cache_inherit(s: CacheState) -> (CacheState, CacheActionView) {
    if s.depth >= MAX_DEPTH {
        (
            s.in_stage(Stage::Over { success: true }),
            CacheActionView::Done(s.count as usize),
        )
    } else {
        (s.in_stage(Stage::Inherited), CacheActionView::Query(inherited_query()))
    }
}

/// Writes the next entry, or goes on to the next query when all are written.
pub open spec fn cache_proceed(s: CacheState) -> (CacheState, CacheActionView) {
    if s.next < s.script.len() {
        (
            CacheState { next: s.next + 1, ..s },
            CacheActionView::Execute(s.script[s.next as int]),
        )
    } else {
        match s.stage {
            Stage::DirectEntries => (
                s.in_stage(Stage::Deferred),
                CacheActionView::Query(deferred_query()),
            ),
            Stage::InheritedEntries => cache_inherit(CacheState { depth: s.depth + 1, ..s }),
            _ => cache_inherit(s),
        }
    }
}

/// The next state and action, given what came of the last action: the old entries go; then come
/// the issues blocked by a dependency, the children of deferred parents, and round by round the
/// children of blocked parents, until a round finds none or enough rounds were made.
pub open spec fn cache_step(s: CacheState, reply: CacheReplyView) -> (CacheState, CacheActionView) {
    if s.stage is Over {
        (
            s,
            if s.stage == (Stage::Over { success: true }) {
                CacheActionView::Done(s.count as usize)
            } else {
                CacheActionView::Fail
            },
        )
    } else if reply is Failed {
        (s.in_stage(Stage::Over { success: false }), CacheActionView::Fail)
    } else {
        match s.stage {
            Stage::Clearing => (
                s.in_stage(Stage::Direct),
                CacheActionView::Query(direct_query()),
            ),
            Stage::Direct => cache_proceed(
                s.with_entries(Stage::DirectEntries, direct_inserts(reply.rows())),
            ),
            Stage::Deferred => cache_proceed(
                s.with_entries(Stage::DeferredEntries, deferred_inserts(reply.rows())),
            ),
            Stage::Inherited => if full_pairs(reply.rows()).len() == 0 {
                (
                    s.in_stage(Stage::Over { success: true }),
                    CacheActionView::Done(s.count as usize),
                )
            } else {
                cache_proceed(
                    s.with_entries(Stage::InheritedEntries, inherited_inserts(reply.rows())),
                )
            },
            _ => cache_proceed(s),
        }
    }
}

/// A rebuild under way: each reply of the driver leads to the next action.
#[derive(Debug)]
pub struct CacheRebuild {
    stage: Stage,
    depth: u32,
    count: usize,
    script: Vec<Statement>,
    next: usize,
}

impl DeepView for CacheRebuild {
    type V = CacheState;

    closed spec fn deep_view(&self) -> CacheState {
        CacheState {
            stage: self.stage,
            depth: self.depth as nat,
            count: self.count as nat,
            script: self.script.deep_view(),
            next: self.next as nat,
        }
    }
}

impl CacheRebuild {
    /// A rebuild of which nothing was done yet. Its first action removes the old entries.
    pub fn start() -> (r: (CacheRebuild, CacheAction))
        ensures
            r.0.deep_view() == CacheState::start(),
            r.0.deep_view().wf(),
            r.1.deep_view() == CacheActionView::Execute(clear_statement()),
    {
        let script: Vec<Statement> = Vec::new();
        assert(script.deep_view() =~= seq![]);
        (
            CacheRebuild { stage: Stage::Clearing, depth: 0, count: 0, script, next: 0 },
            CacheAction::Execute(Statement::plain("DELETE FROM blocked_issues_cache")),
        )
    }

    fn over(&mut self) -> (r: CacheAction)
        requires
            old(self).deep_view().bounded(),
        ensures
            final(self).deep_view().wf(),
            final(self).deep_view() == old(self).deep_view().in_stage(
                Stage::Over { success: true },
            ),
            r.deep_view() == CacheActionView::Done(old(self).deep_view().count as usize),
    {
        self.stage = Stage::Over { success: true };
        CacheAction::Done(self.count)
    }

    fn inherit(&mut self) -> (r: CacheAction)
        requires
            old(self).deep_view().bounded(),
        ensures
            final(self).deep_view().wf(),
            (final(self).deep_view(), r.deep_view()) == cache_inherit(old(self).deep_view()),
    {
        if self.depth >= MAX_DEPTH {
            self.over()
        } else {
            self.stage = Stage::Inherited;
            CacheAction::Query(
                Statement::plain(
                    "SELECT DISTINCT d.issue_id, d.depends_on_id FROM dependencies d INNER JOIN blocked_issues_cache bc ON d.depends_on_id = bc.issue_id WHERE d.type = 'parent-child' AND NOT EXISTS (SELECT 1 FROM blocked_issues_cache WHERE issue_id = d.issue_id)",
                ),
            )
        }
    }

    fn proceed(&mut self) -> (r: CacheAction)
        requires
            old(self).deep_view().wf(),
        ensures
            final(self).deep_view().wf(),
            (final(self).deep_view(), r.deep_view()) == cache_proceed(old(self).deep_view()),
    {
        if self.next < self.script.len() {
            let statement = self.script[self.next].copy();
            self.next = self.next + 1;
            CacheAction::Execute(statement)
        } else {
            match self.stage {
                Stage::DirectEntries => {
                    self.stage = Stage::Deferred;
                    CacheAction::Query(
                        Statement::plain(
                            "SELECT DISTINCT d.issue_id, d.depends_on_id FROM dependencies d INNER JOIN issues i ON d.depends_on_id = i.id WHERE d.type = 'parent-child' AND i.status = 'deferred' AND NOT EXISTS (SELECT 1 FROM blocked_issues_cache WHERE issue_id = d.issue_id)",
                        ),
                    )
                },
                Stage::InheritedEntries => {
                    self.depth = self.depth + 1;
                    self.inherit()
                },
                _ => self.inherit(),
            }
        }
    }

    fn write(&mut self, stage: Stage, entries: Vec<Statement>) -> (r: CacheAction)
        requires
            old(self).deep_view().wf(),
            old(self).deep_view().in_stage(stage).wf(),
        ensures
            final(self).deep_view().wf(),
            (final(self).deep_view(), r.deep_view()) == cache_proceed(
                old(self).deep_view().with_entries(stage, entries.deep_view()),
            ),
    {
        self.stage = stage;
        self.count = self.count.saturating_add(entries.len());
        self.script = entries;
        self.next = 0;
        self.proceed()
    }

    /// The next action, given what came of the last one.
    pub fn step(&mut self, reply: CacheReply) -> (r: CacheAction)
        requires
            old(self).deep_view().wf(),
        ensures
            final(self).deep_view().wf(),
            (final(self).deep_view(), r.deep_view()) == cache_step(
                old(self).deep_view(),
                reply.deep_view(),
            ),
    {
        match self.stage {
            Stage::Over { success } => {
                return if success {
                    CacheAction::Done(self.count)
                } else {
                    CacheAction::Fail
                };
            },
            _ => {},
        }
        let rows: Vec<Row> = match reply {
            CacheReply::Failed => {
                self.stage = Stage::Over { success: false };
                return CacheAction::Fail;
            },
            CacheReply::Rows(rows) => rows,
            CacheReply::Executed => {
                let none: Vec<Row> = Vec::new();
                assert(none.deep_view() =~= seq![]);
                none
            },
        };
        match self.stage {
            Stage::Clearing => {
                self.stage = Stage::Direct;
                CacheAction::Query(
                    Statement::plain(
                        "SELECT DISTINCT d.issue_id, d.depends_on_id || ':' || COALESCE(i.status, 'unknown') FROM dependencies d LEFT JOIN issues i ON d.depends_on_id = i.id WHERE d.type IN ('blocks', 'conditional-blocks', 'waits-for') AND (i.status NOT IN ('closed', 'tombstone') OR (i.id IS NULL AND d.depends_on_id NOT LIKE 'external:%'))",
                    ),
                )
            },
            Stage::Direct => {
                let entries = direct_entries(&rows);
                self.write(Stage::DirectEntries, entries)
            },
            Stage::Deferred => {
                let entries = deferred_entries(&rows);
                self.write(Stage::DeferredEntries, entries)
            },
            Stage::Inherited => {
                if full_text_pairs(&rows).len() == 0 {
                    self.over()
                } else {
                    let entries = inherited_entries(&rows);
                    self.write(Stage::InheritedEntries, entries)
                }
            },
            _ => self.proceed(),
        }
    }
}

/// Statement that begins a rebuild of the cache as a transaction of its own, `None` where no
/// rebuild is wanted: nothing is to be done then, and no entry is written.
pub fn rebuild_blocked_cache(force_rebuild: bool) -> (r: Option<Statement>)
    ensures
        r.deep_view() == (if force_rebuild {
            Some(stmt("BEGIN"@, seq![]))
        } else {
            None
        }),
{
    if force_rebuild {
        Some(Statement::plain("BEGIN"))
    } else {
        None
    }
}

/// Statement that ends the transaction of a rebuild: what was done stays where it succeeded, and
/// is undone where it failed.
pub fn end_rebuild(success: bool) -> (r: Statement)
    ensures
        r.deep_view() == stmt(
            if success {
                "COMMIT"@
            } else {
                "ROLLBACK"@
            },
            seq![],
        ),
{
    if success {
        Statement::plain("COMMIT")
    } else {
        Statement::plain("ROLLBACK")
    }
}

/// Query for issues that are blocked, along with what's blocking them.
pub fn blocked_issues_query() -> (r: Statement)
    ensures
        r.deep_view() == stmt(
            "SELECT i.id, i.content_hash, i.title, i.description, i.design, i.acceptance_criteria, i.notes, i.status, i.priority, i.issue_type, i.assignee, i.owner, i.estimated_minutes, i.created_at, i.created_by, i.updated_at, i.closed_at, i.close_reason, i.closed_by_session, i.due_at, i.defer_until, i.external_ref, i.source_system, i.source_repo, i.deleted_at, i.deleted_by, i.delete_reason, i.original_type, i.compaction_level, i.compacted_at, i.compacted_at_commit, i.original_size, i.sender, i.ephemeral, i.pinned, i.is_template, bc.blocked_by FROM issues i INNER JOIN blocked_issues_cache bc ON i.id = bc.issue_id WHERE i.status IN ('open', 'in_progress') ORDER BY i.priority ASC, i.created_at ASC"@,
            seq![],
        ),
        crate::columns::ask_blocked_issues().is(r.deep_view()),
{
    proof {
        crate::columns::lemma_ask_blocked_issues_text();
    }
    Statement::plain(
        "SELECT i.id, i.content_hash, i.title, i.description, i.design, i.acceptance_criteria, i.notes, i.status, i.priority, i.issue_type, i.assignee, i.owner, i.estimated_minutes, i.created_at, i.created_by, i.updated_at, i.closed_at, i.close_reason, i.closed_by_session, i.due_at, i.defer_until, i.external_ref, i.source_system, i.source_repo, i.deleted_at, i.deleted_by, i.delete_reason, i.original_type, i.compaction_level, i.compacted_at, i.compacted_at_commit, i.original_size, i.sender, i.ephemeral, i.pinned, i.is_template, bc.blocked_by FROM issues i INNER JOIN blocked_issues_cache bc ON i.id = bc.issue_id WHERE i.status IN ('open', 'in_progress') ORDER BY i.priority ASC, i.created_at ASC",
    )
}

/// The blockers in the last column of a row of blocked issues, none where they cannot be read.
pub open spec fn row_blockers(row: Seq<SqlCell>) -> Seq<Seq<char>> {
    match texts_of_json(text_at_or(row, 36, "[]"@)) {
        Some(list) => list,
        None => seq![],
    }
}

/// The blocked issues in rows, with what blocks each, or the error of the first row that cannot be
/// read.
pub open spec fn blocked_issues_of(rows: Seq<Seq<SqlCell>>) -> Result<
    Seq<(IssueView, Seq<Seq<char>>)>,
    BeadsErrorView,
>
    decreases rows.len(),
{
    if rows.len() == 0 {
        Ok(seq![])
    } else {
        match blocked_issues_of(rows.drop_last()) {
            Ok(front) => match issue_of_row(rows.last()) {
                Ok(issue) => Ok(front.push((issue, row_blockers(rows.last())))),
                Err(e) => Err(e),
            },
            Err(e) => Err(e),
        }
    }
}

proof fn lemma_blocked_error(rows: Seq<Seq<SqlCell>>, k: int)
    requires
        0 <= k <= rows.len(),
        blocked_issues_of(rows.take(k)) is Err,
    ensures
        blocked_issues_of(rows) == blocked_issues_of(rows.take(k)),
    decreases rows.len() - k,
{
    if k == rows.len() {
        assert(rows.take(k) =~= rows);
    } else {
        assert(rows.drop_last().take(k) =~= rows.take(k));
        lemma_blocked_error(rows.drop_last(), k);
    }
}

/// Each row of blocked issues that holds an issue and, in the last column, what a rebuild wrote for
/// a list of blockers is read as that issue with exactly that list: all of its blockers, in their
/// order.
pub proof fn lemma_blocked_issues_read_back(
    stored: Seq<Seq<SqlCell>>,
    issues: Seq<IssueView>,
    lists: Seq<Seq<Seq<char>>>,
)
    requires
        stored.len() == issues.len() == lists.len(),
        forall|k: int|
            0 <= k < stored.len() ==> (#[trigger] stored[k]).len() == 36 && issue_of_row(stored[k])
                == Ok::<IssueView, BeadsErrorView>(issues[k]) && reads_back(lists[k]),
    ensures
        blocked_issues_of(
            Seq::new(
                stored.len(),
                |k: int| stored[k].push(cache_insert(issues[k].id, lists[k]).params[1]),
            ),
        ) == Ok::<Seq<(IssueView, Seq<Seq<char>>)>, BeadsErrorView>(
            Seq::new(stored.len(), |k: int| (issues[k], lists[k])),
        ),
    decreases stored.len(),
{
    let rows = Seq::new(
        stored.len(),
        |k: int| stored[k].push(cache_insert(issues[k].id, lists[k]).params[1]),
    );
    let read = Seq::new(stored.len(), |k: int| (issues[k], lists[k]));
    if stored.len() > 0 {
        let n = stored.len() - 1;
        let front = stored.drop_last();
        let front_issues = issues.drop_last();
        let front_lists = lists.drop_last();
        assert forall|k: int| 0 <= k < front.len() implies (#[trigger] front[k]).len() == 36
            && issue_of_row(front[k]) == Ok::<IssueView, BeadsErrorView>(front_issues[k])
            && reads_back(front_lists[k]) by {
            assert(front[k] == stored[k]);
        }
        lemma_blocked_issues_read_back(front, front_issues, front_lists);
        assert(rows.drop_last() =~= Seq::new(
            front.len(),
            |k: int| front[k].push(cache_insert(front_issues[k].id, front_lists[k]).params[1]),
        ));
        assert(read.drop_last() =~= Seq::new(
            front.len(),
            |k: int| (front_issues[k], front_lists[k]),
        ));
        crate::rows::lemma_further_column(
            stored[n],
            cache_insert(issues[n].id, lists[n]).params[1],
        );
        assert(stored[n].len() == 36);
        assert(row_blockers(rows.last()) == lists[n]);
        assert(read =~= read.drop_last().push((issues[n], lists[n])));
    } else {
        assert(read =~= seq![]);
    }
}

/// The same of one row.
pub proof fn lemma_blocked_row_reads_back(
    own: Seq<SqlCell>,
    issue: IssueView,
    blockers: Seq<Seq<char>>,
)
    requires
        own.len() == 36,
        issue_of_row(own) == Ok::<IssueView, BeadsErrorView>(issue),
        reads_back(blockers),
    ensures
        blocked_issues_of(seq![own.push(SqlCell::Text(json_of_texts(blockers)))]) == Ok::<
            Seq<(IssueView, Seq<Seq<char>>)>,
            BeadsErrorView,
        >(seq![(issue, blockers)]),
{
    lemma_blocked_issues_read_back(seq![own], seq![issue], seq![blockers]);
    assert(Seq::new(
        1,
        |k: int| seq![own][k].push(cache_insert(seq![issue][k].id, seq![blockers][k]).params[1]),
    ) =~= seq![own.push(SqlCell::Text(json_of_texts(blockers)))]);
    assert(Seq::new(1, |k: int| (seq![issue][k], seq![blockers][k])) =~= seq![(issue, blockers)]);
}

/// Get issues that are blocked, along with what's blocking them, from the rows of the query for
/// them.
pub fn get_blocked_issues(rows: &Vec<Row>) -> (r: Result<Vec<(Issue, Vec<String>)>, BeadsError>)
    ensures
        outcome(r) == blocked_issues_of(rows.deep_view()),
{
    let ghost all = rows.deep_view();
    let mut out: Vec<(Issue, Vec<String>)> = Vec::new();
    let mut i: usize = 0;
    assert(out.deep_view() =~= seq![]);
    while i < rows.len()
        invariant
            all == rows.deep_view(),
            i <= rows.len(),
            blocked_issues_of(all.take(i as int)) == Ok::<
                Seq<(IssueView, Seq<Seq<char>>)>,
                BeadsErrorView,
            >(out.deep_view()),
        decreases rows.len() - i,
    {
        assert(all.take(i + 1).drop_last() =~= all.take(i as int));
        assert(all.take(i + 1).last() == rows@[i as int].deep_view());
        match issue_from_row(&rows[i]) {
            Ok(issue) => {
                let ghost before = out.deep_view();
                let json = rows[i].text_or(36, "[]");
                let blockers = match decode_texts(json.as_str()) {
                    Some(list) => list,
                    None => Vec::new(),
                };
                assert(blockers.deep_view() =~= row_blockers(rows@[i as int].deep_view()));
                let ghost item = (issue.deep_view(), blockers.deep_view());
                out.push((issue, blockers));
                assert(out.deep_view() =~= before.push(item));
            },
            Err(e) => {
                proof {
                    lemma_blocked_error(all, i + 1);
                }
                return Err(e);
            },
        }
        i += 1;
    }
    assert(all.take(all.len() as int) =~= all);
    Ok(out)
}

/// A run of a rebuild: the state after the replies so far.
pub open spec fn cache_run(replies: Seq<CacheReplyView>) -> CacheState
    decreases replies.len(),
{
    if replies.len() == 0 {
        CacheState::start()
    } else {
        cache_step(cache_run(replies.drop_last()), replies.last()).0
    }
}

/// The entries that a run of a rebuild has had written.
pub open spec fn cache_written(replies: Seq<CacheReplyView>) -> Seq<StatementView>
    decreases replies.len(),
{
    if replies.len() == 0 {
        seq![]
    } else {
        let front = cache_written(replies.drop_last());
        match cache_step(cache_run(replies.drop_last()), replies.last()).1 {
            CacheActionView::Execute(s) => front.push(s),
            _ => front,
        }
    }
}

/// A rebuild makes fifty rounds of inheritance at most, and once it is done the count it reports
/// is the number of entries that were written.
pub proof fn lemma_cache_run(replies: Seq<CacheReplyView>)
    ensures
        cache_run(replies).wf(),
        cache_run(replies).stage == (Stage::Over { success: true }) && cache_written(replies).len()
            <= usize::MAX ==> cache_run(replies).count == cache_written(replies).len(),
{
    lemma_cache_count(replies);
}

#[verifier::rlimit(40)]
proof fn lemma_cache_count(replies: Seq<CacheReplyView>)
    ensures
        cache_run(replies).wf(),
        ({
            let s = cache_run(replies);
            let pending = (s.script.len() - s.next) as nat;
            let total = cache_written(replies).len() + pending;
            &&& !(s.stage == (Stage::Over { success: false })) ==> s.count == (if total
                <= usize::MAX {
                total
            } else {
                usize::MAX as nat
            })
            &&& !(s.stage is DirectEntries || s.stage is DeferredEntries
                || s.stage is InheritedEntries || s.stage == (Stage::Over { success: false }))
                ==> pending == 0
        }),
    decreases replies.len(),
{
    if replies.len() > 0 {
        lemma_cache_count(replies.drop_last());
    }
}

/// A note behind an issue ID without colons is stripped off again.
pub proof fn lemma_note_is_stripped(id: Seq<char>, note: Seq<char>)
    requires
        !id.contains(':'),
    ensures
        until(id + ":"@ + note, ':') == id,
    decreases id.len(),
{
    reveal_strlit(":");
    let s = id + ":"@ + note;
    if id.len() == 0 {
        assert(s[0] == ':');
        assert(until(s, ':') =~= id);
    } else {
        assert(id.contains(id[0]));
        let rest = id.drop_first();
        assert(!rest.contains(':')) by {
            if rest.contains(':') {
                assert(id[rest.index_of(':') + 1] == ':');
            }
        }
        lemma_note_is_stripped(rest, note);
        assert(s.drop_first() =~= rest + ":"@ + note);
        assert(seq![id[0]] + rest =~= id);
    }
}

/// The parents that the cache names for a child of blocked parents are read back, and are bare IDs
/// without the annotations, where these hold no colon.
pub proof fn lemma_parents_read_back(parents: Seq<Seq<char>>)
    requires
        reads_back(parent_marks(parents)),
        forall|k: int| 0 <= k < parents.len() ==> !(#[trigger] parents[k]).contains(':'),
    ensures
        texts_of_json(json_of_texts(parent_marks(parents))) == Some(parent_marks(parents)),
        blocker_ids(parent_marks(parents)) == parents,
{
    let list = blocker_ids(parent_marks(parents));
    assert forall|k: int| 0 <= k < parents.len() implies list[k] == parents[k] by {
        lemma_note_is_stripped(parents[k], "parent-blocked"@);
        reveal_strlit(":");
        reveal_strlit("parent-blocked");
        reveal_strlit(":parent-blocked");
        assert(parents[k] + ":parent-blocked"@ =~= parents[k] + ":"@ + "parent-blocked"@);
    }
    assert(list =~= parents);
}

} // verus!
