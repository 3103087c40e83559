//! What closing issues in one database comes to as a whole, whatever the database holds.

use crate::route::RoutePhase;
use vstd::prelude::*;

verus! {

use crate::assoc::{get_in, has_key, keys_of, lemma_put_in, list_of};
use crate::batch::{blockers_of, closes_together, supported, times};
use crate::blocked::blocker_ids;
use crate::clock::Instant;
use crate::close::{
    CloseArgsView,
    CloseExecutionView,
    CloseOutcomeView,
    ClosedIssueView,
    SkippedIssueView,
    UnblockedIssueView,
};
use crate::model::IssueView;
use crate::order::{lemma_sorted_unique, sorted_unique, strictly_ascends};
use crate::route::{
    beyond,
    blocked_reason,
    open_children_reason,
    route_closing,
    route_lookup,
    route_start,
    route_step,
    skip_reason,
    within,
    RouteReplyView,
    RouteState,
};
use crate::text::{lemma_text_le_antisymmetric, text_lt};

/// What is to be closed, and what the database answers meanwhile.
pub struct Scene {
    pub args: CloseArgsView,
    /// The issues to close.
    pub ids: Seq<Seq<char>>,
    /// For each parent how many children it has, and how many of them are closed.
    pub counts: Seq<(Seq<char>, (usize, usize))>,
    /// The issues that are blocked before.
    pub before: Seq<Seq<char>>,
    pub auto_flush: bool,
    /// The issue with an ID.
    pub issues: spec_fn(Seq<char>) -> Option<IssueView>,
    /// The blockers of an issue with their annotations, `None` where it is not blocked.
    pub blockers: spec_fn(Seq<char>) -> Option<Seq<Seq<char>>>,
    /// The open children of the issue in a place when its turn comes.
    pub children: spec_fn(int) -> Seq<Seq<char>>,
    /// The issues that are blocked after.
    pub after: Seq<Seq<char>>,
    /// The issue with an ID after.
    pub issues_after: spec_fn(Seq<char>) -> Option<IssueView>,
}

/// What became of an issue: its ID, and the reason why it was skipped if it was.
pub type Settled = (Seq<char>, Option<Seq<char>>);

/// The ID in an outcome, and the reason for a skip.
pub open spec fn settled(o: CloseOutcomeView) -> Settled {
    match o {
        CloseOutcomeView::Closed(issue) => (issue.id, None),
        CloseOutcomeView::Skipped(issue) => (issue.id, Some(issue.reason)),
    }
}

/// The IDs of closed issues.
pub open spec fn closed_ids(list: Seq<ClosedIssueView>) -> Seq<Seq<char>> {
    list.map_values(|issue: ClosedIssueView| issue.id)
}

/// The IDs of skipped issues, each with the reason.
pub open spec fn skips(list: Seq<SkippedIssueView>) -> Seq<Settled> {
    list.map_values(|issue: SkippedIssueView| (issue.id, Some(issue.reason)))
}

/// The IDs of skipped issues.
pub open spec fn skipped_ids(list: Seq<SkippedIssueView>) -> Seq<Seq<char>> {
    list.map_values(|issue: SkippedIssueView| issue.id)
}

impl Scene {
    /// Why an issue is skipped without a look at its blockers.
    pub open spec fn reason(self, id: Seq<char>) -> Option<Seq<char>> {
        skip_reason(self.args.force, self.counts, id, (self.issues)(id))
    }

    /// The issue is to be closed, and nothing in its own state is against it.
    pub open spec fn accepted(self, id: Seq<char>) -> bool {
        self.ids.contains(id) && self.reason(id) is None
    }

    /// The issues that block an issue.
    pub open spec fn blocked_by(self, id: Seq<char>) -> Seq<Seq<char>> {
        blocker_ids(list_of((self.blockers)(id)))
    }

    /// All of a set of issues are accepted, and whatever blocks one of them is in the set.
    pub open spec fn free(self, set: Set<Seq<char>>) -> bool {
        forall|id: Seq<char>| #[trigger]
            set.contains(id) ==> self.accepted(id) && supported(set, self.blocked_by(id))
    }

    /// The issues that can be closed: those in a set that is free, and with force all that are
    /// accepted.
    pub open spec fn closable(self) -> Set<Seq<char>> {
        Set::new(
            |id: Seq<char>|
                if self.args.force {
                    self.accepted(id)
                } else {
                    exists|set: Set<Seq<char>>| #[trigger] self.free(set) && set.contains(id)
                },
        )
    }

    /// The blockers of an issue that are not closed with it, in order.
    pub open spec fn obstacles(self, id: Seq<char>) -> Seq<Seq<char>> {
        sorted_unique(beyond(self.blocked_by(id), self.closable()))
    }

    /// What becomes of the first issues for their own state.
    pub open spec fn first_pass(self, k: int) -> Seq<Settled>
        decreases k,
    {
        if k <= 0 {
            seq![]
        } else {
            let id = self.ids[k - 1];
            match self.reason(id) {
                Some(reason) => self.first_pass(k - 1).push((id, Some(reason))),
                None => self.first_pass(k - 1),
            }
        }
    }

    /// What becomes of the first issues that are accepted: those that cannot be closed are
    /// skipped, and so are, without an outcome, those with open children unless forced.
    pub open spec fn second_pass(self, k: int) -> Seq<Settled>
        decreases k,
    {
        if k <= 0 {
            seq![]
        } else {
            let id = self.ids[k - 1];
            let done = self.second_pass(k - 1);
            if !self.accepted(id) {
                done
            } else if !self.closable().contains(id) {
                done.push((id, Some(blocked_reason(self.obstacles(id)))))
            } else if !self.args.force && (self.children)(k - 1).len() > 0 {
                done
            } else {
                done.push((id, None))
            }
        }
    }

    /// Which of the first issues are closed.
    pub open spec fn closed_pass(self, k: int) -> Seq<Seq<char>>
        decreases k,
    {
        if k <= 0 {
            seq![]
        } else {
            let id = self.ids[k - 1];
            let done = self.closed_pass(k - 1);
            if self.accepted(id) && self.closable().contains(id) && (self.args.force || (
            self.children)(k - 1).len() == 0) {
                done.push(id)
            } else {
                done
            }
        }
    }

    /// Which of the first issues that are accepted are skipped, and why: those that cannot be
    /// closed, and those with open children unless forced.
    pub open spec fn skipped_pass(self, k: int) -> Seq<Settled>
        decreases k,
    {
        if k <= 0 {
            seq![]
        } else {
            let id = self.ids[k - 1];
            let done = self.skipped_pass(k - 1);
            let children = (self.children)(k - 1);
            if !self.accepted(id) {
                done
            } else if !self.closable().contains(id) {
                done.push((id, Some(blocked_reason(self.obstacles(id)))))
            } else if !self.args.force && children.len() > 0 {
                done.push((id, Some(open_children_reason(children))))
            } else {
                done
            }
        }
    }

    /// The report names the issues that were closed, and those that were skipped with the reason:
    /// first those that were skipped for their own state.
    pub open spec fn reports(self, done: CloseExecutionView, looked_at: int, settled: int) -> bool {
        &&& closed_ids(done.closed) == self.closed_pass(settled)
        &&& skips(done.skipped) == self.first_pass(looked_at) + self.skipped_pass(settled)
    }

    /// What becomes of all issues: first those that are skipped for their own state, then the
    /// others, each time in the order in which they were given.
    pub open spec fn outcomes(self) -> Seq<Settled> {
        self.first_pass(self.ids.len() as int) + self.second_pass(self.ids.len() as int)
    }

    /// The issues that are no longer blocked.
    pub open spec fn candidates(self) -> Seq<Seq<char>> {
        beyond(self.before, self.after.to_set())
    }

    /// The first candidates that can be worked on.
    pub open spec fn suggestions(self, k: int) -> Seq<UnblockedIssueView>
        decreases k,
    {
        if k <= 0 {
            seq![]
        } else {
            match (self.issues_after)(self.candidates()[k - 1]) {
                Some(issue) => if issue.status.active() {
                    self.suggestions(k - 1).push(
                        UnblockedIssueView {
                            id: issue.id,
                            title: issue.title,
                            priority: issue.priority,
                        },
                    )
                } else {
                    self.suggestions(k - 1)
                },
                None => self.suggestions(k - 1),
            }
        }
    }

    /// What the database replies in a state.
    pub open spec fn reply(self, s: RouteState) -> RouteReplyView {
        match s.phase {
            RoutePhase::Lookup { at } => RouteReplyView::Found((self.issues)(self.ids[at as int])),
            RoutePhase::Blocked { at } => RouteReplyView::Answer(
                (self.blockers)(self.ids[at as int]) is Some,
            ),
            RoutePhase::Blockers { at } => RouteReplyView::Listed(
                list_of((self.blockers)(self.ids[at as int])),
            ),
            RoutePhase::Children { at } => RouteReplyView::Listed((self.children)(at as int)),
            RoutePhase::After => RouteReplyView::Listed(self.after),
            RoutePhase::Candidate { at } => RouteReplyView::Found(
                (self.issues_after)(self.candidates()[at as int]),
            ),
            _ => RouteReplyView::Done,
        }
    }

    /// The state before the first step.
    pub open spec fn start(self, now: Instant) -> RouteState {
        route_start(
            RouteState::fresh(
                self.args,
                self.ids,
                self.counts,
                self.before,
                self.auto_flush,
                now,
            ),
        ).0
    }

    /// The state after one step for each of the times at which the steps are made.
    pub open spec fn run(self, start: Instant, times: Seq<Instant>) -> RouteState
        decreases times.len(),
    {
        if times.len() == 0 {
            self.start(start)
        } else {
            let s = self.run(start, times.drop_last());
            route_step(s, self.reply(s), times.last()).0
        }
    }

    /// After so many steps closing is over.
    pub open spec fn enough(self) -> nat {
        5 * self.ids.len() + self.before.len() + 5
    }

    spec fn left(self, s: RouteState) -> int {
        let n = self.ids.len();
        match s.phase {
            RoutePhase::Lookup { at } => 3 * (n - at) + 2 * n + self.before.len() + 5,
            RoutePhase::Blocked { at } => 3 * (n - at) - 1 + 2 * n + self.before.len() + 5,
            RoutePhase::Blockers { at } => 3 * (n - at) - 2 + 2 * n + self.before.len() + 5,
            RoutePhase::Children { at } => 2 * (n - at) + self.before.len() + 5,
            RoutePhase::Closing { at } => 2 * (n - at) - 1 + self.before.len() + 5,
            RoutePhase::Refresh => self.before.len() as int + 5,
            RoutePhase::After => self.before.len() as int + 4,
            RoutePhase::Candidate { at } => s.candidates.len() - at + 3,
            RoutePhase::Flush => 3,
            RoutePhase::LastFlush => 3,
            RoutePhase::AutoFlush => 2,
            RoutePhase::Over { .. } => 0,
        }
    }

    spec fn keeps(self, s: RouteState) -> bool {
        &&& s.args == self.args
        &&& s.ids == self.ids
        &&& s.counts == self.counts
        &&& s.before == self.before
        &&& s.auto_flush == self.auto_flush
    }

    spec fn seen(self, at: int, id: Seq<char>) -> bool {
        exists|j: int| 0 <= j < at && j < self.ids.len() && #[trigger] self.ids[j] == id
    }

    spec fn titled(self, s: RouteState, at: int) -> bool {
        forall|id: Seq<char>| #[trigger]
            has_key(s.titles, id) <==> self.seen(at, id) && self.reason(id) is None
    }

    spec fn known(self, s: RouteState, at: int) -> bool {
        !self.args.force ==> forall|id: Seq<char>|
            self.seen(at, id) && self.reason(id) is None ==> get_in(s.internal, id) == Some(
                within(sorted_unique(self.blocked_by(id)), self.ids.to_set()),
            ) && #[trigger] get_in(s.external, id) == Some(
                beyond(sorted_unique(self.blocked_by(id)), self.ids.to_set()),
            )
    }

    spec fn looking(self, s: RouteState, at: int) -> bool {
        &&& self.keeps(s)
        &&& self.known(s, at)
        &&& s.done.ordered_outcomes.map_values(|o: CloseOutcomeView| settled(o))
            == self.first_pass(at)
        &&& self.reports(s.done, at, 0)
        &&& s.done.unblocked.len() == 0
        &&& 0 <= at <= self.ids.len()
    }

    spec fn closing(self, s: RouteState, at: int) -> bool {
        let n = self.ids.len() as int;
        &&& self.keeps(s)
        &&& self.known(s, n)
        &&& self.titled(s, n)
        &&& s.closable == self.closable()
        &&& s.done.ordered_outcomes.map_values(|o: CloseOutcomeView| settled(o))
            == self.first_pass(n) + self.second_pass(at)
        &&& self.reports(s.done, n, at)
        &&& s.done.unblocked.len() == 0
        &&& 0 <= at <= n
    }

    spec fn suggesting(self, s: RouteState, at: int) -> bool {
        &&& self.keeps(s)
        &&& s.args.suggest_next && s.done.closed.len() > 0
        &&& s.candidates == self.candidates()
        &&& s.done.ordered_outcomes.map_values(|o: CloseOutcomeView| settled(o)) == self.outcomes()
        &&& self.reports(s.done, self.ids.len() as int, self.ids.len() as int)
        &&& s.done.unblocked == self.suggestions(at)
        &&& 0 <= at <= s.candidates.len()
    }

    /// What closing comes to: each issue has become what it was to become and is reported, and the
    /// candidates that can be worked on are named where suggestions are wanted and an issue was
    /// closed.
    pub open spec fn result(self, s: RouteState) -> bool {
        &&& s.done.ordered_outcomes.map_values(|o: CloseOutcomeView| settled(o)) == self.outcomes()
        &&& self.reports(s.done, self.ids.len() as int, self.ids.len() as int)
        &&& s.done.unblocked == (if self.args.suggest_next && s.done.closed.len() > 0 {
            self.suggestions(self.candidates().len() as int)
        } else {
            seq![]
        })
    }

    spec fn holds(self, s: RouteState) -> bool {
        match s.phase {
            RoutePhase::Lookup { at } => self.looking(s, at as int) && self.titled(s, at as int)
                && at < self.ids.len(),
            RoutePhase::Blocked { at } => self.looking(s, at as int) && self.titled(s, at + 1)
                && self.reason(self.ids[at as int]) is None && !self.args.force && at
                < self.ids.len(),
            RoutePhase::Blockers { at } => self.looking(s, at as int) && self.titled(s, at + 1)
                && self.reason(self.ids[at as int]) is None && !self.args.force && at
                < self.ids.len() && (self.blockers)(self.ids[at as int]) is Some,
            RoutePhase::Children { at } => self.closing(s, at as int) && at < self.ids.len()
                && !self.args.force && self.closable().contains(self.ids[at as int])
                && self.accepted(self.ids[at as int]),
            RoutePhase::Closing { at } => self.closing(s, at as int) && at < self.ids.len()
                && self.closable().contains(self.ids[at as int]) && self.accepted(
                self.ids[at as int],
            ) && (self.args.force || (self.children)(at as int).len() == 0),
            RoutePhase::Refresh => self.closing(s, self.ids.len() as int),
            RoutePhase::After => self.closing(s, self.ids.len() as int) && s.args.suggest_next
                && s.done.closed.len() > 0,
            RoutePhase::Candidate { at } => self.suggesting(s, at as int) && at
                < s.candidates.len(),
            RoutePhase::Flush => self.keeps(s) && self.result(s),
            RoutePhase::AutoFlush => self.keeps(s) && self.result(s),
            RoutePhase::Over { success } => success && self.result(s),
            RoutePhase::LastFlush => false,
        }
    }
}

proof fn lemma_parted(list: Seq<Seq<char>>, set: Set<Seq<char>>, x: Seq<char>)
    ensures
        within(list, set).contains(x) <==> list.contains(x) && set.contains(x),
        beyond(list, set).contains(x) <==> list.contains(x) && !set.contains(x),
        beyond(list, set).len() <= list.len(),
    decreases list.len(),
{
    if list.len() > 0 {
        let front = list.drop_last();
        lemma_parted(front, set, x);
        lemma_contains_last(list, x);
        if set.contains(list.last()) {
            lemma_contains_last(within(list, set), x);
            assert(within(list, set).drop_last() =~= within(front, set));
        } else {
            lemma_contains_last(beyond(list, set), x);
            assert(beyond(list, set).drop_last() =~= beyond(front, set));
        }
    }
}

proof fn lemma_contains_last(s: Seq<Seq<char>>, x: Seq<char>)
    requires
        s.len() > 0,
    ensures
        s.contains(x) <==> s.drop_last().contains(x) || x == s.last(),
{
    if s.contains(x) {
        let k = s.index_of(x);
        if k < s.len() - 1 {
            assert(s.drop_last()[k] == x);
        }
    }
    if s.drop_last().contains(x) {
        let k = s.drop_last().index_of(x);
        assert(s[k] == x);
    }
    assert(s[s.len() - 1] == s.last());
}

/// Ascending lists without repetition that hold the same texts are equal.
pub proof fn lemma_ascending_is_unique(a: Seq<Seq<char>>, b: Seq<Seq<char>>)
    requires
        strictly_ascends(a),
        strictly_ascends(b),
        forall|x: Seq<char>| #[trigger] a.contains(x) <==> b.contains(x),
    ensures
        a == b,
    decreases a.len(),
{
    if a.len() == 0 {
        if b.len() > 0 {
            assert(b.contains(b[0]));
            assert(a.contains(b[0]));
        }
        assert(a =~= b);
    } else {
        assert(a.contains(a.last()));
        assert(b.contains(a.last()));
        let j = b.index_of(a.last());
        assert(b.contains(b.last()));
        assert(a.contains(b.last()));
        let i = a.index_of(b.last());
        if j < b.len() - 1 && i < a.len() - 1 {
            assert(text_lt(b[j], b[b.len() - 1]));
            assert(text_lt(a[i], a[a.len() - 1]));
            lemma_text_le_antisymmetric(a.last(), b.last());
        }
        assert(a.last() == b.last());
        let c = a.drop_last();
        let d = b.drop_last();
        assert forall|x: Seq<char>| #[trigger] c.contains(x) <==> d.contains(x) by {
            lemma_contains_last(a, x);
            lemma_contains_last(b, x);
            assert(a.contains(x) <==> b.contains(x));
            if c.contains(x) {
                let k = c.index_of(x);
                assert(text_lt(a[k], a[a.len() - 1]));
            }
            if d.contains(x) {
                let k = d.index_of(x);
                assert(text_lt(b[k], b[b.len() - 1]));
            }
        }
        assert(strictly_ascends(c)) by {
            assert forall|p: int, q: int| 0 <= p < q < c.len() implies text_lt(
                #[trigger] c[p],
                #[trigger] c[q],
            ) by {
                assert(text_lt(a[p], a[q]));
            }
        }
        assert(strictly_ascends(d)) by {
            assert forall|p: int, q: int| 0 <= p < q < d.len() implies text_lt(
                #[trigger] d[p],
                #[trigger] d[q],
            ) by {
                assert(text_lt(b[p], b[q]));
            }
        }
        lemma_ascending_is_unique(c, d);
        assert(a =~= c.push(a.last()));
        assert(b =~= d.push(b.last()));
    }
}

proof fn lemma_key_is_listed(m: Seq<(Seq<char>, Seq<char>)>, id: Seq<char>)
    ensures
        keys_of(m).to_set().contains(id) <==> has_key(m, id),
{
    let keys = keys_of(m);
    if has_key(m, id) {
        let i = choose|i: int| 0 <= i < m.len() && (#[trigger] m[i]).0 == id;
        assert(keys[i] == id);
        assert(keys.contains(id));
    }
    if keys.contains(id) {
        let i = keys.index_of(id);
        assert(m[i].0 == id);
    }
}

impl Scene {
    proof fn lemma_seen(self, at: int, id: Seq<char>)
        requires
            0 <= at < self.ids.len(),
        ensures
            self.seen(at + 1, id) <==> self.seen(at, id) || id == self.ids[at],
            self.seen(self.ids.len() as int, id) <==> self.ids.contains(id),
    {
        if self.seen(at, id) {
            let j = choose|j: int| 0 <= j < at && j < self.ids.len() && #[trigger] self.ids[j] == id;
            assert(0 <= j < at + 1);
        }
        if self.ids.contains(id) {
            let j = self.ids.index_of(id);
            assert(self.ids[j] == id);
        }
    }

    proof fn lemma_all_seen(self, id: Seq<char>)
        ensures
            self.seen(self.ids.len() as int, id) <==> self.ids.contains(id),
    {
        if self.ids.len() > 0 {
            self.lemma_seen(0, id);
        }
    }

    proof fn lemma_free(self, s: RouteState, set: Set<Seq<char>>)
        requires
            self.keeps(s),
            self.known(s, self.ids.len() as int),
            self.titled(s, self.ids.len() as int),
            !self.args.force,
        ensures
            closes_together(set, keys_of(s.titles).to_set(), s.internal, s.external) <==> self.free(
                set,
            ),
    {
        let active = keys_of(s.titles).to_set();
        let members = self.ids.to_set();
        if closes_together(set, active, s.internal, s.external) {
            assert forall|id: Seq<char>| #[trigger] set.contains(id) implies self.accepted(id)
                && supported(set, self.blocked_by(id)) by {
                lemma_key_is_listed(s.titles, id);
                self.lemma_all_seen(id);
                assert(has_key(s.titles, id));
                let list = self.blocked_by(id);
                let ordered = sorted_unique(list);
                assert(get_in(s.external, id) == Some(beyond(ordered, members)));
                assert(supported(set, within(ordered, members)));
                assert forall|k: int| 0 <= k < list.len() implies set.contains(
                    #[trigger] list[k],
                ) by {
                    let b = list[k];
                    assert(list.contains(b));
                    lemma_sorted_unique(list);
                    assert(ordered.contains(b));
                    lemma_parted(ordered, members, b);
                    if !members.contains(b) {
                        assert(beyond(ordered, members).contains(b));
                    } else {
                        let w = within(ordered, members);
                        assert(w.contains(b));
                        assert(w[w.index_of(b)] == b);
                    }
                }
            }
        }
        if self.free(set) {
            assert forall|id: Seq<char>| #[trigger] set.contains(id) implies active.contains(id)
                && blockers_of(s.external, id).len() == 0 && supported(
                set,
                blockers_of(s.internal, id),
            ) by {
                lemma_key_is_listed(s.titles, id);
                self.lemma_all_seen(id);
                assert(self.accepted(id));
                assert(has_key(s.titles, id));
                let list = self.blocked_by(id);
                let ordered = sorted_unique(list);
                assert(supported(set, list));
                assert(get_in(s.external, id) == Some(beyond(ordered, members)));
                lemma_sorted_unique(list);
                let e = beyond(ordered, members);
                if e.len() > 0 {
                    let b = e[0];
                    assert(e.contains(b));
                    lemma_parted(ordered, members, b);
                    assert(ordered.contains(b));
                    assert(list.contains(b));
                    assert(set.contains(list[list.index_of(b)]));
                    assert(self.accepted(b));
                }
                let w = within(ordered, members);
                assert forall|k: int| 0 <= k < w.len() implies set.contains(#[trigger] w[k]) by {
                    let b = w[k];
                    assert(w.contains(b));
                    lemma_parted(ordered, members, b);
                    assert(ordered.contains(b));
                    assert(list.contains(b));
                    assert(set.contains(list[list.index_of(b)]));
                }
            }
        }
    }

    proof fn lemma_settle(self, s: RouteState)
        requires
            self.keeps(s),
            self.known(s, self.ids.len() as int),
            self.titled(s, self.ids.len() as int),
        ensures
            s.settle().closable == self.closable(),
    {
        let active = keys_of(s.titles).to_set();
        let all = s.settle().closable;
        assert forall|id: Seq<char>| all.contains(id) <==> self.closable().contains(id) by {
            lemma_key_is_listed(s.titles, id);
            self.lemma_all_seen(id);
            if self.args.force {
                assert(has_key(s.titles, id) <==> self.accepted(id));
            } else {
                if all.contains(id) {
                    let set = choose|set: Set<Seq<char>>| #[trigger]
                        closes_together(set, active, s.internal, s.external) && set.contains(id);
                    self.lemma_free(s, set);
                    assert(self.free(set) && set.contains(id));
                }
                if self.closable().contains(id) {
                    let set = choose|set: Set<Seq<char>>| #[trigger]
                        self.free(set) && set.contains(id);
                    self.lemma_free(s, set);
                    assert(closes_together(set, active, s.internal, s.external) && set.contains(id));
                }
            }
        }
        assert(all =~= self.closable());
    }

    proof fn lemma_closable_is_accepted(self, id: Seq<char>)
        requires
            self.closable().contains(id),
        ensures
            self.accepted(id),
    {
        if !self.args.force {
            let set = choose|set: Set<Seq<char>>| #[trigger] self.free(set) && set.contains(id);
            assert(self.accepted(id));
        }
    }

    proof fn lemma_obstacles(self, s: RouteState, id: Seq<char>)
        requires
            self.known(s, self.ids.len() as int),
            s.closable == self.closable(),
            self.accepted(id),
            !self.args.force,
        ensures
            s.obstacles(id) == self.obstacles(id),
    {
        let members = self.ids.to_set();
        let list = self.blocked_by(id);
        let ordered = sorted_unique(list);
        self.lemma_all_seen(id);
        assert(get_in(s.external, id) == Some(beyond(ordered, members)));
        let ext = beyond(ordered, members);
        let rest = beyond(within(ordered, members), s.closable);
        lemma_sorted_unique(list);
        lemma_sorted_unique(ext + rest);
        lemma_sorted_unique(beyond(list, self.closable()));
        assert forall|x: Seq<char>| #[trigger] s.obstacles(id).contains(x) <==> self.obstacles(
            id,
        ).contains(x) by {
            lemma_parted(ordered, members, x);
            lemma_parted(within(ordered, members), s.closable, x);
            lemma_parted(list, self.closable(), x);
            assert(ordered.contains(x) <==> list.contains(x));
            if self.closable().contains(x) {
                self.lemma_closable_is_accepted(x);
            }
            let both = ext + rest;
            if both.contains(x) {
                let k = both.index_of(x);
                if k < ext.len() {
                    assert(ext[k] == x);
                } else {
                    assert(rest[k - ext.len()] == x);
                }
            }
            if ext.contains(x) {
                assert(both[ext.index_of(x)] == x);
            }
            if rest.contains(x) {
                assert(both[ext.len() + rest.index_of(x)] == x);
            }
        }
        lemma_ascending_is_unique(s.obstacles(id), self.obstacles(id));
    }

    proof fn lemma_push(self, list: Seq<CloseOutcomeView>, o: CloseOutcomeView)
        ensures
            list.push(o).map_values(|o: CloseOutcomeView| settled(o)) == list.map_values(
                |o: CloseOutcomeView| settled(o),
            ).push(settled(o)),
    {
        assert(list.push(o).map_values(|o: CloseOutcomeView| settled(o)) =~= list.map_values(
            |o: CloseOutcomeView| settled(o),
        ).push(settled(o)));
    }

    proof fn lemma_push_skipped(self, list: Seq<SkippedIssueView>, issue: SkippedIssueView)
        ensures
            skips(list.push(issue)) == skips(list).push((issue.id, Some(issue.reason))),
    {
        assert(skips(list.push(issue)) =~= skips(list).push((issue.id, Some(issue.reason))));
    }

    proof fn lemma_push_closed(self, list: Seq<ClosedIssueView>, issue: ClosedIssueView)
        ensures
            closed_ids(list.push(issue)) == closed_ids(list).push(issue.id),
    {
        assert(closed_ids(list.push(issue)) =~= closed_ids(list).push(issue.id));
    }

    proof fn lemma_closing(self, s: RouteState, at: int, now: Instant)
        requires
            self.closing(s, at),
            self.ids.len() <= usize::MAX,
        ensures
            self.holds(route_closing(s, at, now).0),
            self.left(route_closing(s, at, now).0) <= 2 * (self.ids.len() - at) + self.before.len()
                + 5,
        decreases self.ids.len() - at,
    {
        let n = self.ids.len() as int;
        if at < n {
            let id = self.ids[at];
            self.lemma_all_seen(id);
            assert(self.ids.contains(id));
            if !has_key(s.titles, id) {
                assert(!self.accepted(id));
                assert(self.second_pass(at + 1) == self.second_pass(at));
                assert(self.closed_pass(at + 1) == self.closed_pass(at));
                assert(self.skipped_pass(at + 1) == self.skipped_pass(at));
                self.lemma_closing(s, at + 1, now);
            } else {
                assert(self.accepted(id));
                if self.args.force {
                } else if !s.closable.contains(id) {
                    self.lemma_obstacles(s, id);
                    let reason = blocked_reason(s.obstacles(id));
                    let t = s.skip(id, reason);
                    self.lemma_push(
                        s.done.ordered_outcomes,
                        CloseOutcomeView::Skipped(SkippedIssueView { id, reason }),
                    );
                    assert((self.first_pass(n) + self.second_pass(at)).push((id, Some(reason)))
                        =~= self.first_pass(n) + self.second_pass(at + 1));
                    self.lemma_push_skipped(s.done.skipped, SkippedIssueView { id, reason });
                    assert((self.first_pass(n) + self.skipped_pass(at)).push((id, Some(reason)))
                        =~= self.first_pass(n) + self.skipped_pass(at + 1));
                    assert(self.closed_pass(at + 1) == self.closed_pass(at));
                    self.lemma_closing(t, at + 1, now);
                }
            }
        } else if !s.dirty {
            assert(s.done.unblocked =~= seq![]);
        }
    }

    proof fn lemma_lookup(self, s: RouteState, at: int, now: Instant)
        requires
            self.looking(s, at),
            self.titled(s, at),
            self.ids.len() <= usize::MAX,
        ensures
            self.holds(route_lookup(s, at, now).0),
            self.left(route_lookup(s, at, now).0) <= 3 * (self.ids.len() - at) + 2 * self.ids.len()
                + self.before.len() + 5,
    {
        let n = self.ids.len() as int;
        if at >= n {
            self.lemma_settle(s);
            assert(self.first_pass(n) + self.second_pass(0) =~= self.first_pass(n));
            self.lemma_closing(s.settle(), 0, now);
        }
    }

    proof fn lemma_accept(self, s: RouteState, at: int, title: Seq<char>)
        requires
            0 <= at < self.ids.len(),
            self.titled(s, at),
            self.reason(self.ids[at]) is None,
        ensures
            self.titled(s.accept(self.ids[at], title), at + 1),
    {
        let t = s.accept(self.ids[at], title);
        assert forall|id: Seq<char>| #[trigger] has_key(t.titles, id) <==> self.seen(at + 1, id)
            && self.reason(id) is None by {
            lemma_put_in(s.titles, self.ids[at], title, id);
            self.lemma_seen(at, id);
            assert(has_key(s.titles, id) <==> self.seen(at, id) && self.reason(id) is None);
        }
    }

    proof fn lemma_block(self, s: RouteState, at: int)
        requires
            0 <= at < self.ids.len(),
            self.keeps(s),
            self.known(s, at),
            !self.args.force,
        ensures
            self.known(s.block(self.ids[at], self.blocked_by(self.ids[at])), at + 1),
    {
        let here = self.ids[at];
        let list = self.blocked_by(here);
        let t = s.block(here, list);
        let members = self.ids.to_set();
        assert forall|id: Seq<char>|
            self.seen(at + 1, id) && self.reason(id) is None implies get_in(t.internal, id) == Some(
            within(sorted_unique(self.blocked_by(id)), members),
        ) && #[trigger] get_in(t.external, id) == Some(
            beyond(sorted_unique(self.blocked_by(id)), members),
        ) by {
            lemma_put_in(s.internal, here, within(sorted_unique(list), members), id);
            lemma_put_in(s.external, here, beyond(sorted_unique(list), members), id);
            self.lemma_seen(at, id);
            if id != here {
                assert(get_in(s.external, id) == Some(
                    beyond(sorted_unique(self.blocked_by(id)), members),
                ));
            }
        }
    }

    proof fn lemma_first_step(self, s: RouteState, at: int, now: Instant)
        requires
            self.looking(s, at),
            self.titled(s, at),
            at < self.ids.len() <= usize::MAX,
            s.phase == (RoutePhase::Lookup { at: at as usize }),
        ensures
            self.holds(route_step(s, self.reply(s), now).0),
            self.left(route_step(s, self.reply(s), now).0) < self.left(s),
    {
        let id = self.ids[at];
        let found = (self.issues)(id);
        match self.reason(id) {
            Some(reason) => {
                let t = s.skip(id, reason);
                self.lemma_push(
                    s.done.ordered_outcomes,
                    CloseOutcomeView::Skipped(SkippedIssueView { id, reason }),
                );
                self.lemma_push_skipped(s.done.skipped, SkippedIssueView { id, reason });
                assert((self.first_pass(at) + self.skipped_pass(0)).push((id, Some(reason)))
                    =~= self.first_pass(at + 1) + self.skipped_pass(0));
                assert(self.known(t, at + 1)) by {
                    assert forall|x: Seq<char>|
                        self.seen(at + 1, x) && self.reason(x) is None && !self.args.force implies
                        get_in(t.internal, x) == Some(
                        within(sorted_unique(self.blocked_by(x)), self.ids.to_set()),
                    ) && #[trigger] get_in(t.external, x) == Some(
                        beyond(sorted_unique(self.blocked_by(x)), self.ids.to_set()),
                    ) by {
                        self.lemma_seen(at, x);
                        assert(get_in(s.external, x) == Some(
                            beyond(sorted_unique(self.blocked_by(x)), self.ids.to_set()),
                        ));
                    }
                }
                assert(self.titled(t, at + 1)) by {
                    assert forall|x: Seq<char>| #[trigger]
                        has_key(t.titles, x) <==> self.seen(at + 1, x) && self.reason(x) is None by {
                        self.lemma_seen(at, x);
                        assert(has_key(s.titles, x) <==> self.seen(at, x) && self.reason(
                            x,
                        ) is None);
                    }
                }
                self.lemma_lookup(t, at + 1, now);
            },
            None => {
                let title = found->0.title;
                self.lemma_accept(s, at, title);
                let t = s.accept(id, title);
                assert(self.first_pass(at + 1) == self.first_pass(at));
                if self.args.force {
                    self.lemma_lookup(t, at + 1, now);
                } else {
                    assert(self.known(t, at)) by {
                        assert forall|x: Seq<char>|
                            self.seen(at, x) && self.reason(x) is None implies get_in(
                            t.internal,
                            x,
                        ) == Some(
                            within(sorted_unique(self.blocked_by(x)), self.ids.to_set()),
                        ) && #[trigger] get_in(t.external, x) == Some(
                            beyond(sorted_unique(self.blocked_by(x)), self.ids.to_set()),
                        ) by {
                            assert(get_in(s.external, x) == Some(
                                beyond(sorted_unique(self.blocked_by(x)), self.ids.to_set()),
                            ));
                        }
                    }
                }
            },
        }
    }

    proof fn lemma_blocked_step(self, s: RouteState, at: int, now: Instant)
        requires
            self.looking(s, at),
            self.titled(s, at + 1),
            self.reason(self.ids[at]) is None,
            !self.args.force,
            at < self.ids.len() <= usize::MAX,
        ensures
            ({
                let id = self.ids[at];
                let r = route_lookup(s.block(id, self.blocked_by(id)), at + 1, now).0;
                self.holds(r) && self.left(r) <= 3 * (self.ids.len() - at) - 3 + 2 * self.ids.len()
                    + self.before.len() + 5
            }),
    {
        let id = self.ids[at];
        let t = s.block(id, self.blocked_by(id));
        self.lemma_block(s, at);
        assert(self.first_pass(at + 1) == self.first_pass(at));
        assert(self.titled(t, at + 1)) by {
            assert forall|x: Seq<char>| #[trigger] has_key(t.titles, x) <==> self.seen(at + 1, x)
                && self.reason(x) is None by {
                assert(has_key(s.titles, x) <==> self.seen(at + 1, x) && self.reason(x) is None);
            }
        }
        self.lemma_lookup(t, at + 1, now);
    }

    proof fn lemma_same_maps(self, s: RouteState, t: RouteState, at: int)
        requires
            self.known(s, at),
            self.titled(s, at),
            t.internal == s.internal,
            t.external == s.external,
            t.titles == s.titles,
        ensures
            self.known(t, at),
            self.titled(t, at),
    {
        assert forall|x: Seq<char>|
            self.seen(at, x) && self.reason(x) is None && !self.args.force implies get_in(
            t.internal,
            x,
        ) == Some(within(sorted_unique(self.blocked_by(x)), self.ids.to_set()))
            && #[trigger] get_in(t.external, x) == Some(
            beyond(sorted_unique(self.blocked_by(x)), self.ids.to_set()),
        ) by {
            assert(get_in(s.external, x) == Some(
                beyond(sorted_unique(self.blocked_by(x)), self.ids.to_set()),
            ));
        }
        assert forall|x: Seq<char>| #[trigger] has_key(t.titles, x) <==> self.seen(at, x)
            && self.reason(x) is None by {
            assert(has_key(s.titles, x) <==> self.seen(at, x) && self.reason(x) is None);
        }
    }

    proof fn lemma_closed_step(self, s: RouteState, at: int, now: Instant)
        requires
            self.closing(s, at),
            at < self.ids.len() <= usize::MAX,
            self.closable().contains(self.ids[at]),
            self.accepted(self.ids[at]),
        ensures
            self.args.force || (self.children)(at).len() == 0 ==> self.holds(
                route_closing(s.close(self.ids[at]), at + 1, now).0,
            ) && self.left(route_closing(s.close(self.ids[at]), at + 1, now).0) <= 2 * (
            self.ids.len() - at) - 2 + self.before.len() + 5,
            !self.args.force && (self.children)(at).len() > 0 ==> self.holds(
                route_closing(
                    s.skip_for_children(self.ids[at], (self.children)(at)),
                    at + 1,
                    now,
                ).0,
            ) && self.left(
                route_closing(
                    s.skip_for_children(self.ids[at], (self.children)(at)),
                    at + 1,
                    now,
                ).0,
            ) <= 2 * (self.ids.len() - at) - 2 + self.before.len() + 5,
    {
        let n = self.ids.len() as int;
        let id = self.ids[at];
        if self.args.force || (self.children)(at).len() == 0 {
            let t = s.close(id);
            self.lemma_same_maps(s, t, n);
            self.lemma_push(s.done.ordered_outcomes, t.done.ordered_outcomes.last());
            self.lemma_push_closed(s.done.closed, t.done.closed.last());
            assert(self.skipped_pass(at + 1) == self.skipped_pass(at));
            assert((self.first_pass(n) + self.second_pass(at)).push((id, None))
                =~= self.first_pass(n) + self.second_pass(at + 1));
            self.lemma_closing(t, at + 1, now);
        } else {
            let t = s.skip_for_children(id, (self.children)(at));
            self.lemma_same_maps(s, t, n);
            assert(self.second_pass(at + 1) == self.second_pass(at));
            self.lemma_push_skipped(s.done.skipped, t.done.skipped.last());
            assert((self.first_pass(n) + self.skipped_pass(at)).push(
                (id, Some(t.done.skipped.last().reason)),
            ) =~= self.first_pass(n) + self.skipped_pass(at + 1));
            assert(self.closed_pass(at + 1) == self.closed_pass(at));
            self.lemma_closing(t, at + 1, now);
        }
    }

    proof fn lemma_step(self, s: RouteState, now: Instant)
        requires
            self.holds(s),
            !(s.phase is Over),
            self.ids.len() <= usize::MAX,
            self.before.len() <= usize::MAX,
        ensures
            self.holds(route_step(s, self.reply(s), now).0),
            self.left(route_step(s, self.reply(s), now).0) < self.left(s),
    {
        match s.phase {
            RoutePhase::Lookup { at } => {
                self.lemma_first_step(s, at as int, now);
            },
            RoutePhase::Blocked { at } => {
                let id = self.ids[at as int];
                if (self.blockers)(id) is None {
                    assert(self.blocked_by(id) =~= seq![]);
                    self.lemma_blocked_step(s, at as int, now);
                }
            },
            RoutePhase::Blockers { at } => {
                self.lemma_blocked_step(s, at as int, now);
            },
            RoutePhase::Children { at } => {
                self.lemma_closed_step(s, at as int, now);
            },
            RoutePhase::Closing { at } => {
                self.lemma_closed_step(s, at as int, now);
            },
            RoutePhase::Refresh => {
                if !(s.args.suggest_next && s.done.closed.len() > 0) {
                    assert(s.done.unblocked =~= seq![]);
                }
            },
            RoutePhase::After => {
                lemma_parted(self.before, self.after.to_set(), seq![]);
                assert(s.done.unblocked =~= self.suggestions(0));
            },
            RoutePhase::Candidate { at } => {
                lemma_parted(self.before, self.after.to_set(), seq![]);
            },
            _ => {},
        }
    }

    /// Closing goes through to its end in so many steps, whatever the database holds and however
    /// the time passes. Each issue has then become what it was to become.
    pub proof fn lemma_run(self, start: Instant, times: Seq<Instant>)
        requires
            self.ids.len() <= usize::MAX,
            self.before.len() <= usize::MAX,
            times.len() >= self.enough(),
        ensures
            self.run(start, times).phase == (RoutePhase::Over { success: true }),
            self.result(self.run(start, times)),
    {
        self.lemma_progress(start, times);
    }

    proof fn lemma_progress(self, start: Instant, times: Seq<Instant>)
        requires
            self.ids.len() <= usize::MAX,
            self.before.len() <= usize::MAX,
        ensures
            self.holds(self.run(start, times)),
            self.run(start, times).phase is Over || self.left(self.run(start, times))
                + times.len() <= self.enough(),
        decreases times.len(),
    {
        if times.len() == 0 {
            let s = RouteState::fresh(
                self.args,
                self.ids,
                self.counts,
                self.before,
                self.auto_flush,
                start,
            );
            assert(s.done.ordered_outcomes.map_values(|o: CloseOutcomeView| settled(o))
                =~= self.first_pass(0));
            assert(closed_ids(s.done.closed) =~= self.closed_pass(0));
            assert(skips(s.done.skipped) =~= self.first_pass(0) + self.skipped_pass(0));
            self.lemma_lookup(s, 0, start);
        } else {
            self.lemma_progress(start, times.drop_last());
            let s = self.run(start, times.drop_last());
            if !(s.phase is Over) {
                self.lemma_step(s, times.last());
            }
        }
    }

    /// Nothing but a closable issue is closed. The closable issues are free: without force, what
    /// blocks one of them is closable too, and no other issues that are free are left out.
    pub proof fn lemma_closed_is_free(self)
        ensures
            forall|id: Seq<char>| #[trigger]
                self.outcomes().contains((id, None)) ==> self.closable().contains(id),
            !self.args.force ==> self.free(self.closable()),
            !self.args.force ==> forall|set: Set<Seq<char>>| #[trigger]
                self.free(set) ==> set.subset_of(self.closable()),
    {
        let n = self.ids.len() as int;
        assert forall|id: Seq<char>| #[trigger] self.outcomes().contains((id, None)) implies
            self.closable().contains(id) by {
            let j = self.outcomes().index_of((id, None));
            self.lemma_first_is_skipped(n);
            self.lemma_second_is_closable(n);
            let first = self.first_pass(n);
            if j < first.len() {
                assert(first[j].1 is Some);
            } else {
                assert(self.second_pass(n)[j - first.len()] == (id, None::<Seq<char>>));
            }
        }
        if !self.args.force {
            let all = self.closable();
            assert forall|id: Seq<char>| #[trigger] all.contains(id) implies self.accepted(id)
                && supported(all, self.blocked_by(id)) by {
                let set = choose|set: Set<Seq<char>>| #[trigger]
                    self.free(set) && set.contains(id);
                let list = self.blocked_by(id);
                assert(supported(set, list));
                assert forall|k: int| 0 <= k < list.len() implies all.contains(
                    #[trigger] list[k],
                ) by {
                    assert(self.free(set) && set.contains(list[k]));
                }
            }
        }
    }

    proof fn lemma_first_is_skipped(self, k: int)
        ensures
            forall|j: int|
                0 <= j < self.first_pass(k).len() ==> (#[trigger] self.first_pass(k)[j]).1 is Some,
        decreases k,
    {
        if k > 0 {
            self.lemma_first_is_skipped(k - 1);
        }
    }

    proof fn lemma_second_is_closable(self, k: int)
        ensures
            forall|j: int|
                0 <= j < self.second_pass(k).len() ==> ((#[trigger] self.second_pass(k)[j]).1 is None
                    ==> self.closable().contains(self.second_pass(k)[j].0)),
        decreases k,
    {
        if k > 0 {
            self.lemma_second_is_closable(k - 1);
        }
    }

    /// An issue that is skipped because it is blocked has a blocker to be named: one that is not
    /// closed with it.
    pub proof fn lemma_blocked_names_a_blocker(self, id: Seq<char>)
        requires
            self.accepted(id),
            !self.closable().contains(id),
        ensures
            self.obstacles(id).len() > 0,
            forall|b: Seq<char>| #[trigger]
                self.obstacles(id).contains(b) <==> self.blocked_by(id).contains(b)
                    && !self.closable().contains(b),
    {
        let all = self.closable();
        let list = self.blocked_by(id);
        lemma_sorted_unique(beyond(list, all));
        assert forall|b: Seq<char>| #[trigger] self.obstacles(id).contains(b) <==> list.contains(b)
            && !all.contains(b) by {
            lemma_parted(list, all, b);
            assert(self.obstacles(id).contains(b) <==> beyond(list, all).contains(b));
        }
        self.lemma_closed_is_free();
        if self.obstacles(id).len() == 0 {
            let more = all.insert(id);
            assert forall|x: Seq<char>| #[trigger] more.contains(x) implies self.accepted(x)
                && supported(more, self.blocked_by(x)) by {
                let xs = self.blocked_by(x);
                assert forall|k: int| 0 <= k < xs.len() implies more.contains(#[trigger] xs[k]) by {
                    assert(xs.contains(xs[k]));
                    if x == id {
                        assert(!self.obstacles(id).contains(xs[k]));
                    } else {
                        assert(all.contains(x));
                        assert(supported(all, xs));
                    }
                }
            }
            assert(self.free(more));
            assert(more.contains(id));
        }
    }

    /// The IDs in outcomes.
    pub open spec fn ids_of(list: Seq<Settled>) -> Seq<Seq<char>> {
        list.map_values(|o: Settled| o.0)
    }

    /// Where no open children stand against it, each issue has exactly one outcome for each time
    /// it was given.
    pub proof fn lemma_each_issue_is_settled_once(self, id: Seq<char>)
        requires
            self.args.force || forall|k: int|
                0 <= k < self.ids.len() ==> (#[trigger] (self.children)(k)).len() == 0,
        ensures
            self.outcomes().len() == self.ids.len(),
            times(Self::ids_of(self.outcomes()), id) == times(self.ids, id),
    {
        let n = self.ids.len() as int;
        self.lemma_settled_so_far(n, id);
        assert(self.ids.take(n) =~= self.ids);
        assert(Self::ids_of(self.outcomes()) =~= Self::ids_of(self.first_pass(n)) + Self::ids_of(
            self.second_pass(n),
        ));
        lemma_times_sum(Self::ids_of(self.first_pass(n)), Self::ids_of(self.second_pass(n)), id);
    }

    proof fn lemma_settled_so_far(self, k: int, id: Seq<char>)
        requires
            self.args.force || forall|k: int|
                0 <= k < self.ids.len() ==> (#[trigger] (self.children)(k)).len() == 0,
            0 <= k <= self.ids.len(),
        ensures
            self.first_pass(k).len() + self.second_pass(k).len() == k,
            times(Self::ids_of(self.first_pass(k)), id) + times(
                Self::ids_of(self.second_pass(k)),
                id,
            ) == times(self.ids.take(k), id),
        decreases k,
    {
        if k == 0 {
            assert(Self::ids_of(self.first_pass(k)) =~= seq![]);
            assert(Self::ids_of(self.second_pass(k)) =~= seq![]);
            assert(self.ids.take(0) =~= seq![]);
        } else {
            self.lemma_settled_so_far(k - 1, id);
            let here = self.ids[k - 1];
            assert(self.ids.contains(here));
            assert(self.ids.take(k).drop_last() =~= self.ids.take(k - 1));
            assert(self.ids.take(k).last() == here);
            let a = self.first_pass(k - 1);
            let b = self.second_pass(k - 1);
            assert((self.children)(k - 1).len() == 0 || self.args.force);
            if self.reason(here) is Some {
                let o: Settled = (here, self.reason(here));
                assert(self.first_pass(k) == a.push(o));
                assert(Self::ids_of(a.push(o)) =~= Self::ids_of(a).push(here));
                assert(Self::ids_of(a).push(here).drop_last() =~= Self::ids_of(a));
            } else {
                let o = self.second_pass(k).last();
                assert(self.second_pass(k) == b.push(o));
                assert(o.0 == here);
                assert(Self::ids_of(b.push(o)) =~= Self::ids_of(b).push(here));
                assert(Self::ids_of(b).push(here).drop_last() =~= Self::ids_of(b));
            }
        }
    }

    /// Closed and skipped together, the report names each issue exactly once for each time it was
    /// given.
    pub proof fn lemma_each_issue_is_reported_once(
        self,
        start: Instant,
        moments: Seq<Instant>,
        id: Seq<char>,
    )
        requires
            self.ids.len() <= usize::MAX,
            self.before.len() <= usize::MAX,
            moments.len() >= self.enough(),
        ensures
            ({
                let done = self.run(start, moments).done;
                &&& times(closed_ids(done.closed) + skipped_ids(done.skipped), id) == times(
                    self.ids,
                    id,
                )
                &&& done.closed.len() + done.skipped.len() == self.ids.len()
            }),
    {
        self.lemma_run(start, moments);
        let done = self.run(start, moments).done;
        let n = self.ids.len() as int;
        self.lemma_reported_so_far(n, id);
        assert(self.ids.take(n) =~= self.ids);
        let a = self.first_pass(n);
        let b = self.skipped_pass(n);
        assert(skipped_ids(done.skipped) =~= Self::ids_of(skips(done.skipped)));
        assert(Self::ids_of(a + b) =~= Self::ids_of(a) + Self::ids_of(b));
        lemma_times_sum(Self::ids_of(a), Self::ids_of(b), id);
        lemma_times_sum(closed_ids(done.closed), skipped_ids(done.skipped), id);
        assert(skips(done.skipped).len() == done.skipped.len());
        assert(closed_ids(done.closed).len() == done.closed.len());
    }

    proof fn lemma_reported_so_far(self, k: int, id: Seq<char>)
        requires
            0 <= k <= self.ids.len(),
        ensures
            self.first_pass(k).len() + self.skipped_pass(k).len() + self.closed_pass(k).len() == k,
            times(Self::ids_of(self.first_pass(k)), id) + times(
                Self::ids_of(self.skipped_pass(k)),
                id,
            ) + times(self.closed_pass(k), id) == times(self.ids.take(k), id),
        decreases k,
    {
        if k == 0 {
            assert(Self::ids_of(self.first_pass(k)) =~= seq![]);
            assert(Self::ids_of(self.skipped_pass(k)) =~= seq![]);
            assert(self.ids.take(0) =~= seq![]);
        } else {
            self.lemma_reported_so_far(k - 1, id);
            let here = self.ids[k - 1];
            assert(self.ids.contains(here));
            assert(self.ids.take(k).drop_last() =~= self.ids.take(k - 1));
            assert(self.ids.take(k).last() == here);
            let a = self.first_pass(k - 1);
            let b = self.skipped_pass(k - 1);
            let c = self.closed_pass(k - 1);
            if self.reason(here) is Some {
                let o: Settled = (here, self.reason(here));
                assert(self.first_pass(k) == a.push(o));
                assert(Self::ids_of(a.push(o)) =~= Self::ids_of(a).push(here));
                assert(Self::ids_of(a).push(here).drop_last() =~= Self::ids_of(a));
            } else if self.closed_pass(k) == c.push(here) {
                assert(c.push(here).drop_last() =~= c);
            } else {
                let o = self.skipped_pass(k).last();
                assert(self.skipped_pass(k) == b.push(o));
                assert(o.0 == here);
                assert(Self::ids_of(b.push(o)) =~= Self::ids_of(b).push(here));
                assert(Self::ids_of(b).push(here).drop_last() =~= Self::ids_of(b));
            }
        }
    }
}

proof fn lemma_times_sum(a: Seq<Seq<char>>, b: Seq<Seq<char>>, x: Seq<char>)
    ensures
        times(a + b, x) == times(a, x) + times(b, x),
    decreases b.len(),
{
    if b.len() == 0 {
        assert(a + b =~= a);
    } else {
        assert((a + b).drop_last() =~= a + b.drop_last());
        lemma_times_sum(a, b.drop_last(), x);
    }
}

} // verus!
