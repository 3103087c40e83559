//! The descendants of an issue along parent-child links.

use crate::mutation::put_once;
use crate::sql::{texts_in_column, Row, Statement};
use vstd::prelude::*;

verus! {

use crate::mutation::insert_once;
use crate::sql::{column_texts, stmt, SqlCell, StatementView};

/// The query for the children of an issue.
pub open spec fn children_statement(parent_id: Seq<char>) -> StatementView {
    stmt(
        "SELECT issue_id FROM dependencies WHERE depends_on_id = ? AND type = 'parent-child'"@,
        seq![SqlCell::Text(parent_id)],
    )
}

fn children_query(parent_id: &str) -> (r: Statement)
    ensures
        r.deep_view() == children_statement(parent_id@),
{
    Statement::with_text(
        "SELECT issue_id FROM dependencies WHERE depends_on_id = ? AND type = 'parent-child'",
        parent_id,
    )
}

/// A list with more texts put behind it, each unless it is in the list already.
pub open spec fn with_new(list: Seq<Seq<char>>, more: Seq<Seq<char>>) -> Seq<Seq<char>>
    decreases more.len(),
{
    if more.len() == 0 {
        list
    } else {
        insert_once(with_new(list, more.drop_last()), more.last())
    }
}

/// The state of a walk through the descendants of an issue: those that were found, in the order
/// in which they were found, and how many of them were asked for their children.
#[verifier::ext_equal]
pub struct WalkState {
    pub found: Seq<Seq<char>>,
    pub next: nat,
}

impl WalkState {
    /// The state with the children of an issue found.
    pub open spec fn with_children(self, children: Seq<Seq<char>>) -> Self {
        WalkState { found: with_new(self.found, children), ..self }
    }

    /// All that were found were asked for their children.
    pub open spec fn over(self) -> bool {
        self.next >= self.found.len()
    }

    /// No more were asked than were found.
    pub open spec fn wf(self) -> bool {
        self.next <= self.found.len()
    }
}

/// A walk through the descendants of an issue under way.
#[derive(Debug)]
pub struct DescendantWalk {
    found: Vec<String>,
    next: usize,
}

impl DeepView for DescendantWalk {
    type V = WalkState;

    closed spec fn deep_view(&self) -> WalkState {
        WalkState { found: self.found.deep_view(), next: self.next as nat }
    }
}

impl DescendantWalk {
    /// A walk through the descendants of an issue. Its first query is for the children of the
    /// issue itself.
    pub fn start(parent_id: &str) -> (r: (DescendantWalk, Statement))
        ensures
            r.0.deep_view() == (WalkState { found: seq![], next: 0 }),
            r.0.deep_view().wf(),
            r.1.deep_view() == children_statement(parent_id@),
    {
        let found: Vec<String> = Vec::new();
        assert(found.deep_view() =~= seq![]);
        (DescendantWalk { found, next: 0 }, children_query(parent_id))
    }

    /// The next query, given the rows of the last one: it is for the children of the first
    /// descendant that was not asked for them. `None` where all were.
    pub fn step(&mut self, rows: &Vec<Row>) -> (r: Option<Statement>)
        requires
            old(self).deep_view().wf(),
        ensures
            final(self).deep_view().wf(),
            ({
                let s = old(self).deep_view().with_children(column_texts(rows.deep_view(), 0));
                if s.over() {
                    final(self).deep_view() == s && r is None
                } else {
                    final(self).deep_view() == (WalkState { next: s.next + 1, ..s })
                        && r.deep_view() == Some(children_statement(s.found[s.next as int]))
                }
            }),
    {
        let children = texts_in_column(rows, 0);
        let ghost start = self.deep_view();
        let ghost all = children.deep_view();
        let mut i: usize = 0;
        assert(all.take(0) =~= seq![]);
        while i < children.len()
            invariant
                i <= children.len(),
                all == children.deep_view(),
                self.found.deep_view() == with_new(start.found, all.take(i as int)),
                self.next == start.next,
                start.next <= self.found.deep_view().len(),
            decreases children.len() - i,
        {
            assert(all.take(i + 1).drop_last() =~= all.take(i as int));
            assert(all.take(i + 1).last() == children@[i as int]@);
            put_once(&mut self.found, children[i].as_str());
            i += 1;
        }
        assert(all.take(all.len() as int) =~= all);
        if self.next < self.found.len() {
            let query = children_query(self.found[self.next].as_str());
            self.next = self.next + 1;
            Some(query)
        } else {
            None
        }
    }

    /// The descendants that were found.
    pub fn finish(self) -> (r: Vec<String>)
        ensures
            r.deep_view() == self.deep_view().found,
    {
        self.found
    }
}

/// The state after the children of an issue and of some descendants were found, given the
/// children of every issue.
pub open spec fn walked(
    children: spec_fn(Seq<char>) -> Seq<Seq<char>>,
    parent: Seq<char>,
    steps: nat,
) -> WalkState
    decreases steps,
{
    if steps == 0 {
        (WalkState { found: seq![], next: 0 }).with_children(children(parent))
    } else {
        let s = walked(children, parent, (steps - 1) as nat);
        if s.over() {
            s
        } else {
            (WalkState { next: s.next + 1, ..s }).with_children(children(s.found[s.next as int]))
        }
    }
}

/// An issue descends from a parent in so many generations, beyond the first.
pub open spec fn descends(
    children: spec_fn(Seq<char>) -> Seq<Seq<char>>,
    parent: Seq<char>,
    id: Seq<char>,
    generations: nat,
) -> bool
    decreases generations,
{
    if generations == 0 {
        children(parent).contains(id)
    } else {
        exists|between: Seq<char>|
            descends(children, parent, between, (generations - 1) as nat) && #[trigger] children(
                between,
            ).contains(id)
    }
}

/// An issue descends from a parent.
pub open spec fn descendant(
    children: spec_fn(Seq<char>) -> Seq<Seq<char>>,
    parent: Seq<char>,
    id: Seq<char>,
) -> bool {
    exists|generations: nat| #[trigger] descends(children, parent, id, generations)
}

proof fn lemma_with_new(list: Seq<Seq<char>>, more: Seq<Seq<char>>)
    ensures
        forall|x: Seq<char>| #[trigger]
            with_new(list, more).contains(x) <==> list.contains(x) || more.contains(x),
        list.no_duplicates() ==> with_new(list, more).no_duplicates(),
        list.len() <= with_new(list, more).len(),
        with_new(list, more).take(list.len() as int) == list,
    decreases more.len(),
{
    if more.len() == 0 {
        assert(list.take(list.len() as int) =~= list);
    } else {
        let front = with_new(list, more.drop_last());
        let x = more.last();
        lemma_with_new(list, more.drop_last());
        let r = with_new(list, more);
        assert forall|y: Seq<char>| #[trigger] r.contains(y) <==> list.contains(y)
            || more.contains(y) by {
            assert(front.contains(y) <==> list.contains(y) || more.drop_last().contains(y));
            if more.contains(y) {
                let k = more.index_of(y);
                if k < more.len() - 1 {
                    assert(more.drop_last()[k] == y);
                }
            }
            if more.drop_last().contains(y) {
                assert(more[more.drop_last().index_of(y)] == y);
            }
            assert(more[more.len() - 1] == x);
            if !front.contains(x) {
                assert(r == front.push(x));
                assert(r[front.len() as int] == x);
                if r.contains(y) {
                    let k = r.index_of(y);
                    if k < front.len() {
                        assert(front[k] == y);
                    }
                }
                if front.contains(y) {
                    assert(r[front.index_of(y)] == y);
                }
            }
        }
        assert(r.take(list.len() as int) =~= front.take(list.len() as int));
    }
}

spec fn explored(
    children: spec_fn(Seq<char>) -> Seq<Seq<char>>,
    parent: Seq<char>,
    s: WalkState,
) -> bool {
    &&& s.found.no_duplicates()
    &&& s.next <= s.found.len()
    &&& forall|k: int|
        0 <= k < s.found.len() ==> descendant(children, parent, #[trigger] s.found[k])
    &&& forall|x: Seq<char>| #[trigger] children(parent).contains(x) ==> s.found.contains(x)
    &&& forall|k: int, x: Seq<char>|
        0 <= k < s.next && #[trigger] children(#[trigger] s.found[k]).contains(x)
            ==> s.found.contains(x)
}

proof fn lemma_explored(
    children: spec_fn(Seq<char>) -> Seq<Seq<char>>,
    parent: Seq<char>,
    steps: nat,
)
    ensures
        explored(children, parent, walked(children, parent, steps)),
        walked(children, parent, steps).over() || walked(children, parent, steps).next == steps,
    decreases steps,
{
    let r = walked(children, parent, steps);
    if steps == 0 {
        let none = Seq::<Seq<char>>::empty();
        lemma_with_new(none, children(parent));
        assert forall|k: int| 0 <= k < r.found.len() implies descendant(
            children,
            parent,
            #[trigger] r.found[k],
        ) by {
            assert(r.found.contains(r.found[k]));
            assert(descends(children, parent, r.found[k], 0));
        }
    } else {
        let s = walked(children, parent, (steps - 1) as nat);
        lemma_explored(children, parent, (steps - 1) as nat);
        if !s.over() {
            let here = s.found[s.next as int];
            lemma_with_new(s.found, children(here));
            assert forall|k: int| 0 <= k < s.found.len() implies r.found[k] == s.found[k] by {
                assert(r.found.take(s.found.len() as int)[k] == s.found[k]);
            }
            assert forall|k: int| 0 <= k < r.found.len() implies descendant(
                children,
                parent,
                #[trigger] r.found[k],
            ) by {
                let x = r.found[k];
                assert(r.found.contains(x));
                if s.found.contains(x) {
                    assert(descendant(children, parent, s.found[s.found.index_of(x)]));
                } else {
                    assert(descendant(children, parent, here));
                    let n = choose|n: nat| #[trigger] descends(children, parent, here, n);
                    assert(descends(children, parent, here, ((n + 1) - 1) as nat));
                    assert(descends(children, parent, x, n + 1));
                }
            }
            assert forall|x: Seq<char>| #[trigger] children(parent).contains(x) implies
                r.found.contains(x) by {
                assert(s.found.contains(x));
            }
            assert forall|k: int, x: Seq<char>|
                0 <= k < r.next && #[trigger] children(#[trigger] r.found[k]).contains(
                    x,
                ) implies r.found.contains(x) by {
                if k < s.next {
                    assert(children(s.found[k]).contains(x));
                    assert(s.found.contains(x));
                }
            }
        }
    }
}

proof fn lemma_all_found(
    children: spec_fn(Seq<char>) -> Seq<Seq<char>>,
    parent: Seq<char>,
    s: WalkState,
    id: Seq<char>,
    generations: nat,
)
    requires
        explored(children, parent, s),
        s.over(),
        descends(children, parent, id, generations),
    ensures
        s.found.contains(id),
    decreases generations,
{
    if generations > 0 {
        let between = choose|between: Seq<char>|
            descends(children, parent, between, (generations - 1) as nat) && #[trigger] children(
                between,
            ).contains(id);
        lemma_all_found(children, parent, s, between, (generations - 1) as nat);
        let k = s.found.index_of(between);
        assert(children(s.found[k]).contains(id));
    }
}

/// A walk that is over has found the descendants of the issue, all of them and nothing else, each
/// once.
pub proof fn lemma_walk_finds_descendants(
    children: spec_fn(Seq<char>) -> Seq<Seq<char>>,
    parent: Seq<char>,
    steps: nat,
)
    requires
        walked(children, parent, steps).over(),
    ensures
        walked(children, parent, steps).found.no_duplicates(),
        forall|id: Seq<char>| #[trigger]
            walked(children, parent, steps).found.contains(id) <==> descendant(
                children,
                parent,
                id,
            ),
{
    let s = walked(children, parent, steps);
    lemma_explored(children, parent, steps);
    assert forall|id: Seq<char>| #[trigger] s.found.contains(id) <==> descendant(
        children,
        parent,
        id,
    ) by {
        if s.found.contains(id) {
            assert(descendant(children, parent, s.found[s.found.index_of(id)]));
        }
        if descendant(children, parent, id) {
            let n = choose|n: nat| #[trigger] descends(children, parent, id, n);
            lemma_all_found(children, parent, s, id, n);
        }
    }
}

/// A walk is over, cycles or not, after as many steps as there are issues.
pub proof fn lemma_walk_ends(
    children: spec_fn(Seq<char>) -> Seq<Seq<char>>,
    parent: Seq<char>,
    issues: Set<Seq<char>>,
    steps: nat,
)
    requires
        issues.finite(),
        forall|id: Seq<char>, k: int|
            0 <= k < children(id).len() ==> issues.contains(#[trigger] children(id)[k]),
        steps >= issues.len(),
    ensures
        walked(children, parent, steps).over(),
{
    let s = walked(children, parent, steps);
    lemma_explored(children, parent, steps);
    lemma_walk_finds_known(children, parent, issues, steps);
    s.found.unique_seq_to_set();
    assert(s.found.to_set().subset_of(issues)) by {
        assert forall|x: Seq<char>| s.found.to_set().contains(x) implies issues.contains(x) by {
            assert(s.found.contains(x));
            assert(issues.contains(s.found[s.found.index_of(x)]));
        }
    }
    vstd::set_lib::lemma_len_subset(s.found.to_set(), issues);
}

proof fn lemma_walk_finds_known(
    children: spec_fn(Seq<char>) -> Seq<Seq<char>>,
    parent: Seq<char>,
    issues: Set<Seq<char>>,
    steps: nat,
)
    requires
        forall|id: Seq<char>, k: int|
            0 <= k < children(id).len() ==> issues.contains(#[trigger] children(id)[k]),
    ensures
        forall|k: int|
            0 <= k < walked(children, parent, steps).found.len() ==> issues.contains(
                #[trigger] walked(children, parent, steps).found[k],
            ),
    decreases steps,
{
    let r = walked(children, parent, steps);
    if steps == 0 {
        let none = Seq::<Seq<char>>::empty();
        lemma_with_new(none, children(parent));
        assert forall|k: int| 0 <= k < r.found.len() implies issues.contains(
            #[trigger] r.found[k],
        ) by {
            let x = r.found[k];
            assert(r.found.contains(x));
            assert(issues.contains(children(parent)[children(parent).index_of(x)]));
        }
    } else {
        let s = walked(children, parent, (steps - 1) as nat);
        lemma_walk_finds_known(children, parent, issues, (steps - 1) as nat);
        if !s.over() {
            let list = children(s.found[s.next as int]);
            lemma_with_new(s.found, list);
            assert forall|k: int| 0 <= k < r.found.len() implies issues.contains(
                #[trigger] r.found[k],
            ) by {
                let x = r.found[k];
                assert(r.found.contains(x));
                if s.found.contains(x) {
                    assert(issues.contains(s.found[s.found.index_of(x)]));
                } else {
                    assert(issues.contains(
                        children(s.found[s.next as int])[list.index_of(x)],
                    ));
                }
            }
        }
    }
}

} // verus!
