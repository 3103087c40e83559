//! What a rebuild of the cache of blocked issues comes to as a whole.

use crate::blocked::{Stage, MAX_DEPTH};
use vstd::prelude::*;

verus! {

use crate::assoc::{grouped, has_key, lemma_get_in, lemma_grouped};
use crate::blocked::{
    cache_inherit,
    cache_proceed,
    cache_run,
    cache_step,
    cache_written,
    deferred_inserts,
    direct_inserts,
    inherited_inserts,
    lemma_cache_run,
    CacheActionView,
    CacheReplyView,
    CacheState,
};
use crate::sql::{full_pairs, pairs, SqlCell, StatementView};

/// What the database holds while the cache is rebuilt.
pub struct Graph {
    /// The issues that are blocked by a dependency.
    pub direct: Set<Seq<char>>,
    /// The issues that have a deferred parent.
    pub deferred: Set<Seq<char>>,
    /// The links from a child to its parent.
    pub links: Set<(Seq<char>, Seq<char>)>,
}

/// The issues that entries are written for.
pub open spec fn named(entries: Seq<StatementView>) -> Set<Seq<char>> {
    Set::new(
        |id: Seq<char>|
            exists|k: int|
                0 <= k < entries.len() && (#[trigger] entries[k]).params[0] == SqlCell::Text(id),
    )
}

/// The issues that have an entry after a run of a rebuild.
pub open spec fn cached(replies: Seq<CacheReplyView>) -> Set<Seq<char>> {
    named(cache_written(replies))
}

impl Graph {
    /// An issue has a parent in a set.
    pub open spec fn inherits(self, id: Seq<char>, parents: Set<Seq<char>>) -> bool {
        exists|parent: Seq<char>| #[trigger]
            self.links.contains((id, parent)) && parents.contains(parent)
    }

    /// The issues that are blocked by a dependency or have a deferred parent, and those that
    /// inherit from them in so many generations.
    pub open spec fn blocked(self, generations: nat) -> Set<Seq<char>>
        decreases generations,
    {
        if generations == 0 {
            self.direct.union(self.deferred)
        } else {
            let parents = self.blocked((generations - 1) as nat);
            parents.union(Set::new(|id: Seq<char>| self.inherits(id, parents)))
        }
    }

    /// A reply tells what the database holds, given the entries that were written so far.
    pub open spec fn answers(
        self,
        stage: Stage,
        so_far: Set<Seq<char>>,
        reply: CacheReplyView,
    ) -> bool {
        &&& !(reply is Failed)
        &&& match stage {
            Stage::Direct => forall|id: Seq<char>| #[trigger]
                has_key(pairs(reply.rows()), id) <==> self.direct.contains(id),
            Stage::Deferred => forall|id: Seq<char>| #[trigger]
                has_key(pairs(reply.rows()), id) <==> self.deferred.contains(id)
                    && !so_far.contains(id),
            Stage::Inherited => forall|id: Seq<char>| #[trigger]
                has_key(full_pairs(reply.rows()), id) <==> self.inherits(id, so_far)
                    && !so_far.contains(id),
            _ => true,
        }
    }

    /// All replies of a run tell what the database holds.
    pub open spec fn honest(self, replies: Seq<CacheReplyView>) -> bool
        decreases replies.len(),
    {
        replies.len() == 0 || {
            let before = replies.drop_last();
            self.honest(before) && self.answers(
                cache_run(before).stage,
                cached(before),
                replies.last(),
            )
        }
    }

    spec fn holds(self, s: CacheState, done: Set<Seq<char>>) -> bool {
        let pending = named(s.script.skip(s.next as int));
        let both = done.union(pending);
        &&& s.next <= s.script.len()
        &&& s.stage is Inherited || s.stage is InheritedEntries || s.stage is Over || s.depth == 0
        &&& match s.stage {
            Stage::Clearing => s.script.len() == s.next && done == Set::<Seq<char>>::empty(),
            Stage::Direct => s.script.len() == s.next && done == Set::<Seq<char>>::empty(),
            Stage::DirectEntries => both == self.direct,
            Stage::Deferred => s.script.len() == s.next && done == self.direct,
            Stage::DeferredEntries => both == self.blocked(0),
            Stage::Inherited => s.script.len() == s.next && done == self.blocked(s.depth),
            Stage::InheritedEntries => both == self.blocked(s.depth + 1),
            Stage::Over { success } => success ==> done == self.blocked(MAX_DEPTH as nat),
        }
    }

    proof fn lemma_stays(self, n: nat, m: nat)
        requires
            n <= m,
            self.blocked(n + 1) == self.blocked(n),
        ensures
            self.blocked(m) == self.blocked(n),
        decreases m - n,
    {
        if m > n {
            self.lemma_stays(n, (m - 1) as nat);
            if m > n + 1 {
                assert(self.blocked((m - 1) as nat) == self.blocked(n));
            }
        }
    }

    proof fn lemma_inherit(self, s: CacheState, done: Set<Seq<char>>)
        requires
            s.script.len() == s.next,
            done == self.blocked(s.depth),
            s.depth <= MAX_DEPTH,
        ensures
            self.holds(cache_inherit(s).0, done),
            !(cache_inherit(s).1 is Execute),
    {
    }

    proof fn lemma_proceed(self, s: CacheState, done: Set<Seq<char>>)
        requires
            self.holds(s, done),
            s.wf(),
            s.stage is DirectEntries || s.stage is DeferredEntries || s.stage is InheritedEntries,
        ensures
            match cache_proceed(s).1 {
                CacheActionView::Execute(e) => self.holds(
                    cache_proceed(s).0,
                    done.union(named(seq![e])),
                ),
                _ => self.holds(cache_proceed(s).0, done),
            },
    {
        let pending = s.script.skip(s.next as int);
        if s.next < s.script.len() {
            let e = s.script[s.next as int];
            let rest = s.script.skip(s.next as int + 1);
            assert(named(pending) =~= named(seq![e]).union(named(rest))) by {
                assert forall|id: Seq<char>| named(pending).contains(id) <==> named(
                    seq![e],
                ).contains(id) || named(rest).contains(id) by {
                    if named(pending).contains(id) {
                        let k = choose|k: int|
                            0 <= k < pending.len() && (#[trigger] pending[k]).params[0]
                                == SqlCell::Text(id);
                        if k == 0 {
                            assert(seq![e][0].params[0] == SqlCell::Text(id));
                        } else {
                            assert(rest[k - 1] == pending[k]);
                        }
                    }
                    if named(seq![e]).contains(id) {
                        assert(seq![e][0] == pending[0]);
                        assert(pending[0].params[0] == SqlCell::Text(id));
                    }
                    if named(rest).contains(id) {
                        let k = choose|k: int|
                            0 <= k < rest.len() && (#[trigger] rest[k]).params[0] == SqlCell::Text(
                                id,
                            );
                        assert(pending[k + 1] == rest[k]);
                    }
                }
            }
            assert(done.union(named(pending)) =~= done.union(named(seq![e])).union(named(rest)));
        } else {
            assert(named(pending) =~= Set::<Seq<char>>::empty()) by {
                assert(pending.len() == 0);
            }
            assert(done.union(named(pending)) =~= done);
            match s.stage {
                Stage::DirectEntries => {},
                Stage::InheritedEntries => {
                    let t = CacheState { depth: s.depth + 1, ..s };
                    self.lemma_inherit(t, done);
                },
                _ => {
                    assert(s.stage is DeferredEntries);
                    self.lemma_inherit(s, done);
                },
            }
        }
    }

    proof fn lemma_step(self, s: CacheState, done: Set<Seq<char>>, reply: CacheReplyView)
        requires
            self.holds(s, done),
            s.wf(),
            self.answers(s.stage, done, reply),
        ensures
            match cache_step(s, reply).1 {
                CacheActionView::Execute(e) => self.holds(
                    cache_step(s, reply).0,
                    done.union(named(seq![e])),
                ),
                _ => self.holds(cache_step(s, reply).0, done),
            },
    {
        match s.stage {
            Stage::Direct => {
                let entries = direct_inserts(reply.rows());
                let t = s.with_entries(Stage::DirectEntries, entries);
                lemma_direct_named(reply.rows());
                assert(t.script.skip(0) =~= entries);
                assert(done.union(named(entries)) =~= self.direct);
                self.lemma_proceed(t, done);
            },
            Stage::Deferred => {
                let entries = deferred_inserts(reply.rows());
                let t = s.with_entries(Stage::DeferredEntries, entries);
                lemma_deferred_named(reply.rows());
                assert(t.script.skip(0) =~= entries);
                assert(done.union(named(entries)) =~= self.blocked(0));
                self.lemma_proceed(t, done);
            },
            Stage::Inherited => {
                if full_pairs(reply.rows()).len() == 0 {
                    assert(self.blocked(s.depth + 1) =~= self.blocked(s.depth)) by {
                        assert forall|id: Seq<char>| self.blocked(s.depth + 1).contains(
                            id,
                        ) implies self.blocked(s.depth).contains(id) by {
                            if self.inherits(id, done) && !done.contains(id) {
                                assert(has_key(full_pairs(reply.rows()), id));
                            }
                        }
                    }
                    self.lemma_stays(s.depth, MAX_DEPTH as nat);
                } else {
                    let entries = inherited_inserts(reply.rows());
                    let t = s.with_entries(Stage::InheritedEntries, entries);
                    lemma_inherited_named(reply.rows());
                    assert(t.script.skip(0) =~= entries);
                    assert(done.union(named(entries)) =~= self.blocked(s.depth + 1)) by {
                        assert forall|id: Seq<char>| done.union(named(entries)).contains(id)
                            <==> self.blocked(s.depth + 1).contains(id) by {
                            assert(has_key(full_pairs(reply.rows()), id) <==> self.inherits(
                                id,
                                done,
                            ) && !done.contains(id));
                        }
                    }
                    self.lemma_proceed(t, done);
                }
            },
            Stage::DirectEntries => {
                self.lemma_proceed(s, done);
            },
            Stage::DeferredEntries => {
                self.lemma_proceed(s, done);
            },
            Stage::InheritedEntries => {
                self.lemma_proceed(s, done);
            },
            _ => {},
        }
    }

    proof fn lemma_run_holds(self, replies: Seq<CacheReplyView>)
        requires
            self.honest(replies),
        ensures
            self.holds(cache_run(replies), cached(replies)),
        decreases replies.len(),
    {
        if replies.len() == 0 {
            assert(cached(replies) =~= Set::<Seq<char>>::empty());
        } else {
            let before = replies.drop_last();
            let s = cache_run(before);
            self.lemma_run_holds(before);
            lemma_cache_run(before);
            self.lemma_step(s, cached(before), replies.last());
            match cache_step(s, replies.last()).1 {
                CacheActionView::Execute(e) => {
                    lemma_named_push(cache_written(before), e);
                },
                _ => {},
            }
        }
    }

    /// Once a rebuild is done the cache has an entry for exactly the issues that are blocked by a
    /// dependency or have a deferred parent, and those that inherit from them within fifty
    /// generations.
    pub proof fn lemma_rebuild(self, replies: Seq<CacheReplyView>)
        requires
            self.honest(replies),
            cache_run(replies).stage == (Stage::Over { success: true }),
        ensures
            cached(replies) == self.blocked(MAX_DEPTH as nat),
    {
        self.lemma_run_holds(replies);
    }

    /// Where no chain of inheritance is longer than the limit, the blocked issues are closed
    /// under inheritance, and they are in every set that holds the issues blocked by a dependency
    /// and those with a deferred parent and is closed under it.
    pub proof fn lemma_blocked_is_least(self, generations: nat, set: Set<Seq<char>>)
        requires
            self.direct.subset_of(set),
            self.deferred.subset_of(set),
            forall|id: Seq<char>| #[trigger] self.inherits(id, set) ==> set.contains(id),
        ensures
            self.blocked(generations).subset_of(set),
            self.blocked(generations + 1) == self.blocked(generations) ==> forall|id: Seq<char>|
                #[trigger]
                self.inherits(id, self.blocked(generations)) ==> self.blocked(generations).contains(
                    id,
                ),
        decreases generations,
    {
        if generations > 0 {
            let parents = self.blocked((generations - 1) as nat);
            self.lemma_blocked_is_least((generations - 1) as nat, set);
            assert forall|id: Seq<char>| self.blocked(generations).contains(id) implies set.contains(
                id,
            ) by {
                if self.inherits(id, parents) {
                    let parent = choose|parent: Seq<char>| #[trigger]
                        self.links.contains((id, parent)) && parents.contains(parent);
                    assert(self.links.contains((id, parent)) && set.contains(parent));
                    assert(self.inherits(id, set));
                }
            }
        }
        if self.blocked(generations + 1) == self.blocked(generations) {
            assert forall|id: Seq<char>| #[trigger]
                self.inherits(id, self.blocked(generations)) implies self.blocked(
                generations,
            ).contains(id) by {
                assert(self.blocked(generations + 1).contains(id));
            }
        }
    }
}

proof fn lemma_named_push(entries: Seq<StatementView>, e: StatementView)
    ensures
        named(entries.push(e)) == named(entries).union(named(seq![e])),
{
    let all = entries.push(e);
    assert forall|id: Seq<char>| named(all).contains(id) <==> named(entries).contains(id) || named(
        seq![e],
    ).contains(id) by {
        if named(all).contains(id) {
            let k = choose|k: int|
                0 <= k < all.len() && (#[trigger] all[k]).params[0] == SqlCell::Text(id);
            if k < entries.len() {
                assert(entries[k].params[0] == SqlCell::Text(id));
            } else {
                assert(seq![e][0].params[0] == SqlCell::Text(id));
            }
        }
        if named(entries).contains(id) {
            let k = choose|k: int|
                0 <= k < entries.len() && (#[trigger] entries[k]).params[0] == SqlCell::Text(id);
            assert(all[k].params[0] == SqlCell::Text(id));
        }
        if named(seq![e]).contains(id) {
            assert(seq![e][0] == e);
            assert(all[entries.len() as int].params[0] == SqlCell::Text(id));
        }
    }
    assert(named(all) =~= named(entries).union(named(seq![e])));
}

proof fn lemma_names<W>(entries: Seq<StatementView>, items: Seq<(Seq<char>, W)>)
    requires
        entries.len() == items.len(),
        forall|k: int|
            0 <= k < entries.len() ==> (#[trigger] entries[k]).params[0] == SqlCell::Text(
                items[k].0,
            ),
    ensures
        forall|id: Seq<char>| #[trigger] named(entries).contains(id) <==> has_key(items, id),
{
    assert forall|id: Seq<char>| #[trigger] named(entries).contains(id) <==> has_key(items, id) by {
        if named(entries).contains(id) {
            let k = choose|k: int|
                0 <= k < entries.len() && (#[trigger] entries[k]).params[0] == SqlCell::Text(id);
            assert(items[k].0 == id);
        }
        if has_key(items, id) {
            let k = choose|k: int| 0 <= k < items.len() && (#[trigger] items[k]).0 == id;
            assert(entries[k].params[0] == SqlCell::Text(id));
        }
    }
}

proof fn lemma_grouped_keys(items: Seq<(Seq<char>, Seq<char>)>, id: Seq<char>)
    ensures
        has_key(grouped(items), id) <==> has_key(items, id),
{
    lemma_grouped(items, id);
    lemma_get_in(grouped(items), id);
}

proof fn lemma_direct_named(rows: Seq<Seq<SqlCell>>)
    ensures
        forall|id: Seq<char>| #[trigger]
            named(direct_inserts(rows)).contains(id) <==> has_key(pairs(rows), id),
{
    lemma_names(direct_inserts(rows), grouped(pairs(rows)));
    assert forall|id: Seq<char>| #[trigger] named(direct_inserts(rows)).contains(id) <==> has_key(
        pairs(rows),
        id,
    ) by {
        lemma_grouped_keys(pairs(rows), id);
    }
}

proof fn lemma_deferred_named(rows: Seq<Seq<SqlCell>>)
    ensures
        forall|id: Seq<char>| #[trigger]
            named(deferred_inserts(rows)).contains(id) <==> has_key(pairs(rows), id),
{
    lemma_names(deferred_inserts(rows), pairs(rows));
}

proof fn lemma_inherited_named(rows: Seq<Seq<SqlCell>>)
    ensures
        forall|id: Seq<char>| #[trigger]
            named(inherited_inserts(rows)).contains(id) <==> has_key(full_pairs(rows), id),
{
    lemma_names(inherited_inserts(rows), grouped(full_pairs(rows)));
    assert forall|id: Seq<char>| #[trigger] named(inherited_inserts(rows)).contains(id) <==> has_key(
        full_pairs(rows),
        id,
    ) by {
        lemma_grouped_keys(full_pairs(rows), id);
    }
}

} // verus!
