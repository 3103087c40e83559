//! Closing several issues at once: which of them can be closed together, and in which order
//! results from several databases are reported.

use crate::assoc::TextMap;
use crate::error::BeadsError;
use crate::text::{holds, joined, joined3, same_text};
use vstd::prelude::*;

verus! {

use crate::assoc::{get_in, list_of};
use crate::error::BeadsErrorView;

/// The blockers of an issue, none where nothing is known of it.
pub open spec fn blockers_of(m: Seq<(Seq<char>, Seq<Seq<char>>)>, id: Seq<char>) -> Seq<
    Seq<char>,
> {
    list_of(get_in(m, id))
}

/// All issues in `s` are active, none is blocked from outside the batch, and each is blocked
/// inside the batch by issues in `s` only.
pub open spec fn closes_together(
    s: Set<Seq<char>>,
    active: Set<Seq<char>>,
    internal: Seq<(Seq<char>, Seq<Seq<char>>)>,
    external: Seq<(Seq<char>, Seq<Seq<char>>)>,
) -> bool {
    forall|id: Seq<char>| #[trigger]
        s.contains(id) ==> active.contains(id) && blockers_of(external, id).len() == 0 && supported(
            s,
            blockers_of(internal, id),
        )
}

/// All of a list of issues are in `s`.
pub open spec fn supported(s: Set<Seq<char>>, blockers: Seq<Seq<char>>) -> bool {
    forall|k: int| 0 <= k < blockers.len() ==> s.contains(#[trigger] blockers[k])
}

/// The greatest set of issues that close together: all sets that do, united.
pub open spec fn closable_together(
    active: Set<Seq<char>>,
    internal: Seq<(Seq<char>, Seq<Seq<char>>)>,
    external: Seq<(Seq<char>, Seq<Seq<char>>)>,
) -> Set<Seq<char>> {
    Set::new(
        |id: Seq<char>|
            exists|s: Set<Seq<char>>| #[trigger]
                closes_together(s, active, internal, external) && s.contains(id),
    )
}

/// The greatest set of issues that close together closes together itself.
pub proof fn lemma_closable_together(
    active: Set<Seq<char>>,
    internal: Seq<(Seq<char>, Seq<Seq<char>>)>,
    external: Seq<(Seq<char>, Seq<Seq<char>>)>,
)
    ensures
        closes_together(
            closable_together(active, internal, external),
            active,
            internal,
            external,
        ),
        forall|s: Set<Seq<char>>|
            closes_together(s, active, internal, external) ==> #[trigger] s.subset_of(
                closable_together(active, internal, external),
            ),
{
    let all = closable_together(active, internal, external);
    assert forall|id: Seq<char>| #[trigger] all.contains(id) implies active.contains(id)
        && blockers_of(external, id).len() == 0 && supported(all, blockers_of(internal, id)) by {
        let s = choose|s: Set<Seq<char>>| #[trigger]
            closes_together(s, active, internal, external) && s.contains(id);
        let b = blockers_of(internal, id);
        assert(supported(s, b));
        assert forall|k: int| 0 <= k < b.len() implies all.contains(#[trigger] b[k]) by {
            assert(s.contains(b[k]));
        }
    }
}

fn no_blockers(m: &TextMap<Vec<String>>, id: &str) -> (r: bool)
    ensures
        r == (blockers_of(m.deep_view(), id@).len() == 0),
{
    match m.get(id) {
        Some(list) => list.len() == 0,
        None => true,
    }
}

fn all_blockers_in(m: &TextMap<Vec<String>>, id: &str, list: &Vec<String>) -> (r: bool)
    ensures
        r == supported(list.deep_view().to_set(), blockers_of(m.deep_view(), id@)),
{
    let ghost s = list.deep_view().to_set();
    match m.get(id) {
        Some(blockers) => {
            let ghost all = blockers.deep_view();
            let mut i: usize = 0;
            while i < blockers.len()
                invariant
                    i <= blockers.len(),
                    all == blockers.deep_view(),
                    all == blockers_of(m.deep_view(), id@),
                    s == list.deep_view().to_set(),
                    forall|k: int| 0 <= k < i ==> s.contains(#[trigger] all[k]),
                decreases blockers.len() - i,
            {
                assert(all[i as int] == blockers@[i as int]@);
                if !holds(list, blockers[i].as_str()) {
                    assert(!s.contains(all[i as int]));
                    return false;
                }
                assert(s.contains(all[i as int]));
                i += 1;
            }
            true
        },
        None => true,
    }
}

/// The IDs of a batch that can be closed together: the greatest set of active issues of which
/// none is blocked from outside the batch, and each is blocked inside it by members of the set
/// only.
pub fn compute_batch_closable_ids(
    active_issue_ids: &Vec<String>,
    internal_blockers_by_id: &TextMap<Vec<String>>,
    external_blockers_by_id: &TextMap<Vec<String>>,
) -> (r: Vec<String>)
    ensures
        closes_together(
            r.deep_view().to_set(),
            active_issue_ids.deep_view().to_set(),
            internal_blockers_by_id.deep_view(),
            external_blockers_by_id.deep_view(),
        ),
        forall|s: Set<Seq<char>>|
            closes_together(
                s,
                active_issue_ids.deep_view().to_set(),
                internal_blockers_by_id.deep_view(),
                external_blockers_by_id.deep_view(),
            ) ==> #[trigger] s.subset_of(r.deep_view().to_set()),
        r.deep_view().to_set() == closable_together(
            active_issue_ids.deep_view().to_set(),
            internal_blockers_by_id.deep_view(),
            external_blockers_by_id.deep_view(),
        ),
        active_issue_ids.deep_view().no_duplicates() ==> r.deep_view().no_duplicates(),
{
    let ghost active = active_issue_ids.deep_view();
    let ghost internal = internal_blockers_by_id.deep_view();
    let ghost external = external_blockers_by_id.deep_view();
    let mut closable: Vec<String> = Vec::new();
    let mut i: usize = 0;
    assert(closable.deep_view() =~= seq![]);
    while i < active_issue_ids.len()
        invariant
            i <= active_issue_ids.len(),
            active == active_issue_ids.deep_view(),
            external == external_blockers_by_id.deep_view(),
            forall|id: Seq<char>| #[trigger]
                closable.deep_view().contains(id) <==> active.take(i as int).contains(id)
                    && blockers_of(external, id).len() == 0,
            active.no_duplicates() ==> closable.deep_view().no_duplicates(),
        decreases active_issue_ids.len() - i,
    {
        let ghost before = closable.deep_view();
        let ghost x = active[i as int];
        let ghost seen = active.take(i as int);
        assert(active.take(i + 1) =~= seen.push(x));
        assert(x == active_issue_ids@[i as int]@);
        if no_blockers(external_blockers_by_id, active_issue_ids[i].as_str()) {
            closable.push(active_issue_ids[i].clone());
            assert(closable.deep_view() =~= before.push(x));
            proof {
                if active.no_duplicates() {
                    assert(!seen.contains(x)) by {
                        if seen.contains(x) {
                            let k = seen.index_of(x);
                            assert(active[k] == active[i as int]);
                        }
                    }
                    assert(!before.contains(x));
                }
            }
        }
        assert forall|id: Seq<char>| #[trigger]
            closable.deep_view().contains(id) <==> seen.push(x).contains(id) && blockers_of(
                external,
                id,
            ).len() == 0 by {
            lemma_push_contains(seen, x, id);
            lemma_push_contains(before, x, id);
        }
        i += 1;
    }
    assert(active.take(active.len() as int) =~= active);
    loop
        invariant
            active == active_issue_ids.deep_view(),
            internal == internal_blockers_by_id.deep_view(),
            external == external_blockers_by_id.deep_view(),
            forall|id: Seq<char>| #[trigger]
                closable.deep_view().contains(id) ==> active.contains(id) && blockers_of(
                    external,
                    id,
                ).len() == 0,
            forall|s: Set<Seq<char>>|
                closes_together(s, active.to_set(), internal, external) ==> #[trigger] s.subset_of(
                    closable.deep_view().to_set(),
                ),
            active.no_duplicates() ==> closable.deep_view().no_duplicates(),
        ensures
            closes_together(closable.deep_view().to_set(), active.to_set(), internal, external),
        decreases closable.len(),
    {
        let ghost cur = closable.deep_view();
        let mut kept: Vec<String> = Vec::new();
        let mut i: usize = 0;
        assert(kept.deep_view() =~= seq![]);
        while i < closable.len()
            invariant
                i <= closable.len(),
                cur == closable.deep_view(),
                internal == internal_blockers_by_id.deep_view(),
                kept.len() <= i,
                kept.len() == i ==> kept.deep_view() == cur.take(i as int),
                forall|id: Seq<char>| #[trigger]
                    kept.deep_view().contains(id) <==> cur.take(i as int).contains(id)
                        && supported(cur.to_set(), blockers_of(internal, id)),
                cur.no_duplicates() ==> kept.deep_view().no_duplicates(),
            decreases closable.len() - i,
        {
            let ghost before = kept.deep_view();
            let ghost x = cur[i as int];
            let ghost seen = cur.take(i as int);
            assert(cur.take(i + 1) =~= seen.push(x));
            assert(x == closable@[i as int]@);
            if all_blockers_in(internal_blockers_by_id, closable[i].as_str(), &closable) {
                kept.push(closable[i].clone());
                assert(kept.deep_view() =~= before.push(x));
                proof {
                    if cur.no_duplicates() {
                        assert(!before.contains(x)) by {
                            if seen.contains(x) {
                                let k = seen.index_of(x);
                                assert(cur[k] == cur[i as int]);
                            }
                        }
                    }
                }
            }
            assert forall|id: Seq<char>| #[trigger]
                kept.deep_view().contains(id) <==> seen.push(x).contains(id) && supported(
                    cur.to_set(),
                    blockers_of(internal, id),
                ) by {
                lemma_push_contains(seen, x, id);
                lemma_push_contains(before, x, id);
            }
            i += 1;
        }
        assert(cur.take(cur.len() as int) =~= cur);
        if kept.len() == closable.len() {
            assert(closes_together(cur.to_set(), active.to_set(), internal, external)) by {
                assert forall|id: Seq<char>| #[trigger] cur.to_set().contains(id) implies
                    active.to_set().contains(id) && blockers_of(external, id).len() == 0
                    && supported(cur.to_set(), blockers_of(internal, id)) by {
                    assert(cur.contains(id));
                    assert(kept.deep_view().contains(id));
                }
            }
            break;
        }
        proof {
            assert forall|s: Set<Seq<char>>|
                closes_together(s, active.to_set(), internal, external) implies
                #[trigger] s.subset_of(kept.deep_view().to_set()) by {
                assert(s.subset_of(cur.to_set()));
                assert forall|id: Seq<char>| s.contains(id) implies
                    kept.deep_view().to_set().contains(id) by {
                    assert(cur.to_set().contains(id));
                    assert(supported(s, blockers_of(internal, id)));
                    assert(supported(cur.to_set(), blockers_of(internal, id))) by {
                        let b = blockers_of(internal, id);
                        assert forall|k: int| 0 <= k < b.len() implies cur.to_set().contains(
                            #[trigger] b[k],
                        ) by {
                            assert(s.contains(b[k]));
                        }
                    }
                    assert(kept.deep_view().contains(id));
                }
            }
            assert forall|id: Seq<char>| #[trigger] kept.deep_view().contains(id) implies
                active.contains(id) && blockers_of(external, id).len() == 0 by {
                assert(cur.contains(id));
            }
        }
        closable = kept;
    }
    proof {
        let r = closable.deep_view().to_set();
        let all = closable_together(active.to_set(), internal, external);
        lemma_closable_together(active.to_set(), internal, external);
        assert(all.subset_of(r));
        assert(r.subset_of(all));
        assert(r =~= all);
    }
    closable
}

proof fn lemma_push_contains(s: Seq<Seq<char>>, x: Seq<char>, id: Seq<char>)
    ensures
        s.push(x).contains(id) <==> s.contains(id) || id == x,
{
    let r = s.push(x);
    if s.contains(id) {
        let k = s.index_of(id);
        assert(r[k] == id);
    }
    assert(r[s.len() as int] == x);
    if r.contains(id) {
        let k = r.index_of(id);
        if k < s.len() {
            assert(s[k] == id);
        }
    }
}

/// The first place that asks for `input` and holds no item yet, at or behind `from`.
pub open spec fn free_place<T>(
    requested: Seq<Seq<char>>,
    slots: Seq<Option<T>>,
    input: Seq<char>,
    from: int,
) -> Option<int>
    decreases requested.len() - from,
{
    if from < 0 || from >= requested.len() {
        None
    } else if requested[from] == input && slots[from] is None {
        Some(from)
    } else {
        free_place(requested, slots, input, from + 1)
    }
}

/// Why results cannot be put in the requested order.
pub enum Misrouted {
    /// A batch has more inputs than results, or fewer.
    Counts,
    /// A result came for an input that was not requested, or not that often.
    Unexpected(Seq<char>),
    /// No result came for this input.
    Missing(Seq<char>),
}

/// The places after the results of one batch have been put in, the first `n` of them.
pub open spec fn placed<T>(
    requested: Seq<Seq<char>>,
    slots: Seq<Option<T>>,
    inputs: Seq<Seq<char>>,
    items: Seq<T>,
    n: int,
) -> Result<Seq<Option<T>>, Misrouted>
    decreases n,
{
    if n <= 0 {
        Ok(slots)
    } else {
        match placed(requested, slots, inputs, items, n - 1) {
            Ok(s) => match free_place(requested, s, inputs[n - 1], 0) {
                Some(i) => Ok(s.update(i, Some(items[n - 1]))),
                None => Err(Misrouted::Unexpected(inputs[n - 1])),
            },
            Err(e) => Err(e),
        }
    }
}

/// The places after the results of all batches have been put in.
pub open spec fn placed_all<T>(
    requested: Seq<Seq<char>>,
    batches: Seq<(Seq<Seq<char>>, Seq<T>)>,
) -> Result<Seq<Option<T>>, Misrouted>
    decreases batches.len(),
{
    if batches.len() == 0 {
        Ok(Seq::new(requested.len(), |i: int| None))
    } else {
        let (inputs, items) = batches.last();
        match placed_all(requested, batches.drop_last()) {
            Ok(s) => if inputs.len() != items.len() {
                Err(Misrouted::Counts)
            } else {
                placed(requested, s, inputs, items, inputs.len() as int)
            },
            Err(e) => Err(e),
        }
    }
}

/// The first place without an item, at or behind `from`.
pub open spec fn first_empty<T>(slots: Seq<Option<T>>, from: int) -> Option<int>
    decreases slots.len() - from,
{
    if from < 0 || from >= slots.len() {
        None
    } else if slots[from] is None {
        Some(from)
    } else {
        first_empty(slots, from + 1)
    }
}

/// The results in the requested order: the n-th result for an input goes to the n-th place that
/// asks for it.
pub open spec fn reordered<T>(
    requested: Seq<Seq<char>>,
    batches: Seq<(Seq<Seq<char>>, Seq<T>)>,
) -> Result<Seq<T>, Misrouted> {
    match placed_all(requested, batches) {
        Ok(slots) => match first_empty(slots, 0) {
            Some(i) => Err(Misrouted::Missing(requested[i])),
            None => Ok(slots.map_values(|s: Option<T>| s->0)),
        },
        Err(e) => Err(e),
    }
}

/// The error for results that cannot be put in order.
pub open spec fn misrouted_error(e: Misrouted, context: Seq<char>) -> BeadsErrorView {
    match e {
        Misrouted::Counts => BeadsErrorView::Config(
            context + " produced mismatched issue/result counts"@,
        ),
        Misrouted::Unexpected(input) => BeadsErrorView::Config(
            context + " returned unexpected issue input "@ + input,
        ),
        Misrouted::Missing(input) => BeadsErrorView::Config(
            context + " did not produce a result for "@ + input,
        ),
    }
}

/// The inputs and items of batches.
pub open spec fn batch_views<T>(batches: Seq<(Vec<String>, Vec<T>)>) -> Seq<
    (Seq<Seq<char>>, Seq<T>),
> {
    batches.map_values(|b: (Vec<String>, Vec<T>)| (b.0.deep_view(), b.1@))
}

fn find_free<T>(requested: &Vec<String>, slots: &Vec<Option<T>>, input: &str) -> (r: Option<usize>)
    requires
        slots.len() == requested.len(),
    ensures
        free_place(requested.deep_view(), slots@, input@, 0) == (match r {
            Some(i) => Some(i as int),
            None => None::<int>,
        }),
        r matches Some(i) ==> i < requested.len(),
{
    let ghost want = requested.deep_view();
    let mut i: usize = 0;
    while i < requested.len()
        invariant
            i <= requested.len(),
            slots.len() == requested.len(),
            want == requested.deep_view(),
            free_place(want, slots@, input@, 0) == free_place(want, slots@, input@, i as int),
        decreases requested.len() - i,
    {
        assert(want[i as int] == requested@[i as int]@);
        if same_text(requested[i].as_str(), input) && slots[i].is_none() {
            return Some(i);
        }
        i += 1;
    }
    None
}

/// Puts results that came in batches into the order in which they were requested.
pub fn reorder_routed_items_by_requested_inputs<T>(
    requested_inputs: &Vec<String>,
    routed_items: Vec<(Vec<String>, Vec<T>)>,
    context: &str,
) -> (r: Result<Vec<T>, BeadsError>)
    ensures
        match reordered(requested_inputs.deep_view(), batch_views(routed_items@)) {
            Ok(items) => r matches Ok(v) && v@ == items,
            Err(e) => r matches Err(x) && x.deep_view() == misrouted_error(e, context@),
        },
{
    let ghost want = requested_inputs.deep_view();
    let ghost all = batch_views(routed_items@);
    let ghost raw_all = routed_items@;
    let mut slots: Vec<Option<T>> = Vec::new();
    let mut i: usize = 0;
    while i < requested_inputs.len()
        invariant
            i <= requested_inputs.len(),
            slots.len() == i,
            forall|k: int| 0 <= k < i ==> slots@[k] is None,
        decreases requested_inputs.len() - i,
    {
        slots.push(None);
        i += 1;
    }
    let ghost blank = Seq::new(want.len(), |i: int| None::<T>);
    assert(slots@ =~= blank);
    let mut rest = routed_items;
    let ghost mut n: int = 0;
    assert(all.take(0) =~= seq![]);
    assert(raw_all.skip(0) =~= raw_all);
    while rest.len() > 0
        invariant
            want == requested_inputs.deep_view(),
            slots.len() == requested_inputs.len(),
            0 <= n <= raw_all.len(),
            all == batch_views(raw_all),
            raw_all == routed_items@,
            rest@ == raw_all.skip(n),
            placed_all(want, all.take(n)) == Ok::<Seq<Option<T>>, Misrouted>(slots@),
        decreases rest.len(),
    {
        let ghost tail = rest@;
        let (inputs, items) = rest.remove(0);
        let ghost ins = inputs.deep_view();
        let ghost its = items@;
        assert(raw_all[n] == tail[0]);
        assert(all[n] == (ins, its));
        assert(all.take(n + 1).drop_last() =~= all.take(n));
        assert(all.take(n + 1).last() == (ins, its));
        assert(rest@ =~= raw_all.skip(n + 1));
        let ghost start = slots@;
        if inputs.len() != items.len() {
            assert(placed_all(want, all.take(n + 1)) == Err::<Seq<Option<T>>, Misrouted>(
                Misrouted::Counts,
            ));
            proof {
                lemma_placed_all_error(want, all, n + 1);
            }
            return Err(
                BeadsError::Config(joined(context, " produced mismatched issue/result counts")),
            );
        }
        let mut items = items;
        let mut k: usize = 0;
        assert(its.skip(0) =~= its);
        while k < inputs.len()
            invariant
                want == requested_inputs.deep_view(),
                slots.len() == requested_inputs.len(),
                k <= inputs.len(),
                ins == inputs.deep_view(),
                ins.len() == its.len(),
                items@ == its.skip(k as int),
                placed(want, start, ins, its, k as int) == Ok::<Seq<Option<T>>, Misrouted>(slots@),
                0 <= n < raw_all.len(),
                all == batch_views(raw_all),
                raw_all == routed_items@,
                all.take(n + 1).drop_last() == all.take(n),
                all.take(n + 1).last() == (ins, its),
                placed_all(want, all.take(n)) == Ok::<Seq<Option<T>>, Misrouted>(start),
            decreases inputs.len() - k,
        {
            let ghost left = items@;
            let item = items.remove(0);
            assert(item == its[k as int]);
            assert(items@ =~= its.skip(k + 1));
            assert(ins[k as int] == inputs@[k as int]@);
            match find_free(requested_inputs, &slots, inputs[k].as_str()) {
                Some(index) => {
                    slots.set(index, Some(item));
                },
                None => {
                    proof {
                        lemma_placed_error(want, start, ins, its, k + 1, ins.len() as int);
                        lemma_placed_all_error(want, all, n + 1);
                    }
                    return Err(
                        BeadsError::Config(
                            joined3(
                                context,
                                " returned unexpected issue input ",
                                inputs[k].as_str(),
                            ),
                        ),
                    );
                },
            }
            k += 1;
        }
        proof {
            n = n + 1;
        }
    }
    assert(all.take(n) =~= all);
    let ghost full = slots@;
    let mut out: Vec<T> = Vec::new();
    let mut left = slots;
    let mut index: usize = 0;
    assert(full.skip(0) =~= full);
    while left.len() > 0
        invariant
            want == requested_inputs.deep_view(),
            full.len() == requested_inputs.len(),
            index <= full.len(),
            left@ == full.skip(index as int),
            out.len() == index,
            forall|j: int| 0 <= j < index ==> full[j] == Some(#[trigger] out@[j]),
            first_empty(full, 0) == first_empty(full, index as int),
            placed_all(want, batch_views(routed_items@)) == Ok::<Seq<Option<T>>, Misrouted>(full),
        decreases left.len(),
    {
        let ghost before = left@;
        let slot = left.remove(0);
        assert(slot == full[index as int]);
        assert(left@ =~= full.skip(index + 1));
        match slot {
            Some(item) => {
                out.push(item);
            },
            None => {
                assert(want[index as int] == requested_inputs@[index as int]@);
                return Err(
                    BeadsError::Config(
                        joined3(
                            context,
                            " did not produce a result for ",
                            requested_inputs[index].as_str(),
                        ),
                    ),
                );
            },
        }
        index += 1;
    }
    assert(out@ =~= full.map_values(|s: Option<T>| s->0));
    Ok(out)
}

proof fn lemma_placed_error<T>(
    requested: Seq<Seq<char>>,
    slots: Seq<Option<T>>,
    inputs: Seq<Seq<char>>,
    items: Seq<T>,
    k: int,
    n: int,
)
    requires
        0 <= k <= n,
        placed(requested, slots, inputs, items, k) is Err,
    ensures
        placed(requested, slots, inputs, items, n) == placed(requested, slots, inputs, items, k),
    decreases n - k,
{
    if k < n {
        lemma_placed_error(requested, slots, inputs, items, k, n - 1);
    }
}

proof fn lemma_placed_all_error<T>(
    requested: Seq<Seq<char>>,
    batches: Seq<(Seq<Seq<char>>, Seq<T>)>,
    k: int,
)
    requires
        0 <= k <= batches.len(),
        placed_all(requested, batches.take(k)) is Err,
    ensures
        placed_all(requested, batches) == placed_all(requested, batches.take(k)),
    decreases batches.len() - k,
{
    if k == batches.len() {
        assert(batches.take(k) =~= batches);
    } else {
        let front = batches.drop_last();
        assert(front.take(k) =~= batches.take(k));
        lemma_placed_all_error(requested, front, k);
    }
}

/// A place with its item mapped.
pub open spec fn mapped_slots<T, U>(slots: Seq<Option<T>>, f: spec_fn(T) -> U) -> Seq<Option<U>> {
    slots.map_values(
        |s: Option<T>|
            match s {
                Some(item) => Some(f(item)),
                None => None,
            },
    )
}

/// Batches with their items mapped.
pub open spec fn mapped_batches<T, U>(
    batches: Seq<(Seq<Seq<char>>, Seq<T>)>,
    f: spec_fn(T) -> U,
) -> Seq<(Seq<Seq<char>>, Seq<U>)> {
    batches.map_values(|b: (Seq<Seq<char>>, Seq<T>)| (b.0, b.1.map_values(f)))
}

proof fn lemma_free_place_mapped<T, U>(
    requested: Seq<Seq<char>>,
    slots: Seq<Option<T>>,
    f: spec_fn(T) -> U,
    input: Seq<char>,
    from: int,
)
    requires
        slots.len() == requested.len(),
    ensures
        free_place(requested, mapped_slots(slots, f), input, from) == free_place(
            requested,
            slots,
            input,
            from,
        ),
        free_place(requested, slots, input, from) matches Some(i) ==> 0 <= i < requested.len(),
    decreases requested.len() - from,
{
    if 0 <= from < requested.len() {
        lemma_free_place_mapped(requested, slots, f, input, from + 1);
    }
}

proof fn lemma_placed_mapped<T, U>(
    requested: Seq<Seq<char>>,
    slots: Seq<Option<T>>,
    inputs: Seq<Seq<char>>,
    items: Seq<T>,
    f: spec_fn(T) -> U,
    n: int,
)
    requires
        slots.len() == requested.len(),
        n <= inputs.len(),
        inputs.len() == items.len(),
    ensures
        placed(requested, mapped_slots(slots, f), inputs, items.map_values(f), n) == (match placed(
            requested,
            slots,
            inputs,
            items,
            n,
        ) {
            Ok(s) => Ok(mapped_slots(s, f)),
            Err(e) => Err(e),
        }),
        placed(requested, slots, inputs, items, n) matches Ok(s) ==> s.len() == requested.len(),
    decreases n,
{
    if n > 0 {
        lemma_placed_mapped(requested, slots, inputs, items, f, n - 1);
        match placed(requested, slots, inputs, items, n - 1) {
            Ok(s) => {
                lemma_free_place_mapped(requested, s, f, inputs[n - 1], 0);
                match free_place(requested, s, inputs[n - 1], 0) {
                    Some(i) => {
                        assert(mapped_slots(s.update(i, Some(items[n - 1])), f) =~= mapped_slots(
                            s,
                            f,
                        ).update(i, Some(f(items[n - 1]))));
                    },
                    None => {},
                }
            },
            Err(e) => {},
        }
    }
}

proof fn lemma_placed_all_mapped<T, U>(
    requested: Seq<Seq<char>>,
    batches: Seq<(Seq<Seq<char>>, Seq<T>)>,
    f: spec_fn(T) -> U,
)
    ensures
        placed_all(requested, mapped_batches(batches, f)) == (match placed_all(requested, batches) {
            Ok(s) => Ok(mapped_slots(s, f)),
            Err(e) => Err(e),
        }),
        placed_all(requested, batches) matches Ok(s) ==> s.len() == requested.len(),
    decreases batches.len(),
{
    if batches.len() == 0 {
        assert(mapped_slots(Seq::new(requested.len(), |i: int| None::<T>), f) =~= Seq::new(
            requested.len(),
            |i: int| None::<U>,
        ));
    } else {
        let front = batches.drop_last();
        lemma_placed_all_mapped(requested, front, f);
        assert(mapped_batches(batches, f).drop_last() =~= mapped_batches(front, f));
        let (inputs, items) = batches.last();
        match placed_all(requested, front) {
            Ok(s) => if inputs.len() == items.len() {
                lemma_placed_mapped(requested, s, inputs, items, f, inputs.len() as int);
            },
            Err(e) => {},
        }
    }
}

proof fn lemma_first_empty_mapped<T, U>(slots: Seq<Option<T>>, f: spec_fn(T) -> U, from: int)
    ensures
        first_empty(mapped_slots(slots, f), from) == first_empty(slots, from),
        0 <= from && first_empty(slots, from) is None ==> forall|i: int|
            from <= i < slots.len() ==> #[trigger] slots[i] is Some,
    decreases slots.len() - from,
{
    if 0 <= from < slots.len() {
        lemma_first_empty_mapped(slots, f, from + 1);
    }
}

/// The order in which results are put does not depend on what they are.
pub proof fn lemma_reordered_mapped<T, U>(
    requested: Seq<Seq<char>>,
    batches: Seq<(Seq<Seq<char>>, Seq<T>)>,
    f: spec_fn(T) -> U,
)
    ensures
        reordered(requested, mapped_batches(batches, f)) == (match reordered(requested, batches) {
            Ok(items) => Ok(items.map_values(f)),
            Err(e) => Err(e),
        }),
{
    lemma_placed_all_mapped(requested, batches, f);
    match placed_all(requested, batches) {
        Ok(slots) => {
            lemma_first_empty_mapped(slots, f, 0);
            if first_empty(slots, 0) is None {
                assert(mapped_slots(slots, f).map_values(|s: Option<U>| s->0) =~= slots.map_values(
                    |s: Option<T>| s->0,
                ).map_values(f)) by {
                    assert forall|i: int| 0 <= i < slots.len() implies mapped_slots(slots, f)[i]->0
                        == f(slots[i]->0) by {
                        assert(slots[i] is Some);
                    }
                }
            }
        },
        Err(e) => {},
    }
}

/// How often a text occurs.
pub open spec fn times(s: Seq<Seq<char>>, x: Seq<char>) -> nat
    decreases s.len(),
{
    if s.len() == 0 {
        0
    } else {
        times(s.drop_last(), x) + if s.last() == x {
            1nat
        } else {
            0nat
        }
    }
}

/// How many of the places that ask for `x` hold an item.
pub open spec fn times_filled<T>(
    requested: Seq<Seq<char>>,
    slots: Seq<Option<T>>,
    x: Seq<char>,
) -> nat
    decreases requested.len(),
{
    if requested.len() == 0 {
        0
    } else {
        times_filled(requested.drop_last(), slots, x) + if requested.last() == x
            && slots[requested.len() - 1] is Some {
            1nat
        } else {
            0nat
        }
    }
}

/// How often a text occurs among the inputs of all batches.
pub open spec fn times_routed<T>(batches: Seq<(Seq<Seq<char>>, Seq<T>)>, x: Seq<char>) -> nat
    decreases batches.len(),
{
    if batches.len() == 0 {
        0
    } else {
        times_routed(batches.drop_last(), x) + times(batches.last().0, x)
    }
}

proof fn lemma_free_place<T>(
    requested: Seq<Seq<char>>,
    slots: Seq<Option<T>>,
    x: Seq<char>,
    from: int,
)
    requires
        slots.len() == requested.len(),
        0 <= from,
    ensures
        match free_place(requested, slots, x, from) {
            Some(i) => from <= i < requested.len() && requested[i] == x && slots[i] is None,
            None => forall|i: int|
                from <= i < requested.len() && #[trigger] requested[i] == x ==> slots[i] is Some,
        },
    decreases requested.len() - from,
{
    if from < requested.len() {
        if !(requested[from] == x && slots[from] is None) {
            lemma_free_place(requested, slots, x, from + 1);
        }
    }
}

proof fn lemma_times_filled_update<T>(
    requested: Seq<Seq<char>>,
    slots: Seq<Option<T>>,
    i: int,
    item: T,
    x: Seq<char>,
)
    requires
        requested.len() <= slots.len(),
        0 <= i < slots.len(),
        slots[i] is None,
    ensures
        times_filled(requested, slots.update(i, Some(item)), x) == times_filled(
            requested,
            slots,
            x,
        ) + (if i < requested.len() && requested[i] == x {
            1nat
        } else {
            0nat
        }),
    decreases requested.len(),
{
    if requested.len() > 0 {
        lemma_times_filled_update(requested.drop_last(), slots, i, item, x);
    }
}

proof fn lemma_times_filled_full<T>(
    requested: Seq<Seq<char>>,
    slots: Seq<Option<T>>,
    x: Seq<char>,
)
    requires
        requested.len() <= slots.len(),
    ensures
        times_filled(requested, slots, x) <= times(requested, x),
        times_filled(requested, slots, x) == times(requested, x) <==> (forall|i: int|
            0 <= i < requested.len() && #[trigger] requested[i] == x ==> slots[i] is Some),
    decreases requested.len(),
{
    if requested.len() > 0 {
        let front = requested.drop_last();
        lemma_times_filled_full(front, slots, x);
        if forall|i: int|
            0 <= i < requested.len() && #[trigger] requested[i] == x ==> slots[i] is Some {
            assert forall|i: int| 0 <= i < front.len() && #[trigger] front[i] == x implies slots[i] is Some by {
                assert(requested[i] == x);
            }
            if requested.last() == x {
                assert(requested[requested.len() - 1] == x);
            }
        }
        if times_filled(requested, slots, x) == times(requested, x) {
            assert forall|i: int| 0 <= i < requested.len() && #[trigger] requested[i] == x implies slots[i] is Some by {
                if i < front.len() {
                    assert(front[i] == x);
                }
            }
        }
    }
}

proof fn lemma_placed_counts<T>(
    requested: Seq<Seq<char>>,
    slots: Seq<Option<T>>,
    inputs: Seq<Seq<char>>,
    items: Seq<T>,
    n: int,
    x: Seq<char>,
)
    requires
        slots.len() == requested.len(),
        0 <= n <= inputs.len(),
    ensures
        placed(requested, slots, inputs, items, n) matches Ok(s) ==> s.len() == requested.len()
            && times_filled(requested, s, x) == times_filled(requested, slots, x) + times(
            inputs.take(n),
            x,
        ),
    decreases n,
{
    if n > 0 {
        lemma_placed_counts(requested, slots, inputs, items, n - 1, x);
        assert(inputs.take(n).drop_last() =~= inputs.take(n - 1));
        match placed(requested, slots, inputs, items, n - 1) {
            Ok(s) => {
                lemma_free_place(requested, s, inputs[n - 1], 0);
                match free_place(requested, s, inputs[n - 1], 0) {
                    Some(i) => {
                        lemma_times_filled_update(requested, s, i, items[n - 1], x);
                    },
                    None => {},
                }
            },
            Err(_) => {},
        }
    } else {
        assert(inputs.take(0) =~= seq![]);
    }
}

proof fn lemma_times_take(s: Seq<Seq<char>>, n: int, x: Seq<char>)
    requires
        0 <= n <= s.len(),
    ensures
        times(s.take(n), x) <= times(s, x),
        n < s.len() && s[n] == x ==> times(s.take(n), x) < times(s, x),
    decreases s.len() - n,
{
    if n == s.len() {
        assert(s.take(n) =~= s);
    } else {
        lemma_times_take(s, n + 1, x);
        assert(s.take(n + 1).drop_last() =~= s.take(n));
    }
}

proof fn lemma_placed_unexpected<T>(
    requested: Seq<Seq<char>>,
    slots: Seq<Option<T>>,
    inputs: Seq<Seq<char>>,
    items: Seq<T>,
    n: int,
)
    requires
        slots.len() == requested.len(),
        0 <= n <= inputs.len(),
        placed(requested, slots, inputs, items, n) is Err,
    ensures
        exists|x: Seq<char>| #[trigger]
            times(requested, x) < times_filled(requested, slots, x) + times(inputs.take(n), x),
    decreases n,
{
    let x = inputs[n - 1];
    assert(inputs.take(n).drop_last() =~= inputs.take(n - 1));
    match placed(requested, slots, inputs, items, n - 1) {
        Ok(s) => {
            lemma_placed_counts(requested, slots, inputs, items, n - 1, x);
            lemma_free_place(requested, s, x, 0);
            lemma_times_filled_full(requested, s, x);
            assert(times(requested, x) < times_filled(requested, slots, x) + times(
                inputs.take(n),
                x,
            ));
        },
        Err(_) => {
            lemma_placed_unexpected(requested, slots, inputs, items, n - 1);
            let y = choose|y: Seq<char>| #[trigger]
                times(requested, y) < times_filled(requested, slots, y) + times(
                    inputs.take(n - 1),
                    y,
                );
            assert(times(inputs.take(n - 1), y) <= times(inputs.take(n), y));
            assert(times(requested, y) < times_filled(requested, slots, y) + times(
                inputs.take(n),
                y,
            ));
        },
    }
}

proof fn lemma_placed_all_counts<T>(
    requested: Seq<Seq<char>>,
    batches: Seq<(Seq<Seq<char>>, Seq<T>)>,
    x: Seq<char>,
)
    ensures
        placed_all(requested, batches) matches Ok(s) ==> s.len() == requested.len()
            && times_filled(requested, s, x) == times_routed(batches, x),
    decreases batches.len(),
{
    if batches.len() == 0 {
        lemma_blank_counts::<T>(requested, requested.len() as int, x);
    } else {
        let (inputs, items) = batches.last();
        lemma_placed_all_counts(requested, batches.drop_last(), x);
        match placed_all(requested, batches.drop_last()) {
            Ok(s) => {
                lemma_placed_counts(requested, s, inputs, items, inputs.len() as int, x);
                assert(inputs.take(inputs.len() as int) =~= inputs);
            },
            Err(_) => {},
        }
    }
}

proof fn lemma_blank_counts<T>(requested: Seq<Seq<char>>, n: int, x: Seq<char>)
    requires
        requested.len() <= n,
    ensures
        times_filled(requested, Seq::new(n as nat, |i: int| None::<T>), x) == 0,
    decreases requested.len(),
{
    if requested.len() > 0 {
        lemma_blank_counts::<T>(requested.drop_last(), n, x);
    }
}

proof fn lemma_placed_all_unexpected<T>(
    requested: Seq<Seq<char>>,
    batches: Seq<(Seq<Seq<char>>, Seq<T>)>,
)
    requires
        placed_all(requested, batches) is Err,
    ensures
        (exists|i: int|
            0 <= i < batches.len() && (#[trigger] batches[i]).0.len() != batches[i].1.len()) || (
        exists|x: Seq<char>| #[trigger] times(requested, x) < times_routed(batches, x)),
    decreases batches.len(),
{
    let front = batches.drop_last();
    let (inputs, items) = batches.last();
    match placed_all(requested, front) {
        Ok(s) => {
            if inputs.len() != items.len() {
                assert(batches[batches.len() - 1].0.len() != batches[batches.len() - 1].1.len());
            } else {
                lemma_placed_all_counts(requested, front, inputs[0]);
                lemma_placed_unexpected(requested, s, inputs, items, inputs.len() as int);
                assert(inputs.take(inputs.len() as int) =~= inputs);
                let x = choose|x: Seq<char>| #[trigger]
                    times(requested, x) < times_filled(requested, s, x) + times(
                        inputs.take(inputs.len() as int),
                        x,
                    );
                lemma_placed_all_counts(requested, front, x);
                assert(times(requested, x) < times_routed(batches, x));
            }
        },
        Err(_) => {
            lemma_placed_all_unexpected(requested, front);
            if exists|i: int|
                0 <= i < front.len() && (#[trigger] front[i]).0.len() != front[i].1.len() {
                let i = choose|i: int|
                    0 <= i < front.len() && (#[trigger] front[i]).0.len() != front[i].1.len();
                assert(batches[i].0.len() != batches[i].1.len());
            } else {
                let x = choose|x: Seq<char>| #[trigger]
                    times(requested, x) < times_routed(front, x);
                assert(times(requested, x) < times_routed(batches, x));
            }
        },
    }
}

proof fn lemma_first_empty<T>(slots: Seq<Option<T>>, from: int)
    requires
        0 <= from,
    ensures
        match first_empty(slots, from) {
            Some(i) => from <= i < slots.len() && slots[i] is None,
            None => forall|i: int| from <= i < slots.len() ==> #[trigger] slots[i] is Some,
        },
    decreases slots.len() - from,
{
    if from < slots.len() && slots[from] is Some {
        lemma_first_empty(slots, from + 1);
    }
}

/// Results can be put in the requested order exactly where every batch has one result for each
/// of its inputs and the inputs of all batches together are the requested ones, each as often.
pub proof fn lemma_reordered_succeeds<T>(
    requested: Seq<Seq<char>>,
    batches: Seq<(Seq<Seq<char>>, Seq<T>)>,
)
    ensures
        reordered(requested, batches) is Ok <==> (forall|i: int|
            0 <= i < batches.len() ==> (#[trigger] batches[i]).0.len() == batches[i].1.len()) && (
        forall|x: Seq<char>| #[trigger] times(requested, x) == times_routed(batches, x)),
{
    let even = forall|i: int|
        0 <= i < batches.len() ==> (#[trigger] batches[i]).0.len() == batches[i].1.len();
    match placed_all(requested, batches) {
        Ok(slots) => {
            lemma_placed_all_even(requested, batches);
            lemma_placed_all_counts(requested, batches, seq![]);
            lemma_first_empty(slots, 0);
            match first_empty(slots, 0) {
                Some(i) => {
                    let x = requested[i];
                    lemma_placed_all_counts(requested, batches, x);
                    lemma_times_filled_full(requested, slots, x);
                    assert(times(requested, x) != times_routed(batches, x));
                },
                None => {
                    assert forall|x: Seq<char>| #[trigger]
                        times(requested, x) == times_routed(batches, x) by {
                        lemma_placed_all_counts(requested, batches, x);
                        lemma_times_filled_full(requested, slots, x);
                    }
                },
            }
        },
        Err(_) => {
            lemma_placed_all_unexpected(requested, batches);
            if even {
                let x = choose|x: Seq<char>| #[trigger]
                    times(requested, x) < times_routed(batches, x);
                assert(times(requested, x) != times_routed(batches, x));
            }
        },
    }
}

proof fn lemma_placed_all_even<T>(
    requested: Seq<Seq<char>>,
    batches: Seq<(Seq<Seq<char>>, Seq<T>)>,
)
    requires
        placed_all(requested, batches) is Ok,
    ensures
        forall|i: int|
            0 <= i < batches.len() ==> (#[trigger] batches[i]).0.len() == batches[i].1.len(),
    decreases batches.len(),
{
    if batches.len() > 0 {
        let front = batches.drop_last();
        lemma_placed_all_even(requested, front);
        assert forall|i: int| 0 <= i < batches.len() implies (#[trigger] batches[i]).0.len()
            == batches[i].1.len() by {
            if i < front.len() {
                assert(front[i].0.len() == front[i].1.len());
            }
        }
    }
}

/// Some batch has this item beside this input.
pub open spec fn routed<T>(
    batches: Seq<(Seq<Seq<char>>, Seq<T>)>,
    input: Seq<char>,
    item: T,
) -> bool {
    exists|b: int, k: int|
        0 <= b < batches.len() && 0 <= k < batches[b].0.len() && k < batches[b].1.len()
            && #[trigger] batches[b].0[k] == input && batches[b].1[k] == item
}

proof fn lemma_placed_origin<T>(
    requested: Seq<Seq<char>>,
    slots: Seq<Option<T>>,
    batches: Seq<(Seq<Seq<char>>, Seq<T>)>,
    n: int,
)
    requires
        batches.len() > 0,
        slots.len() == requested.len(),
        batches.last().0.len() == batches.last().1.len(),
        0 <= n <= batches.last().0.len(),
        forall|i: int|
            0 <= i < slots.len() && (#[trigger] slots[i]) is Some ==> routed(
                batches,
                requested[i],
                slots[i]->0,
            ),
    ensures
        placed(requested, slots, batches.last().0, batches.last().1, n) matches Ok(s) ==> s.len()
            == requested.len() && forall|i: int|
            0 <= i < s.len() && (#[trigger] s[i]) is Some ==> routed(
                batches,
                requested[i],
                s[i]->0,
            ),
    decreases n,
{
    let (inputs, items) = batches.last();
    if n > 0 {
        lemma_placed_origin(requested, slots, batches, n - 1);
        match placed(requested, slots, inputs, items, n - 1) {
            Ok(s) => {
                lemma_free_place(requested, s, inputs[n - 1], 0);
                match free_place(requested, s, inputs[n - 1], 0) {
                    Some(i) => {
                        assert(batches[batches.len() - 1].0[n - 1] == requested[i]);
                        assert(routed(batches, requested[i], items[n - 1]));
                    },
                    None => {},
                }
            },
            Err(_) => {},
        }
    }
}

proof fn lemma_placed_all_origin<T>(
    requested: Seq<Seq<char>>,
    batches: Seq<(Seq<Seq<char>>, Seq<T>)>,
)
    ensures
        placed_all(requested, batches) matches Ok(s) ==> s.len() == requested.len() && forall|
            i: int,
        |
            0 <= i < s.len() && (#[trigger] s[i]) is Some ==> routed(
                batches,
                requested[i],
                s[i]->0,
            ),
    decreases batches.len(),
{
    if batches.len() > 0 {
        let front = batches.drop_last();
        let (inputs, items) = batches.last();
        lemma_placed_all_origin(requested, front);
        match placed_all(requested, front) {
            Ok(s) => {
                if inputs.len() == items.len() {
                    assert forall|i: int| 0 <= i < s.len() && (#[trigger] s[i]) is Some implies
                        routed(batches, requested[i], s[i]->0) by {
                        let (b, k) = choose|b: int, k: int|
                            0 <= b < front.len() && 0 <= k < front[b].0.len() && k
                                < front[b].1.len() && #[trigger] front[b].0[k] == requested[i]
                                && front[b].1[k] == s[i]->0;
                        assert(batches[b].0[k] == requested[i]);
                    }
                    lemma_placed_origin(requested, s, batches, inputs.len() as int);
                }
            },
            Err(_) => {},
        }
    }
}

/// Each result in the requested order came beside the input that asked for it.
pub proof fn lemma_reordered_matches_inputs<T>(
    requested: Seq<Seq<char>>,
    batches: Seq<(Seq<Seq<char>>, Seq<T>)>,
)
    ensures
        reordered(requested, batches) matches Ok(items) ==> items.len() == requested.len()
            && forall|i: int|
            0 <= i < items.len() ==> routed(batches, requested[i], #[trigger] items[i]),
{
    lemma_placed_all_origin(requested, batches);
    match placed_all(requested, batches) {
        Ok(slots) => {
            lemma_first_empty(slots, 0);
            if first_empty(slots, 0) is None {
                let items = slots.map_values(|s: Option<T>| s->0);
                assert forall|i: int| 0 <= i < items.len() implies routed(
                    batches,
                    requested[i],
                    #[trigger] items[i],
                ) by {
                    assert(slots[i] is Some);
                }
            }
        },
        Err(_) => {},
    }
}

/// The items beside an input, in their order.
pub open spec fn items_beside<T>(inputs: Seq<Seq<char>>, items: Seq<T>, x: Seq<char>) -> Seq<T>
    decreases inputs.len(),
{
    if inputs.len() == 0 {
        seq![]
    } else {
        let front = items_beside(inputs.drop_last(), items, x);
        if inputs.last() == x {
            front.push(items[inputs.len() - 1])
        } else {
            front
        }
    }
}

/// The items that the batches have beside an input, in the order in which they came.
pub open spec fn items_routed<T>(batches: Seq<(Seq<Seq<char>>, Seq<T>)>, x: Seq<char>) -> Seq<T>
    decreases batches.len(),
{
    if batches.len() == 0 {
        seq![]
    } else {
        items_routed(batches.drop_last(), x) + items_beside(
            batches.last().0,
            batches.last().1,
            x,
        )
    }
}

/// The items in the places that ask for an input, as far as they hold one.
spec fn items_placed<T>(
    requested: Seq<Seq<char>>,
    slots: Seq<Option<T>>,
    x: Seq<char>,
) -> Seq<T>
    decreases requested.len(),
{
    if requested.len() == 0 {
        seq![]
    } else {
        let front = items_placed(requested.drop_last(), slots, x);
        if requested.last() == x && slots[requested.len() - 1] is Some {
            front.push(slots[requested.len() - 1]->0)
        } else {
            front
        }
    }
}

/// No place that asks for an input holds an item before an earlier one does.
spec fn fills_up<T>(requested: Seq<Seq<char>>, slots: Seq<Option<T>>, x: Seq<char>) -> bool {
    forall|i: int, j: int|
        0 <= i < j < requested.len() && #[trigger] requested[i] == x && #[trigger] requested[j] == x
            && slots[j] is Some ==> slots[i] is Some
}

proof fn lemma_free_place_is_first<T>(
    requested: Seq<Seq<char>>,
    slots: Seq<Option<T>>,
    x: Seq<char>,
    from: int,
    j: int,
)
    requires
        free_place(requested, slots, x, from) is Some,
        0 <= from <= j < free_place(requested, slots, x, from)->0,
        requested[j] == x,
    ensures
        slots[j] is Some,
    decreases requested.len() - from,
{
    if from < j {
        lemma_free_place_is_first(requested, slots, x, from + 1, j);
    }
}

proof fn lemma_items_placed_update<T>(
    requested: Seq<Seq<char>>,
    slots: Seq<Option<T>>,
    i: int,
    item: T,
    x: Seq<char>,
)
    requires
        requested.len() <= slots.len(),
        0 <= i < slots.len(),
        slots[i] is None,
        forall|j: int|
            i < j < requested.len() && requested[i] == x && #[trigger] requested[j] == x
                ==> slots[j] is None,
    ensures
        items_placed(requested, slots.update(i, Some(item)), x) == (if i < requested.len()
            && requested[i] == x {
            items_placed(requested, slots, x).push(item)
        } else {
            items_placed(requested, slots, x)
        }),
    decreases requested.len(),
{
    if requested.len() > 0 {
        let front = requested.drop_last();
        assert forall|j: int|
            i < j < front.len() && front[i] == x && #[trigger] front[j] == x implies slots[j] is None by {
            assert(requested[j] == x);
        }
        lemma_items_placed_update(front, slots, i, item, x);
        if i < requested.len() - 1 && requested[i] == x && requested.last() == x {
            assert(requested[requested.len() - 1] == x);
        }
    }
}

proof fn lemma_placed_in_turn<T>(
    requested: Seq<Seq<char>>,
    slots: Seq<Option<T>>,
    inputs: Seq<Seq<char>>,
    items: Seq<T>,
    n: int,
    x: Seq<char>,
)
    requires
        slots.len() == requested.len(),
        inputs.len() == items.len(),
        0 <= n <= inputs.len(),
        fills_up(requested, slots, x),
    ensures
        placed(requested, slots, inputs, items, n) matches Ok(s) ==> s.len() == requested.len()
            && fills_up(requested, s, x) && items_placed(requested, s, x) == items_placed(
            requested,
            slots,
            x,
        ) + items_beside(inputs.take(n), items, x),
    decreases n,
{
    let start = items_placed(requested, slots, x);
    if n > 0 {
        lemma_placed_in_turn(requested, slots, inputs, items, n - 1, x);
        assert(inputs.take(n).drop_last() =~= inputs.take(n - 1));
        let before = items_beside(inputs.take(n - 1), items, x);
        match placed(requested, slots, inputs, items, n - 1) {
            Ok(s) => {
                let input = inputs[n - 1];
                lemma_free_place(requested, s, input, 0);
                match free_place(requested, s, input, 0) {
                    Some(i) => {
                        assert forall|j: int|
                            i < j < requested.len() && requested[i] == x && #[trigger] requested[j]
                                == x implies s[j] is None by {}
                        lemma_items_placed_update(requested, s, i, items[n - 1], x);
                        let t = s.update(i, Some(items[n - 1]));
                        assert forall|a: int, b: int|
                            0 <= a < b < requested.len() && #[trigger] requested[a] == x
                                && #[trigger] requested[b] == x && t[b] is Some implies t[a] is Some by {
                            if b == i {
                                lemma_free_place_is_first(requested, s, input, 0, a);
                            }
                        }
                        assert((start + before).push(items[n - 1]) =~= start + before.push(
                            items[n - 1],
                        ));
                    },
                    None => {},
                }
            },
            Err(_) => {},
        }
    } else {
        assert(inputs.take(0) =~= seq![]);
        assert(start + items_beside(inputs.take(0), items, x) =~= start);
    }
}

proof fn lemma_blank_places<T>(requested: Seq<Seq<char>>, slots: Seq<Option<T>>, x: Seq<char>)
    requires
        requested.len() <= slots.len(),
        forall|i: int| 0 <= i < slots.len() ==> #[trigger] slots[i] is None,
    ensures
        items_placed(requested, slots, x) == Seq::<T>::empty(),
    decreases requested.len(),
{
    if requested.len() > 0 {
        lemma_blank_places(requested.drop_last(), slots, x);
        assert(slots[requested.len() - 1] is None);
    }
}

proof fn lemma_placed_all_in_turn<T>(
    requested: Seq<Seq<char>>,
    batches: Seq<(Seq<Seq<char>>, Seq<T>)>,
    x: Seq<char>,
)
    ensures
        placed_all(requested, batches) matches Ok(s) ==> s.len() == requested.len() && fills_up(
            requested,
            s,
            x,
        ) && items_placed(requested, s, x) == items_routed(batches, x),
    decreases batches.len(),
{
    if batches.len() == 0 {
        lemma_blank_places(requested, Seq::new(requested.len(), |i: int| None::<T>), x);
    } else {
        let (inputs, items) = batches.last();
        lemma_placed_all_in_turn(requested, batches.drop_last(), x);
        match placed_all(requested, batches.drop_last()) {
            Ok(s) => {
                if inputs.len() == items.len() {
                    lemma_placed_in_turn(requested, s, inputs, items, inputs.len() as int, x);
                    assert(inputs.take(inputs.len() as int) =~= inputs);
                }
            },
            Err(_) => {},
        }
    }
}

proof fn lemma_full_places<T>(
    requested: Seq<Seq<char>>,
    slots: Seq<Option<T>>,
    items: Seq<T>,
    x: Seq<char>,
)
    requires
        requested.len() <= slots.len(),
        slots.len() == items.len(),
        forall|i: int| 0 <= i < slots.len() ==> #[trigger] slots[i] == Some(items[i]),
    ensures
        items_placed(requested, slots, x) == items_beside(requested, items, x),
    decreases requested.len(),
{
    if requested.len() > 0 {
        lemma_full_places(requested.drop_last(), slots, items, x);
        assert(slots[requested.len() - 1] == Some(items[requested.len() - 1]));
    }
}

/// The places that ask for an input hold the items that came for it, in the order in which they
/// came: the first such place the first of them, and so on.
pub proof fn lemma_reordered_in_turn<T>(
    requested: Seq<Seq<char>>,
    batches: Seq<(Seq<Seq<char>>, Seq<T>)>,
    x: Seq<char>,
)
    ensures
        reordered(requested, batches) matches Ok(items) ==> items.len() == requested.len()
            && items_beside(requested, items, x) == items_routed(batches, x),
{
    lemma_placed_all_in_turn(requested, batches, x);
    match placed_all(requested, batches) {
        Ok(slots) => {
            lemma_first_empty(slots, 0);
            if first_empty(slots, 0) is None {
                let items = slots.map_values(|s: Option<T>| s->0);
                lemma_full_places(requested, slots, items, x);
            }
        },
        Err(_) => {},
    }
}

} // verus!
