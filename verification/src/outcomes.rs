//! What comes out of the tracker's operations: what rows are read as, what a change records and
//! writes, and what a report says.

use vstd::prelude::*;

verus! {

use crate::asked::{ask_issue_id, lemma_ask_issue_id_text};
use crate::assoc::{get_in, lemma_put_in, list_of};
use crate::clock::Instant;
use crate::close::{
    report_of,
    CloseArgsView,
    CloseOutputView,
    ClosePayloadView,
    ClosedIssueView,
    OutputMode,
    SkippedIssueView,
    UnblockedIssueView,
};
use crate::columns::{issue_insert, lemma_written_columns_are_read};
use crate::comments::{comment_of_row, comments_of_rows};
use crate::error::BeadsErrorView;
use crate::external::{
    capability_of,
    lemma_names_one_capability,
    names_capability,
    provided,
    unsatisfied,
    wanted,
};
use crate::issues::{
    comments_records,
    comments_steps,
    create_records,
    create_steps,
    cycle_statement,
    dependencies_records,
    dependencies_steps,
    dependency_steps,
    labels_records,
    labels_steps,
    StepView,
};
use crate::labels::{label_counts, replace_labels};
use crate::links::{all_dirty, counts_into, dependencies_of_rows, dependency_of_row};
use crate::model::{
    CommentView,
    DependencyView,
    EventType,
    IssueView,
    StatusView,
};
use crate::mutation::{closing_script, dirty_script, insert_once, MutationContextView};
use crate::route::{beyond, close_update, within};
use crate::rows::{
    issue_of_row,
    issues_of_rows,
    lemma_status_reads_back,
    new_row,
    non_empty,
};
use crate::scan::{behind_prefix, signed_decimal, trimmed};
use crate::settings::{bound_pairs, hashes_statements};
use crate::sql::{
    column_texts,
    integer_at,
    integer_at_or_zero,
    size_of,
    text_at,
    text_at_or,
    SqlCell,
};
use crate::update::{claim_outcome, stored_update, update_records, updated, IssueUpdateView};
use crate::written::{
    drop_hash_removed,
    drop_labels_removed,
    drop_mark_removed,
    lemma_drop_labels_removed_text,
    lemma_drop_hash_removed_text,
    lemma_drop_mark_removed_text,
    lemma_put_dirty_mark_text,
    lemma_put_event_text,
    lemma_put_hash_entry_text,
    lemma_put_label_added_text,
    lemma_put_new_comment_text,
    lemma_put_new_dependency_text,
    put_dirty_mark,
    put_event,
    put_hash_entry,
    put_label_added,
    put_new_comment,
    put_new_dependency,
};

/// Comments are read row by row: all of them, in the order of the rows, or else the error of the
/// first row that cannot be read.
pub proof fn lemma_comments_are_read(rows: Seq<Seq<SqlCell>>)
    ensures
        comments_of_rows(rows) matches Ok(list) ==> list.len() == rows.len() && forall|k: int|
            0 <= k < rows.len() ==> comment_of_row(#[trigger] rows[k]) == Ok::<
                CommentView,
                BeadsErrorView,
            >(list[k]),
        comments_of_rows(rows) matches Err(e) ==> exists|k: int|
            0 <= k < rows.len() && comment_of_row(#[trigger] rows[k]) == Err::<
                CommentView,
                BeadsErrorView,
            >(e) && forall|j: int| 0 <= j < k ==> comment_of_row(#[trigger] rows[j]) is Ok,
    decreases rows.len(),
{
    if rows.len() > 0 {
        let front = rows.drop_last();
        let n = rows.len() - 1;
        lemma_comments_are_read(front);
        assert(forall|j: int| 0 <= j < n ==> #[trigger] rows[j] == front[j]);
        assert(rows[n] == rows.last());
        if comments_of_rows(front) is Err {
            let e = comments_of_rows(front)->Err_0;
            let k = choose|k: int|
                0 <= k < front.len() && comment_of_row(#[trigger] front[k]) == Err::<
                    CommentView,
                    BeadsErrorView,
                >(e) && forall|j: int| 0 <= j < k ==> comment_of_row(#[trigger] front[j]) is Ok;
            assert(comment_of_row(rows[k]) == Err::<CommentView, BeadsErrorView>(e));
        }
    }
}

/// Dependencies are read row by row: all of them, in the order of the rows, or else the error of the
/// first row that cannot be read.
pub proof fn lemma_dependencies_are_read(rows: Seq<Seq<SqlCell>>)
    ensures
        dependencies_of_rows(rows) matches Ok(list) ==> list.len() == rows.len() && forall|k: int|
            0 <= k < rows.len() ==> dependency_of_row(#[trigger] rows[k]) == Ok::<
                DependencyView,
                BeadsErrorView,
            >(list[k]),
        dependencies_of_rows(rows) matches Err(e) ==> exists|k: int|
            0 <= k < rows.len() && dependency_of_row(#[trigger] rows[k]) == Err::<
                DependencyView,
                BeadsErrorView,
            >(e) && forall|j: int| 0 <= j < k ==> dependency_of_row(#[trigger] rows[j]) is Ok,
    decreases rows.len(),
{
    if rows.len() > 0 {
        let front = rows.drop_last();
        let n = rows.len() - 1;
        lemma_dependencies_are_read(front);
        assert(forall|j: int| 0 <= j < n ==> #[trigger] rows[j] == front[j]);
        assert(rows[n] == rows.last());
        if dependencies_of_rows(front) is Err {
            let e = dependencies_of_rows(front)->Err_0;
            let k = choose|k: int|
                0 <= k < front.len() && dependency_of_row(#[trigger] front[k]) == Err::<
                    DependencyView,
                    BeadsErrorView,
                >(e) && forall|j: int| 0 <= j < k ==> dependency_of_row(#[trigger] front[j]) is Ok;
            assert(dependency_of_row(rows[k]) == Err::<DependencyView, BeadsErrorView>(e));
        }
    }
}

/// Issues are read row by row: all of them, in the order of the rows, or else the error of the first
/// row that cannot be read.
pub proof fn lemma_issues_are_read(rows: Seq<Seq<SqlCell>>)
    ensures
        issues_of_rows(rows) matches Ok(list) ==> list.len() == rows.len() && forall|k: int|
            0 <= k < rows.len() ==> issue_of_row(#[trigger] rows[k]) == Ok::<
                IssueView,
                BeadsErrorView,
            >(list[k]),
        issues_of_rows(rows) matches Err(e) ==> exists|k: int|
            0 <= k < rows.len() && issue_of_row(#[trigger] rows[k]) == Err::<
                IssueView,
                BeadsErrorView,
            >(e) && forall|j: int| 0 <= j < k ==> issue_of_row(#[trigger] rows[j]) is Ok,
    decreases rows.len(),
{
    if rows.len() > 0 {
        let front = rows.drop_last();
        let n = rows.len() - 1;
        lemma_issues_are_read(front);
        assert(forall|j: int| 0 <= j < n ==> #[trigger] rows[j] == front[j]);
        assert(rows[n] == rows.last());
        if issues_of_rows(front) is Err {
            let e = issues_of_rows(front)->Err_0;
            let k = choose|k: int|
                0 <= k < front.len() && issue_of_row(#[trigger] front[k]) == Err::<
                    IssueView,
                    BeadsErrorView,
                >(e) && forall|j: int| 0 <= j < k ==> issue_of_row(#[trigger] front[j]) is Ok;
            assert(issue_of_row(rows[k]) == Err::<IssueView, BeadsErrorView>(e));
        }
    }
}

/// The texts of a column are those that stand in it, all of them where every row holds one.
pub proof fn lemma_column_texts(rows: Seq<Seq<SqlCell>>, i: int)
    ensures
        forall|t: Seq<char>| #[trigger]
            column_texts(rows, i).contains(t) <==> exists|k: int|
                0 <= k < rows.len() && text_at(#[trigger] rows[k], i) == Some(t),
        (forall|k: int| 0 <= k < rows.len() ==> text_at(#[trigger] rows[k], i) is Some) ==> {
            &&& column_texts(rows, i).len() == rows.len()
            &&& forall|k: int|
                0 <= k < rows.len() ==> text_at(#[trigger] rows[k], i) == Some(
                    column_texts(rows, i)[k],
                )
        },
    decreases rows.len(),
{
    if rows.len() > 0 {
        let front = rows.drop_last();
        let n = rows.len() - 1;
        let list = column_texts(rows, i);
        let part = column_texts(front, i);
        lemma_column_texts(front, i);
        assert(forall|j: int| 0 <= j < n ==> #[trigger] rows[j] == front[j]);
        assert(rows[n] == rows.last());
        assert forall|t: Seq<char>| #[trigger] list.contains(t) <==> exists|k: int|
            0 <= k < rows.len() && text_at(#[trigger] rows[k], i) == Some(t) by {
            if list.contains(t) {
                let k = choose|k: int| 0 <= k < list.len() && list[k] == t;
                if k < part.len() {
                    assert(part[k] == t);
                    assert(part.contains(t));
                    let j = choose|j: int|
                        0 <= j < front.len() && text_at(#[trigger] front[j], i) == Some(t);
                    assert(text_at(rows[j], i) == Some(t));
                } else {
                    assert(text_at(rows[n], i) == Some(t));
                }
            }
            if exists|k: int| 0 <= k < rows.len() && text_at(#[trigger] rows[k], i) == Some(t) {
                let k = choose|k: int|
                    0 <= k < rows.len() && text_at(#[trigger] rows[k], i) == Some(t);
                if k < n {
                    assert(text_at(front[k], i) == Some(t));
                    assert(part.contains(t));
                    let j = choose|j: int| 0 <= j < part.len() && part[j] == t;
                    assert(list[j] == t);
                } else {
                    assert(list[part.len() as int] == t);
                }
            }
        }
    }
}

/// The count that is kept for an issue is the one of the last row for it; a row for none changes
/// nothing.
pub proof fn lemma_counts_are_kept(
    m: Seq<(Seq<char>, usize)>,
    rows: Seq<Seq<SqlCell>>,
    id: Seq<char>,
    k: int,
)
    requires
        0 <= k < rows.len(),
        text_at_or(rows[k], 0, seq![]) == id,
        forall|j: int| k < j < rows.len() ==> text_at_or(#[trigger] rows[j], 0, seq![]) != id,
    ensures
        get_in(counts_into(m, rows), id) == Some(size_of(integer_at_or_zero(rows[k], 1))),
    decreases rows.len(),
{
    let front = rows.drop_last();
    let n = rows.len() - 1;
    assert(rows[n] == rows.last());
    lemma_put_in(
        counts_into(m, front),
        text_at_or(rows.last(), 0, seq![]),
        size_of(integer_at_or_zero(rows.last(), 1)),
        id,
    );
    if k < n {
        assert forall|j: int| k < j < front.len() implies text_at_or(
            #[trigger] front[j],
            0,
            seq![],
        ) != id by {
            assert(rows[j] == front[j]);
        }
        lemma_counts_are_kept(m, front, id, k);
    }
}

/// An issue without a row keeps the count it had.
pub proof fn lemma_other_counts_stay(
    m: Seq<(Seq<char>, usize)>,
    rows: Seq<Seq<SqlCell>>,
    id: Seq<char>,
)
    requires
        forall|j: int| 0 <= j < rows.len() ==> text_at_or(#[trigger] rows[j], 0, seq![]) != id,
    ensures
        get_in(counts_into(m, rows), id) == get_in(m, id),
    decreases rows.len(),
{
    if rows.len() > 0 {
        let front = rows.drop_last();
        assert forall|j: int| 0 <= j < front.len() implies text_at_or(
            #[trigger] front[j],
            0,
            seq![],
        ) != id by {
            assert(rows[j] == front[j]);
        }
        assert(rows[rows.len() - 1] == rows.last());
        lemma_other_counts_stay(m, front, id);
        lemma_put_in(
            counts_into(m, front),
            text_at_or(rows.last(), 0, seq![]),
            size_of(integer_at_or_zero(rows.last(), 1)),
            id,
        );
    }
}

/// Among all settings, a key has the value of the last pair with it, and none where there is no pair
/// with it.
pub proof fn lemma_last_setting_counts(items: Seq<(Seq<char>, Seq<char>)>, key: Seq<char>)
    ensures
        forall|k: int|
            0 <= k < items.len() && (#[trigger] items[k]).0 == key && (forall|j: int|
                k < j < items.len() ==> (#[trigger] items[j]).0 != key) ==> get_in(
                bound_pairs(items),
                key,
            ) == Some(items[k].1),
        (forall|k: int| 0 <= k < items.len() ==> (#[trigger] items[k]).0 != key) ==> get_in(
            bound_pairs(items),
            key,
        ) is None,
    decreases items.len(),
{
    if items.len() > 0 {
        let front = items.drop_last();
        let n = items.len() - 1;
        lemma_last_setting_counts(front, key);
        lemma_put_in(bound_pairs(front), items.last().0, items.last().1, key);
        assert(items[n] == items.last());
        assert(forall|j: int| 0 <= j < n ==> #[trigger] front[j] == items[j]);
        assert forall|k: int|
            0 <= k < items.len() && (#[trigger] items[k]).0 == key && (forall|j: int|
                k < j < items.len() ==> (#[trigger] items[j]).0 != key) implies get_in(
            bound_pairs(items),
            key,
        ) == Some(items[k].1) by {
            if k < n {
                assert(items[n].0 != key);
                assert(front[k].0 == key);
                assert(forall|j: int| k < j < front.len() ==> (#[trigger] front[j]).0 != key);
            }
        }
        if forall|k: int| 0 <= k < items.len() ==> (#[trigger] items[k]).0 != key {
            assert(forall|k: int| 0 <= k < front.len() ==> (#[trigger] front[k]).0 != key);
        }
    }
}

/// The counts of labels are read row by row.
pub proof fn lemma_label_counts_are_read(rows: Seq<Seq<SqlCell>>)
    requires
        forall|k: int|
            0 <= k < rows.len() ==> text_at(#[trigger] rows[k], 0) is Some
                && integer_at(rows[k], 1) is
                Some,
    ensures
        label_counts(rows).len() == rows.len(),
        forall|k: int|
            0 <= k < rows.len() ==> text_at(#[trigger] rows[k], 0) == Some(label_counts(rows)[k].0)
                && integer_at(rows[k], 1) == Some(label_counts(rows)[k].1),
    decreases rows.len(),
{
    if rows.len() > 0 {
        let front = rows.drop_last();
        assert(forall|j: int| 0 <= j < front.len() ==> #[trigger] rows[j] == front[j]);
        assert(rows[rows.len() - 1] == rows.last());
        assert forall|k: int| 0 <= k < front.len() implies text_at(#[trigger] front[k], 0) is Some
            && integer_at(front[k], 1) is Some by {
            assert(rows[k] == front[k]);
        }
        lemma_label_counts_are_read(front);
    }
}

/// Replacing the labels of an issue takes those it has and then writes each of the new ones, in their
/// order, and nothing else.
pub proof fn lemma_labels_are_replaced(issue_id: Seq<char>, labels: Seq<Seq<char>>)
    ensures
        replace_labels(issue_id, labels).len() == labels.len() + 1,
        drop_labels_removed(issue_id).is(replace_labels(issue_id, labels)[0]),
        forall|k: int|
            0 <= k < labels.len() ==> put_label_added(issue_id, #[trigger] labels[k]).is(
                replace_labels(issue_id, labels)[k + 1],
            ),
{
    lemma_drop_labels_removed_text(issue_id);
    assert forall|k: int| 0 <= k < labels.len() implies put_label_added(
        issue_id,
        #[trigger] labels[k],
    ).is(replace_labels(issue_id, labels)[k + 1]) by {
        lemma_put_label_added_text(issue_id, labels[k]);
    }
}

/// Export hashes are stored one by one: for each issue the old one goes and the new one comes.
pub proof fn lemma_hashes_are_stored(exports: Seq<(Seq<char>, Seq<char>)>, now: Instant)
    ensures
        hashes_statements(exports, now).len() == 2 * exports.len(),
        forall|k: int|
            0 <= k < exports.len() ==> drop_hash_removed(
                (#[trigger] exports[k]).0,
                exports[k].1,
                now,
            ).is(hashes_statements(exports, now)[2 * k]) && put_hash_entry(
                exports[k].0,
                exports[k].1,
                now,
            ).is(hashes_statements(exports, now)[2 * k + 1]),
    decreases exports.len(),
{
    if exports.len() > 0 {
        let front = exports.drop_last();
        let n = exports.len() - 1;
        lemma_hashes_are_stored(front, now);
        lemma_drop_hash_removed_text(exports.last().0, exports.last().1, now);
        lemma_put_hash_entry_text(exports.last().0, exports.last().1, now);
        assert forall|k: int| 0 <= k < exports.len() implies drop_hash_removed(
            (#[trigger] exports[k]).0,
            exports[k].1,
            now,
        ).is(hashes_statements(exports, now)[2 * k]) && put_hash_entry(
            exports[k].0,
            exports[k].1,
            now,
        ).is(hashes_statements(exports, now)[2 * k + 1]) by {
            if k < n {
                assert(front[k] == exports[k]);
                assert(hashes_statements(exports, now)[2 * k] == hashes_statements(front, now)[2
                    * k]);
                assert(hashes_statements(exports, now)[2 * k + 1] == hashes_statements(
                    front,
                    now,
                )[2 * k + 1]);
            }
        }
    }
}

/// A recorded change is the last event: on the issue, of the type and with the values given, by the
/// one who makes the change and at the time given. The events before it stay, and nothing else
/// changes.
pub proof fn lemma_change_is_recorded(
    ctx: MutationContextView,
    event_type: EventType,
    issue_id: Seq<char>,
    old_value: Option<Seq<char>>,
    new_value: Option<Seq<char>>,
    comment: Option<Seq<char>>,
    now: Instant,
)
    ensures
        ({
            let after = ctx.with_field_change(
                event_type,
                issue_id,
                old_value,
                new_value,
                comment,
                now,
            );
            let e = after.events.last();
            &&& after.events.drop_last() == ctx.events
            &&& after.dirty_ids == ctx.dirty_ids
            &&& after.actor == ctx.actor
            &&& after.invalidate_blocked_cache == ctx.invalidate_blocked_cache
            &&& e.issue_id == issue_id && e.event_type == event_type && e.actor == ctx.actor
            &&& e.old_value == old_value && e.new_value == new_value && e.comment == comment
            &&& e.created_at == now
        }),
        ctx.with_event(event_type, issue_id, comment, now) == ctx.with_field_change(
            event_type,
            issue_id,
            None,
            None,
            comment,
            now,
        ),
{
    let after = ctx.with_field_change(event_type, issue_id, old_value, new_value, comment, now);
    assert(after.events.drop_last() =~= ctx.events);
}

proof fn lemma_dirty_script(ids: Seq<Seq<char>>, now: Instant)
    ensures
        dirty_script(ids, now).len() == 2 * ids.len(),
        forall|k: int|
            0 <= k < ids.len() ==> drop_mark_removed(#[trigger] ids[k], now).is(
                dirty_script(ids, now)[2 * k],
            ) && put_dirty_mark(ids[k], now).is(dirty_script(ids, now)[2 * k + 1]),
    decreases ids.len(),
{
    if ids.len() > 0 {
        let front = ids.drop_last();
        let n = ids.len() - 1;
        lemma_dirty_script(front, now);
        lemma_drop_mark_removed_text(ids.last(), now);
        lemma_put_dirty_mark_text(ids.last(), now);
        assert forall|k: int| 0 <= k < ids.len() implies drop_mark_removed(
            #[trigger] ids[k],
            now,
        ).is(dirty_script(ids, now)[2 * k]) && put_dirty_mark(ids[k], now).is(
            dirty_script(ids, now)[2 * k + 1],
        ) by {
            if k < n {
                assert(front[k] == ids[k]);
                assert(dirty_script(ids, now)[2 * k] == dirty_script(front, now)[2 * k]);
                assert(dirty_script(ids, now)[2 * k + 1] == dirty_script(front, now)[2 * k + 1]);
            }
        }
    }
}

/// What a change records is written when it ends: every event, in order, and then for each changed
/// issue one dirty mark in place of those it has.
pub proof fn lemma_records_are_written(ctx: MutationContextView, now: Instant)
    ensures
        closing_script(ctx, now).len() == ctx.events.len() + 2 * ctx.dirty_ids.len(),
        forall|k: int|
            0 <= k < ctx.events.len() ==> put_event(#[trigger] ctx.events[k]).is(
                closing_script(ctx, now)[k],
            ),
        forall|k: int|
            0 <= k < ctx.dirty_ids.len() ==> drop_mark_removed(
                #[trigger] ctx.dirty_ids[k],
                now,
            ).is(closing_script(ctx, now)[ctx.events.len() + 2 * k]) && put_dirty_mark(
                ctx.dirty_ids[k],
                now,
            ).is(closing_script(ctx, now)[ctx.events.len() + 2 * k + 1]),
{
    lemma_dirty_script(ctx.dirty_ids, now);
    let n = ctx.events.len() as int;
    assert forall|k: int| 0 <= k < ctx.events.len() implies put_event(
        #[trigger] ctx.events[k],
    ).is(closing_script(ctx, now)[k]) by {
        lemma_put_event_text(ctx.events[k]);
    }
    assert forall|k: int| 0 <= k < ctx.dirty_ids.len() implies drop_mark_removed(
        #[trigger] ctx.dirty_ids[k],
        now,
    ).is(closing_script(ctx, now)[n + 2 * k]) && put_dirty_mark(ctx.dirty_ids[k], now).is(
        closing_script(ctx, now)[n + 2 * k + 1],
    ) by {
        assert(closing_script(ctx, now)[n + 2 * k] == dirty_script(ctx.dirty_ids, now)[2 * k]);
        assert(closing_script(ctx, now)[n + 2 * k + 1] == dirty_script(ctx.dirty_ids, now)[2 * k
            + 1]);
    }
}

/// All the issues given are dirty afterwards, besides those that were.
pub proof fn lemma_all_dirty(ctx: MutationContextView, ids: Seq<Seq<char>>)
    ensures
        forall|id: Seq<char>| #[trigger]
            all_dirty(ctx, ids).dirty_ids.contains(id) <==> ctx.dirty_ids.contains(id)
                || ids.contains(id),
        all_dirty(ctx, ids).events == ctx.events,
    decreases ids.len(),
{
    if ids.len() > 0 {
        let front = ids.drop_last();
        let before = all_dirty(ctx, front).dirty_ids;
        let after = all_dirty(ctx, ids).dirty_ids;
        lemma_all_dirty(ctx, front);
        assert forall|id: Seq<char>| #[trigger] after.contains(id) <==> ctx.dirty_ids.contains(id)
            || ids.contains(id) by {
            assert(after == insert_once(before, ids.last()));
            if before.contains(id) {
                let k = choose|k: int| 0 <= k < before.len() && before[k] == id;
                assert(after[k] == id);
            }
            if after.contains(id) && !before.contains(id) {
                let k = choose|k: int| 0 <= k < after.len() && after[k] == id;
                if k < before.len() {
                    assert(before[k] == id);
                }
                assert(id == ids.last());
                assert(ids[ids.len() - 1] == id);
            }
            if ids.contains(id) {
                let k = choose|k: int| 0 <= k < ids.len() && ids[k] == id;
                if k < front.len() {
                    assert(front[k] == id);
                } else if !before.contains(id) {
                    assert(after[before.len() as int] == id);
                }
            }
            if front.contains(id) {
                let k = choose|k: int| 0 <= k < front.len() && front[k] == id;
                assert(ids[k] == id);
            }
        }
    }
}

/// Creating an issue is refused where its ID is taken; otherwise its row is written first, and then
/// each of its labels.
pub proof fn lemma_creation_steps(issue: IssueView, actor: Seq<char>)
    ensures
        create_steps(issue, actor)[0] matches StepView::Refuse { query, .. }
            && ask_issue_id(issue.id).is(query),
        create_steps(issue, actor)[1] matches StepView::Run(s) && issue_insert(new_row(issue)).is(s),
        forall|k: int|
            0 <= k < issue.labels.len() ==> (create_steps(issue, actor)[k + 2] matches StepView::Run(
                s,
            ) && put_label_added(issue.id, #[trigger] issue.labels[k]).is(s)),
        forall|k: int|
            0 <= k < issue.comments.len() ==> (create_steps(issue, actor)[create_steps(
                issue,
                actor,
            ).len() - issue.comments.len() + k] matches StepView::Run(s) && put_new_comment(
                issue.id,
                #[trigger] issue.comments[k],
            ).is(s)),
{
    let steps = create_steps(issue, actor);
    let n = steps.len() - issue.comments.len();
    lemma_ask_issue_id_text(issue.id);
    lemma_written_columns_are_read(new_row(issue));
    assert forall|k: int| 0 <= k < issue.labels.len() implies (steps[k + 2] matches StepView::Run(s)
        && put_label_added(issue.id, #[trigger] issue.labels[k]).is(s)) by {
        lemma_put_label_added_text(issue.id, issue.labels[k]);
        assert(steps[k + 2] == labels_steps(issue.id, issue.labels)[k]);
    }
    assert forall|k: int| 0 <= k < issue.comments.len() implies (steps[n + k] matches StepView::Run(
        s,
    ) && put_new_comment(issue.id, #[trigger] issue.comments[k]).is(s)) by {
        lemma_put_new_comment_text(issue.id, issue.comments[k]);
        assert(steps[n + k] == comments_steps(issue.id, issue.comments)[k]);
    }
}

/// Each dependency of a new issue is written, in order, after a check where it can block.
pub proof fn lemma_creation_links(
    id: Seq<char>,
    deps: Seq<DependencyView>,
    actor: Seq<char>,
    k: int,
)
    requires
        0 <= k < deps.len(),
    ensures
        exists|j: int|
            0 <= j < dependencies_steps(id, deps, actor).len() && (#[trigger] dependencies_steps(
                id,
                deps,
                actor,
            )[j] matches StepView::Run(s) && put_new_dependency(id, deps[k], actor).is(s)),
        deps[k].dep_type.blocking() ==> exists|j: int|
            0 <= j < dependencies_steps(id, deps, actor).len()
                && match #[trigger] dependencies_steps(
                id,
                deps,
                actor,
            )[j] {
                StepView::Refuse { query, .. } => query == cycle_statement(
                    id,
                    deps[k].depends_on_id,
                    true,
                ),
                StepView::Stop { .. } => id == deps[k].depends_on_id,
                _ => false,
            },
    decreases deps.len(),
{
    let all = dependencies_steps(id, deps, actor);
    let front = dependencies_steps(id, deps.drop_last(), actor);
    let own = dependency_steps(id, deps.last(), actor);
    assert(all == front + own);
    if k == deps.len() - 1 {
        lemma_put_new_dependency_text(id, deps[k], actor);
        let j = all.len() - 1;
        assert(all[j] == own.last());
        assert(own.len() > 0);
        assert(all[j] matches StepView::Run(s) && put_new_dependency(id, deps[k], actor).is(s));
        if deps[k].dep_type.blocking() {
            let i = front.len() as int;
            assert(all[i] == own[0]);
        }
    } else {
        assert(deps.drop_last()[k] == deps[k]);
        lemma_creation_links(id, deps.drop_last(), actor, k);
        let j = choose|j: int|
            0 <= j < front.len() && (#[trigger] front[j] matches StepView::Run(s)
                && put_new_dependency(id, deps[k], actor).is(s));
        assert(all[j] == front[j]);
        if deps[k].dep_type.blocking() {
            let i = choose|i: int|
                0 <= i < front.len() && match #[trigger] front[i] {
                    StepView::Refuse { query, .. } => query == cycle_statement(
                        id,
                        deps[k].depends_on_id,
                        true,
                    ),
                    StepView::Stop { .. } => id == deps[k].depends_on_id,
                    _ => false,
                };
            assert(all[i] == front[i]);
        }
    }
}

proof fn lemma_label_records(
    ctx: MutationContextView,
    id: Seq<char>,
    labels: Seq<Seq<char>>,
    now: Instant,
)
    ensures
        ({
            let after = labels_records(ctx, id, labels, now);
            &&& after.events.len() == ctx.events.len() + labels.len()
            &&& after.actor == ctx.actor
            &&& after.dirty_ids == ctx.dirty_ids
            &&& after.invalidate_blocked_cache == ctx.invalidate_blocked_cache
            &&& after.events.take(ctx.events.len() as int) == ctx.events
            &&& forall|k: int|
                0 <= k < labels.len() ==> (#[trigger] after.events[ctx.events.len() + k]).event_type
                    is LabelAdded
        }),
    decreases labels.len(),
{
    if labels.len() > 0 {
        lemma_label_records(ctx, id, labels.drop_last(), now);
    }
    assert(labels_records(ctx, id, labels, now).events.take(ctx.events.len() as int)
        =~= ctx.events);
}

proof fn lemma_link_records(
    ctx: MutationContextView,
    id: Seq<char>,
    deps: Seq<DependencyView>,
    now: Instant,
)
    ensures
        ({
            let after = dependencies_records(ctx, id, deps, now);
            &&& after.events.len() == ctx.events.len() + deps.len()
            &&& after.actor == ctx.actor
            &&& after.dirty_ids == ctx.dirty_ids
            &&& after.invalidate_blocked_cache == (ctx.invalidate_blocked_cache || deps.len() > 0)
            &&& after.events.take(ctx.events.len() as int) == ctx.events
            &&& forall|k: int|
                0 <= k < deps.len() ==> (#[trigger] after.events[ctx.events.len() + k]).event_type
                    is DependencyAdded
        }),
    decreases deps.len(),
{
    if deps.len() > 0 {
        lemma_link_records(ctx, id, deps.drop_last(), now);
    }
    assert(dependencies_records(ctx, id, deps, now).events.take(ctx.events.len() as int)
        =~= ctx.events);
}

proof fn lemma_comment_records(
    ctx: MutationContextView,
    id: Seq<char>,
    comments: Seq<CommentView>,
    now: Instant,
)
    ensures
        ({
            let after = comments_records(ctx, id, comments, now);
            &&& after.events.len() == ctx.events.len() + comments.len()
            &&& after.actor == ctx.actor
            &&& after.dirty_ids == ctx.dirty_ids
            &&& after.invalidate_blocked_cache == ctx.invalidate_blocked_cache
            &&& after.events.take(ctx.events.len() as int) == ctx.events
            &&& forall|k: int|
                0 <= k < comments.len() ==> (#[trigger] after.events[ctx.events.len()
                    + k]).event_type is Commented && after.events[ctx.events.len() + k].comment
                    == Some(comments[k].body)
        }),
    decreases comments.len(),
{
    if comments.len() > 0 {
        let front = comments.drop_last();
        lemma_comment_records(ctx, id, front, now);
        assert(forall|k: int| 0 <= k < front.len() ==> front[k] == comments[k]);
    }
    assert(comments_records(ctx, id, comments, now).events.take(ctx.events.len() as int)
        =~= ctx.events);
}

/// Creating an issue records one event for each label, dependency and comment, in this order, and
/// last the creation itself, by the one who creates it; the issue is dirty afterwards, and the cache
/// of blocked issues is stale where the issue has dependencies.
pub proof fn lemma_creation_is_recorded(ctx: MutationContextView, issue: IssueView, now: Instant)
    ensures
        ({
            let after = create_records(ctx, issue, now);
            let n = ctx.events.len() as int;
            let a = n + issue.labels.len();
            let b = a + issue.dependencies.len();
            let c = b + issue.comments.len();
            &&& after.events.len() == c + 1
            &&& after.events.take(n) == ctx.events
            &&& forall|k: int|
                n <= k < a ==> (#[trigger] after.events[k]).event_type is LabelAdded
            &&& forall|k: int|
                a <= k < b ==> (#[trigger] after.events[k]).event_type is DependencyAdded
            &&& forall|k: int| b <= k < c ==> (#[trigger] after.events[k]).event_type is Commented
            &&& after.events[c].event_type is Created
            &&& after.events[c].issue_id == issue.id
            &&& after.events[c].actor == ctx.actor
            &&& after.events[c].created_at == now
            &&& after.dirty_ids.contains(issue.id)
            &&& after.invalidate_blocked_cache == (ctx.invalidate_blocked_cache
                || issue.dependencies.len() > 0)
        }),
{
    let n = ctx.events.len() as int;
    let c1 = labels_records(ctx, issue.id, issue.labels, now);
    let c2 = dependencies_records(c1, issue.id, issue.dependencies, now);
    let c3 = comments_records(c2, issue.id, issue.comments, now);
    let after = create_records(ctx, issue, now);
    lemma_label_records(ctx, issue.id, issue.labels, now);
    lemma_link_records(c1, issue.id, issue.dependencies, now);
    lemma_comment_records(c2, issue.id, issue.comments, now);
    let a = c1.events.len() as int;
    let b = c2.events.len() as int;
    let c = c3.events.len() as int;
    assert forall|k: int| 0 <= k < c implies #[trigger] after.events[k] == c3.events[k] by {}
    assert forall|k: int| 0 <= k < b implies #[trigger] c3.events[k] == c2.events[k] by {
        assert(c3.events.take(b)[k] == c2.events[k]);
    }
    assert forall|k: int| 0 <= k < a implies #[trigger] c2.events[k] == c1.events[k] by {
        assert(c2.events.take(a)[k] == c1.events[k]);
    }
    assert forall|k: int| 0 <= k < n implies #[trigger] c1.events[k] == ctx.events[k] by {
        assert(c1.events.take(n)[k] == ctx.events[k]);
    }
    assert(after.events.take(n) =~= ctx.events);
    assert forall|k: int| n <= k < a implies (#[trigger] after.events[k]).event_type is LabelAdded by {
        assert(c1.events[n + (k - n)].event_type is LabelAdded);
    }
    assert forall|k: int| a <= k < b implies (#[trigger] after.events[k]).event_type
        is DependencyAdded by {
        assert(c2.events[a + (k - a)].event_type is DependencyAdded);
    }
    assert forall|k: int| b <= k < c implies (#[trigger] after.events[k]).event_type is Commented by {
        assert(c3.events[b + (k - b)].event_type is Commented);
    }
    let ids = c3.with_event(
        EventType::Created,
        issue.id,
        Some("Created issue: "@ + issue.title),
        now,
    ).dirty_ids;
    if ids.contains(issue.id) {
        assert(insert_once(ids, issue.id) == ids);
    } else {
        assert(insert_once(ids, issue.id)[ids.len() as int] == issue.id);
    }
}

/// An update records the change of each field that it is to record with the old and the new value:
/// the title where it is given, the status where it is given, the priority and the assignee where
/// they change. All of it is on the issue, by the one who makes the change; the issue is dirty
/// afterwards.
pub proof fn lemma_update_is_recorded(
    ctx: MutationContextView,
    id: Seq<char>,
    issue: IssueView,
    u: IssueUpdateView,
    now: Instant,
)
    ensures
        ({
            let after = update_records(ctx, id, issue, u, now);
            let n = ctx.events.len() as int;
            let changed = |t: EventType, a: Option<Seq<char>>, b: Option<Seq<char>>|
                exists|k: int|
                    n <= k < after.events.len() && (#[trigger] after.events[k]).event_type == t
                        && after.events[k].old_value == a && after.events[k].new_value == b;
            &&& after.events.len() >= n
            &&& forall|k: int| 0 <= k < n ==> #[trigger] after.events[k] == ctx.events[k]
            &&& forall|k: int|
                n <= k < after.events.len() ==> (#[trigger] after.events[k]).issue_id == id
                    && after.events[k].actor == ctx.actor && after.events[k].created_at == now
            &&& u.title matches Some(title) ==> changed(
                EventType::Updated,
                Some(issue.title),
                Some(title),
            )
            &&& u.status matches Some(status) ==> changed(
                EventType::StatusChanged,
                Some(issue.status.name()),
                Some(status.name()),
            )
            &&& u.priority matches Some(priority) ==> (priority != issue.priority ==> changed(
                EventType::PriorityChanged,
                Some(signed_decimal(issue.priority as int)),
                Some(signed_decimal(priority as int)),
            ))
            &&& u.assignee matches Some(assignee) ==> (assignee != issue.assignee ==> changed(
                EventType::AssigneeChanged,
                issue.assignee,
                assignee,
            ))
            &&& (exists|k: int|
                n <= k < after.events.len() && (#[trigger] after.events[k]).event_type
                    is PriorityChanged) ==> u.priority is Some && u.priority->0 != issue.priority
            &&& (exists|k: int|
                n <= k < after.events.len() && (#[trigger] after.events[k]).event_type
                    is AssigneeChanged) ==> u.assignee is Some && u.assignee->0 != issue.assignee
            &&& (exists|k: int|
                n <= k < after.events.len() && (#[trigger] after.events[k]).event_type is Closed)
                <==> u.status == Some(StatusView::Closed)
            &&& after.dirty_ids.contains(id)
            &&& after.invalidate_blocked_cache == (ctx.invalidate_blocked_cache || (u.status is Some
                && !u.skip_cache_rebuild))
        }),
{
    let after = update_records(ctx, id, issue, u, now);
    let n = ctx.events.len() as int;
    let t: int = if u.title is Some {
        1
    } else {
        0
    };
    let s: int = if u.status is Some {
        if u.status->0 is Closed {
            2
        } else {
            1
        }
    } else {
        0
    };
    let p: int = if u.priority is Some && u.priority->0 != issue.priority {
        1
    } else {
        0
    };
    let a: int = if u.assignee is Some && u.assignee->0 != issue.assignee {
        1
    } else {
        0
    };
    assert(after.events.len() == n + t + s + p + a);
    if t == 1 {
        assert(after.events[n].event_type is Updated);
    }
    if s >= 1 {
        assert(after.events[n + t].event_type is StatusChanged);
    }
    if s == 2 {
        assert(after.events[n + t + 1].event_type is Closed);
    }
    if p == 1 {
        assert(after.events[n + t + s].event_type is PriorityChanged);
    }
    if a == 1 {
        assert(after.events[n + t + s + p].event_type is AssigneeChanged);
    }
    let ids = ctx.dirty_ids;
    if ids.contains(id) {
        assert(insert_once(ids, id) == ids);
    } else {
        assert(insert_once(ids, id)[ids.len() as int] == id);
    }
}

/// A claim is refused exactly where the issue is held, by another than the claimant or by anyone for
/// an exclusive claim; a holder that is blank is none.
pub proof fn lemma_claims(u: IssueUpdateView, id: Seq<char>, current: Option<Seq<char>>)
    ensures
        !u.expect_unassigned ==> claim_outcome(u, id, current) is Ok,
        current is None ==> claim_outcome(u, id, current) is Ok,
        current matches Some(holder) ==> (claim_outcome(u, id, current) is Err) == (
        u.expect_unassigned && trimmed(holder).len() > 0 && (u.claim_exclusive || u.claim_actor
            != Some(trimmed(holder)))),
{
    reveal_strlit("");
    assert(""@.len() == 0);
}

/// The capabilities that labels provide are exactly those behind the prefix for them.
pub proof fn lemma_provided(labels: Seq<Seq<char>>)
    ensures
        forall|c: Seq<char>| #[trigger]
            provided(labels).contains(c) <==> labels.contains("provides:"@ + c),
    decreases labels.len(),
{
    if labels.len() > 0 {
        let front = labels.drop_last();
        let prefix = "provides:"@;
        let before = provided(front);
        let after = provided(labels);
        lemma_provided(front);
        assert forall|c: Seq<char>| #[trigger] after.contains(c) <==> labels.contains(
            prefix + c,
        ) by {
            assert((prefix + c).take(prefix.len() as int) =~= prefix);
            assert((prefix + c).skip(prefix.len() as int) =~= c);
            match behind_prefix(labels.last(), prefix) {
                Some(x) => {
                    assert(labels.last() =~= prefix + x);
                    lemma_inserted(before, x, c);
                },
                None => {},
            }
            lemma_last_or_front(labels, prefix + c);
            if labels.last() == prefix + c {
                assert(behind_prefix(labels.last(), prefix) == Some(c));
            }
        }
    } else {
        assert forall|c: Seq<char>| #[trigger] provided(labels).contains(c) <==> labels.contains(
            "provides:"@ + c,
        ) by {}
    }
}

proof fn lemma_inserted(s: Seq<Seq<char>>, x: Seq<char>, t: Seq<char>)
    ensures
        insert_once(s, x).contains(t) <==> s.contains(t) || t == x,
{
    let r = insert_once(s, x);
    if s.contains(t) {
        let k = choose|k: int| 0 <= k < s.len() && s[k] == t;
        assert(r[k] == t);
    }
    if !s.contains(x) {
        assert(r[s.len() as int] == x);
    }
    if r.contains(t) {
        let k = choose|k: int| 0 <= k < r.len() && r[k] == t;
        if k < s.len() {
            assert(s[k] == t);
        }
    }
}

proof fn lemma_last_or_front<T>(s: Seq<T>, t: T)
    requires
        s.len() > 0,
    ensures
        s.contains(t) <==> s.drop_last().contains(t) || s.last() == t,
{
    if s.contains(t) {
        let k = choose|k: int| 0 <= k < s.len() && s[k] == t;
        if k < s.len() - 1 {
            assert(s.drop_last()[k] == t);
        }
    }
    if s.drop_last().contains(t) {
        let k = choose|k: int| 0 <= k < s.len() - 1 && s.drop_last()[k] == t;
        assert(s[k] == t);
    }
    assert(s[s.len() - 1] == s.last());
}

/// The capabilities that are wanted of a project are exactly those that a dependency on another
/// project names with it.
pub proof fn lemma_wanted(ids: Seq<Seq<char>>, project: Seq<char>, capability: Seq<char>)
    ensures
        list_of(get_in(wanted(ids), project)).contains(capability) <==> exists|k: int|
            0 <= k < ids.len() && names_capability(#[trigger] ids[k], project, capability),
    decreases ids.len(),
{
    if ids.len() > 0 {
        let front = ids.drop_last();
        let n = ids.len() - 1;
        lemma_wanted(front, project, capability);
        assert(ids[n] == ids.last());
        assert(forall|k: int| 0 <= k < n ==> #[trigger] ids[k] == front[k]);
        match capability_of(ids.last()) {
            Some((p, c)) => {
                let list = list_of(get_in(wanted(front), p));
                assert(names_capability(ids.last(), p, c));
                lemma_put_in(wanted(front), p, insert_once(list, c), project);
                lemma_inserted(list, c, capability);
                if names_capability(ids.last(), project, capability) {
                    lemma_names_one_capability(ids.last(), p, c, project, capability);
                }
            },
            None => {
                assert(!names_capability(ids.last(), project, capability));
            },
        }
        if exists|k: int|
            0 <= k < front.len() && names_capability(#[trigger] front[k], project, capability) {
            let k = choose|k: int|
                0 <= k < front.len() && names_capability(#[trigger] front[k], project, capability);
            assert(names_capability(ids[k], project, capability));
        }
        if exists|k: int|
            0 <= k < ids.len() && names_capability(#[trigger] ids[k], project, capability) {
            let k = choose|k: int|
                0 <= k < ids.len() && names_capability(#[trigger] ids[k], project, capability);
            if k < n {
                assert(names_capability(front[k], project, capability));
            }
        }
    }
}

/// The dependencies on other projects that are not satisfied are exactly those whose status is not
/// known to be satisfied, each with the mark of being blocked.
pub proof fn lemma_unsatisfied(
    links: Seq<(Seq<char>, Seq<char>)>,
    statuses: Seq<(Seq<char>, bool)>,
    issue: Seq<char>,
    mark: Seq<char>,
)
    ensures
        unsatisfied(links, statuses).contains((issue, mark)) <==> exists|k: int|
            0 <= k < links.len() && (#[trigger] links[k]).0 == issue && links[k].1 + ":blocked"@
                == mark && get_in(statuses, links[k].1) != Some(true),
    decreases links.len(),
{
    if links.len() > 0 {
        let front = links.drop_last();
        let n = links.len() - 1;
        let before = unsatisfied(front, statuses);
        let after = unsatisfied(links, statuses);
        lemma_unsatisfied(front, statuses, issue, mark);
        assert(links[n] == links.last());
        assert(forall|k: int| 0 <= k < n ==> #[trigger] links[k] == front[k]);
        if get_in(statuses, links.last().1) != Some(true) {
            lemma_last_or_front(after, (issue, mark));
            assert(after.drop_last() =~= before);
        }
        if exists|k: int|
            0 <= k < front.len() && (#[trigger] front[k]).0 == issue && front[k].1 + ":blocked"@
                == mark && get_in(statuses, front[k].1) != Some(true) {
            let k = choose|k: int|
                0 <= k < front.len() && (#[trigger] front[k]).0 == issue && front[k].1
                    + ":blocked"@ == mark && get_in(statuses, front[k].1) != Some(true);
            assert(links[k].0 == issue);
        }
        if exists|k: int|
            0 <= k < links.len() && (#[trigger] links[k]).0 == issue && links[k].1 + ":blocked"@
                == mark && get_in(statuses, links[k].1) != Some(true) {
            let k = choose|k: int|
                0 <= k < links.len() && (#[trigger] links[k]).0 == issue && links[k].1
                    + ":blocked"@ == mark && get_in(statuses, links[k].1) != Some(true);
            if k < n {
                assert(front[k].0 == issue);
            }
        }
    }
}

/// A report of closing holds, whatever its form, every issue that was closed and, unless the bare form
/// says that there is none, every one that was skipped; the issue touched last is the one closed last;
/// and the command fails exactly where nothing was closed and something was skipped.
pub proof fn lemma_close_report(
    suggest_next: bool,
    structured: bool,
    mode: OutputMode,
    closed: Seq<ClosedIssueView>,
    skipped: Seq<SkippedIssueView>,
    unblocked: Seq<UnblockedIssueView>,
)
    ensures
        ({
            let report = report_of(suggest_next, structured, mode, closed, skipped, unblocked);
            &&& report.failure is Some <==> closed.len() == 0 && skipped.len() > 0
            &&& closed.len() > 0 ==> report.last_touched == Some(closed.last().id)
            &&& closed.len() == 0 ==> report.last_touched is None
            &&& report.output is Structured <==> structured
            &&& report.output matches CloseOutputView::Structured(p, c) ==> {
                &&& match p {
                    ClosePayloadView::Bare(list) => list == closed && skipped.len() == 0
                        && !suggest_next,
                    ClosePayloadView::Wrapped(all) => all.closed == closed && all.skipped == skipped
                        && !suggest_next,
                    ClosePayloadView::Suggesting(all) => all.closed == closed && all.skipped
                        == skipped && all.unblocked == unblocked && suggest_next,
                }
                &&& c is Toon <==> mode.is_toon
                &&& c is Json <==> mode.is_json && !mode.is_toon
            }
            &&& report.output matches CloseOutputView::Lines(list) ==> list.len()
                == (if closed.len()
                == 0 && skipped.len() == 0 {
                1nat
            } else {
                closed.len() + skipped.len() + if unblocked.len() > 0 {
                    unblocked.len() + 2
                } else {
                    0nat
                }
            })
        }),
{
}

/// An update sets exactly the fields that it gives, each to the value given; the others stay as they
/// are, but for the closing date, which follows the status.
pub proof fn lemma_update_sets_given_fields(issue: IssueView, u: IssueUpdateView, now: Instant)
    ensures
        ({
            let after = updated(issue, u, now);
            &&& after.title == (if u.title is Some {
                u.title->0
            } else {
                issue.title
            })
            &&& after.description == (if u.description is Some {
                u.description->0
            } else {
                issue.description
            })
            &&& after.design == (if u.design is Some {
                u.design->0
            } else {
                issue.design
            })
            &&& after.acceptance_criteria == (if u.acceptance_criteria is Some {
                u.acceptance_criteria->0
            } else {
                issue.acceptance_criteria
            })
            &&& after.notes == (if u.notes is Some {
                u.notes->0
            } else {
                issue.notes
            })
            &&& after.status == (if u.status is Some {
                u.status->0
            } else {
                issue.status
            })
            &&& after.priority == (if u.priority is Some {
                u.priority->0
            } else {
                issue.priority
            })
            &&& after.issue_type == (if u.issue_type is Some {
                u.issue_type->0
            } else {
                issue.issue_type
            })
            &&& after.assignee == (if u.assignee is Some {
                u.assignee->0
            } else {
                issue.assignee
            })
            &&& after.owner == (if u.owner is Some {
                u.owner->0
            } else {
                issue.owner
            })
            &&& after.estimated_minutes == (if u.estimated_minutes is Some {
                u.estimated_minutes->0
            } else {
                issue.estimated_minutes
            })
            &&& after.external_ref == (if u.external_ref is Some {
                u.external_ref->0
            } else {
                issue.external_ref
            })
            &&& after.close_reason == (if u.close_reason is Some {
                u.close_reason->0
            } else {
                issue.close_reason
            })
            &&& after.closed_by_session == (if u.closed_by_session is Some {
                u.closed_by_session->0
            } else {
                issue.closed_by_session
            })
            &&& after.deleted_at == (if u.deleted_at is Some {
                u.deleted_at->0
            } else {
                issue.deleted_at
            })
            &&& after.deleted_by == (if u.deleted_by is Some {
                u.deleted_by->0
            } else {
                issue.deleted_by
            })
            &&& after.delete_reason == (if u.delete_reason is Some {
                u.delete_reason->0
            } else {
                issue.delete_reason
            })
            &&& after.due_at == (if u.due_at is Some {
                u.due_at->0
            } else {
                issue.due_at
            })
            &&& after.defer_until == (if u.defer_until is Some {
                u.defer_until->0
            } else {
                issue.defer_until
            })
            &&& u.closed_at matches Some(v) ==> after.closed_at == v
            &&& u.closed_at is None && u.status is None ==> after.closed_at == issue.closed_at
            &&& u.closed_at is None && u.status is Some ==> after.closed_at == (if !(u.status->0
                is Closed) {
                None
            } else if issue.closed_at is Some {
                issue.closed_at
            } else {
                Some(now)
            })
            &&& after.id == issue.id && after.created_at == issue.created_at && after.created_by
                == issue.created_by
            &&& after.labels == issue.labels && after.dependencies == issue.dependencies
                && after.comments == issue.comments
        }),
{
}

/// Closing an issue leaves it closed, with the date of closing, the reason that was given or else the
/// usual one, and the session where there is one; its title, description, priority, type, assignee
/// and owner stay.
pub proof fn lemma_closing_closes(
    issue: IssueView,
    args: CloseArgsView,
    now: Instant,
    hash: Seq<char>,
)
    ensures
        ({
            let after = stored_update(issue, close_update(args, now), now, hash);
            &&& after.status is Closed
            &&& after.closed_at == Some(now)
            &&& after.updated_at == now
            &&& args.reason matches Some(reason) ==> (reason.len() > 0 ==> after.close_reason
                == Some(reason))
            &&& args.reason is None ==> after.close_reason is Some
            &&& args.session matches Some(session) ==> (session.len() > 0
                ==> after.closed_by_session == Some(session))
            &&& after.id == issue.id && after.title == issue.title && after.priority
                == issue.priority && after.issue_type == issue.issue_type
            &&& after.description == non_empty(issue.description) && after.assignee == non_empty(
                issue.assignee,
            ) && after.owner == non_empty(issue.owner)
            &&& after.created_at == issue.created_at && after.deleted_at == issue.deleted_at
        }),
{
    lemma_status_reads_back(StatusView::Closed);
    reveal_strlit("done");
    assert("done"@.len() == 4);
}

/// A list is parted by a set without loss: what is in the set and what is not.
pub proof fn lemma_parted(list: Seq<Seq<char>>, set: Set<Seq<char>>)
    ensures
        within(list, set) == list.filter(|x: Seq<char>| set.contains(x)),
        beyond(list, set) == list.filter(|x: Seq<char>| !set.contains(x)),
        within(list, set).len() + beyond(list, set).len() == list.len(),
    decreases list.len(),
{
    reveal(Seq::filter);
    if list.len() > 0 {
        lemma_parted(list.drop_last(), set);
    }
}

/// No two kinds of events are stored under the same name.
pub proof fn lemma_event_names_differ(a: EventType, b: EventType)
    requires
        a.name() == b.name(),
    ensures
        a == b,
{
    reveal_strlit("created");
    reveal_strlit("updated");
    reveal_strlit("status_changed");
    reveal_strlit("priority_changed");
    reveal_strlit("assignee_changed");
    reveal_strlit("commented");
    reveal_strlit("closed");
    reveal_strlit("reopened");
    reveal_strlit("dependency_added");
    reveal_strlit("dependency_removed");
    reveal_strlit("label_added");
    reveal_strlit("label_removed");
    reveal_strlit("deleted");
    assert("created"@.len() == 7 && "created"@[0] == 'c');
    assert("updated"@.len() == 7 && "updated"@[0] == 'u');
    assert("status_changed"@.len() == 14 && "status_changed"@[0] == 's');
    assert("priority_changed"@.len() == 16 && "priority_changed"@[0] == 'p');
    assert("assignee_changed"@.len() == 16 && "assignee_changed"@[0] == 'a');
    assert("commented"@.len() == 9 && "commented"@[0] == 'c');
    assert("closed"@.len() == 6 && "closed"@[0] == 'c');
    assert("reopened"@.len() == 8 && "reopened"@[0] == 'r');
    assert("dependency_added"@.len() == 16 && "dependency_added"@[0] == 'd');
    assert("dependency_removed"@.len() == 18 && "dependency_removed"@[0] == 'd');
    assert("label_added"@.len() == 11 && "label_added"@[0] == 'l');
    assert("label_removed"@.len() == 13 && "label_removed"@[0] == 'l');
    assert("deleted"@.len() == 7 && "deleted"@[0] == 'd');
}

} // verus!
