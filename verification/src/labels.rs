//! Labels of issues.

use crate::assoc::TextMap;
use crate::chunk::list_texts_in_runs;
use crate::clock::Timestamp;
use crate::external::distinct_texts;
use crate::links::{counts_any, touch};
use crate::model::EventType;
use crate::mutation::MutationContext;
use crate::scan::write_decimal;
use crate::sql::{text_pairs, texts_in_column, Row, Statement};
use crate::text::{holds, join_texts, joined, joined3, same_text};
use vstd::prelude::*;

verus! {

use crate::assoc::{append_in, grouped};
use crate::chunk::list_statements;
use crate::clock::Instant;
use crate::external::{distinct, lemma_distinct};
use crate::links::{all_dirty, touch_all, touch_statement};
use crate::mutation::MutationContextView;
use crate::scan::decimal;
use crate::sql::{
    column_texts,
    integer_at,
    integer_at_or_zero,
    pairs,
    stmt,
    text_at,
    SqlCell,
    StatementView,
};
use crate::text::join;

/// Query for how often a label is on an issue.
pub fn label_count_query(issue_id: &str, label: &str) -> (r: Statement)
    ensures
        r.deep_view() == stmt(
            "SELECT count(*) FROM labels WHERE issue_id = ? AND label = ?"@,
            seq![SqlCell::Text(issue_id@), SqlCell::Text(label@)],
        ),
        crate::asked::ask_label_total(issue_id@, label@).is(r.deep_view()),
{
    proof {
        crate::asked::lemma_ask_label_total_text(issue_id@, label@);
    }
    Statement::with_texts2(
        "SELECT count(*) FROM labels WHERE issue_id = ? AND label = ?",
        issue_id,
        label,
    )
}

/// The statement that puts a label on an issue.
pub open spec fn label_insert(issue_id: Seq<char>, label: Seq<char>) -> StatementView {
    stmt(
        "INSERT INTO labels (issue_id, label) VALUES (?, ?)"@,
        seq![SqlCell::Text(issue_id), SqlCell::Text(label)],
    )
}

fn insert_label(issue_id: &str, label: &str) -> (r: Statement)
    ensures
        r.deep_view() == label_insert(issue_id@, label@),
{
    Statement::with_texts2("INSERT INTO labels (issue_id, label) VALUES (?, ?)", issue_id, label)
}

/// Add a label to an issue, given the row that counts how often it has the label.
///
/// Returns the statements to execute, `None` where the issue has the label already.
pub fn add_label(
    existing: &Row,
    issue_id: &str,
    label: &str,
    ctx: &mut MutationContext,
    now: Timestamp,
) -> (r: Option<(Statement, Statement)>)
    ensures
        integer_at_or_zero(existing.deep_view(), 0) > 0 ==> r is None && final(ctx).deep_view()
            == old(ctx).deep_view(),
        integer_at_or_zero(existing.deep_view(), 0) <= 0 ==> {
            &&& r.deep_view() == Some(
                (label_insert(issue_id@, label@), touch_statement(issue_id@, now.deep_view())),
            )
            &&& final(ctx).deep_view() == old(ctx).deep_view().with_event(
                EventType::LabelAdded,
                issue_id@,
                Some("Added label "@ + label@),
                now.deep_view(),
            ).with_dirty(issue_id@)
        },
        r is Some ==> crate::mutation::recorded(
            old(ctx).deep_view(),
            final(ctx).deep_view(),
            EventType::LabelAdded,
            issue_id@,
            now.deep_view(),
        ),
{
    proof {
        crate::mutation::lemma_recorded(
            old(ctx).deep_view(),
            EventType::LabelAdded,
            issue_id@,
            Some("Added label "@ + label@),
            now.deep_view(),
        );
    }
    if counts_any(existing) {
        return None;
    }
    ctx.record_event(EventType::LabelAdded, issue_id, Some(joined("Added label ", label)), now);
    ctx.mark_dirty(issue_id);
    Some((insert_label(issue_id, label), touch(issue_id, now)))
}

/// The statement that takes a label off an issue.
pub open spec fn label_delete(issue_id: Seq<char>, label: Seq<char>) -> StatementView {
    stmt(
        "DELETE FROM labels WHERE issue_id = ? AND label = ?"@,
        seq![SqlCell::Text(issue_id), SqlCell::Text(label)],
    )
}

/// Statement that removes a label from an issue.
pub fn remove_label(issue_id: &str, label: &str) -> (r: Statement)
    ensures
        r.deep_view() == label_delete(issue_id@, label@),
{
    Statement::with_texts2("DELETE FROM labels WHERE issue_id = ? AND label = ?", issue_id, label)
}

/// The statement that takes all labels off an issue.
pub open spec fn labels_delete(issue_id: Seq<char>) -> StatementView {
    stmt("DELETE FROM labels WHERE issue_id = ?"@, seq![SqlCell::Text(issue_id)])
}

/// Statement that removes all labels from an issue.
pub fn remove_all_labels(issue_id: &str) -> (r: Statement)
    ensures
        r.deep_view() == labels_delete(issue_id@),
{
    Statement::with_text("DELETE FROM labels WHERE issue_id = ?", issue_id)
}

/// What is left to do once labels have been removed, given how many went: nothing where none did.
pub fn labels_removed(
    removed: usize,
    issue_id: &str,
    note: String,
    ctx: &mut MutationContext,
    now: Timestamp,
) -> (r: Option<Statement>)
    ensures
        removed == 0 ==> r is None && final(ctx).deep_view() == old(ctx).deep_view(),
        removed > 0 ==> {
            &&& r.deep_view() == Some(touch_statement(issue_id@, now.deep_view()))
            &&& final(ctx).deep_view() == old(ctx).deep_view().with_event(
                EventType::LabelRemoved,
                issue_id@,
                Some(note@),
                now.deep_view(),
            ).with_dirty(issue_id@)
        },
        removed > 0 ==> crate::mutation::recorded(
            old(ctx).deep_view(),
            final(ctx).deep_view(),
            EventType::LabelRemoved,
            issue_id@,
            now.deep_view(),
        ),
{
    proof {
        crate::mutation::lemma_recorded(
            old(ctx).deep_view(),
            EventType::LabelRemoved,
            issue_id@,
            Some(note@),
            now.deep_view(),
        );
    }
    if removed == 0 {
        return None;
    }
    ctx.record_event(EventType::LabelRemoved, issue_id, Some(note), now);
    ctx.mark_dirty(issue_id);
    Some(touch(issue_id, now))
}

/// What is said of one removed label.
pub fn note_removed_label(label: &str) -> (r: String)
    ensures
        r@ == "Removed label "@ + label@,
{
    joined("Removed label ", label)
}

/// What is said of several removed labels.
pub fn note_removed_labels(removed: usize) -> (r: String)
    ensures
        r@ == "Removed "@ + decimal(removed as nat) + " labels"@,
{
    joined3("Removed ", write_decimal(removed as u64).as_str(), " labels")
}

/// The texts of `s` that are not in `t`, in their order.
pub open spec fn not_in(s: Seq<Seq<char>>, t: Seq<Seq<char>>) -> Seq<Seq<char>>
    decreases s.len(),
{
    if s.len() == 0 {
        seq![]
    } else if t.contains(s.last()) {
        not_in(s.drop_last(), t)
    } else {
        not_in(s.drop_last(), t).push(s.last())
    }
}

fn leave_out(s: &Vec<String>, t: &Vec<String>) -> (r: Vec<String>)
    ensures
        r.deep_view() == not_in(s.deep_view(), t.deep_view()),
{
    let ghost all = s.deep_view();
    let mut out: Vec<String> = Vec::new();
    let mut i: usize = 0;
    assert(out.deep_view() =~= not_in(all.take(0), t.deep_view()));
    while i < s.len()
        invariant
            i <= s.len(),
            all == s.deep_view(),
            out.deep_view() == not_in(all.take(i as int), t.deep_view()),
        decreases s.len() - i,
    {
        assert(all.take(i + 1).drop_last() =~= all.take(i as int));
        assert(all.take(i + 1).last() == s@[i as int]@);
        if !holds(t, s[i].as_str()) {
            let ghost before = out.deep_view();
            out.push(s[i].clone());
            assert(out.deep_view() =~= before.push(s@[i as int]@));
        }
        i += 1;
    }
    assert(all.take(all.len() as int) =~= all);
    out
}

/// What is said of a replaced set of labels: what was removed and what was added.
pub open spec fn change_note(removed: Seq<Seq<char>>, added: Seq<Seq<char>>) -> Seq<char> {
    let gone = if removed.len() > 0 {
        seq!["removed: "@ + join(removed, ", "@)]
    } else {
        seq![]
    };
    let come = if added.len() > 0 {
        seq!["added: "@ + join(added, ", "@)]
    } else {
        seq![]
    };
    "Labels "@ + join(gone + come, "; "@)
}

fn note_change(removed: &Vec<String>, added: &Vec<String>) -> (r: String)
    ensures
        r@ == change_note(removed.deep_view(), added.deep_view()),
{
    let mut details: Vec<String> = Vec::new();
    if removed.len() > 0 {
        details.push(joined("removed: ", join_texts(removed, ", ").as_str()));
    }
    if added.len() > 0 {
        details.push(joined("added: ", join_texts(added, ", ").as_str()));
    }
    proof {
        let gone = if removed.deep_view().len() > 0 {
            seq!["removed: "@ + join(removed.deep_view(), ", "@)]
        } else {
            seq![]
        };
        let come = if added.deep_view().len() > 0 {
            seq!["added: "@ + join(added.deep_view(), ", "@)]
        } else {
            seq![]
        };
        assert(details.deep_view() =~= gone + come);
    }
    joined("Labels ", join_texts(&details, "; ").as_str())
}

/// The statements that replace the labels of an issue.
pub open spec fn replace_labels(issue_id: Seq<char>, labels: Seq<Seq<char>>) -> Seq<StatementView> {
    seq![labels_delete(issue_id)] + labels.map_values(|l: Seq<char>| label_insert(issue_id, l))
}

/// Sync labels for an issue (remove existing, add new).
pub fn sync_labels_for_import(issue_id: &str, labels: &Vec<String>) -> (r: Vec<Statement>)
    ensures
        r.deep_view() == replace_labels(issue_id@, labels.deep_view()),
{
    let mut out: Vec<Statement> = Vec::new();
    out.push(remove_all_labels(issue_id));
    let mut i: usize = 0;
    while i < labels.len()
        invariant
            i <= labels.len(),
            out.len() == i + 1,
            out@[0].deep_view() == labels_delete(issue_id@),
            forall|k: int|
                1 <= k < i + 1 ==> (#[trigger] out@[k]).deep_view() == label_insert(
                    issue_id@,
                    labels@[k - 1]@,
                ),
        decreases labels.len() - i,
    {
        out.push(insert_label(issue_id, labels[i].as_str()));
        i += 1;
    }
    assert(out.deep_view() =~= replace_labels(issue_id@, labels.deep_view()));
    out
}

/// Query for the labels of an issue in no order.
pub fn old_labels_query(issue_id: &str) -> (r: Statement)
    ensures
        r.deep_view() == stmt(
            "SELECT label FROM labels WHERE issue_id = ?"@,
            seq![SqlCell::Text(issue_id@)],
        ),
        crate::asked::ask_labels_of(issue_id@).is(r.deep_view()),
{
    proof {
        crate::asked::lemma_ask_labels_of_text(issue_id@);
    }
    Statement::with_text("SELECT label FROM labels WHERE issue_id = ?", issue_id)
}

/// Set all labels for an issue (replace existing), given the rows of the labels it has.
///
/// An event is recorded and the issue marked changed only where the set of labels changes.
pub fn set_labels(
    old_rows: &Vec<Row>,
    issue_id: &str,
    labels: &Vec<String>,
    ctx: &mut MutationContext,
    now: Timestamp,
) -> (r: Vec<Statement>)
    ensures
        ({
            let before = column_texts(old_rows.deep_view(), 0);
            let removed = not_in(before, labels.deep_view());
            let added = not_in(labels.deep_view(), before);
            let replace = replace_labels(issue_id@, labels.deep_view());
            if removed.len() == 0 && added.len() == 0 {
                r.deep_view() == replace && final(ctx).deep_view() == old(ctx).deep_view()
            } else {
                &&& r.deep_view() == replace.push(touch_statement(issue_id@, now.deep_view()))
                &&& final(ctx).deep_view() == old(ctx).deep_view().with_event(
                    EventType::Updated,
                    issue_id@,
                    Some(change_note(removed, added)),
                    now.deep_view(),
                ).with_dirty(issue_id@)
            }
        }),
        column_texts(old_rows.deep_view(), 0).to_set() == labels.deep_view().to_set() ==> final(ctx).deep_view()
            == old(ctx).deep_view(),
        column_texts(old_rows.deep_view(), 0).to_set() != labels.deep_view().to_set()
            ==> crate::mutation::recorded(
            old(ctx).deep_view(),
            final(ctx).deep_view(),
            EventType::Updated,
            issue_id@,
            now.deep_view(),
        ),
{
    proof {
        let before = column_texts(old_rows.deep_view(), 0);
        lemma_labels_change(before, labels.deep_view());
        crate::mutation::lemma_recorded(
            old(ctx).deep_view(),
            EventType::Updated,
            issue_id@,
            Some(
                change_note(
                    not_in(before, labels.deep_view()),
                    not_in(labels.deep_view(), before),
                ),
            ),
            now.deep_view(),
        );
    }
    let old_labels = texts_in_column(old_rows, 0);
    let mut out = sync_labels_for_import(issue_id, labels);
    let removed = leave_out(&old_labels, labels);
    let added = leave_out(labels, &old_labels);
    if removed.len() > 0 || added.len() > 0 {
        ctx.record_event(EventType::Updated, issue_id, Some(note_change(&removed, &added)), now);
        ctx.mark_dirty(issue_id);
        let ghost before = out.deep_view();
        out.push(touch(issue_id, now));
        assert(out.deep_view() =~= before.push(touch_statement(issue_id@, now.deep_view())));
    }
    out
}

/// Labels are said to be removed or added exactly where the old and the new set of labels differ.
pub proof fn lemma_labels_change(before: Seq<Seq<char>>, after: Seq<Seq<char>>)
    ensures
        not_in(before, after).len() == 0 && not_in(after, before).len() == 0 <==> before.to_set()
            == after.to_set(),
{
    assert forall|x: Seq<char>| not_in(before, after).contains(x) <==> before.contains(x)
        && !after.contains(x) by {
        lemma_not_in(before, after, x);
    }
    assert forall|x: Seq<char>| not_in(after, before).contains(x) <==> after.contains(x)
        && !before.contains(x) by {
        lemma_not_in(after, before, x);
    }
    if not_in(before, after).len() == 0 && not_in(after, before).len() == 0 {
        assert forall|x: Seq<char>| before.to_set().contains(x) <==> after.to_set().contains(x) by {
            lemma_not_in(before, after, x);
            lemma_not_in(after, before, x);
        }
        assert(before.to_set() =~= after.to_set());
    }
    if before.to_set() == after.to_set() {
        assert forall|x: Seq<char>| before.contains(x) == after.contains(x) by {
            assert(before.to_set().contains(x) == after.to_set().contains(x));
        }
        if not_in(before, after).len() > 0 {
            let x = not_in(before, after)[0];
            assert(not_in(before, after).contains(x));
            lemma_not_in(before, after, x);
        }
        if not_in(after, before).len() > 0 {
            let x = not_in(after, before)[0];
            assert(not_in(after, before).contains(x));
            lemma_not_in(after, before, x);
        }
    }
}

proof fn lemma_not_in(s: Seq<Seq<char>>, t: Seq<Seq<char>>, x: Seq<char>)
    ensures
        not_in(s, t).contains(x) <==> s.contains(x) && !t.contains(x),
    decreases s.len(),
{
    if s.len() > 0 {
        let front = s.drop_last();
        lemma_not_in(front, t, x);
        let rest = not_in(front, t);
        if rest.contains(x) {
            let k = rest.index_of(x);
            assert(rest.push(s.last())[k] == x);
        }
        assert(rest.push(s.last())[rest.len() as int] == s.last());
        if front.contains(x) {
            let k = front.index_of(x);
            assert(s[k] == x);
        }
        if s.contains(x) && s.last() != x {
            let k = s.index_of(x);
            assert(front[k] == x);
        }
        if s.last() == x {
            assert(s[s.len() - 1] == x);
        }
        if not_in(s, t).contains(x) && x != s.last() {
            let k = not_in(s, t).index_of(x);
            if !t.contains(s.last()) {
                assert(rest[k] == x);
            }
        }
    }
}

/// Query for the labels of an issue.
pub fn get_labels(issue_id: &str) -> (r: Statement)
    ensures
        r.deep_view() == stmt(
            "SELECT label FROM labels WHERE issue_id = ? ORDER BY label"@,
            seq![SqlCell::Text(issue_id@)],
        ),
        crate::asked::ask_sorted_labels_of(issue_id@).is(r.deep_view()),
{
    proof {
        crate::asked::lemma_ask_sorted_labels_of_text(issue_id@);
    }
    Statement::with_text("SELECT label FROM labels WHERE issue_id = ? ORDER BY label", issue_id)
}

/// Queries for the labels of multiple issues, one for each run of IDs.
pub fn get_labels_for_issues(issue_ids: &Vec<String>) -> (r: Vec<Statement>)
    ensures
        r.deep_view() == list_statements(
            "SELECT issue_id, label FROM labels WHERE issue_id IN ("@,
            issue_ids.deep_view(),
            ","@,
            ") ORDER BY issue_id, label"@,
        ),
        forall|k: int|
            0 <= k < r.deep_view().len() ==> crate::across::ask_labels_of_all(
                crate::chunk::chunked(
                    issue_ids.deep_view(),
                    crate::chunk::SQLITE_VAR_LIMIT as int,
                )[k],
            ).is(#[trigger] r.deep_view()[k]),
{
    proof {
        assert forall|run: Seq<Seq<char>>|
            crate::across::ask_labels_of_all(run).is(
                #[trigger] crate::chunk::list_statement(
                    "SELECT issue_id, label FROM labels WHERE issue_id IN ("@,
                    run,
                    ","@,
                    ") ORDER BY issue_id, label"@,
                ),
            ) by {
            crate::across::lemma_labels_of_all_text(run);
        }
    }
    list_texts_in_runs(
        "SELECT issue_id, label FROM labels WHERE issue_id IN (",
        issue_ids,
        ",",
        ") ORDER BY issue_id, label",
    )
}

/// Query for all labels of all issues.
pub fn get_all_labels() -> (r: Statement)
    ensures
        r.deep_view() == stmt(
            "SELECT issue_id, label FROM labels ORDER BY issue_id, label"@,
            seq![],
        ),
        crate::asked::ask_all_labels().is(r.deep_view()),
{
    proof {
        crate::asked::lemma_ask_all_labels_text();
    }
    Statement::plain("SELECT issue_id, label FROM labels ORDER BY issue_id, label")
}

/// A map of lists with more items appended, each to the list of its key.
pub open spec fn appended<W>(
    m: Seq<(Seq<char>, Seq<W>)>,
    items: Seq<(Seq<char>, W)>,
) -> Seq<(Seq<char>, Seq<W>)>
    decreases items.len(),
{
    if items.len() == 0 {
        m
    } else {
        append_in(appended(m, items.drop_last()), items.last().0, items.last().1)
    }
}

/// Appending run after run to an empty map collects all items by key, wherever the runs are cut.
pub proof fn lemma_appended_in_runs<W>(a: Seq<(Seq<char>, W)>, b: Seq<(Seq<char>, W)>)
    ensures
        appended(appended(seq![], a), b) == grouped(a + b),
    decreases b.len(),
{
    if b.len() == 0 {
        assert(a + b =~= a);
        lemma_appended_grouped(a);
    } else {
        assert((a + b).drop_last() =~= a + b.drop_last());
        lemma_appended_in_runs(a, b.drop_last());
    }
}

proof fn lemma_appended_grouped<W>(items: Seq<(Seq<char>, W)>)
    ensures
        appended(seq![], items) == grouped(items),
    decreases items.len(),
{
    if items.len() > 0 {
        lemma_appended_grouped(items.drop_last());
    }
}

/// Appends the pairs of texts in rows to a map of lists: a map of issue_id -> labels.
pub fn append_labels(m: &mut TextMap<Vec<String>>, rows: &Vec<Row>)
    ensures
        final(m).deep_view() == appended(old(m).deep_view(), pairs(rows.deep_view())),
{
    let list = text_pairs(rows);
    let ghost start = m.deep_view();
    let ghost all = list.deep_view();
    let mut i: usize = 0;
    assert(all.take(0) =~= seq![]);
    while i < list.len()
        invariant
            i <= list.len(),
            all == list.deep_view(),
            m.deep_view() == appended(start, all.take(i as int)),
        decreases list.len() - i,
    {
        assert(all.take(i + 1).drop_last() =~= all.take(i as int));
        assert(all.take(i + 1).last() == list@[i as int].deep_view());
        m.append(list[i].0.as_str(), list[i].1.clone());
        i += 1;
    }
    assert(all.take(all.len() as int) =~= all);
}

/// Query for all unique labels with their issue counts, sorted alphabetically by label.
/// Excludes labels on tombstoned (deleted) issues.
pub fn unique_labels_query() -> (r: Statement)
    ensures
        r.deep_view() == stmt(
            "SELECT l.label, COUNT(*) as count FROM labels l JOIN issues i ON l.issue_id = i.id WHERE i.status != 'tombstone' GROUP BY l.label ORDER BY l.label"@,
            seq![],
        ),
        crate::across::ask_label_counts().is(r.deep_view()),
{
    proof {
        crate::across::lemma_ask_label_counts_text();
    }
    Statement::plain(
        "SELECT l.label, COUNT(*) as count FROM labels l JOIN issues i ON l.issue_id = i.id WHERE i.status != 'tombstone' GROUP BY l.label ORDER BY l.label",
    )
}

/// The labels and counts in rows, rows without both left out.
pub open spec fn label_counts(rows: Seq<Seq<SqlCell>>) -> Seq<(Seq<char>, i64)>
    decreases rows.len(),
{
    if rows.len() == 0 {
        seq![]
    } else {
        let front = label_counts(rows.drop_last());
        match (text_at(rows.last(), 0), integer_at(rows.last(), 1)) {
            (Some(label), Some(count)) => front.push((label, count)),
            _ => front,
        }
    }
}

/// Reads the rows of the query for unique labels.
pub fn get_unique_labels_with_counts(rows: &Vec<Row>) -> (r: Vec<(String, i64)>)
    ensures
        r.deep_view() == label_counts(rows.deep_view()),
{
    let ghost all = rows.deep_view();
    let mut out: Vec<(String, i64)> = Vec::new();
    let mut k: usize = 0;
    assert(out.deep_view() =~= label_counts(all.take(0)));
    while k < rows.len()
        invariant
            all == rows.deep_view(),
            k <= rows.len(),
            out.deep_view() == label_counts(all.take(k as int)),
        decreases rows.len() - k,
    {
        assert(all.take(k + 1).drop_last() =~= all.take(k as int));
        assert(all.take(k + 1).last() == rows@[k as int].deep_view());
        let ghost before = out.deep_view();
        match (rows[k].text(0), rows[k].integer(1)) {
            (Some(label), Some(count)) => {
                let ghost item = (label@, count);
                out.push((label, count));
                assert(out.deep_view() =~= before.push(item));
            },
            _ => {},
        }
        k += 1;
    }
    assert(all.take(all.len() as int) =~= all);
    out
}

/// Query for the issues that have a label.
pub fn labelled_issues_query(label: &str) -> (r: Statement)
    ensures
        r.deep_view() == stmt(
            "SELECT issue_id FROM labels WHERE label = ?"@,
            seq![SqlCell::Text(label@)],
        ),
        crate::asked::ask_issues_with_label(label@).is(r.deep_view()),
{
    proof {
        crate::asked::lemma_ask_issues_with_label_text(label@);
    }
    Statement::with_text("SELECT issue_id FROM labels WHERE label = ?", label)
}

/// Query for the issues that have both the old and the new name of a label, where these differ.
pub fn rename_conflicts_query(old_name: &str, new_name: &str) -> (r: Statement)
    ensures
        r.deep_view() == stmt(
            "SELECT issue_id FROM labels WHERE label = ? AND label <> ? AND issue_id IN (SELECT issue_id FROM labels WHERE label = ?)"@,
            seq![SqlCell::Text(new_name@), SqlCell::Text(old_name@), SqlCell::Text(old_name@)],
        ),
{
    Statement::with_texts3(
        "SELECT issue_id FROM labels WHERE label = ? AND label <> ? AND issue_id IN (SELECT issue_id FROM labels WHERE label = ?)",
        new_name,
        old_name,
        old_name,
    )
}

/// The issues that have both names of a label that is renamed. With one name only, there are none.
pub open spec fn rename_conflicts(
    conflict_rows: Seq<Seq<SqlCell>>,
    old_name: Seq<char>,
    new_name: Seq<char>,
) -> Seq<Seq<char>> {
    if old_name == new_name {
        seq![]
    } else {
        column_texts(conflict_rows, 0)
    }
}

/// What a renamed label records for each issue that had it.
pub open spec fn rename_records(
    ctx: MutationContextView,
    ids: Seq<Seq<char>>,
    old_name: Seq<char>,
    new_name: Seq<char>,
    now: Instant,
) -> MutationContextView
    decreases ids.len(),
{
    if ids.len() == 0 {
        ctx
    } else {
        rename_records(ctx, ids.drop_last(), old_name, new_name, now).with_event(
            EventType::LabelRemoved,
            ids.last(),
            Some("Renamed label "@ + old_name + (" to "@ + new_name)),
            now,
        ).with_dirty(ids.last())
    }
}

/// The statements that take a label off issues.
pub open spec fn label_deletes(ids: Seq<Seq<char>>, label: Seq<char>) -> Seq<StatementView> {
    ids.map_values(|id: Seq<char>| label_delete(id, label))
}

/// Rename a label across all issues, given the rows of the issues that have it and of those that
/// have both names.
///
/// The first part of the result takes the label off the issues that have the new name already,
/// which is none where the new name is the old one; the second renames it on the others; the
/// third marks the issues as changed.
pub fn rename_label(
    id_rows: &Vec<Row>,
    conflict_rows: &Vec<Row>,
    old_name: &str,
    new_name: &str,
    ctx: &mut MutationContext,
    now: Timestamp,
) -> (r: (Vec<Statement>, Statement, Vec<Statement>))
    ensures
        ({
            let ids = column_texts(id_rows.deep_view(), 0);
            let conflicts = rename_conflicts(conflict_rows.deep_view(), old_name@, new_name@);
            &&& r.0.deep_view() == label_deletes(conflicts, old_name@)
            &&& r.1.deep_view() == stmt(
                "UPDATE labels SET label = ? WHERE label = ?"@,
                seq![SqlCell::Text(new_name@), SqlCell::Text(old_name@)],
            )
            &&& r.2.deep_view() == touch_all(ids, now.deep_view())
            &&& final(ctx).deep_view() == rename_records(
                all_dirty(old(ctx).deep_view(), conflicts),
                ids,
                old_name@,
                new_name@,
                now.deep_view(),
            )
        }),
        old_name@ == new_name@ ==> r.0.deep_view().len() == 0,
{
    let ids = texts_in_column(id_rows, 0);
    let conflicts: Vec<String> = if same_text(old_name, new_name) {
        Vec::new()
    } else {
        texts_in_column(conflict_rows, 0)
    };
    assert(conflicts.deep_view() =~= rename_conflicts(
        conflict_rows.deep_view(),
        old_name@,
        new_name@,
    ));
    let ghost all_ids = ids.deep_view();
    let ghost all_conflicts = conflicts.deep_view();
    let ghost c0 = ctx.deep_view();
    let mut script: Vec<Statement> = Vec::new();
    let mut i: usize = 0;
    assert(all_conflicts.take(0) =~= seq![]);
    while i < conflicts.len()
        invariant
            i <= conflicts.len(),
            all_conflicts == conflicts.deep_view(),
            script.len() == i,
            forall|k: int|
                0 <= k < i ==> (#[trigger] script@[k]).deep_view() == label_delete(
                    all_conflicts[k],
                    old_name@,
                ),
            ctx.deep_view() == all_dirty(c0, all_conflicts.take(i as int)),
        decreases conflicts.len() - i,
    {
        assert(all_conflicts.take(i + 1).drop_last() =~= all_conflicts.take(i as int));
        assert(all_conflicts.take(i + 1).last() == conflicts@[i as int]@);
        script.push(remove_label(conflicts[i].as_str(), old_name));
        ctx.mark_dirty(conflicts[i].as_str());
        i += 1;
    }
    assert(all_conflicts.take(all_conflicts.len() as int) =~= all_conflicts);
    assert(script.deep_view() =~= label_deletes(all_conflicts, old_name@));
    let rename = Statement::with_texts2(
        "UPDATE labels SET label = ? WHERE label = ?",
        new_name,
        old_name,
    );
    let ghost c1 = ctx.deep_view();
    let tail = joined(" to ", new_name);
    let mut touches: Vec<Statement> = Vec::new();
    let mut j: usize = 0;
    assert(all_ids.take(0) =~= seq![]);
    while j < ids.len()
        invariant
            j <= ids.len(),
            all_ids == ids.deep_view(),
            tail@ == " to "@ + new_name@,
            touches.len() == j,
            forall|k: int|
                0 <= k < j ==> (#[trigger] touches@[k]).deep_view() == touch_statement(
                    all_ids[k],
                    now.deep_view(),
                ),
            ctx.deep_view() == rename_records(
                c1,
                all_ids.take(j as int),
                old_name@,
                new_name@,
                now.deep_view(),
            ),
        decreases ids.len() - j,
    {
        assert(all_ids.take(j + 1).drop_last() =~= all_ids.take(j as int));
        assert(all_ids.take(j + 1).last() == ids@[j as int]@);
        let note = joined3("Renamed label ", old_name, tail.as_str());
        ctx.record_event(EventType::LabelRemoved, ids[j].as_str(), Some(note), now);
        ctx.mark_dirty(ids[j].as_str());
        touches.push(touch(ids[j].as_str(), now));
        j += 1;
    }
    assert(all_ids.take(all_ids.len() as int) =~= all_ids);
    assert(touches.deep_view() =~= touch_all(all_ids, now.deep_view()));
    (script, rename, touches)
}

/// The number of issues that a renaming affected, given the rows of the issues that had the
/// label: each of them counts once.
pub fn renamed_issues(id_rows: &Vec<Row>) -> (r: usize)
    ensures
        r == column_texts(id_rows.deep_view(), 0).to_set().len(),
{
    let ids = distinct_texts(id_rows);
    proof {
        let all = column_texts(id_rows.deep_view(), 0);
        lemma_distinct(all);
        distinct(all).unique_seq_to_set();
        assert(ids.len() == ids.deep_view().len());
    }
    ids.len()
}

} // verus!
