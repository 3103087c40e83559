//! Settings, metadata, dirty marks and export hashes.

use crate::assoc::TextMap;
use crate::chunk::list_texts_in_runs;
use crate::clock::Timestamp;
use crate::order::sort_texts;
use crate::rows::number_in;
use crate::sql::{texts_in_column, Row, Statement};
use vstd::prelude::*;

verus! {

use crate::assoc::put_in;
use crate::chunk::list_statements;
use crate::clock::{rfc3339, Instant};
use crate::order::sorted;
use crate::rows::number_at;
use crate::sql::{column_texts, pairs, stmt, text_at_or, SqlCell, StatementView};

/// Query for the version of the schema.
pub fn schema_version_query() -> (r: Statement)
    ensures
        r.deep_view() == stmt("PRAGMA user_version"@, seq![]),
{
    Statement::plain("PRAGMA user_version")
}

/// Whether the schema has to be brought up to the current version, given the row of the query
/// for its version: a version that cannot be read counts as none at all.
pub fn schema_is_old(row: Option<&Row>, current: i32) -> (r: bool)
    ensures
        r == (match row.deep_view() {
            Some(cells) => match number_at(cells, 0) {
                Some(version) => version < current,
                None => 0 < current,
            },
            None => 0 < current,
        }),
{
    match row {
        Some(row) => match number_in(row, 0) {
            Some(version) => version < current,
            None => 0 < current,
        },
        None => 0 < current,
    }
}

/// Query for a config value.
pub fn get_config(key: &str) -> (r: Statement)
    ensures
        r.deep_view() == stmt(
            "SELECT value FROM config WHERE key = ?"@,
            seq![SqlCell::Text(key@)],
        ),
        crate::asked::ask_config_value(key@).is(r.deep_view()),
{
    proof {
        crate::asked::lemma_ask_config_value_text(key@);
    }
    Statement::with_text("SELECT value FROM config WHERE key = ?", key)
}

/// Query for all config values.
pub fn all_config_query() -> (r: Statement)
    ensures
        r.deep_view() == stmt("SELECT key, value FROM config"@, seq![]),
        crate::asked::ask_all_config().is(r.deep_view()),
{
    proof {
        crate::asked::lemma_ask_all_config_text();
    }
    Statement::plain("SELECT key, value FROM config")
}

/// A map of pairs of texts: a later pair goes over an earlier one with the same key.
pub open spec fn bound_pairs(items: Seq<(Seq<char>, Seq<char>)>) -> Seq<(Seq<char>, Seq<char>)>
    decreases items.len(),
{
    if items.len() == 0 {
        seq![]
    } else {
        put_in(bound_pairs(items.drop_last()), items.last().0, items.last().1)
    }
}

/// Fetch all config values from the rows of the query for them.
pub fn get_all_config(rows: &Vec<Row>) -> (r: TextMap<String>)
    ensures
        r.deep_view() == bound_pairs(pairs(rows.deep_view())),
{
    let list = crate::sql::text_pairs(rows);
    let ghost all = list.deep_view();
    let mut m: TextMap<String> = TextMap::new();
    let mut i: usize = 0;
    assert(all.take(0) =~= seq![]);
    while i < list.len()
        invariant
            i <= list.len(),
            all == list.deep_view(),
            m.deep_view() == bound_pairs(all.take(i as int)),
        decreases list.len() - i,
    {
        assert(all.take(i + 1).drop_last() =~= all.take(i as int));
        assert(all.take(i + 1).last() == list@[i as int].deep_view());
        m.insert(list[i].0.as_str(), list[i].1.clone());
        i += 1;
    }
    assert(all.take(all.len() as int) =~= all);
    m
}

/// Set a config value: the old one goes, the new one comes.
pub fn set_config(key: &str, value: &str) -> (r: (Statement, Statement))
    ensures
        r.0.deep_view() == stmt("DELETE FROM config WHERE key = ?"@, seq![SqlCell::Text(key@)]),
        r.1.deep_view() == stmt(
            "INSERT INTO config (key, value) VALUES (?, ?)"@,
            seq![SqlCell::Text(key@), SqlCell::Text(value@)],
        ),
        crate::written::drop_config_removed(key@).is(r.0.deep_view()),
        crate::written::put_config_entry(key@, value@).is(r.1.deep_view()),
{
    proof {
        crate::written::lemma_put_config_entry_text(key@, value@);
        crate::written::lemma_drop_config_removed_text(key@);
    }
    (
        delete_config(key),
        Statement::with_texts2("INSERT INTO config (key, value) VALUES (?, ?)", key, value),
    )
}

/// Statement that deletes a config value.
pub fn delete_config(key: &str) -> (r: Statement)
    ensures
        r.deep_view() == stmt("DELETE FROM config WHERE key = ?"@, seq![SqlCell::Text(key@)]),
        crate::written::drop_config_removed(key@).is(r.deep_view()),
{
    proof {
        crate::written::lemma_drop_config_removed_text(key@);
    }
    Statement::with_text("DELETE FROM config WHERE key = ?", key)
}

/// Query for a metadata value.
pub fn get_metadata(key: &str) -> (r: Statement)
    ensures
        r.deep_view() == stmt(
            "SELECT value FROM metadata WHERE key = ?"@,
            seq![SqlCell::Text(key@)],
        ),
        crate::asked::ask_metadata_value(key@).is(r.deep_view()),
{
    proof {
        crate::asked::lemma_ask_metadata_value_text(key@);
    }
    Statement::with_text("SELECT value FROM metadata WHERE key = ?", key)
}

/// Set a metadata value: the old one goes, the new one comes.
pub fn set_metadata(key: &str, value: &str) -> (r: (Statement, Statement))
    ensures
        r.0.deep_view() == stmt("DELETE FROM metadata WHERE key = ?"@, seq![SqlCell::Text(key@)]),
        r.1.deep_view() == stmt(
            "INSERT INTO metadata (key, value) VALUES (?, ?)"@,
            seq![SqlCell::Text(key@), SqlCell::Text(value@)],
        ),
        crate::written::drop_metadata_removed(key@).is(r.0.deep_view()),
        crate::written::put_metadata_entry(key@, value@).is(r.1.deep_view()),
{
    proof {
        crate::written::lemma_put_metadata_entry_text(key@, value@);
        crate::written::lemma_drop_metadata_removed_text(key@);
    }
    (
        delete_metadata(key),
        Statement::with_texts2("INSERT INTO metadata (key, value) VALUES (?, ?)", key, value),
    )
}

/// Statement that deletes a metadata key.
pub fn delete_metadata(key: &str) -> (r: Statement)
    ensures
        r.deep_view() == stmt("DELETE FROM metadata WHERE key = ?"@, seq![SqlCell::Text(key@)]),
        crate::written::drop_metadata_removed(key@).is(r.deep_view()),
{
    proof {
        crate::written::lemma_drop_metadata_removed_text(key@);
    }
    Statement::with_text("DELETE FROM metadata WHERE key = ?", key)
}

/// Query for the count of dirty issues (issues modified since last export).
pub fn get_dirty_issue_count() -> (r: Statement)
    ensures
        r.deep_view() == stmt("SELECT COUNT(*) FROM dirty_issues"@, seq![]),
        crate::asked::ask_dirty_total().is(r.deep_view()),
{
    proof {
        crate::asked::lemma_ask_dirty_total_text();
    }
    Statement::plain("SELECT COUNT(*) FROM dirty_issues")
}

/// Query for the IDs of all dirty issues (issues modified since last export).
pub fn get_dirty_issue_ids() -> (r: Statement)
    ensures
        r.deep_view() == stmt("SELECT issue_id FROM dirty_issues ORDER BY marked_at"@, seq![]),
        crate::asked::ask_dirty_ids().is(r.deep_view()),
{
    proof {
        crate::asked::lemma_ask_dirty_ids_text();
    }
    Statement::plain("SELECT issue_id FROM dirty_issues ORDER BY marked_at")
}

/// Statements that clear dirty flags for the given issue IDs, one for each run of IDs.
///
/// Call this after successful export to the default JSONL path.
pub fn clear_dirty_issues(issue_ids: &Vec<String>) -> (r: Vec<Statement>)
    ensures
        r.deep_view() == list_statements(
            "DELETE FROM dirty_issues WHERE issue_id IN ("@,
            issue_ids.deep_view(),
            ","@,
            ")"@,
        ),
{
    list_texts_in_runs("DELETE FROM dirty_issues WHERE issue_id IN (", issue_ids, ",", ")")
}

/// Statements that clear dirty flags for the given issue IDs, one for each run of IDs.
pub fn clear_dirty_flags(ids: &Vec<String>) -> (r: Vec<Statement>)
    ensures
        r.deep_view() == list_statements(
            "DELETE FROM dirty_issues WHERE issue_id IN ("@,
            ids.deep_view(),
            ", "@,
            ")"@,
        ),
{
    list_texts_in_runs("DELETE FROM dirty_issues WHERE issue_id IN (", ids, ", ", ")")
}

/// Statement that clears all dirty flags.
pub fn clear_all_dirty_issues() -> (r: Statement)
    ensures
        r.deep_view() == stmt("DELETE FROM dirty_issues"@, seq![]),
        crate::written::drop_marks_removed().is(r.deep_view()),
{
    proof {
        crate::written::lemma_drop_marks_removed_text();
    }
    Statement::plain("DELETE FROM dirty_issues")
}

/// Query for the stored export hash for an issue.
pub fn export_hash_query(issue_id: &str) -> (r: Statement)
    ensures
        r.deep_view() == stmt(
            "SELECT content_hash, exported_at FROM export_hashes WHERE issue_id = ?"@,
            seq![SqlCell::Text(issue_id@)],
        ),
        crate::asked::ask_export_hash(issue_id@).is(r.deep_view()),
{
    proof {
        crate::asked::lemma_ask_export_hash_text(issue_id@);
    }
    Statement::with_text(
        "SELECT content_hash, exported_at FROM export_hashes WHERE issue_id = ?",
        issue_id,
    )
}

/// The stored export hash and when it was stored, from the row of the query for them.
pub fn get_export_hash(row: Option<&Row>) -> (r: Option<(String, String)>)
    ensures
        r.deep_view() == (match row.deep_view() {
            Some(cells) => Some((text_at_or(cells, 0, seq![]), text_at_or(cells, 1, seq![]))),
            None => None,
        }),
{
    match row {
        Some(row) => Some((row.text_or_empty(0), row.text_or_empty(1))),
        None => None,
    }
}

/// The statements that store an export hash: the old one goes, the new one comes.
pub open spec fn hash_statements(
    issue_id: Seq<char>,
    content_hash: Seq<char>,
    now: Instant,
) -> Seq<StatementView> {
    seq![
        stmt("DELETE FROM export_hashes WHERE issue_id = ?"@, seq![SqlCell::Text(issue_id)]),
        stmt(
            "INSERT INTO export_hashes (issue_id, content_hash, exported_at) VALUES (?, ?, ?)"@,
            seq![SqlCell::Text(issue_id), SqlCell::Text(content_hash), SqlCell::Text(rfc3339(now))],
        ),
    ]
}

/// The statements that store export hashes.
pub open spec fn hashes_statements(
    exports: Seq<(Seq<char>, Seq<char>)>,
    now: Instant,
) -> Seq<StatementView>
    decreases exports.len(),
{
    if exports.len() == 0 {
        seq![]
    } else {
        hashes_statements(exports.drop_last(), now) + hash_statements(
            exports.last().0,
            exports.last().1,
            now,
        )
    }
}

fn put_hash(
    out: &mut Vec<Statement>,
    issue_id: &str,
    content_hash: &str,
    now: Timestamp,
)
    ensures
        final(out).deep_view() == old(out).deep_view() + hash_statements(
            issue_id@,
            content_hash@,
            now.deep_view(),
        ),
{
    let ghost before = out.deep_view();
    out.push(Statement::with_text("DELETE FROM export_hashes WHERE issue_id = ?", issue_id));
    assert(out.deep_view() =~= before.push(
        hash_statements(issue_id@, content_hash@, now.deep_view())[0],
    ));
    out.push(
        Statement::with_texts3(
            "INSERT INTO export_hashes (issue_id, content_hash, exported_at) VALUES (?, ?, ?)",
            issue_id,
            content_hash,
            now.to_rfc3339().as_str(),
        ),
    );
    assert(out.deep_view() =~= before + hash_statements(
        issue_id@,
        content_hash@,
        now.deep_view(),
    ));
}

/// Set the export hash for an issue after successful export.
pub fn set_export_hash(issue_id: &str, content_hash: &str, now: Timestamp) -> (r: Vec<Statement>)
    ensures
        r.deep_view() == hash_statements(issue_id@, content_hash@, now.deep_view()),
{
    let mut out: Vec<Statement> = Vec::new();
    put_hash(&mut out, issue_id, content_hash, now);
    assert(out.deep_view() =~= hash_statements(issue_id@, content_hash@, now.deep_view()));
    out
}

/// Batch set export hashes for multiple issues after successful export.
pub fn set_export_hashes(exports: &Vec<(String, String)>, now: Timestamp) -> (r: Vec<Statement>)
    ensures
        r.deep_view() == hashes_statements(exports.deep_view(), now.deep_view()),
{
    let ghost all = exports.deep_view();
    let mut out: Vec<Statement> = Vec::new();
    let mut i: usize = 0;
    assert(out.deep_view() =~= hashes_statements(all.take(0), now.deep_view()));
    while i < exports.len()
        invariant
            i <= exports.len(),
            all == exports.deep_view(),
            out.deep_view() == hashes_statements(all.take(i as int), now.deep_view()),
        decreases exports.len() - i,
    {
        assert(all.take(i + 1).drop_last() =~= all.take(i as int));
        assert(all.take(i + 1).last() == exports@[i as int].deep_view());
        put_hash(&mut out, exports[i].0.as_str(), exports[i].1.as_str(), now);
        i += 1;
    }
    assert(all.take(all.len() as int) =~= all);
    out
}

/// Statement that clears all export hashes.
///
/// Call this before import to ensure fresh state.
pub fn clear_all_export_hashes() -> (r: Statement)
    ensures
        r.deep_view() == stmt("DELETE FROM export_hashes"@, seq![]),
        crate::written::drop_hashes_removed().is(r.deep_view()),
{
    proof {
        crate::written::lemma_drop_hashes_removed_text();
    }
    Statement::plain("DELETE FROM export_hashes")
}

/// Queries for issues that need to be exported (dirty issues whose content hash differs from
/// stored export hash), one for each run of IDs.
///
/// This enables incremental export by filtering out issues that haven't actually changed
/// since the last export, even if they were marked dirty.
pub fn export_queries(dirty_ids: &Vec<String>) -> (r: Vec<Statement>)
    ensures
        r.deep_view() == list_statements(
            "SELECT i.id FROM issues i WHERE i.id IN ("@,
            dirty_ids.deep_view(),
            ","@,
            ") AND i.deleted_at IS NULL AND (NOT EXISTS (SELECT 1 FROM export_hashes e WHERE e.issue_id = i.id) OR i.content_hash != (SELECT e.content_hash FROM export_hashes e WHERE e.issue_id = i.id)) ORDER BY i.id"@,
        ),
        forall|k: int|
            0 <= k < r.deep_view().len() ==> crate::across::ask_outdated(
                crate::chunk::chunked(
                    dirty_ids.deep_view(),
                    crate::chunk::SQLITE_VAR_LIMIT as int,
                )[k],
            ).is(#[trigger] r.deep_view()[k]),
{
    proof {
        assert forall|run: Seq<Seq<char>>|
            crate::across::ask_outdated(run).is(
                #[trigger] crate::chunk::list_statement(
                    "SELECT i.id FROM issues i WHERE i.id IN ("@,
                    run,
                    ","@,
                    ") AND i.deleted_at IS NULL AND (NOT EXISTS (SELECT 1 FROM export_hashes e WHERE e.issue_id = i.id) OR i.content_hash != (SELECT e.content_hash FROM export_hashes e WHERE e.issue_id = i.id)) ORDER BY i.id"@,
                ),
            ) by {
            crate::across::lemma_ask_outdated_text(run);
        }
    }
    list_texts_in_runs(
        "SELECT i.id FROM issues i WHERE i.id IN (",
        dirty_ids,
        ",",
        ") AND i.deleted_at IS NULL AND (NOT EXISTS (SELECT 1 FROM export_hashes e WHERE e.issue_id = i.id) OR i.content_hash != (SELECT e.content_hash FROM export_hashes e WHERE e.issue_id = i.id)) ORDER BY i.id",
    )
}

/// The issues that need to be exported in ascending order, from the rows of all queries for them.
pub fn get_issues_needing_export(rows: &Vec<Row>) -> (r: Vec<String>)
    ensures
        r.deep_view() == sorted(column_texts(rows.deep_view(), 0)),
{
    sort_texts(&texts_in_column(rows, 0))
}

} // verus!
