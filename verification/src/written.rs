//! What the statements that change the tables do: which records each of them takes, and what the
//! records that it writes hold.

use vstd::prelude::*;

verus! {

use crate::asked::{
    ask_all_comments,
    ask_all_config,
    ask_all_links,
    ask_comments_of,
    ask_config_value,
    ask_export_hash,
    ask_links_of,
    ask_metadata_value,
    lemma_all_comments,
    lemma_all_config,
    lemma_all_links,
    lemma_comments_of,
    lemma_config_value,
    lemma_export_hash,
    lemma_links_of,
    lemma_metadata_value,
};
use crate::blocked::{cache_insert, clear_statement};
use crate::clock::{rfc3339, Instant};
use crate::comments::{comment_of_row, import_comment};
use crate::error::BeadsErrorView;
use crate::issues::{
    comment_step,
    delete_statement,
    dependency_steps,
    label_step,
    tombstone_statement,
    StepView,
};
use crate::json::json_of_texts;
use crate::labels::{label_delete, label_insert, labels_delete};
use crate::links::{dependency_insert, dependency_of_row, import_dependency, touch_statement};
use crate::model::{
    lemma_dependency_type_reads_back,
    CommentView,
    DependencyTypeView,
    DependencyView,
    EventView,
    IssueView,
    StatusView,
};
use crate::mutation::{dirty_marks, event_insert};
use crate::rows::reads_back;
use crate::settings::hash_statements;
use crate::sql::{cell_of_opt, cell_or, stmt, text_at, SqlCell};
use crate::tables::{
    all_hold,
    cell,
    col,
    marks_text,
    names_text,
    over,
    sets_params,
    sets_text,
    tests_params,
    tests_text,
    Delete,
    Insert,
    Record,
    Setting,
    Test,
    Update,
};

/// The removal that the law of the same name is about.
pub open spec fn drop_dependency_removed(issue_id: Seq<char>, depends_on_id: Seq<char>) -> Delete {
    Delete {
        table: "dependencies"@,
        tests: seq![
            Test::Bound(col("issue_id"@), SqlCell::Text(issue_id)),
            Test::Bound(col("depends_on_id"@), SqlCell::Text(depends_on_id)),
        ],
    }
}

pub(crate) proof fn lemma_drop_dependency_removed_text(
    issue_id: Seq<char>,
    depends_on_id: Seq<char>,
)
    ensures
        drop_dependency_removed(issue_id, depends_on_id).is(
            stmt(
                "DELETE FROM dependencies WHERE issue_id = ? AND depends_on_id = ?"@,
                seq![SqlCell::Text(issue_id), SqlCell::Text(depends_on_id)],
            )
        ),
{
    let d = drop_dependency_removed(issue_id, depends_on_id);
    reveal_strlit("DELETE FROM dependencies WHERE issue_id = ? AND depends_on_id = ?");
    reveal_strlit("DELETE FROM ");
    reveal_strlit("dependencies");
    reveal_strlit(" WHERE ");
    reveal_strlit("issue_id");
    reveal_strlit(" = ?");
    reveal_strlit(" AND ");
    reveal_strlit("depends_on_id");
    reveal_with_fuel(tests_text, 3);
    reveal_with_fuel(tests_params, 3);
    assert(
        tests_text(d.tests, over(d.table)) =~= " WHERE "@ + "issue_id"@ + " = ?"@ + " AND "@
            + "depends_on_id"@ + " = ?"@
    );
    assert(
        "DELETE FROM dependencies WHERE issue_id = ? AND depends_on_id = ?"@ =~= "DELETE FROM "@
            + d.table + tests_text(d.tests, over(d.table))
    );
    assert(tests_params(d.tests) =~= seq![SqlCell::Text(issue_id), SqlCell::Text(depends_on_id)]);
}

/// Removing a dependency takes exactly the records of the one issue on the other.
pub proof fn lemma_dependency_removed(r: Record, issue_id: Seq<char>, depends_on_id: Seq<char>)
    ensures
        drop_dependency_removed(issue_id, depends_on_id).takes(r)
            <==> cell(r, "issue_id"@) == SqlCell::Text(issue_id)
                && cell(r, "depends_on_id"@) == SqlCell::Text(depends_on_id),
{
    let d = drop_dependency_removed(issue_id, depends_on_id);
    assert(d.tests[0] == Test::Bound(col("issue_id"@), SqlCell::Text(issue_id)));
    assert(d.tests[1] == Test::Bound(col("depends_on_id"@), SqlCell::Text(depends_on_id)));
}

/// The removal that the law of the same name is about.
pub open spec fn drop_parent_removed(issue_id: Seq<char>) -> Delete {
    Delete {
        table: "dependencies"@,
        tests: seq![
            Test::Bound(col("issue_id"@), SqlCell::Text(issue_id)),
            Test::Is(col("type"@), "parent-child"@),
        ],
    }
}

pub(crate) proof fn lemma_drop_parent_removed_text(issue_id: Seq<char>)
    ensures
        drop_parent_removed(issue_id).is(
            stmt(
                "DELETE FROM dependencies WHERE issue_id = ? AND type = 'parent-child'"@,
                seq![SqlCell::Text(issue_id)],
            )
        ),
{
    let d = drop_parent_removed(issue_id);
    reveal_strlit("DELETE FROM dependencies WHERE issue_id = ? AND type = 'parent-child'");
    reveal_strlit("DELETE FROM ");
    reveal_strlit("dependencies");
    reveal_strlit(" WHERE ");
    reveal_strlit("issue_id");
    reveal_strlit(" = ?");
    reveal_strlit(" AND ");
    reveal_strlit("type");
    reveal_strlit(" = '");
    reveal_strlit("parent-child");
    reveal_strlit("'");
    reveal_with_fuel(tests_text, 3);
    reveal_with_fuel(tests_params, 3);
    assert(
        tests_text(d.tests, over(d.table)) =~= " WHERE "@ + "issue_id"@ + " = ?"@ + " AND "@
            + "type"@ + " = '"@ + "parent-child"@ + "'"@
    );
    assert(
        "DELETE FROM dependencies WHERE issue_id = ? AND type = 'parent-child'"@ =~= "DELETE FROM "@
            + d.table + tests_text(d.tests, over(d.table))
    );
    assert(tests_params(d.tests) =~= seq![SqlCell::Text(issue_id)]);
}

/// Removing the parent of an issue takes exactly its dependencies as a child.
pub proof fn lemma_parent_removed(r: Record, issue_id: Seq<char>)
    ensures
        drop_parent_removed(issue_id).takes(r)
            <==> cell(r, "issue_id"@) == SqlCell::Text(issue_id)
                && cell(r, "type"@) == SqlCell::Text("parent-child"@),
{
    let d = drop_parent_removed(issue_id);
    assert(d.tests[0] == Test::Bound(col("issue_id"@), SqlCell::Text(issue_id)));
    assert(d.tests[1] == Test::Is(col("type"@), "parent-child"@));
}

/// The removal that the law of the same name is about.
pub open spec fn drop_dependencies_removed(issue_id: Seq<char>) -> Delete {
    Delete {
        table: "dependencies"@,
        tests: seq![Test::Bound(col("issue_id"@), SqlCell::Text(issue_id))],
    }
}

pub(crate) proof fn lemma_drop_dependencies_removed_text(issue_id: Seq<char>)
    ensures
        drop_dependencies_removed(issue_id).is(
            stmt("DELETE FROM dependencies WHERE issue_id = ?"@, seq![SqlCell::Text(issue_id)])
        ),
{
    let d = drop_dependencies_removed(issue_id);
    reveal_strlit("DELETE FROM dependencies WHERE issue_id = ?");
    reveal_strlit("DELETE FROM ");
    reveal_strlit("dependencies");
    reveal_strlit(" WHERE ");
    reveal_strlit("issue_id");
    reveal_strlit(" = ?");
    reveal_with_fuel(tests_text, 2);
    reveal_with_fuel(tests_params, 2);
    assert(tests_text(d.tests, over(d.table)) =~= " WHERE "@ + "issue_id"@ + " = ?"@);
    assert(
        "DELETE FROM dependencies WHERE issue_id = ?"@ =~= "DELETE FROM "@ + d.table
            + tests_text(d.tests, over(d.table))
    );
    assert(tests_params(d.tests) =~= seq![SqlCell::Text(issue_id)]);
}

/// Removing the dependencies of an issue takes all of them, and no others.
pub proof fn lemma_dependencies_removed(r: Record, issue_id: Seq<char>)
    ensures
        drop_dependencies_removed(issue_id).takes(r)
            <==> cell(r, "issue_id"@) == SqlCell::Text(issue_id),
{
    let d = drop_dependencies_removed(issue_id);
    assert(d.tests[0] == Test::Bound(col("issue_id"@), SqlCell::Text(issue_id)));
}

/// The removal that the law of the same name is about.
pub open spec fn drop_dependents_removed(issue_id: Seq<char>) -> Delete {
    Delete {
        table: "dependencies"@,
        tests: seq![Test::Bound(col("depends_on_id"@), SqlCell::Text(issue_id))],
    }
}

pub(crate) proof fn lemma_drop_dependents_removed_text(issue_id: Seq<char>)
    ensures
        drop_dependents_removed(issue_id).is(
            stmt("DELETE FROM dependencies WHERE depends_on_id = ?"@, seq![SqlCell::Text(issue_id)])
        ),
{
    let d = drop_dependents_removed(issue_id);
    reveal_strlit("DELETE FROM dependencies WHERE depends_on_id = ?");
    reveal_strlit("DELETE FROM ");
    reveal_strlit("dependencies");
    reveal_strlit(" WHERE ");
    reveal_strlit("depends_on_id");
    reveal_strlit(" = ?");
    reveal_with_fuel(tests_text, 2);
    reveal_with_fuel(tests_params, 2);
    assert(tests_text(d.tests, over(d.table)) =~= " WHERE "@ + "depends_on_id"@ + " = ?"@);
    assert(
        "DELETE FROM dependencies WHERE depends_on_id = ?"@ =~= "DELETE FROM "@ + d.table
            + tests_text(d.tests, over(d.table))
    );
    assert(tests_params(d.tests) =~= seq![SqlCell::Text(issue_id)]);
}

/// Removing the dependencies on an issue takes all of them, and no others.
pub proof fn lemma_dependents_removed(r: Record, issue_id: Seq<char>)
    ensures
        drop_dependents_removed(issue_id).takes(r)
            <==> cell(r, "depends_on_id"@) == SqlCell::Text(issue_id),
{
    let d = drop_dependents_removed(issue_id);
    assert(d.tests[0] == Test::Bound(col("depends_on_id"@), SqlCell::Text(issue_id)));
}

/// The removal that the law of the same name is about.
pub open spec fn drop_config_removed(key: Seq<char>) -> Delete {
    Delete { table: "config"@, tests: seq![Test::Bound(col("key"@), SqlCell::Text(key))] }
}

pub(crate) proof fn lemma_drop_config_removed_text(key: Seq<char>)
    ensures
        drop_config_removed(key).is(
            stmt("DELETE FROM config WHERE key = ?"@, seq![SqlCell::Text(key)])
        ),
{
    let d = drop_config_removed(key);
    reveal_strlit("DELETE FROM config WHERE key = ?");
    reveal_strlit("DELETE FROM ");
    reveal_strlit("config");
    reveal_strlit(" WHERE ");
    reveal_strlit("key");
    reveal_strlit(" = ?");
    reveal_with_fuel(tests_text, 2);
    reveal_with_fuel(tests_params, 2);
    assert(tests_text(d.tests, over(d.table)) =~= " WHERE "@ + "key"@ + " = ?"@);
    assert(
        "DELETE FROM config WHERE key = ?"@ =~= "DELETE FROM "@ + d.table
            + tests_text(d.tests, over(d.table))
    );
    assert(tests_params(d.tests) =~= seq![SqlCell::Text(key)]);
}

/// Removing a setting takes exactly what is stored under its key.
pub proof fn lemma_config_removed(r: Record, key: Seq<char>)
    ensures
        drop_config_removed(key).takes(r) <==> cell(r, "key"@) == SqlCell::Text(key),
{
    let d = drop_config_removed(key);
    assert(d.tests[0] == Test::Bound(col("key"@), SqlCell::Text(key)));
}

/// The removal that the law of the same name is about.
pub open spec fn drop_metadata_removed(key: Seq<char>) -> Delete {
    Delete { table: "metadata"@, tests: seq![Test::Bound(col("key"@), SqlCell::Text(key))] }
}

pub(crate) proof fn lemma_drop_metadata_removed_text(key: Seq<char>)
    ensures
        drop_metadata_removed(key).is(
            stmt("DELETE FROM metadata WHERE key = ?"@, seq![SqlCell::Text(key)])
        ),
{
    let d = drop_metadata_removed(key);
    reveal_strlit("DELETE FROM metadata WHERE key = ?");
    reveal_strlit("DELETE FROM ");
    reveal_strlit("metadata");
    reveal_strlit(" WHERE ");
    reveal_strlit("key");
    reveal_strlit(" = ?");
    reveal_with_fuel(tests_text, 2);
    reveal_with_fuel(tests_params, 2);
    assert(tests_text(d.tests, over(d.table)) =~= " WHERE "@ + "key"@ + " = ?"@);
    assert(
        "DELETE FROM metadata WHERE key = ?"@ =~= "DELETE FROM "@ + d.table
            + tests_text(d.tests, over(d.table))
    );
    assert(tests_params(d.tests) =~= seq![SqlCell::Text(key)]);
}

/// Removing metadata takes exactly what is stored under the key.
pub proof fn lemma_metadata_removed(r: Record, key: Seq<char>)
    ensures
        drop_metadata_removed(key).takes(r) <==> cell(r, "key"@) == SqlCell::Text(key),
{
    let d = drop_metadata_removed(key);
    assert(d.tests[0] == Test::Bound(col("key"@), SqlCell::Text(key)));
}

/// The removal that the law of the same name is about.
pub open spec fn drop_mark_removed(issue_id: Seq<char>, now: Instant) -> Delete {
    Delete {
        table: "dirty_issues"@,
        tests: seq![Test::Bound(col("issue_id"@), SqlCell::Text(issue_id))],
    }
}

pub(crate) proof fn lemma_drop_mark_removed_text(issue_id: Seq<char>, now: Instant)
    ensures
        drop_mark_removed(issue_id, now).is(
            stmt("DELETE FROM dirty_issues WHERE issue_id = ?"@, seq![SqlCell::Text(issue_id)])
        ),
{
    let d = drop_mark_removed(issue_id, now);
    reveal_strlit("DELETE FROM dirty_issues WHERE issue_id = ?");
    reveal_strlit("DELETE FROM ");
    reveal_strlit("dirty_issues");
    reveal_strlit(" WHERE ");
    reveal_strlit("issue_id");
    reveal_strlit(" = ?");
    reveal_with_fuel(tests_text, 2);
    reveal_with_fuel(tests_params, 2);
    assert(tests_text(d.tests, over(d.table)) =~= " WHERE "@ + "issue_id"@ + " = ?"@);
    assert(
        "DELETE FROM dirty_issues WHERE issue_id = ?"@ =~= "DELETE FROM "@ + d.table
            + tests_text(d.tests, over(d.table))
    );
    assert(tests_params(d.tests) =~= seq![SqlCell::Text(issue_id)]);
}

/// Marking an issue dirty first takes the marks it has.
pub proof fn lemma_mark_removed(r: Record, issue_id: Seq<char>, now: Instant)
    ensures
        drop_mark_removed(issue_id, now).is(dirty_marks(issue_id, now)[0]),
        drop_mark_removed(issue_id, now).takes(r)
            <==> cell(r, "issue_id"@) == SqlCell::Text(issue_id),
{
    let d = drop_mark_removed(issue_id, now);
    lemma_drop_mark_removed_text(issue_id, now);
    assert(d.tests[0] == Test::Bound(col("issue_id"@), SqlCell::Text(issue_id)));
}

/// The removal that the law of the same name is about.
pub open spec fn drop_marks_removed() -> Delete {
    Delete { table: "dirty_issues"@, tests: seq![] }
}

pub(crate) proof fn lemma_drop_marks_removed_text()
    ensures
        drop_marks_removed().is(stmt("DELETE FROM dirty_issues"@, seq![])),
{
    let d = drop_marks_removed();
    reveal_strlit("DELETE FROM dirty_issues");
    reveal_strlit("DELETE FROM ");
    reveal_strlit("dirty_issues");
    reveal_with_fuel(tests_text, 1);
    reveal_with_fuel(tests_params, 1);
    assert(
        "DELETE FROM dirty_issues"@ =~= "DELETE FROM "@ + d.table
            + tests_text(d.tests, over(d.table))
    );
    assert(tests_params(d.tests) =~= Seq::<SqlCell>::empty());
}

/// Clearing all dirty marks takes each of them.
pub proof fn lemma_marks_removed(r: Record)
    ensures
        drop_marks_removed().takes(r),
{
    let d = drop_marks_removed();
}

/// The removal that the law of the same name is about.
pub open spec fn drop_hash_removed(
    issue_id: Seq<char>,
    content_hash: Seq<char>,
    now: Instant,
) -> Delete {
    Delete {
        table: "export_hashes"@,
        tests: seq![Test::Bound(col("issue_id"@), SqlCell::Text(issue_id))],
    }
}

pub(crate) proof fn lemma_drop_hash_removed_text(
    issue_id: Seq<char>,
    content_hash: Seq<char>,
    now: Instant,
)
    ensures
        drop_hash_removed(issue_id, content_hash, now).is(
            stmt("DELETE FROM export_hashes WHERE issue_id = ?"@, seq![SqlCell::Text(issue_id)])
        ),
{
    let d = drop_hash_removed(issue_id, content_hash, now);
    reveal_strlit("DELETE FROM export_hashes WHERE issue_id = ?");
    reveal_strlit("DELETE FROM ");
    reveal_strlit("export_hashes");
    reveal_strlit(" WHERE ");
    reveal_strlit("issue_id");
    reveal_strlit(" = ?");
    reveal_with_fuel(tests_text, 2);
    reveal_with_fuel(tests_params, 2);
    assert(tests_text(d.tests, over(d.table)) =~= " WHERE "@ + "issue_id"@ + " = ?"@);
    assert(
        "DELETE FROM export_hashes WHERE issue_id = ?"@ =~= "DELETE FROM "@ + d.table
            + tests_text(d.tests, over(d.table))
    );
    assert(tests_params(d.tests) =~= seq![SqlCell::Text(issue_id)]);
}

/// Storing an export hash first takes those that the issue has.
pub proof fn lemma_hash_removed(
    r: Record,
    issue_id: Seq<char>,
    content_hash: Seq<char>,
    now: Instant,
)
    ensures
        drop_hash_removed(issue_id, content_hash, now).is(
            hash_statements(issue_id, content_hash, now)[0]
        ),
        drop_hash_removed(issue_id, content_hash, now).takes(r)
            <==> cell(r, "issue_id"@) == SqlCell::Text(issue_id),
{
    let d = drop_hash_removed(issue_id, content_hash, now);
    lemma_drop_hash_removed_text(issue_id, content_hash, now);
    assert(d.tests[0] == Test::Bound(col("issue_id"@), SqlCell::Text(issue_id)));
}

/// The removal that the law of the same name is about.
pub open spec fn drop_hashes_removed() -> Delete {
    Delete { table: "export_hashes"@, tests: seq![] }
}

pub(crate) proof fn lemma_drop_hashes_removed_text()
    ensures
        drop_hashes_removed().is(stmt("DELETE FROM export_hashes"@, seq![])),
{
    let d = drop_hashes_removed();
    reveal_strlit("DELETE FROM export_hashes");
    reveal_strlit("DELETE FROM ");
    reveal_strlit("export_hashes");
    reveal_with_fuel(tests_text, 1);
    reveal_with_fuel(tests_params, 1);
    assert(
        "DELETE FROM export_hashes"@ =~= "DELETE FROM "@ + d.table
            + tests_text(d.tests, over(d.table))
    );
    assert(tests_params(d.tests) =~= Seq::<SqlCell>::empty());
}

/// Clearing all export hashes takes each of them.
pub proof fn lemma_hashes_removed(r: Record)
    ensures
        drop_hashes_removed().takes(r),
{
    let d = drop_hashes_removed();
}

/// The removal that the law of the same name is about.
pub open spec fn drop_label_removed(issue_id: Seq<char>, label: Seq<char>) -> Delete {
    Delete {
        table: "labels"@,
        tests: seq![
            Test::Bound(col("issue_id"@), SqlCell::Text(issue_id)),
            Test::Bound(col("label"@), SqlCell::Text(label)),
        ],
    }
}

pub(crate) proof fn lemma_drop_label_removed_text(issue_id: Seq<char>, label: Seq<char>)
    ensures
        drop_label_removed(issue_id, label).is(
            stmt(
                "DELETE FROM labels WHERE issue_id = ? AND label = ?"@,
                seq![SqlCell::Text(issue_id), SqlCell::Text(label)],
            )
        ),
{
    let d = drop_label_removed(issue_id, label);
    reveal_strlit("DELETE FROM labels WHERE issue_id = ? AND label = ?");
    reveal_strlit("DELETE FROM ");
    reveal_strlit("labels");
    reveal_strlit(" WHERE ");
    reveal_strlit("issue_id");
    reveal_strlit(" = ?");
    reveal_strlit(" AND ");
    reveal_strlit("label");
    reveal_with_fuel(tests_text, 3);
    reveal_with_fuel(tests_params, 3);
    assert(
        tests_text(d.tests, over(d.table)) =~= " WHERE "@ + "issue_id"@ + " = ?"@ + " AND "@
            + "label"@ + " = ?"@
    );
    assert(
        "DELETE FROM labels WHERE issue_id = ? AND label = ?"@ =~= "DELETE FROM "@ + d.table
            + tests_text(d.tests, over(d.table))
    );
    assert(tests_params(d.tests) =~= seq![SqlCell::Text(issue_id), SqlCell::Text(label)]);
}

/// Removing a label from an issue takes exactly that label of that issue.
pub proof fn lemma_label_removed(r: Record, issue_id: Seq<char>, label: Seq<char>)
    ensures
        drop_label_removed(issue_id, label).is(label_delete(issue_id, label)),
        drop_label_removed(issue_id, label).takes(r)
            <==> cell(r, "issue_id"@) == SqlCell::Text(issue_id)
                && cell(r, "label"@) == SqlCell::Text(label),
{
    let d = drop_label_removed(issue_id, label);
    lemma_drop_label_removed_text(issue_id, label);
    assert(d.tests[0] == Test::Bound(col("issue_id"@), SqlCell::Text(issue_id)));
    assert(d.tests[1] == Test::Bound(col("label"@), SqlCell::Text(label)));
}

/// The removal that the law of the same name is about.
pub open spec fn drop_labels_removed(issue_id: Seq<char>) -> Delete {
    Delete { table: "labels"@, tests: seq![Test::Bound(col("issue_id"@), SqlCell::Text(issue_id))] }
}

pub(crate) proof fn lemma_drop_labels_removed_text(issue_id: Seq<char>)
    ensures
        drop_labels_removed(issue_id).is(
            stmt("DELETE FROM labels WHERE issue_id = ?"@, seq![SqlCell::Text(issue_id)])
        ),
{
    let d = drop_labels_removed(issue_id);
    reveal_strlit("DELETE FROM labels WHERE issue_id = ?");
    reveal_strlit("DELETE FROM ");
    reveal_strlit("labels");
    reveal_strlit(" WHERE ");
    reveal_strlit("issue_id");
    reveal_strlit(" = ?");
    reveal_with_fuel(tests_text, 2);
    reveal_with_fuel(tests_params, 2);
    assert(tests_text(d.tests, over(d.table)) =~= " WHERE "@ + "issue_id"@ + " = ?"@);
    assert(
        "DELETE FROM labels WHERE issue_id = ?"@ =~= "DELETE FROM "@ + d.table
            + tests_text(d.tests, over(d.table))
    );
    assert(tests_params(d.tests) =~= seq![SqlCell::Text(issue_id)]);
}

/// Removing the labels of an issue takes all of them, and no others.
pub proof fn lemma_labels_removed(r: Record, issue_id: Seq<char>)
    ensures
        drop_labels_removed(issue_id).is(labels_delete(issue_id)),
        drop_labels_removed(issue_id).takes(r) <==> cell(r, "issue_id"@) == SqlCell::Text(issue_id),
{
    let d = drop_labels_removed(issue_id);
    lemma_drop_labels_removed_text(issue_id);
    assert(d.tests[0] == Test::Bound(col("issue_id"@), SqlCell::Text(issue_id)));
}

/// The removal that the law of the same name is about.
pub open spec fn drop_issue_removed(id: Seq<char>) -> Delete {
    Delete { table: "issues"@, tests: seq![Test::Bound(col("id"@), SqlCell::Text(id))] }
}

pub(crate) proof fn lemma_drop_issue_removed_text(id: Seq<char>)
    ensures
        drop_issue_removed(id).is(stmt("DELETE FROM issues WHERE id = ?"@, seq![SqlCell::Text(id)])),
{
    let d = drop_issue_removed(id);
    reveal_strlit("DELETE FROM issues WHERE id = ?");
    reveal_strlit("DELETE FROM ");
    reveal_strlit("issues");
    reveal_strlit(" WHERE ");
    reveal_strlit("id");
    reveal_strlit(" = ?");
    reveal_with_fuel(tests_text, 2);
    reveal_with_fuel(tests_params, 2);
    assert(tests_text(d.tests, over(d.table)) =~= " WHERE "@ + "id"@ + " = ?"@);
    assert(
        "DELETE FROM issues WHERE id = ?"@ =~= "DELETE FROM "@ + d.table
            + tests_text(d.tests, over(d.table))
    );
    assert(tests_params(d.tests) =~= seq![SqlCell::Text(id)]);
}

/// An upsert first takes the issue with the same ID.
pub proof fn lemma_issue_removed(r: Record, id: Seq<char>)
    ensures
        drop_issue_removed(id).is(delete_statement(id)),
        drop_issue_removed(id).takes(r) <==> cell(r, "id"@) == SqlCell::Text(id),
{
    let d = drop_issue_removed(id);
    lemma_drop_issue_removed_text(id);
    assert(d.tests[0] == Test::Bound(col("id"@), SqlCell::Text(id)));
}

/// The removal that the law of the same name is about.
pub open spec fn drop_cache_removed() -> Delete {
    Delete { table: "blocked_issues_cache"@, tests: seq![] }
}

pub(crate) proof fn lemma_drop_cache_removed_text()
    ensures
        drop_cache_removed().is(stmt("DELETE FROM blocked_issues_cache"@, seq![])),
{
    let d = drop_cache_removed();
    reveal_strlit("DELETE FROM blocked_issues_cache");
    reveal_strlit("DELETE FROM ");
    reveal_strlit("blocked_issues_cache");
    reveal_with_fuel(tests_text, 1);
    reveal_with_fuel(tests_params, 1);
    assert(
        "DELETE FROM blocked_issues_cache"@ =~= "DELETE FROM "@ + d.table
            + tests_text(d.tests, over(d.table))
    );
    assert(tests_params(d.tests) =~= Seq::<SqlCell>::empty());
}

/// A rebuild first takes every entry of the cache.
pub proof fn lemma_cache_removed(r: Record)
    ensures
        drop_cache_removed().is(clear_statement()),
        drop_cache_removed().takes(r),
{
    let d = drop_cache_removed();
    lemma_drop_cache_removed_text();
}

/// The removal that the law of the same name is about.
pub open spec fn drop_comments_removed(issue_id: Seq<char>) -> Delete {
    Delete {
        table: "comments"@,
        tests: seq![Test::Bound(col("issue_id"@), SqlCell::Text(issue_id))],
    }
}

pub(crate) proof fn lemma_drop_comments_removed_text(issue_id: Seq<char>)
    ensures
        drop_comments_removed(issue_id).is(
            stmt("DELETE FROM comments WHERE issue_id = ?"@, seq![SqlCell::Text(issue_id)])
        ),
{
    let d = drop_comments_removed(issue_id);
    reveal_strlit("DELETE FROM comments WHERE issue_id = ?");
    reveal_strlit("DELETE FROM ");
    reveal_strlit("comments");
    reveal_strlit(" WHERE ");
    reveal_strlit("issue_id");
    reveal_strlit(" = ?");
    reveal_with_fuel(tests_text, 2);
    reveal_with_fuel(tests_params, 2);
    assert(tests_text(d.tests, over(d.table)) =~= " WHERE "@ + "issue_id"@ + " = ?"@);
    assert(
        "DELETE FROM comments WHERE issue_id = ?"@ =~= "DELETE FROM "@ + d.table
            + tests_text(d.tests, over(d.table))
    );
    assert(tests_params(d.tests) =~= seq![SqlCell::Text(issue_id)]);
}

/// An import first takes the comments of the issue.
pub proof fn lemma_comments_removed(r: Record, issue_id: Seq<char>)
    ensures
        drop_comments_removed(issue_id).takes(r)
            <==> cell(r, "issue_id"@) == SqlCell::Text(issue_id),
{
    let d = drop_comments_removed(issue_id);
    assert(d.tests[0] == Test::Bound(col("issue_id"@), SqlCell::Text(issue_id)));
}

/// The insertion that the law of the same name is about.
pub open spec fn put_cache_entry(issue_id: Seq<char>, blockers: Seq<Seq<char>>) -> Insert {
    Insert {
        word: "INSERT"@,
        table: "blocked_issues_cache"@,
        columns: seq!["issue_id"@, "blocked_by"@],
        values: seq![SqlCell::Text(issue_id), SqlCell::Text(json_of_texts(blockers))],
    }
}

#[verifier::spinoff_prover]
pub(crate) proof fn lemma_put_cache_entry_text(issue_id: Seq<char>, blockers: Seq<Seq<char>>)
    ensures
        put_cache_entry(issue_id, blockers).is(
            stmt(
                "INSERT INTO blocked_issues_cache (issue_id, blocked_by) VALUES (?, ?)"@,
                seq![SqlCell::Text(issue_id), SqlCell::Text(json_of_texts(blockers))],
            )
        ),
{
    let put = put_cache_entry(issue_id, blockers);
    reveal_strlit("INSERT INTO blocked_issues_cache (issue_id, blocked_by) VALUES (?, ?)");
    reveal_strlit("INSERT");
    reveal_strlit(" INTO ");
    reveal_strlit("blocked_issues_cache");
    reveal_strlit(" (");
    reveal_strlit(") VALUES (");
    reveal_strlit(")");
    reveal_strlit("issue_id");
    reveal_strlit(", ");
    reveal_strlit("blocked_by");
    reveal_strlit("?");
    reveal_strlit(", ?");
    reveal_with_fuel(names_text, 3);
    reveal_with_fuel(marks_text, 3);
    assert(names_text(put.columns) =~= "issue_id"@ + ", "@ + "blocked_by"@);
    assert(marks_text(put.columns.len()) =~= "?"@ + ", ?"@);
    assert(
        "INSERT INTO blocked_issues_cache (issue_id, blocked_by) VALUES (?, ?)"@ =~= "INSERT"@
            + " INTO "@ + "blocked_issues_cache"@ + " ("@ + "issue_id"@ + ", "@ + "blocked_by"@
            + ") VALUES ("@ + "?"@ + ", ?"@ + ")"@
    );
    assert(
        "INSERT INTO blocked_issues_cache (issue_id, blocked_by) VALUES (?, ?)"@ =~= put.word
            + " INTO "@ + put.table + " ("@ + names_text(put.columns) + ") VALUES ("@
            + marks_text(put.columns.len()) + ")"@
    );
}

/// An entry of the cache holds the blocked issue and the list of what blocks it.
pub proof fn lemma_cache_entry(r: Record, issue_id: Seq<char>, blockers: Seq<Seq<char>>)
    requires
        put_cache_entry(issue_id, blockers).writes(r),
    ensures
        put_cache_entry(issue_id, blockers).is(cache_insert(issue_id, blockers)),
        cell(r, "issue_id"@) == SqlCell::Text(issue_id),
        cell(r, "blocked_by"@) == SqlCell::Text(json_of_texts(blockers)),
{
    let put = put_cache_entry(issue_id, blockers);
    lemma_put_cache_entry_text(issue_id, blockers);
    assert(put.columns[0] == "issue_id"@);
    assert(put.columns[1] == "blocked_by"@);
}

/// The insertion that the law of the same name is about.
pub open spec fn put_imported_comment(issue_id: Seq<char>, c: CommentView) -> Insert {
    Insert {
        word: "INSERT OR REPLACE"@,
        table: "comments"@,
        columns: seq!["id"@, "issue_id"@, "author"@, "text"@, "created_at"@],
        values: seq![
            SqlCell::Integer(c.id),
            SqlCell::Text(issue_id),
            SqlCell::Text(c.author),
            SqlCell::Text(c.body),
            SqlCell::Text(rfc3339(c.created_at)),
        ],
    }
}

#[verifier::spinoff_prover]
pub(crate) proof fn lemma_put_imported_comment_text(issue_id: Seq<char>, c: CommentView)
    ensures
        put_imported_comment(issue_id, c).is(
            stmt(
                "INSERT OR REPLACE INTO comments (id, issue_id, author, text, created_at) VALUES (?, ?, ?, ?, ?)"@,
                seq![
                    SqlCell::Integer(c.id),
                    SqlCell::Text(issue_id),
                    SqlCell::Text(c.author),
                    SqlCell::Text(c.body),
                    SqlCell::Text(rfc3339(c.created_at)),
                ],
            )
        ),
{
    let put = put_imported_comment(issue_id, c);
    reveal_strlit(
        "INSERT OR REPLACE INTO comments (id, issue_id, author, text, created_at) VALUES (?, ?, ?, ?, ?)"
    );
    reveal_strlit("INSERT OR REPLACE");
    reveal_strlit(" INTO ");
    reveal_strlit("comments");
    reveal_strlit(" (");
    reveal_strlit(") VALUES (");
    reveal_strlit(")");
    reveal_strlit("id");
    reveal_strlit(", ");
    reveal_strlit("issue_id");
    reveal_strlit("author");
    reveal_strlit("text");
    reveal_strlit("created_at");
    reveal_strlit("?");
    reveal_strlit(", ?");
    reveal_with_fuel(names_text, 6);
    reveal_with_fuel(marks_text, 6);
    assert(
        names_text(put.columns) =~= "id"@ + ", "@ + "issue_id"@ + ", "@ + "author"@ + ", "@
            + "text"@ + ", "@ + "created_at"@
    );
    assert(marks_text(put.columns.len()) =~= "?"@ + ", ?"@ + ", ?"@ + ", ?"@ + ", ?"@);
    assert(
        "INSERT OR REPLACE INTO comments (id, issue_id, author, text, created_at) VALUES (?, ?, ?, ?, ?)"@
            =~= "INSERT OR REPLACE"@
            + " INTO "@ + "comments"@ + " ("@ + "id"@ + ", "@ + "issue_id"@ + ", "@ + "author"@
            + ", "@ + "text"@ + ", "@ + "created_at"@ + ") VALUES ("@ + "?"@ + ", ?"@ + ", ?"@
            + ", ?"@ + ", ?"@ + ")"@
    );
    assert(
        "INSERT OR REPLACE INTO comments (id, issue_id, author, text, created_at) VALUES (?, ?, ?, ?, ?)"@ =~= put.word
            + " INTO "@ + put.table + " ("@ + names_text(put.columns) + ") VALUES ("@
            + marks_text(put.columns.len()) + ")"@
    );
}

/// An imported comment is written with its ID, author, text and date, for the importing issue.
pub proof fn lemma_imported_comment(r: Record, issue_id: Seq<char>, c: CommentView)
    requires
        put_imported_comment(issue_id, c).writes(r),
    ensures
        put_imported_comment(issue_id, c).is(import_comment(issue_id, c)),
        cell(r, "id"@) == SqlCell::Integer(c.id),
        cell(r, "issue_id"@) == SqlCell::Text(issue_id),
        cell(r, "author"@) == SqlCell::Text(c.author),
        cell(r, "text"@) == SqlCell::Text(c.body),
        cell(r, "created_at"@) == SqlCell::Text(rfc3339(c.created_at)),
{
    let put = put_imported_comment(issue_id, c);
    lemma_put_imported_comment_text(issue_id, c);
    assert(put.columns[0] == "id"@);
    assert(put.columns[1] == "issue_id"@);
    assert(put.columns[2] == "author"@);
    assert(put.columns[3] == "text"@);
    assert(put.columns[4] == "created_at"@);
}

/// The insertion that the law of the same name is about.
pub open spec fn put_new_comment(issue_id: Seq<char>, c: CommentView) -> Insert {
    Insert {
        word: "INSERT"@,
        table: "comments"@,
        columns: seq!["issue_id"@, "author"@, "text"@, "created_at"@],
        values: seq![
            SqlCell::Text(issue_id),
            SqlCell::Text(c.author),
            SqlCell::Text(c.body),
            SqlCell::Text(rfc3339(c.created_at)),
        ],
    }
}

#[verifier::spinoff_prover]
pub(crate) proof fn lemma_put_new_comment_text(issue_id: Seq<char>, c: CommentView)
    ensures
        put_new_comment(issue_id, c).is(
            stmt(
                "INSERT INTO comments (issue_id, author, text, created_at) VALUES (?, ?, ?, ?)"@,
                seq![
                    SqlCell::Text(issue_id),
                    SqlCell::Text(c.author),
                    SqlCell::Text(c.body),
                    SqlCell::Text(rfc3339(c.created_at)),
                ],
            )
        ),
{
    let put = put_new_comment(issue_id, c);
    reveal_strlit("INSERT INTO comments (issue_id, author, text, created_at) VALUES (?, ?, ?, ?)");
    reveal_strlit("INSERT");
    reveal_strlit(" INTO ");
    reveal_strlit("comments");
    reveal_strlit(" (");
    reveal_strlit(") VALUES (");
    reveal_strlit(")");
    reveal_strlit("issue_id");
    reveal_strlit(", ");
    reveal_strlit("author");
    reveal_strlit("text");
    reveal_strlit("created_at");
    reveal_strlit("?");
    reveal_strlit(", ?");
    reveal_with_fuel(names_text, 5);
    reveal_with_fuel(marks_text, 5);
    assert(
        names_text(put.columns) =~= "issue_id"@ + ", "@ + "author"@ + ", "@ + "text"@ + ", "@
            + "created_at"@
    );
    assert(marks_text(put.columns.len()) =~= "?"@ + ", ?"@ + ", ?"@ + ", ?"@);
    assert(
        "INSERT INTO comments (issue_id, author, text, created_at) VALUES (?, ?, ?, ?)"@
            =~= "INSERT"@
            + " INTO "@ + "comments"@ + " ("@ + "issue_id"@ + ", "@ + "author"@ + ", "@ + "text"@
            + ", "@ + "created_at"@ + ") VALUES ("@ + "?"@ + ", ?"@ + ", ?"@ + ", ?"@ + ")"@
    );
    assert(
        "INSERT INTO comments (issue_id, author, text, created_at) VALUES (?, ?, ?, ?)"@ =~= put.word
            + " INTO "@ + put.table + " ("@ + names_text(put.columns) + ") VALUES ("@
            + marks_text(put.columns.len()) + ")"@
    );
}

/// A comment of a new issue is written with its author, text and date.
pub proof fn lemma_new_comment(r: Record, issue_id: Seq<char>, c: CommentView)
    requires
        put_new_comment(issue_id, c).writes(r),
    ensures
        comment_step(issue_id, c) matches StepView::Run(s) && put_new_comment(issue_id, c).is(s),
        cell(r, "issue_id"@) == SqlCell::Text(issue_id),
        cell(r, "author"@) == SqlCell::Text(c.author),
        cell(r, "text"@) == SqlCell::Text(c.body),
        cell(r, "created_at"@) == SqlCell::Text(rfc3339(c.created_at)),
{
    let put = put_new_comment(issue_id, c);
    lemma_put_new_comment_text(issue_id, c);
    assert(put.columns[0] == "issue_id"@);
    assert(put.columns[1] == "author"@);
    assert(put.columns[2] == "text"@);
    assert(put.columns[3] == "created_at"@);
}

/// The insertion that the law of the same name is about.
pub open spec fn put_label_added(issue_id: Seq<char>, label: Seq<char>) -> Insert {
    Insert {
        word: "INSERT"@,
        table: "labels"@,
        columns: seq!["issue_id"@, "label"@],
        values: seq![SqlCell::Text(issue_id), SqlCell::Text(label)],
    }
}

#[verifier::spinoff_prover]
pub(crate) proof fn lemma_put_label_added_text(issue_id: Seq<char>, label: Seq<char>)
    ensures
        put_label_added(issue_id, label).is(
            stmt(
                "INSERT INTO labels (issue_id, label) VALUES (?, ?)"@,
                seq![SqlCell::Text(issue_id), SqlCell::Text(label)],
            )
        ),
{
    let put = put_label_added(issue_id, label);
    reveal_strlit("INSERT INTO labels (issue_id, label) VALUES (?, ?)");
    reveal_strlit("INSERT");
    reveal_strlit(" INTO ");
    reveal_strlit("labels");
    reveal_strlit(" (");
    reveal_strlit(") VALUES (");
    reveal_strlit(")");
    reveal_strlit("issue_id");
    reveal_strlit(", ");
    reveal_strlit("label");
    reveal_strlit("?");
    reveal_strlit(", ?");
    reveal_with_fuel(names_text, 3);
    reveal_with_fuel(marks_text, 3);
    assert(names_text(put.columns) =~= "issue_id"@ + ", "@ + "label"@);
    assert(marks_text(put.columns.len()) =~= "?"@ + ", ?"@);
    assert(
        "INSERT INTO labels (issue_id, label) VALUES (?, ?)"@ =~= "INSERT"@ + " INTO "@ + "labels"@
            + " ("@ + "issue_id"@ + ", "@ + "label"@ + ") VALUES ("@ + "?"@ + ", ?"@ + ")"@
    );
    assert(
        "INSERT INTO labels (issue_id, label) VALUES (?, ?)"@ =~= put.word + " INTO "@ + put.table
            + " ("@ + names_text(put.columns) + ") VALUES ("@ + marks_text(put.columns.len()) + ")"@
    );
}

/// A label is written with its issue.
pub proof fn lemma_label_added(r: Record, issue_id: Seq<char>, label: Seq<char>)
    requires
        put_label_added(issue_id, label).writes(r),
    ensures
        put_label_added(issue_id, label).is(label_insert(issue_id, label)),
        label_step(issue_id, label) matches StepView::Run(s)
            && put_label_added(issue_id, label).is(s),
        cell(r, "issue_id"@) == SqlCell::Text(issue_id),
        cell(r, "label"@) == SqlCell::Text(label),
{
    let put = put_label_added(issue_id, label);
    lemma_put_label_added_text(issue_id, label);
    assert(put.columns[0] == "issue_id"@);
    assert(put.columns[1] == "label"@);
}

/// The insertion that the law of the same name is about.
pub open spec fn put_dependency_added(
    issue_id: Seq<char>,
    depends_on_id: Seq<char>,
    dep_type: Seq<char>,
    actor: Seq<char>,
    now: Instant,
) -> Insert {
    Insert {
        word: "INSERT"@,
        table: "dependencies"@,
        columns: seq!["issue_id"@, "depends_on_id"@, "type"@, "created_at"@, "created_by"@],
        values: seq![
            SqlCell::Text(issue_id),
            SqlCell::Text(depends_on_id),
            SqlCell::Text(dep_type),
            SqlCell::Text(rfc3339(now)),
            SqlCell::Text(actor),
        ],
    }
}

#[verifier::spinoff_prover]
pub(crate) proof fn lemma_put_dependency_added_text(
    issue_id: Seq<char>,
    depends_on_id: Seq<char>,
    dep_type: Seq<char>,
    actor: Seq<char>,
    now: Instant,
)
    ensures
        put_dependency_added(issue_id, depends_on_id, dep_type, actor, now).is(
            stmt(
                "INSERT INTO dependencies (issue_id, depends_on_id, type, created_at, created_by) VALUES (?, ?, ?, ?, ?)"@,
                seq![
                    SqlCell::Text(issue_id),
                    SqlCell::Text(depends_on_id),
                    SqlCell::Text(dep_type),
                    SqlCell::Text(rfc3339(now)),
                    SqlCell::Text(actor),
                ],
            )
        ),
{
    let put = put_dependency_added(issue_id, depends_on_id, dep_type, actor, now);
    reveal_strlit(
        "INSERT INTO dependencies (issue_id, depends_on_id, type, created_at, created_by) VALUES (?, ?, ?, ?, ?)"
    );
    reveal_strlit("INSERT");
    reveal_strlit(" INTO ");
    reveal_strlit("dependencies");
    reveal_strlit(" (");
    reveal_strlit(") VALUES (");
    reveal_strlit(")");
    reveal_strlit("issue_id");
    reveal_strlit(", ");
    reveal_strlit("depends_on_id");
    reveal_strlit("type");
    reveal_strlit("created_at");
    reveal_strlit("created_by");
    reveal_strlit("?");
    reveal_strlit(", ?");
    reveal_with_fuel(names_text, 6);
    reveal_with_fuel(marks_text, 6);
    assert(
        names_text(put.columns) =~= "issue_id"@ + ", "@ + "depends_on_id"@ + ", "@ + "type"@ + ", "@
            + "created_at"@ + ", "@ + "created_by"@
    );
    assert(marks_text(put.columns.len()) =~= "?"@ + ", ?"@ + ", ?"@ + ", ?"@ + ", ?"@);
    assert(
        "INSERT INTO dependencies (issue_id, depends_on_id, type, created_at, created_by) VALUES (?, ?, ?, ?, ?)"@
            =~= "INSERT"@
            + " INTO "@ + "dependencies"@ + " ("@ + "issue_id"@ + ", "@ + "depends_on_id"@ + ", "@
            + "type"@ + ", "@ + "created_at"@ + ", "@ + "created_by"@ + ") VALUES ("@ + "?"@
            + ", ?"@ + ", ?"@ + ", ?"@ + ", ?"@ + ")"@
    );
    assert(
        "INSERT INTO dependencies (issue_id, depends_on_id, type, created_at, created_by) VALUES (?, ?, ?, ?, ?)"@ =~= put.word
            + " INTO "@ + put.table + " ("@ + names_text(put.columns) + ") VALUES ("@
            + marks_text(put.columns.len()) + ")"@
    );
}

/// A dependency that is added holds who depends on whom, its type, when it was made and by whom.
pub proof fn lemma_dependency_added(
    r: Record,
    issue_id: Seq<char>,
    depends_on_id: Seq<char>,
    dep_type: Seq<char>,
    actor: Seq<char>,
    now: Instant,
)
    requires
        put_dependency_added(issue_id, depends_on_id, dep_type, actor, now).writes(r),
    ensures
        put_dependency_added(issue_id, depends_on_id, dep_type, actor, now).is(
            dependency_insert(issue_id, depends_on_id, dep_type, actor, now)
        ),
        cell(r, "issue_id"@) == SqlCell::Text(issue_id),
        cell(r, "depends_on_id"@) == SqlCell::Text(depends_on_id),
        cell(r, "type"@) == SqlCell::Text(dep_type),
        cell(r, "created_at"@) == SqlCell::Text(rfc3339(now)),
        cell(r, "created_by"@) == SqlCell::Text(actor),
{
    let put = put_dependency_added(issue_id, depends_on_id, dep_type, actor, now);
    lemma_put_dependency_added_text(issue_id, depends_on_id, dep_type, actor, now);
    assert(put.columns[0] == "issue_id"@);
    assert(put.columns[1] == "depends_on_id"@);
    assert(put.columns[2] == "type"@);
    assert(put.columns[3] == "created_at"@);
    assert(put.columns[4] == "created_by"@);
}

/// The insertion that the law of the same name is about.
pub open spec fn put_new_dependency(
    issue_id: Seq<char>,
    d: DependencyView,
    actor: Seq<char>,
) -> Insert {
    Insert {
        word: "INSERT"@,
        table: "dependencies"@,
        columns: seq!["issue_id"@, "depends_on_id"@, "type"@, "created_at"@, "created_by"@],
        values: seq![
            SqlCell::Text(issue_id),
            SqlCell::Text(d.depends_on_id),
            SqlCell::Text(d.dep_type.name()),
            SqlCell::Text(rfc3339(d.created_at)),
            cell_or(d.created_by, actor),
        ],
    }
}

#[verifier::spinoff_prover]
pub(crate) proof fn lemma_put_new_dependency_text(
    issue_id: Seq<char>,
    d: DependencyView,
    actor: Seq<char>,
)
    ensures
        put_new_dependency(issue_id, d, actor).is(
            stmt(
                "INSERT INTO dependencies (issue_id, depends_on_id, type, created_at, created_by) VALUES (?, ?, ?, ?, ?)"@,
                seq![
                    SqlCell::Text(issue_id),
                    SqlCell::Text(d.depends_on_id),
                    SqlCell::Text(d.dep_type.name()),
                    SqlCell::Text(rfc3339(d.created_at)),
                    cell_or(d.created_by, actor),
                ],
            )
        ),
{
    let put = put_new_dependency(issue_id, d, actor);
    reveal_strlit(
        "INSERT INTO dependencies (issue_id, depends_on_id, type, created_at, created_by) VALUES (?, ?, ?, ?, ?)"
    );
    reveal_strlit("INSERT");
    reveal_strlit(" INTO ");
    reveal_strlit("dependencies");
    reveal_strlit(" (");
    reveal_strlit(") VALUES (");
    reveal_strlit(")");
    reveal_strlit("issue_id");
    reveal_strlit(", ");
    reveal_strlit("depends_on_id");
    reveal_strlit("type");
    reveal_strlit("created_at");
    reveal_strlit("created_by");
    reveal_strlit("?");
    reveal_strlit(", ?");
    reveal_with_fuel(names_text, 6);
    reveal_with_fuel(marks_text, 6);
    assert(
        names_text(put.columns) =~= "issue_id"@ + ", "@ + "depends_on_id"@ + ", "@ + "type"@ + ", "@
            + "created_at"@ + ", "@ + "created_by"@
    );
    assert(marks_text(put.columns.len()) =~= "?"@ + ", ?"@ + ", ?"@ + ", ?"@ + ", ?"@);
    assert(
        "INSERT INTO dependencies (issue_id, depends_on_id, type, created_at, created_by) VALUES (?, ?, ?, ?, ?)"@
            =~= "INSERT"@
            + " INTO "@ + "dependencies"@ + " ("@ + "issue_id"@ + ", "@ + "depends_on_id"@ + ", "@
            + "type"@ + ", "@ + "created_at"@ + ", "@ + "created_by"@ + ") VALUES ("@ + "?"@
            + ", ?"@ + ", ?"@ + ", ?"@ + ", ?"@ + ")"@
    );
    assert(
        "INSERT INTO dependencies (issue_id, depends_on_id, type, created_at, created_by) VALUES (?, ?, ?, ?, ?)"@ =~= put.word
            + " INTO "@ + put.table + " ("@ + names_text(put.columns) + ") VALUES ("@
            + marks_text(put.columns.len()) + ")"@
    );
}

/// A dependency of a new issue is written as that issue's, with what it depends on, its type and
/// date, and its author or else the one who creates the issue.
pub proof fn lemma_new_dependency(
    r: Record,
    issue_id: Seq<char>,
    d: DependencyView,
    actor: Seq<char>,
)
    requires
        put_new_dependency(issue_id, d, actor).writes(r),
    ensures
        dependency_steps(issue_id, d, actor).last() matches StepView::Run(s)
            && put_new_dependency(issue_id, d, actor).is(s),
        cell(r, "issue_id"@) == SqlCell::Text(issue_id),
        cell(r, "depends_on_id"@) == SqlCell::Text(d.depends_on_id),
        cell(r, "type"@) == SqlCell::Text(d.dep_type.name()),
        cell(r, "created_at"@) == SqlCell::Text(rfc3339(d.created_at)),
        cell(r, "created_by"@) == cell_or(d.created_by, actor),
{
    let put = put_new_dependency(issue_id, d, actor);
    lemma_put_new_dependency_text(issue_id, d, actor);
    assert(put.columns[0] == "issue_id"@);
    assert(put.columns[1] == "depends_on_id"@);
    assert(put.columns[2] == "type"@);
    assert(put.columns[3] == "created_at"@);
    assert(put.columns[4] == "created_by"@);
}

/// The insertion that the law of the same name is about.
pub open spec fn put_imported_dependency(issue_id: Seq<char>, d: DependencyView) -> Insert {
    Insert {
        word: "INSERT OR IGNORE"@,
        table: "dependencies"@,
        columns: seq![
            "issue_id"@,
            "depends_on_id"@,
            "type"@,
            "created_at"@,
            "created_by"@,
            "metadata"@,
            "thread_id"@,
        ],
        values: seq![
            SqlCell::Text(issue_id),
            SqlCell::Text(d.depends_on_id),
            SqlCell::Text(d.dep_type.name()),
            SqlCell::Text(rfc3339(d.created_at)),
            cell_or(d.created_by, "import"@),
            cell_or(d.metadata, "{}"@),
            cell_or(d.thread_id, ""@),
        ],
    }
}

#[verifier::spinoff_prover]
pub(crate) proof fn lemma_put_imported_dependency_text(issue_id: Seq<char>, d: DependencyView)
    ensures
        put_imported_dependency(issue_id, d).is(
            stmt(
                "INSERT OR IGNORE INTO dependencies (issue_id, depends_on_id, type, created_at, created_by, metadata, thread_id) VALUES (?, ?, ?, ?, ?, ?, ?)"@,
                seq![
                    SqlCell::Text(issue_id),
                    SqlCell::Text(d.depends_on_id),
                    SqlCell::Text(d.dep_type.name()),
                    SqlCell::Text(rfc3339(d.created_at)),
                    cell_or(d.created_by, "import"@),
                    cell_or(d.metadata, "{}"@),
                    cell_or(d.thread_id, ""@),
                ],
            )
        ),
{
    let put = put_imported_dependency(issue_id, d);
    reveal_strlit(
        "INSERT OR IGNORE INTO dependencies (issue_id, depends_on_id, type, created_at, created_by, metadata, thread_id) VALUES (?, ?, ?, ?, ?, ?, ?)"
    );
    reveal_strlit("INSERT OR IGNORE");
    reveal_strlit(" INTO ");
    reveal_strlit("dependencies");
    reveal_strlit(" (");
    reveal_strlit(") VALUES (");
    reveal_strlit(")");
    reveal_strlit("issue_id");
    reveal_strlit(", ");
    reveal_strlit("depends_on_id");
    reveal_strlit("type");
    reveal_strlit("created_at");
    reveal_strlit("created_by");
    reveal_strlit("metadata");
    reveal_strlit("thread_id");
    reveal_strlit("?");
    reveal_strlit(", ?");
    reveal_with_fuel(names_text, 8);
    reveal_with_fuel(marks_text, 8);
    assert(
        names_text(put.columns) =~= "issue_id"@ + ", "@ + "depends_on_id"@ + ", "@ + "type"@ + ", "@
            + "created_at"@ + ", "@ + "created_by"@ + ", "@ + "metadata"@ + ", "@ + "thread_id"@
    );
    assert(
        marks_text(put.columns.len()) =~= "?"@ + ", ?"@ + ", ?"@ + ", ?"@ + ", ?"@ + ", ?"@ + ", ?"@
    );
    assert(
        "INSERT OR IGNORE INTO dependencies (issue_id, depends_on_id, type, created_at, created_by, metadata, thread_id) VALUES (?, ?, ?, ?, ?, ?, ?)"@
            =~= "INSERT OR IGNORE"@
            + " INTO "@ + "dependencies"@ + " ("@ + "issue_id"@ + ", "@ + "depends_on_id"@ + ", "@
            + "type"@ + ", "@ + "created_at"@ + ", "@ + "created_by"@ + ", "@ + "metadata"@ + ", "@
            + "thread_id"@ + ") VALUES ("@ + "?"@ + ", ?"@ + ", ?"@ + ", ?"@ + ", ?"@ + ", ?"@
            + ", ?"@ + ")"@
    );
    assert(
        "INSERT OR IGNORE INTO dependencies (issue_id, depends_on_id, type, created_at, created_by, metadata, thread_id) VALUES (?, ?, ?, ?, ?, ?, ?)"@ =~= put.word
            + " INTO "@ + put.table + " ("@ + names_text(put.columns) + ") VALUES ("@
            + marks_text(put.columns.len()) + ")"@
    );
}

/// An imported dependency is written as the importing issue's, with all that it holds.
pub proof fn lemma_imported_dependency(r: Record, issue_id: Seq<char>, d: DependencyView)
    requires
        put_imported_dependency(issue_id, d).writes(r),
    ensures
        put_imported_dependency(issue_id, d).is(import_dependency(issue_id, d)),
        cell(r, "issue_id"@) == SqlCell::Text(issue_id),
        cell(r, "depends_on_id"@) == SqlCell::Text(d.depends_on_id),
        cell(r, "type"@) == SqlCell::Text(d.dep_type.name()),
        cell(r, "created_at"@) == SqlCell::Text(rfc3339(d.created_at)),
        cell(r, "created_by"@) == cell_or(d.created_by, "import"@),
        cell(r, "metadata"@) == cell_or(d.metadata, "{}"@),
        cell(r, "thread_id"@) == cell_or(d.thread_id, ""@),
{
    let put = put_imported_dependency(issue_id, d);
    lemma_put_imported_dependency_text(issue_id, d);
    assert(put.columns[0] == "issue_id"@);
    assert(put.columns[1] == "depends_on_id"@);
    assert(put.columns[2] == "type"@);
    assert(put.columns[3] == "created_at"@);
    assert(put.columns[4] == "created_by"@);
    assert(put.columns[5] == "metadata"@);
    assert(put.columns[6] == "thread_id"@);
}

/// The insertion that the law of the same name is about.
pub open spec fn put_event(e: EventView) -> Insert {
    Insert {
        word: "INSERT"@,
        table: "events"@,
        columns: seq![
            "issue_id"@,
            "event_type"@,
            "actor"@,
            "old_value"@,
            "new_value"@,
            "comment"@,
            "created_at"@,
        ],
        values: seq![
            SqlCell::Text(e.issue_id),
            SqlCell::Text(e.event_type.name()),
            SqlCell::Text(e.actor),
            cell_of_opt(e.old_value),
            cell_of_opt(e.new_value),
            cell_of_opt(e.comment),
            SqlCell::Text(rfc3339(e.created_at)),
        ],
    }
}

#[verifier::spinoff_prover]
pub(crate) proof fn lemma_put_event_text(e: EventView)
    ensures
        put_event(e).is(
            stmt(
                "INSERT INTO events (issue_id, event_type, actor, old_value, new_value, comment, created_at) VALUES (?, ?, ?, ?, ?, ?, ?)"@,
                seq![
                    SqlCell::Text(e.issue_id),
                    SqlCell::Text(e.event_type.name()),
                    SqlCell::Text(e.actor),
                    cell_of_opt(e.old_value),
                    cell_of_opt(e.new_value),
                    cell_of_opt(e.comment),
                    SqlCell::Text(rfc3339(e.created_at)),
                ],
            )
        ),
{
    let put = put_event(e);
    reveal_strlit(
        "INSERT INTO events (issue_id, event_type, actor, old_value, new_value, comment, created_at) VALUES (?, ?, ?, ?, ?, ?, ?)"
    );
    reveal_strlit("INSERT");
    reveal_strlit(" INTO ");
    reveal_strlit("events");
    reveal_strlit(" (");
    reveal_strlit(") VALUES (");
    reveal_strlit(")");
    reveal_strlit("issue_id");
    reveal_strlit(", ");
    reveal_strlit("event_type");
    reveal_strlit("actor");
    reveal_strlit("old_value");
    reveal_strlit("new_value");
    reveal_strlit("comment");
    reveal_strlit("created_at");
    reveal_strlit("?");
    reveal_strlit(", ?");
    reveal_with_fuel(names_text, 8);
    reveal_with_fuel(marks_text, 8);
    assert(
        names_text(put.columns) =~= "issue_id"@ + ", "@ + "event_type"@ + ", "@ + "actor"@ + ", "@
            + "old_value"@ + ", "@ + "new_value"@ + ", "@ + "comment"@ + ", "@ + "created_at"@
    );
    assert(
        marks_text(put.columns.len()) =~= "?"@ + ", ?"@ + ", ?"@ + ", ?"@ + ", ?"@ + ", ?"@ + ", ?"@
    );
    assert(
        "INSERT INTO events (issue_id, event_type, actor, old_value, new_value, comment, created_at) VALUES (?, ?, ?, ?, ?, ?, ?)"@
            =~= "INSERT"@
            + " INTO "@ + "events"@ + " ("@ + "issue_id"@ + ", "@ + "event_type"@ + ", "@ + "actor"@
            + ", "@ + "old_value"@ + ", "@ + "new_value"@ + ", "@ + "comment"@ + ", "@
            + "created_at"@ + ") VALUES ("@ + "?"@ + ", ?"@ + ", ?"@ + ", ?"@ + ", ?"@ + ", ?"@
            + ", ?"@ + ")"@
    );
    assert(
        "INSERT INTO events (issue_id, event_type, actor, old_value, new_value, comment, created_at) VALUES (?, ?, ?, ?, ?, ?, ?)"@ =~= put.word
            + " INTO "@ + put.table + " ("@ + names_text(put.columns) + ") VALUES ("@
            + marks_text(put.columns.len()) + ")"@
    );
}

/// Each field of an event is written to the column of its name.
pub proof fn lemma_event(r: Record, e: EventView)
    requires
        put_event(e).writes(r),
    ensures
        put_event(e).is(event_insert(e)),
        cell(r, "issue_id"@) == SqlCell::Text(e.issue_id),
        cell(r, "event_type"@) == SqlCell::Text(e.event_type.name()),
        cell(r, "actor"@) == SqlCell::Text(e.actor),
        cell(r, "old_value"@) == cell_of_opt(e.old_value),
        cell(r, "new_value"@) == cell_of_opt(e.new_value),
        cell(r, "comment"@) == cell_of_opt(e.comment),
        cell(r, "created_at"@) == SqlCell::Text(rfc3339(e.created_at)),
{
    let put = put_event(e);
    lemma_put_event_text(e);
    assert(put.columns[0] == "issue_id"@);
    assert(put.columns[1] == "event_type"@);
    assert(put.columns[2] == "actor"@);
    assert(put.columns[3] == "old_value"@);
    assert(put.columns[4] == "new_value"@);
    assert(put.columns[5] == "comment"@);
    assert(put.columns[6] == "created_at"@);
}

/// The insertion that the law of the same name is about.
pub open spec fn put_dirty_mark(issue_id: Seq<char>, now: Instant) -> Insert {
    Insert {
        word: "INSERT"@,
        table: "dirty_issues"@,
        columns: seq!["issue_id"@, "marked_at"@],
        values: seq![SqlCell::Text(issue_id), SqlCell::Text(rfc3339(now))],
    }
}

#[verifier::spinoff_prover]
pub(crate) proof fn lemma_put_dirty_mark_text(issue_id: Seq<char>, now: Instant)
    ensures
        put_dirty_mark(issue_id, now).is(
            stmt(
                "INSERT INTO dirty_issues (issue_id, marked_at) VALUES (?, ?)"@,
                seq![SqlCell::Text(issue_id), SqlCell::Text(rfc3339(now))],
            )
        ),
{
    let put = put_dirty_mark(issue_id, now);
    reveal_strlit("INSERT INTO dirty_issues (issue_id, marked_at) VALUES (?, ?)");
    reveal_strlit("INSERT");
    reveal_strlit(" INTO ");
    reveal_strlit("dirty_issues");
    reveal_strlit(" (");
    reveal_strlit(") VALUES (");
    reveal_strlit(")");
    reveal_strlit("issue_id");
    reveal_strlit(", ");
    reveal_strlit("marked_at");
    reveal_strlit("?");
    reveal_strlit(", ?");
    reveal_with_fuel(names_text, 3);
    reveal_with_fuel(marks_text, 3);
    assert(names_text(put.columns) =~= "issue_id"@ + ", "@ + "marked_at"@);
    assert(marks_text(put.columns.len()) =~= "?"@ + ", ?"@);
    assert(
        "INSERT INTO dirty_issues (issue_id, marked_at) VALUES (?, ?)"@ =~= "INSERT"@ + " INTO "@
            + "dirty_issues"@ + " ("@ + "issue_id"@ + ", "@ + "marked_at"@ + ") VALUES ("@ + "?"@
            + ", ?"@ + ")"@
    );
    assert(
        "INSERT INTO dirty_issues (issue_id, marked_at) VALUES (?, ?)"@ =~= put.word + " INTO "@
            + put.table + " ("@ + names_text(put.columns) + ") VALUES ("@
            + marks_text(put.columns.len()) + ")"@
    );
}

/// A dirty mark holds the issue and when it was marked.
pub proof fn lemma_dirty_mark(r: Record, issue_id: Seq<char>, now: Instant)
    requires
        put_dirty_mark(issue_id, now).writes(r),
    ensures
        put_dirty_mark(issue_id, now).is(dirty_marks(issue_id, now)[1]),
        cell(r, "issue_id"@) == SqlCell::Text(issue_id),
        cell(r, "marked_at"@) == SqlCell::Text(rfc3339(now)),
{
    let put = put_dirty_mark(issue_id, now);
    lemma_put_dirty_mark_text(issue_id, now);
    assert(put.columns[0] == "issue_id"@);
    assert(put.columns[1] == "marked_at"@);
}

/// The insertion that the law of the same name is about.
pub open spec fn put_config_entry(key: Seq<char>, value: Seq<char>) -> Insert {
    Insert {
        word: "INSERT"@,
        table: "config"@,
        columns: seq!["key"@, "value"@],
        values: seq![SqlCell::Text(key), SqlCell::Text(value)],
    }
}

#[verifier::spinoff_prover]
pub(crate) proof fn lemma_put_config_entry_text(key: Seq<char>, value: Seq<char>)
    ensures
        put_config_entry(key, value).is(
            stmt(
                "INSERT INTO config (key, value) VALUES (?, ?)"@,
                seq![SqlCell::Text(key), SqlCell::Text(value)],
            )
        ),
{
    let put = put_config_entry(key, value);
    reveal_strlit("INSERT INTO config (key, value) VALUES (?, ?)");
    reveal_strlit("INSERT");
    reveal_strlit(" INTO ");
    reveal_strlit("config");
    reveal_strlit(" (");
    reveal_strlit(") VALUES (");
    reveal_strlit(")");
    reveal_strlit("key");
    reveal_strlit(", ");
    reveal_strlit("value");
    reveal_strlit("?");
    reveal_strlit(", ?");
    reveal_with_fuel(names_text, 3);
    reveal_with_fuel(marks_text, 3);
    assert(names_text(put.columns) =~= "key"@ + ", "@ + "value"@);
    assert(marks_text(put.columns.len()) =~= "?"@ + ", ?"@);
    assert(
        "INSERT INTO config (key, value) VALUES (?, ?)"@ =~= "INSERT"@ + " INTO "@ + "config"@
            + " ("@ + "key"@ + ", "@ + "value"@ + ") VALUES ("@ + "?"@ + ", ?"@ + ")"@
    );
    assert(
        "INSERT INTO config (key, value) VALUES (?, ?)"@ =~= put.word + " INTO "@ + put.table
            + " ("@ + names_text(put.columns) + ") VALUES ("@ + marks_text(put.columns.len()) + ")"@
    );
}

/// A setting is stored under its key.
pub proof fn lemma_config_entry(r: Record, key: Seq<char>, value: Seq<char>)
    requires
        put_config_entry(key, value).writes(r),
    ensures
        cell(r, "key"@) == SqlCell::Text(key),
        cell(r, "value"@) == SqlCell::Text(value),
{
    let put = put_config_entry(key, value);
    assert(put.columns[0] == "key"@);
    assert(put.columns[1] == "value"@);
}

/// The insertion that the law of the same name is about.
pub open spec fn put_metadata_entry(key: Seq<char>, value: Seq<char>) -> Insert {
    Insert {
        word: "INSERT"@,
        table: "metadata"@,
        columns: seq!["key"@, "value"@],
        values: seq![SqlCell::Text(key), SqlCell::Text(value)],
    }
}

#[verifier::spinoff_prover]
pub(crate) proof fn lemma_put_metadata_entry_text(key: Seq<char>, value: Seq<char>)
    ensures
        put_metadata_entry(key, value).is(
            stmt(
                "INSERT INTO metadata (key, value) VALUES (?, ?)"@,
                seq![SqlCell::Text(key), SqlCell::Text(value)],
            )
        ),
{
    let put = put_metadata_entry(key, value);
    reveal_strlit("INSERT INTO metadata (key, value) VALUES (?, ?)");
    reveal_strlit("INSERT");
    reveal_strlit(" INTO ");
    reveal_strlit("metadata");
    reveal_strlit(" (");
    reveal_strlit(") VALUES (");
    reveal_strlit(")");
    reveal_strlit("key");
    reveal_strlit(", ");
    reveal_strlit("value");
    reveal_strlit("?");
    reveal_strlit(", ?");
    reveal_with_fuel(names_text, 3);
    reveal_with_fuel(marks_text, 3);
    assert(names_text(put.columns) =~= "key"@ + ", "@ + "value"@);
    assert(marks_text(put.columns.len()) =~= "?"@ + ", ?"@);
    assert(
        "INSERT INTO metadata (key, value) VALUES (?, ?)"@ =~= "INSERT"@ + " INTO "@ + "metadata"@
            + " ("@ + "key"@ + ", "@ + "value"@ + ") VALUES ("@ + "?"@ + ", ?"@ + ")"@
    );
    assert(
        "INSERT INTO metadata (key, value) VALUES (?, ?)"@ =~= put.word + " INTO "@ + put.table
            + " ("@ + names_text(put.columns) + ") VALUES ("@ + marks_text(put.columns.len()) + ")"@
    );
}

/// Metadata is stored under its key.
pub proof fn lemma_metadata_entry(r: Record, key: Seq<char>, value: Seq<char>)
    requires
        put_metadata_entry(key, value).writes(r),
    ensures
        cell(r, "key"@) == SqlCell::Text(key),
        cell(r, "value"@) == SqlCell::Text(value),
{
    let put = put_metadata_entry(key, value);
    assert(put.columns[0] == "key"@);
    assert(put.columns[1] == "value"@);
}

/// The insertion that the law of the same name is about.
pub open spec fn put_hash_entry(
    issue_id: Seq<char>,
    content_hash: Seq<char>,
    now: Instant,
) -> Insert {
    Insert {
        word: "INSERT"@,
        table: "export_hashes"@,
        columns: seq!["issue_id"@, "content_hash"@, "exported_at"@],
        values: seq![
            SqlCell::Text(issue_id),
            SqlCell::Text(content_hash),
            SqlCell::Text(rfc3339(now)),
        ],
    }
}

#[verifier::spinoff_prover]
pub(crate) proof fn lemma_put_hash_entry_text(
    issue_id: Seq<char>,
    content_hash: Seq<char>,
    now: Instant,
)
    ensures
        put_hash_entry(issue_id, content_hash, now).is(
            stmt(
                "INSERT INTO export_hashes (issue_id, content_hash, exported_at) VALUES (?, ?, ?)"@,
                seq![
                    SqlCell::Text(issue_id),
                    SqlCell::Text(content_hash),
                    SqlCell::Text(rfc3339(now)),
                ],
            )
        ),
{
    let put = put_hash_entry(issue_id, content_hash, now);
    reveal_strlit(
        "INSERT INTO export_hashes (issue_id, content_hash, exported_at) VALUES (?, ?, ?)"
    );
    reveal_strlit("INSERT");
    reveal_strlit(" INTO ");
    reveal_strlit("export_hashes");
    reveal_strlit(" (");
    reveal_strlit(") VALUES (");
    reveal_strlit(")");
    reveal_strlit("issue_id");
    reveal_strlit(", ");
    reveal_strlit("content_hash");
    reveal_strlit("exported_at");
    reveal_strlit("?");
    reveal_strlit(", ?");
    reveal_with_fuel(names_text, 4);
    reveal_with_fuel(marks_text, 4);
    assert(
        names_text(put.columns) =~= "issue_id"@ + ", "@ + "content_hash"@ + ", "@ + "exported_at"@
    );
    assert(marks_text(put.columns.len()) =~= "?"@ + ", ?"@ + ", ?"@);
    assert(
        "INSERT INTO export_hashes (issue_id, content_hash, exported_at) VALUES (?, ?, ?)"@
            =~= "INSERT"@
            + " INTO "@ + "export_hashes"@ + " ("@ + "issue_id"@ + ", "@ + "content_hash"@ + ", "@
            + "exported_at"@ + ") VALUES ("@ + "?"@ + ", ?"@ + ", ?"@ + ")"@
    );
    assert(
        "INSERT INTO export_hashes (issue_id, content_hash, exported_at) VALUES (?, ?, ?)"@ =~= put.word
            + " INTO "@ + put.table + " ("@ + names_text(put.columns) + ") VALUES ("@
            + marks_text(put.columns.len()) + ")"@
    );
}

/// An export hash is stored with its issue and when it was exported.
pub proof fn lemma_hash_entry(r: Record, issue_id: Seq<char>, content_hash: Seq<char>, now: Instant)
    requires
        put_hash_entry(issue_id, content_hash, now).writes(r),
    ensures
        put_hash_entry(issue_id, content_hash, now).is(
            hash_statements(issue_id, content_hash, now)[1]
        ),
        cell(r, "issue_id"@) == SqlCell::Text(issue_id),
        cell(r, "content_hash"@) == SqlCell::Text(content_hash),
        cell(r, "exported_at"@) == SqlCell::Text(rfc3339(now)),
{
    let put = put_hash_entry(issue_id, content_hash, now);
    lemma_put_hash_entry_text(issue_id, content_hash, now);
    assert(put.columns[0] == "issue_id"@);
    assert(put.columns[1] == "content_hash"@);
    assert(put.columns[2] == "exported_at"@);
}

/// An imported comment is read back as itself, as the importing issue's.
pub proof fn lemma_imported_comment_reads_back(r: Record, issue_id: Seq<char>, c: CommentView)
    requires
        reads_back(c.created_at),
        put_imported_comment(issue_id, c).writes(r),
    ensures
        comment_of_row(ask_comments_of(issue_id).row(seq![Some(r)])) == Ok::<
            CommentView,
            BeadsErrorView,
        >(CommentView { issue_id, ..c }),
        comment_of_row(ask_all_comments().row(seq![Some(r)])) == Ok::<CommentView, BeadsErrorView>(
            CommentView { issue_id, ..c },
        ),
{
    lemma_imported_comment(r, issue_id, c);
    lemma_comments_of(map![], r, issue_id);
    lemma_all_comments(map![], r);
}

/// A comment of a new issue is read back with its author, text and date.
pub proof fn lemma_new_comment_reads_back(r: Record, issue_id: Seq<char>, c: CommentView)
    requires
        reads_back(c.created_at),
        put_new_comment(issue_id, c).writes(r),
        cell(r, "id"@) == SqlCell::Integer(c.id),
    ensures
        comment_of_row(ask_comments_of(issue_id).row(seq![Some(r)])) == Ok::<
            CommentView,
            BeadsErrorView,
        >(CommentView { issue_id, ..c }),
{
    lemma_new_comment(r, issue_id, c);
    lemma_comments_of(map![], r, issue_id);
}

/// An imported dependency is read back, by the query for the dependencies of its issue and by that
/// for all dependencies, as the dependency that was imported.
pub proof fn lemma_imported_dependency_is_read(r: Record, issue_id: Seq<char>, d: DependencyView)
    requires
        reads_back(d.created_at),
        d.dep_type matches DependencyTypeView::Custom(name) ==> DependencyTypeView::of_name(
            name,
        ) is Custom,
        put_imported_dependency(issue_id, d).writes(r),
    ensures
        dependency_of_row(ask_links_of(issue_id).row(seq![Some(r)])) == Ok::<
            DependencyView,
            BeadsErrorView,
        >(
            DependencyView {
                issue_id,
                created_by: Some(text_or(d.created_by, "import"@)),
                metadata: Some(text_or(d.metadata, "{}"@)),
                thread_id: Some(text_or(d.thread_id, ""@)),
                ..d
            },
        ),
        ask_all_links().row(seq![Some(r)]) == ask_links_of(issue_id).row(seq![Some(r)]),
{
    lemma_imported_dependency(r, issue_id, d);
    lemma_links_of(map![], r, issue_id);
    lemma_all_links(map![], r);
    lemma_dependency_type_reads_back(d.dep_type);
}

/// A text, or another one where there is none.
pub open spec fn text_or(s: Option<Seq<char>>, default: Seq<char>) -> Seq<char> {
    match s {
        Some(s) => s,
        None => default,
    }
}

/// A dependency that is added to an issue is read back with the issue it is on, its type, date and
/// author.
pub proof fn lemma_added_dependency_is_read(
    r: Record,
    issue_id: Seq<char>,
    depends_on_id: Seq<char>,
    dep_type: DependencyTypeView,
    actor: Seq<char>,
    now: Instant,
)
    requires
        reads_back(now),
        dep_type matches DependencyTypeView::Custom(name) ==> DependencyTypeView::of_name(
            name,
        ) is Custom,
        put_dependency_added(issue_id, depends_on_id, dep_type.name(), actor, now).writes(r),
    ensures
        dependency_of_row(ask_links_of(issue_id).row(seq![Some(r)])) matches Ok(d) && d.issue_id
            == issue_id && d.depends_on_id == depends_on_id && d.dep_type == dep_type
            && d.created_at == now && d.created_by == Some(actor),
{
    lemma_dependency_added(r, issue_id, depends_on_id, dep_type.name(), actor, now);
    lemma_links_of(map![], r, issue_id);
    lemma_dependency_type_reads_back(dep_type);
}

/// A dependency of a new issue is read back with the issue it is on, its type, date and author.
pub proof fn lemma_new_dependency_is_read(
    r: Record,
    issue_id: Seq<char>,
    d: DependencyView,
    actor: Seq<char>,
)
    requires
        reads_back(d.created_at),
        d.dep_type matches DependencyTypeView::Custom(name) ==> DependencyTypeView::of_name(
            name,
        ) is Custom,
        put_new_dependency(issue_id, d, actor).writes(r),
    ensures
        dependency_of_row(ask_links_of(issue_id).row(seq![Some(r)])) matches Ok(read)
            && read.issue_id == issue_id && read.depends_on_id == d.depends_on_id && read.dep_type
            == d.dep_type && read.created_at == d.created_at && read.created_by == Some(
            text_or(d.created_by, actor),
        ),
{
    lemma_new_dependency(r, issue_id, d, actor);
    lemma_links_of(map![], r, issue_id);
    lemma_dependency_type_reads_back(d.dep_type);
}

/// A setting is read back under its key with the value that was stored, and metadata too; an export
/// hash is read back with when it was stored.
pub proof fn lemma_settings_read_back(
    r: Record,
    key: Seq<char>,
    v: Seq<char>,
    now: Instant,
)
    ensures
        put_config_entry(key, v).writes(r) ==> text_at(ask_config_value(key).row(seq![Some(r)]), 0)
            == Some(v) && ask_all_config().row(seq![Some(r)]) == seq![
            SqlCell::Text(key),
            SqlCell::Text(v),
        ],
        put_metadata_entry(key, v).writes(r) ==> text_at(
            ask_metadata_value(key).row(seq![Some(r)]),
            0,
        ) == Some(v),
        put_hash_entry(key, v, now).writes(r) ==> ask_export_hash(key).row(seq![Some(r)]) == seq![
            SqlCell::Text(v),
            SqlCell::Text(rfc3339(now)),
        ],
{
    lemma_config_value(map![], r, key);
    lemma_all_config(map![], r);
    lemma_metadata_value(map![], r, key);
    lemma_export_hash(map![], r, key);
    if put_config_entry(key, v).writes(r) {
        lemma_config_entry(r, key, v);
    }
    if put_metadata_entry(key, v).writes(r) {
        lemma_metadata_entry(r, key, v);
    }
    if put_hash_entry(key, v, now).writes(r) {
        lemma_hash_entry(r, key, v, now);
    }
}

/// The change that deletes an issue by a tombstone.
pub open spec fn turn_tombstone(
    issue: IssueView,
    id: Seq<char>,
    actor: Seq<char>,
    reason: Seq<char>,
    deleted_at: Instant,
    now: Instant,
) -> Update {
    Update {
        table: "issues"@,
        sets: seq![
            ("status"@, Setting::Literal("tombstone"@)),
            ("deleted_at"@, Setting::Bound(SqlCell::Text(rfc3339(deleted_at)))),
            ("deleted_by"@, Setting::Bound(SqlCell::Text(actor))),
            ("delete_reason"@, Setting::Bound(SqlCell::Text(reason))),
            ("original_type"@, Setting::Bound(SqlCell::Text(issue.issue_type.name()))),
            ("updated_at"@, Setting::Bound(SqlCell::Text(rfc3339(now)))),
        ],
        tests: seq![Test::Bound(col("id"@), SqlCell::Text(id))],
    }
}

#[verifier::spinoff_prover]
proof fn lemma_turn_tombstone_text(
    issue: IssueView,
    id: Seq<char>,
    actor: Seq<char>,
    reason: Seq<char>,
    deleted_at: Instant,
    now: Instant,
)
    ensures
        turn_tombstone(issue, id, actor, reason, deleted_at, now).is(
            tombstone_statement(issue, id, actor, reason, deleted_at, now),
        ),
{
    let up = turn_tombstone(issue, id, actor, reason, deleted_at, now);
    let s = up.sets;
    assert(sets_text(s.take(1)) =~= "status = 'tombstone'"@) by {
        reveal_strlit("status = 'tombstone'");
        reveal_strlit("status");
        reveal_strlit(" = '");
        reveal_strlit("tombstone");
        reveal_strlit("'");
    }
    assert(sets_text(s.take(2)) =~= "status = 'tombstone', deleted_at = ?"@) by {
        assert(s.take(2).drop_last() =~= s.take(1));
        reveal_strlit("status = 'tombstone', deleted_at = ?");
        reveal_strlit("status = 'tombstone'");
        reveal_strlit(", ");
        reveal_strlit("deleted_at");
        reveal_strlit(" = ?");
    }
    assert(sets_text(s.take(3)) =~= "status = 'tombstone', deleted_at = ?, deleted_by = ?"@) by {
        assert(s.take(3).drop_last() =~= s.take(2));
        reveal_strlit("status = 'tombstone', deleted_at = ?, deleted_by = ?");
        reveal_strlit("status = 'tombstone', deleted_at = ?");
        reveal_strlit(", ");
        reveal_strlit("deleted_by");
        reveal_strlit(" = ?");
    }
    assert(sets_text(s.take(4))
        =~= "status = 'tombstone', deleted_at = ?, deleted_by = ?, delete_reason = ?"@) by {
        assert(s.take(4).drop_last() =~= s.take(3));
        reveal_strlit("status = 'tombstone', deleted_at = ?, deleted_by = ?, delete_reason = ?");
        reveal_strlit("status = 'tombstone', deleted_at = ?, deleted_by = ?");
        reveal_strlit(", ");
        reveal_strlit("delete_reason");
        reveal_strlit(" = ?");
    }
    assert(sets_text(s.take(5))
        =~= "status = 'tombstone', deleted_at = ?, deleted_by = ?, delete_reason = ?, original_type = ?"@) by {
        assert(s.take(5).drop_last() =~= s.take(4));
        reveal_strlit(
            "status = 'tombstone', deleted_at = ?, deleted_by = ?, delete_reason = ?, original_type = ?",
        );
        reveal_strlit("status = 'tombstone', deleted_at = ?, deleted_by = ?, delete_reason = ?");
        reveal_strlit(", ");
        reveal_strlit("original_type");
        reveal_strlit(" = ?");
    }
    assert(sets_text(s)
        =~= "status = 'tombstone', deleted_at = ?, deleted_by = ?, delete_reason = ?, original_type = ?, updated_at = ?"@) by {
        assert(s.drop_last() =~= s.take(5));
        reveal_strlit(
            "status = 'tombstone', deleted_at = ?, deleted_by = ?, delete_reason = ?, original_type = ?, updated_at = ?",
        );
        reveal_strlit(
            "status = 'tombstone', deleted_at = ?, deleted_by = ?, delete_reason = ?, original_type = ?",
        );
        reveal_strlit(", ");
        reveal_strlit("updated_at");
        reveal_strlit(" = ?");
    }
    assert(tests_text(up.tests, over("issues"@)) =~= " WHERE id = ?"@) by {
        reveal_with_fuel(tests_text, 2);
        reveal_strlit(" WHERE id = ?");
        reveal_strlit(" WHERE ");
        reveal_strlit("id");
        reveal_strlit(" = ?");
    }
    assert("UPDATE issues SET status = 'tombstone', deleted_at = ?, deleted_by = ?, delete_reason = ?, original_type = ?, updated_at = ? WHERE id = ?"@
        =~= "UPDATE "@ + "issues"@ + " SET "@
        + "status = 'tombstone', deleted_at = ?, deleted_by = ?, delete_reason = ?, original_type = ?, updated_at = ?"@
        + " WHERE id = ?"@) by {
        reveal_strlit(
            "UPDATE issues SET status = 'tombstone', deleted_at = ?, deleted_by = ?, delete_reason = ?, original_type = ?, updated_at = ? WHERE id = ?",
        );
        reveal_strlit("UPDATE ");
        reveal_strlit("issues");
        reveal_strlit(" SET ");
        reveal_strlit(
            "status = 'tombstone', deleted_at = ?, deleted_by = ?, delete_reason = ?, original_type = ?, updated_at = ?",
        );
        reveal_strlit(" WHERE id = ?");
    }
    reveal_with_fuel(tests_params, 2);
    reveal_with_fuel(sets_params, 7);
    assert(sets_params(s) + tests_params(up.tests) =~= tombstone_statement(
        issue,
        id,
        actor,
        reason,
        deleted_at,
        now,
    ).params);
}

/// Deleting an issue leaves a tombstone that says when, by whom and why it was deleted and what type
/// it had; everything else of it stays, and so does every other issue.
pub proof fn lemma_tombstone(
    before: Record,
    after: Record,
    issue: IssueView,
    id: Seq<char>,
    actor: Seq<char>,
    reason: Seq<char>,
    deleted_at: Instant,
    now: Instant,
)
    requires
        turn_tombstone(issue, id, actor, reason, deleted_at, now).turns(before, after),
    ensures
        turn_tombstone(issue, id, actor, reason, deleted_at, now).is(
            tombstone_statement(issue, id, actor, reason, deleted_at, now),
        ),
        cell(before, "id"@) == SqlCell::Text(id) ==> {
            &&& cell(after, "status"@) == SqlCell::Text(StatusView::Tombstone.name())
            &&& cell(after, "deleted_at"@) == SqlCell::Text(rfc3339(deleted_at))
            &&& cell(after, "deleted_by"@) == SqlCell::Text(actor)
            &&& cell(after, "delete_reason"@) == SqlCell::Text(reason)
            &&& cell(after, "original_type"@) == SqlCell::Text(issue.issue_type.name())
            &&& cell(after, "updated_at"@) == SqlCell::Text(rfc3339(now))
        },
        forall|name: Seq<char>|
            name != "status"@ && name != "deleted_at"@ && name != "deleted_by"@ && name
                != "delete_reason"@ && name != "original_type"@ && name != "updated_at"@
                ==> #[trigger] cell(after, name) == cell(before, name),
        cell(before, "id"@) != SqlCell::Text(id) ==> after == before,
{
    let up = turn_tombstone(issue, id, actor, reason, deleted_at, now);
    lemma_turn_tombstone_text(issue, id, actor, reason, deleted_at, now);
    assert(up.tests[0] == Test::Bound(col("id"@), SqlCell::Text(id)));
    assert(all_hold(up.tests, seq![Some(before)]) <==> up.tests[0].holds(seq![Some(before)]));
    assert(up.sets[0].0 == "status"@ && up.sets[1].0 == "deleted_at"@ && up.sets[2].0
        == "deleted_by"@ && up.sets[3].0 == "delete_reason"@ && up.sets[4].0 == "original_type"@
        && up.sets[5].0 == "updated_at"@);
}

/// The change that records when an issue was last changed.
pub open spec fn turn_touched(id: Seq<char>, now: Instant) -> Update {
    Update {
        table: "issues"@,
        sets: seq![("updated_at"@, Setting::Bound(SqlCell::Text(rfc3339(now))))],
        tests: seq![Test::Bound(col("id"@), SqlCell::Text(id))],
    }
}

/// Touching an issue sets when it was last changed; nothing else changes, of it or of others.
pub proof fn lemma_touched(before: Record, after: Record, id: Seq<char>, now: Instant)
    requires
        turn_touched(id, now).turns(before, after),
    ensures
        turn_touched(id, now).is(touch_statement(id, now)),
        cell(before, "id"@) == SqlCell::Text(id) ==> cell(after, "updated_at"@) == SqlCell::Text(
            rfc3339(now),
        ),
        forall|name: Seq<char>|
            name != "updated_at"@ ==> #[trigger] cell(after, name) == cell(before, name),
        cell(before, "id"@) != SqlCell::Text(id) ==> after == before,
{
    let up = turn_touched(id, now);
    reveal_strlit("UPDATE issues SET updated_at = ? WHERE id = ?");
    reveal_strlit("UPDATE ");
    reveal_strlit("issues");
    reveal_strlit(" SET ");
    reveal_strlit("updated_at");
    reveal_strlit(" = ?");
    reveal_strlit(" WHERE ");
    reveal_strlit("id");
    reveal_with_fuel(tests_text, 2);
    reveal_with_fuel(tests_params, 2);
    reveal_with_fuel(sets_params, 2);
    assert(touch_statement(id, now).sql =~= "UPDATE "@ + "issues"@ + " SET "@ + sets_text(up.sets)
        + tests_text(up.tests, over("issues"@)));
    assert(sets_params(up.sets) + tests_params(up.tests) =~= touch_statement(id, now).params);
    assert(up.tests[0] == Test::Bound(col("id"@), SqlCell::Text(id)));
    assert(all_hold(up.tests, seq![Some(before)]) <==> up.tests[0].holds(seq![Some(before)]));
    assert(up.sets[0].0 == "updated_at"@);
}

} // verus!
