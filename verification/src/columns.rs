//! The columns of the issues table: those that a new issue is written to are those that an issue is
//! read from, name by name.

use vstd::prelude::*;

verus! {

use crate::blocked::{
    blocked_issues_of,
    lemma_blocked_row_reads_back,
    reads_back,
};
use crate::clock::{rfc3339, rfc3339_opt, Instant};
use crate::error::BeadsErrorView;
use crate::issues::{insert_statement, select_columns};
use crate::json::json_of_texts;
use crate::model::IssueView;
use crate::pattern::like;
use crate::rows::{
    as_stored,
    dates_read_back,
    import_row,
    issue_of_row,
    lemma_import_row_reads_back,
    lemma_new_row_reads_back,
    new_row,
    number_or_zero,
};
use crate::searching::same_letter;
use crate::sql::{
    bound,
    cell_of_bool,
    cell_of_number,
    cell_of_opt,
    cell_or,
    lemma_assembled_concat,
    raw,
    raw_bind,
    raw_if,
    rendered,
    SqlCell,
};
use crate::tables::{
    all_hold,
    cell,
    cell_le,
    col,
    cols,
    columns_text,
    in_order,
    lemma_among2,
    lemma_columns_text,
    lemma_over_one,
    marks_text,
    names_text,
    order_text,
    over,
    quoted,
    second,
    select,
    sets_params,
    sets_text,
    tests_params,
    tests_text,
    value,
    Base,
    Insert,
    Join,
    JoinKind,
    Key,
    Pick,
    Record,
    Select,
    Setting,
    Source,
    Test,
    Update,
    Wanted,
    Way,
};
use crate::update::{assignment_pieces, stamps, update_statement, Column};
use crate::written::{lemma_cache_entry, put_cache_entry};

/// The columns of an issue, in the order in which an issue is written and read.
pub open spec fn issue_columns() -> Seq<Seq<char>> {
    seq![
        "id"@,
        "content_hash"@,
        "title"@,
        "description"@,
        "design"@,
        "acceptance_criteria"@,
        "notes"@,
        "status"@,
        "priority"@,
        "issue_type"@,
        "assignee"@,
        "owner"@,
        "estimated_minutes"@,
        "created_at"@,
        "created_by"@,
        "updated_at"@,
        "closed_at"@,
        "close_reason"@,
        "closed_by_session"@,
        "due_at"@,
        "defer_until"@,
        "external_ref"@,
        "source_system"@,
        "source_repo"@,
        "deleted_at"@,
        "deleted_by"@,
        "delete_reason"@,
        "original_type"@,
        "compaction_level"@,
        "compacted_at"@,
        "compacted_at_commit"@,
        "original_size"@,
        "sender"@,
        "ephemeral"@,
        "pinned"@,
        "is_template"@,
    ]
}

/// The statement that writes a row into the issues table.
pub open spec fn issue_insert(row: Seq<SqlCell>) -> Insert {
    Insert { word: "INSERT"@, table: "issues"@, columns: issue_columns(), values: row }
}

/// The query for issues with some property.
pub open spec fn issue_select(tests: Seq<Test>, order: Seq<Key>) -> Select {
    Select { order, ..select(cols(issue_columns()), "issues"@, tests) }
}

#[verifier::spinoff_prover]
#[verifier::rlimit(40)]
proof fn lemma_select_names()
    ensures
        select_columns() == "SELECT "@ + names_text(issue_columns()) + " FROM issues"@,
{
    let c = issue_columns();
    let t = select_columns();
    reveal_strlit(
        "SELECT id, content_hash, title, description, design, acceptance_criteria, notes, status, priority, issue_type, assignee, owner, estimated_minutes, created_at, created_by, updated_at, closed_at, close_reason, closed_by_session, due_at, defer_until, external_ref, source_system, source_repo, deleted_at, deleted_by, delete_reason, original_type, compaction_level, compacted_at, compacted_at_commit, original_size, sender, ephemeral, pinned, is_template FROM issues",
    );
    reveal_strlit("SELECT ");
    reveal_strlit(" FROM issues");
    reveal_strlit(", ");
    assert(names_text(c.take(1)) =~= t.subrange(7, 9)) by {
        reveal_strlit("id");
    }
    assert(names_text(c.take(2)) =~= t.subrange(7, 23)) by {
        reveal_strlit("content_hash");
        assert(c.take(2).drop_last() =~= c.take(1));
        assert(t.subrange(7, 23) =~= t.subrange(7, 9) + ", "@ + "content_hash"@);
    }
    assert(names_text(c.take(3)) =~= t.subrange(7, 30)) by {
        reveal_strlit("title");
        assert(c.take(3).drop_last() =~= c.take(2));
        assert(t.subrange(7, 30) =~= t.subrange(7, 23) + ", "@ + "title"@);
    }
    assert(names_text(c.take(4)) =~= t.subrange(7, 43)) by {
        reveal_strlit("description");
        assert(c.take(4).drop_last() =~= c.take(3));
        assert(t.subrange(7, 43) =~= t.subrange(7, 30) + ", "@ + "description"@);
    }
    assert(names_text(c.take(5)) =~= t.subrange(7, 51)) by {
        reveal_strlit("design");
        assert(c.take(5).drop_last() =~= c.take(4));
        assert(t.subrange(7, 51) =~= t.subrange(7, 43) + ", "@ + "design"@);
    }
    assert(names_text(c.take(6)) =~= t.subrange(7, 72)) by {
        reveal_strlit("acceptance_criteria");
        assert(c.take(6).drop_last() =~= c.take(5));
        assert(t.subrange(7, 72) =~= t.subrange(7, 51) + ", "@ + "acceptance_criteria"@);
    }
    assert(names_text(c.take(7)) =~= t.subrange(7, 79)) by {
        reveal_strlit("notes");
        assert(c.take(7).drop_last() =~= c.take(6));
        assert(t.subrange(7, 79) =~= t.subrange(7, 72) + ", "@ + "notes"@);
    }
    assert(names_text(c.take(8)) =~= t.subrange(7, 87)) by {
        reveal_strlit("status");
        assert(c.take(8).drop_last() =~= c.take(7));
        assert(t.subrange(7, 87) =~= t.subrange(7, 79) + ", "@ + "status"@);
    }
    assert(names_text(c.take(9)) =~= t.subrange(7, 97)) by {
        reveal_strlit("priority");
        assert(c.take(9).drop_last() =~= c.take(8));
        assert(t.subrange(7, 97) =~= t.subrange(7, 87) + ", "@ + "priority"@);
    }
    assert(names_text(c.take(10)) =~= t.subrange(7, 109)) by {
        reveal_strlit("issue_type");
        assert(c.take(10).drop_last() =~= c.take(9));
        assert(t.subrange(7, 109) =~= t.subrange(7, 97) + ", "@ + "issue_type"@);
    }
    assert(names_text(c.take(11)) =~= t.subrange(7, 119)) by {
        reveal_strlit("assignee");
        assert(c.take(11).drop_last() =~= c.take(10));
        assert(t.subrange(7, 119) =~= t.subrange(7, 109) + ", "@ + "assignee"@);
    }
    assert(names_text(c.take(12)) =~= t.subrange(7, 126)) by {
        reveal_strlit("owner");
        assert(c.take(12).drop_last() =~= c.take(11));
        assert(t.subrange(7, 126) =~= t.subrange(7, 119) + ", "@ + "owner"@);
    }
    assert(names_text(c.take(13)) =~= t.subrange(7, 145)) by {
        reveal_strlit("estimated_minutes");
        assert(c.take(13).drop_last() =~= c.take(12));
        assert(t.subrange(7, 145) =~= t.subrange(7, 126) + ", "@ + "estimated_minutes"@);
    }
    assert(names_text(c.take(14)) =~= t.subrange(7, 157)) by {
        reveal_strlit("created_at");
        assert(c.take(14).drop_last() =~= c.take(13));
        assert(t.subrange(7, 157) =~= t.subrange(7, 145) + ", "@ + "created_at"@);
    }
    assert(names_text(c.take(15)) =~= t.subrange(7, 169)) by {
        reveal_strlit("created_by");
        assert(c.take(15).drop_last() =~= c.take(14));
        assert(t.subrange(7, 169) =~= t.subrange(7, 157) + ", "@ + "created_by"@);
    }
    assert(names_text(c.take(16)) =~= t.subrange(7, 181)) by {
        reveal_strlit("updated_at");
        assert(c.take(16).drop_last() =~= c.take(15));
        assert(t.subrange(7, 181) =~= t.subrange(7, 169) + ", "@ + "updated_at"@);
    }
    assert(names_text(c.take(17)) =~= t.subrange(7, 192)) by {
        reveal_strlit("closed_at");
        assert(c.take(17).drop_last() =~= c.take(16));
        assert(t.subrange(7, 192) =~= t.subrange(7, 181) + ", "@ + "closed_at"@);
    }
    assert(names_text(c.take(18)) =~= t.subrange(7, 206)) by {
        reveal_strlit("close_reason");
        assert(c.take(18).drop_last() =~= c.take(17));
        assert(t.subrange(7, 206) =~= t.subrange(7, 192) + ", "@ + "close_reason"@);
    }
    assert(names_text(c.take(19)) =~= t.subrange(7, 225)) by {
        reveal_strlit("closed_by_session");
        assert(c.take(19).drop_last() =~= c.take(18));
        assert(t.subrange(7, 225) =~= t.subrange(7, 206) + ", "@ + "closed_by_session"@);
    }
    assert(names_text(c.take(20)) =~= t.subrange(7, 233)) by {
        reveal_strlit("due_at");
        assert(c.take(20).drop_last() =~= c.take(19));
        assert(t.subrange(7, 233) =~= t.subrange(7, 225) + ", "@ + "due_at"@);
    }
    assert(names_text(c.take(21)) =~= t.subrange(7, 246)) by {
        reveal_strlit("defer_until");
        assert(c.take(21).drop_last() =~= c.take(20));
        assert(t.subrange(7, 246) =~= t.subrange(7, 233) + ", "@ + "defer_until"@);
    }
    assert(names_text(c.take(22)) =~= t.subrange(7, 260)) by {
        reveal_strlit("external_ref");
        assert(c.take(22).drop_last() =~= c.take(21));
        assert(t.subrange(7, 260) =~= t.subrange(7, 246) + ", "@ + "external_ref"@);
    }
    assert(names_text(c.take(23)) =~= t.subrange(7, 275)) by {
        reveal_strlit("source_system");
        assert(c.take(23).drop_last() =~= c.take(22));
        assert(t.subrange(7, 275) =~= t.subrange(7, 260) + ", "@ + "source_system"@);
    }
    assert(names_text(c.take(24)) =~= t.subrange(7, 288)) by {
        reveal_strlit("source_repo");
        assert(c.take(24).drop_last() =~= c.take(23));
        assert(t.subrange(7, 288) =~= t.subrange(7, 275) + ", "@ + "source_repo"@);
    }
    assert(names_text(c.take(25)) =~= t.subrange(7, 300)) by {
        reveal_strlit("deleted_at");
        assert(c.take(25).drop_last() =~= c.take(24));
        assert(t.subrange(7, 300) =~= t.subrange(7, 288) + ", "@ + "deleted_at"@);
    }
    assert(names_text(c.take(26)) =~= t.subrange(7, 312)) by {
        reveal_strlit("deleted_by");
        assert(c.take(26).drop_last() =~= c.take(25));
        assert(t.subrange(7, 312) =~= t.subrange(7, 300) + ", "@ + "deleted_by"@);
    }
    assert(names_text(c.take(27)) =~= t.subrange(7, 327)) by {
        reveal_strlit("delete_reason");
        assert(c.take(27).drop_last() =~= c.take(26));
        assert(t.subrange(7, 327) =~= t.subrange(7, 312) + ", "@ + "delete_reason"@);
    }
    assert(names_text(c.take(28)) =~= t.subrange(7, 342)) by {
        reveal_strlit("original_type");
        assert(c.take(28).drop_last() =~= c.take(27));
        assert(t.subrange(7, 342) =~= t.subrange(7, 327) + ", "@ + "original_type"@);
    }
    assert(names_text(c.take(29)) =~= t.subrange(7, 360)) by {
        reveal_strlit("compaction_level");
        assert(c.take(29).drop_last() =~= c.take(28));
        assert(t.subrange(7, 360) =~= t.subrange(7, 342) + ", "@ + "compaction_level"@);
    }
    assert(names_text(c.take(30)) =~= t.subrange(7, 374)) by {
        reveal_strlit("compacted_at");
        assert(c.take(30).drop_last() =~= c.take(29));
        assert(t.subrange(7, 374) =~= t.subrange(7, 360) + ", "@ + "compacted_at"@);
    }
    assert(names_text(c.take(31)) =~= t.subrange(7, 395)) by {
        reveal_strlit("compacted_at_commit");
        assert(c.take(31).drop_last() =~= c.take(30));
        assert(t.subrange(7, 395) =~= t.subrange(7, 374) + ", "@ + "compacted_at_commit"@);
    }
    assert(names_text(c.take(32)) =~= t.subrange(7, 410)) by {
        reveal_strlit("original_size");
        assert(c.take(32).drop_last() =~= c.take(31));
        assert(t.subrange(7, 410) =~= t.subrange(7, 395) + ", "@ + "original_size"@);
    }
    assert(names_text(c.take(33)) =~= t.subrange(7, 418)) by {
        reveal_strlit("sender");
        assert(c.take(33).drop_last() =~= c.take(32));
        assert(t.subrange(7, 418) =~= t.subrange(7, 410) + ", "@ + "sender"@);
    }
    assert(names_text(c.take(34)) =~= t.subrange(7, 429)) by {
        reveal_strlit("ephemeral");
        assert(c.take(34).drop_last() =~= c.take(33));
        assert(t.subrange(7, 429) =~= t.subrange(7, 418) + ", "@ + "ephemeral"@);
    }
    assert(names_text(c.take(35)) =~= t.subrange(7, 437)) by {
        reveal_strlit("pinned");
        assert(c.take(35).drop_last() =~= c.take(34));
        assert(t.subrange(7, 437) =~= t.subrange(7, 429) + ", "@ + "pinned"@);
    }
    assert(names_text(c.take(36)) =~= t.subrange(7, 450)) by {
        reveal_strlit("is_template");
        assert(c.take(36).drop_last() =~= c.take(35));
        assert(t.subrange(7, 450) =~= t.subrange(7, 437) + ", "@ + "is_template"@);
    }
    assert(c.take(36) =~= c);
    assert(t =~= "SELECT "@ + t.subrange(7, 450) + " FROM issues"@);
}

#[verifier::spinoff_prover]
#[verifier::rlimit(40)]
proof fn lemma_insert_names()
    ensures
        "INSERT INTO issues (id, content_hash, title, description, design, acceptance_criteria, notes, status, priority, issue_type, assignee, owner, estimated_minutes, created_at, created_by, updated_at, closed_at, close_reason, closed_by_session, due_at, defer_until, external_ref, source_system, source_repo, deleted_at, deleted_by, delete_reason, original_type, compaction_level, compacted_at, compacted_at_commit, original_size, sender, ephemeral, pinned, is_template) VALUES (?, ?, ?, ?, ?, ?, ?, ?, ?, ?, ?, ?, ?, ?, ?, ?, ?, ?, ?, ?, ?, ?, ?, ?, ?, ?, ?, ?, ?, ?, ?, ?, ?, ?, ?, ?)"@
            == "INSERT INTO issues ("@ + names_text(issue_columns()) + ") VALUES ("@
                + marks_text(36) + ")"@,
{
    let c = issue_columns();
    let t = "INSERT INTO issues (id, content_hash, title, description, design, acceptance_criteria, notes, status, priority, issue_type, assignee, owner, estimated_minutes, created_at, created_by, updated_at, closed_at, close_reason, closed_by_session, due_at, defer_until, external_ref, source_system, source_repo, deleted_at, deleted_by, delete_reason, original_type, compaction_level, compacted_at, compacted_at_commit, original_size, sender, ephemeral, pinned, is_template) VALUES (?, ?, ?, ?, ?, ?, ?, ?, ?, ?, ?, ?, ?, ?, ?, ?, ?, ?, ?, ?, ?, ?, ?, ?, ?, ?, ?, ?, ?, ?, ?, ?, ?, ?, ?, ?)"@;
    reveal_strlit(
        "INSERT INTO issues (id, content_hash, title, description, design, acceptance_criteria, notes, status, priority, issue_type, assignee, owner, estimated_minutes, created_at, created_by, updated_at, closed_at, close_reason, closed_by_session, due_at, defer_until, external_ref, source_system, source_repo, deleted_at, deleted_by, delete_reason, original_type, compaction_level, compacted_at, compacted_at_commit, original_size, sender, ephemeral, pinned, is_template) VALUES (?, ?, ?, ?, ?, ?, ?, ?, ?, ?, ?, ?, ?, ?, ?, ?, ?, ?, ?, ?, ?, ?, ?, ?, ?, ?, ?, ?, ?, ?, ?, ?, ?, ?, ?, ?)",
    );
    reveal_strlit("INSERT INTO issues (");
    reveal_strlit(") VALUES (");
    reveal_strlit(")");
    reveal_strlit(", ");
    assert(names_text(c.take(1)) =~= t.subrange(20, 22)) by {
        reveal_strlit("id");
    }
    assert(names_text(c.take(2)) =~= t.subrange(20, 36)) by {
        reveal_strlit("content_hash");
        assert(c.take(2).drop_last() =~= c.take(1));
        assert(t.subrange(20, 36) =~= t.subrange(20, 22) + ", "@ + "content_hash"@);
    }
    assert(names_text(c.take(3)) =~= t.subrange(20, 43)) by {
        reveal_strlit("title");
        assert(c.take(3).drop_last() =~= c.take(2));
        assert(t.subrange(20, 43) =~= t.subrange(20, 36) + ", "@ + "title"@);
    }
    assert(names_text(c.take(4)) =~= t.subrange(20, 56)) by {
        reveal_strlit("description");
        assert(c.take(4).drop_last() =~= c.take(3));
        assert(t.subrange(20, 56) =~= t.subrange(20, 43) + ", "@ + "description"@);
    }
    assert(names_text(c.take(5)) =~= t.subrange(20, 64)) by {
        reveal_strlit("design");
        assert(c.take(5).drop_last() =~= c.take(4));
        assert(t.subrange(20, 64) =~= t.subrange(20, 56) + ", "@ + "design"@);
    }
    assert(names_text(c.take(6)) =~= t.subrange(20, 85)) by {
        reveal_strlit("acceptance_criteria");
        assert(c.take(6).drop_last() =~= c.take(5));
        assert(t.subrange(20, 85) =~= t.subrange(20, 64) + ", "@ + "acceptance_criteria"@);
    }
    assert(names_text(c.take(7)) =~= t.subrange(20, 92)) by {
        reveal_strlit("notes");
        assert(c.take(7).drop_last() =~= c.take(6));
        assert(t.subrange(20, 92) =~= t.subrange(20, 85) + ", "@ + "notes"@);
    }
    assert(names_text(c.take(8)) =~= t.subrange(20, 100)) by {
        reveal_strlit("status");
        assert(c.take(8).drop_last() =~= c.take(7));
        assert(t.subrange(20, 100) =~= t.subrange(20, 92) + ", "@ + "status"@);
    }
    assert(names_text(c.take(9)) =~= t.subrange(20, 110)) by {
        reveal_strlit("priority");
        assert(c.take(9).drop_last() =~= c.take(8));
        assert(t.subrange(20, 110) =~= t.subrange(20, 100) + ", "@ + "priority"@);
    }
    assert(names_text(c.take(10)) =~= t.subrange(20, 122)) by {
        reveal_strlit("issue_type");
        assert(c.take(10).drop_last() =~= c.take(9));
        assert(t.subrange(20, 122) =~= t.subrange(20, 110) + ", "@ + "issue_type"@);
    }
    assert(names_text(c.take(11)) =~= t.subrange(20, 132)) by {
        reveal_strlit("assignee");
        assert(c.take(11).drop_last() =~= c.take(10));
        assert(t.subrange(20, 132) =~= t.subrange(20, 122) + ", "@ + "assignee"@);
    }
    assert(names_text(c.take(12)) =~= t.subrange(20, 139)) by {
        reveal_strlit("owner");
        assert(c.take(12).drop_last() =~= c.take(11));
        assert(t.subrange(20, 139) =~= t.subrange(20, 132) + ", "@ + "owner"@);
    }
    assert(names_text(c.take(13)) =~= t.subrange(20, 158)) by {
        reveal_strlit("estimated_minutes");
        assert(c.take(13).drop_last() =~= c.take(12));
        assert(t.subrange(20, 158) =~= t.subrange(20, 139) + ", "@ + "estimated_minutes"@);
    }
    assert(names_text(c.take(14)) =~= t.subrange(20, 170)) by {
        reveal_strlit("created_at");
        assert(c.take(14).drop_last() =~= c.take(13));
        assert(t.subrange(20, 170) =~= t.subrange(20, 158) + ", "@ + "created_at"@);
    }
    assert(names_text(c.take(15)) =~= t.subrange(20, 182)) by {
        reveal_strlit("created_by");
        assert(c.take(15).drop_last() =~= c.take(14));
        assert(t.subrange(20, 182) =~= t.subrange(20, 170) + ", "@ + "created_by"@);
    }
    assert(names_text(c.take(16)) =~= t.subrange(20, 194)) by {
        reveal_strlit("updated_at");
        assert(c.take(16).drop_last() =~= c.take(15));
        assert(t.subrange(20, 194) =~= t.subrange(20, 182) + ", "@ + "updated_at"@);
    }
    assert(names_text(c.take(17)) =~= t.subrange(20, 205)) by {
        reveal_strlit("closed_at");
        assert(c.take(17).drop_last() =~= c.take(16));
        assert(t.subrange(20, 205) =~= t.subrange(20, 194) + ", "@ + "closed_at"@);
    }
    assert(names_text(c.take(18)) =~= t.subrange(20, 219)) by {
        reveal_strlit("close_reason");
        assert(c.take(18).drop_last() =~= c.take(17));
        assert(t.subrange(20, 219) =~= t.subrange(20, 205) + ", "@ + "close_reason"@);
    }
    assert(names_text(c.take(19)) =~= t.subrange(20, 238)) by {
        reveal_strlit("closed_by_session");
        assert(c.take(19).drop_last() =~= c.take(18));
        assert(t.subrange(20, 238) =~= t.subrange(20, 219) + ", "@ + "closed_by_session"@);
    }
    assert(names_text(c.take(20)) =~= t.subrange(20, 246)) by {
        reveal_strlit("due_at");
        assert(c.take(20).drop_last() =~= c.take(19));
        assert(t.subrange(20, 246) =~= t.subrange(20, 238) + ", "@ + "due_at"@);
    }
    assert(names_text(c.take(21)) =~= t.subrange(20, 259)) by {
        reveal_strlit("defer_until");
        assert(c.take(21).drop_last() =~= c.take(20));
        assert(t.subrange(20, 259) =~= t.subrange(20, 246) + ", "@ + "defer_until"@);
    }
    assert(names_text(c.take(22)) =~= t.subrange(20, 273)) by {
        reveal_strlit("external_ref");
        assert(c.take(22).drop_last() =~= c.take(21));
        assert(t.subrange(20, 273) =~= t.subrange(20, 259) + ", "@ + "external_ref"@);
    }
    assert(names_text(c.take(23)) =~= t.subrange(20, 288)) by {
        reveal_strlit("source_system");
        assert(c.take(23).drop_last() =~= c.take(22));
        assert(t.subrange(20, 288) =~= t.subrange(20, 273) + ", "@ + "source_system"@);
    }
    assert(names_text(c.take(24)) =~= t.subrange(20, 301)) by {
        reveal_strlit("source_repo");
        assert(c.take(24).drop_last() =~= c.take(23));
        assert(t.subrange(20, 301) =~= t.subrange(20, 288) + ", "@ + "source_repo"@);
    }
    assert(names_text(c.take(25)) =~= t.subrange(20, 313)) by {
        reveal_strlit("deleted_at");
        assert(c.take(25).drop_last() =~= c.take(24));
        assert(t.subrange(20, 313) =~= t.subrange(20, 301) + ", "@ + "deleted_at"@);
    }
    assert(names_text(c.take(26)) =~= t.subrange(20, 325)) by {
        reveal_strlit("deleted_by");
        assert(c.take(26).drop_last() =~= c.take(25));
        assert(t.subrange(20, 325) =~= t.subrange(20, 313) + ", "@ + "deleted_by"@);
    }
    assert(names_text(c.take(27)) =~= t.subrange(20, 340)) by {
        reveal_strlit("delete_reason");
        assert(c.take(27).drop_last() =~= c.take(26));
        assert(t.subrange(20, 340) =~= t.subrange(20, 325) + ", "@ + "delete_reason"@);
    }
    assert(names_text(c.take(28)) =~= t.subrange(20, 355)) by {
        reveal_strlit("original_type");
        assert(c.take(28).drop_last() =~= c.take(27));
        assert(t.subrange(20, 355) =~= t.subrange(20, 340) + ", "@ + "original_type"@);
    }
    assert(names_text(c.take(29)) =~= t.subrange(20, 373)) by {
        reveal_strlit("compaction_level");
        assert(c.take(29).drop_last() =~= c.take(28));
        assert(t.subrange(20, 373) =~= t.subrange(20, 355) + ", "@ + "compaction_level"@);
    }
    assert(names_text(c.take(30)) =~= t.subrange(20, 387)) by {
        reveal_strlit("compacted_at");
        assert(c.take(30).drop_last() =~= c.take(29));
        assert(t.subrange(20, 387) =~= t.subrange(20, 373) + ", "@ + "compacted_at"@);
    }
    assert(names_text(c.take(31)) =~= t.subrange(20, 408)) by {
        reveal_strlit("compacted_at_commit");
        assert(c.take(31).drop_last() =~= c.take(30));
        assert(t.subrange(20, 408) =~= t.subrange(20, 387) + ", "@ + "compacted_at_commit"@);
    }
    assert(names_text(c.take(32)) =~= t.subrange(20, 423)) by {
        reveal_strlit("original_size");
        assert(c.take(32).drop_last() =~= c.take(31));
        assert(t.subrange(20, 423) =~= t.subrange(20, 408) + ", "@ + "original_size"@);
    }
    assert(names_text(c.take(33)) =~= t.subrange(20, 431)) by {
        reveal_strlit("sender");
        assert(c.take(33).drop_last() =~= c.take(32));
        assert(t.subrange(20, 431) =~= t.subrange(20, 423) + ", "@ + "sender"@);
    }
    assert(names_text(c.take(34)) =~= t.subrange(20, 442)) by {
        reveal_strlit("ephemeral");
        assert(c.take(34).drop_last() =~= c.take(33));
        assert(t.subrange(20, 442) =~= t.subrange(20, 431) + ", "@ + "ephemeral"@);
    }
    assert(names_text(c.take(35)) =~= t.subrange(20, 450)) by {
        reveal_strlit("pinned");
        assert(c.take(35).drop_last() =~= c.take(34));
        assert(t.subrange(20, 450) =~= t.subrange(20, 442) + ", "@ + "pinned"@);
    }
    assert(names_text(c.take(36)) =~= t.subrange(20, 463)) by {
        reveal_strlit("is_template");
        assert(c.take(36).drop_last() =~= c.take(35));
        assert(t.subrange(20, 463) =~= t.subrange(20, 450) + ", "@ + "is_template"@);
    }
    assert(c.take(36) =~= c);
    assert(marks_text(36) =~= t.subrange(473, 579)) by {
        reveal_strlit("?");
        reveal_strlit(", ?");
        reveal_with_fuel(marks_text, 37);
    }
    assert(
        t =~= "INSERT INTO issues ("@ + t.subrange(20, 463) + ") VALUES ("@ + t.subrange(473, 579)
            + ")"@
    );
}

/// The columns that the insertion of an issue names are, one by one and in the same order, those
/// that the queries for issues name.
pub proof fn lemma_written_columns_are_read(row: Seq<SqlCell>)
    requires
        row.len() == 36,
    ensures
        issue_insert(row).is(insert_statement(row)),
        issue_select(seq![], seq![]).text() == select_columns(),
        issue_select(seq![], seq![]).wanted == cols(issue_insert(row).columns),
{
    lemma_select_names();
    lemma_insert_names();
    lemma_columns_text(issue_columns(), "issues"@);
    let q = issue_select(seq![], seq![]);
    reveal_strlit(" FROM issues");
    reveal_strlit(" FROM ");
    reveal_strlit("issues");
    reveal_strlit("INSERT INTO issues (");
    reveal_strlit("INSERT");
    reveal_strlit(" INTO ");
    reveal_strlit(" (");
    assert(" FROM issues"@ =~= " FROM "@ + "issues"@);
    assert("INSERT INTO issues ("@ =~= "INSERT"@ + " INTO "@ + "issues"@ + " ("@);
    assert(q.text() =~= "SELECT "@ + names_text(issue_columns()) + " FROM issues"@);
}

/// The record that holds what the insertion of a row writes is read back as that row.
#[verifier::spinoff_prover]
pub proof fn lemma_written_row_is_read(row: Seq<SqlCell>, record: Record)
    requires
        row.len() == 36,
        issue_insert(row).writes(record),
    ensures
        issue_select(seq![], seq![]).row(seq![Some(record)]) == row,
{
    let q = issue_select(seq![], seq![]);
    let names = issue_columns();
    assert forall|k: int| 0 <= k < 36 implies q.row(seq![Some(record)])[k] == row[k] by {
        assert(names[k] == issue_insert(row).columns[k]);
    }
    assert(q.row(seq![Some(record)]) =~= row);
}

/// A created issue is read back as itself from the record that its insertion writes, and so is an
/// imported one.
#[verifier::spinoff_prover]
pub proof fn lemma_created_issue_reads_back(i: IssueView, record: Record)
    requires
        dates_read_back(i),
        issue_insert(new_row(i)).writes(record) || issue_insert(import_row(i)).writes(record),
    ensures
        issue_of_row(issue_select(seq![], seq![]).row(seq![Some(record)])) == Ok::<
            IssueView,
            BeadsErrorView,
        >(as_stored(i)),
{
    if issue_insert(new_row(i)).writes(record) {
        lemma_written_row_is_read(new_row(i), record);
        lemma_new_row_reads_back(i);
    } else {
        lemma_written_row_is_read(import_row(i), record);
        lemma_import_row_reads_back(i);
    }
}

/// Each field of a created issue is written to the column of its name; texts that are not set are
/// empty.
#[verifier::spinoff_prover]
pub proof fn lemma_created_fields(i: IssueView, record: Record)
    requires
        issue_insert(new_row(i)).writes(record),
    ensures
        cell(record, "id"@) == SqlCell::Text(i.id),
        cell(record, "content_hash"@) == cell_of_opt(i.content_hash),
        cell(record, "title"@) == SqlCell::Text(i.title),
        cell(record, "description"@) == cell_or(i.description, ""@),
        cell(record, "design"@) == cell_or(i.design, ""@),
        cell(record, "acceptance_criteria"@) == cell_or(i.acceptance_criteria, ""@),
        cell(record, "notes"@) == cell_or(i.notes, ""@),
        cell(record, "status"@) == SqlCell::Text(i.status.name()),
        cell(record, "priority"@) == SqlCell::Integer(i.priority as i64),
        cell(record, "issue_type"@) == SqlCell::Text(i.issue_type.name()),
        cell(record, "assignee"@) == cell_of_opt(i.assignee),
        cell(record, "owner"@) == cell_or(i.owner, ""@),
        cell(record, "estimated_minutes"@) == cell_of_number(i.estimated_minutes),
        cell(record, "created_at"@) == SqlCell::Text(rfc3339(i.created_at)),
        cell(record, "created_by"@) == cell_or(i.created_by, ""@),
        cell(record, "updated_at"@) == SqlCell::Text(rfc3339(i.updated_at)),
        cell(record, "closed_at"@) == cell_of_opt(rfc3339_opt(i.closed_at)),
        cell(record, "close_reason"@) == cell_or(i.close_reason, ""@),
        cell(record, "closed_by_session"@) == cell_or(i.closed_by_session, ""@),
        cell(record, "due_at"@) == cell_of_opt(rfc3339_opt(i.due_at)),
        cell(record, "defer_until"@) == cell_of_opt(rfc3339_opt(i.defer_until)),
        cell(record, "external_ref"@) == cell_of_opt(i.external_ref),
        cell(record, "source_system"@) == cell_or(i.source_system, ""@),
        cell(record, "source_repo"@) == cell_or(i.source_repo, "."@),
        cell(record, "deleted_at"@) == cell_of_opt(rfc3339_opt(i.deleted_at)),
        cell(record, "deleted_by"@) == cell_or(i.deleted_by, ""@),
        cell(record, "delete_reason"@) == cell_or(i.delete_reason, ""@),
        cell(record, "original_type"@) == cell_or(i.original_type, ""@),
        cell(record, "compaction_level"@)
            == cell_of_number(Some(number_or_zero(i.compaction_level))),
        cell(record, "compacted_at"@) == cell_of_opt(rfc3339_opt(i.compacted_at)),
        cell(record, "compacted_at_commit"@) == cell_of_opt(i.compacted_at_commit),
        cell(record, "original_size"@) == cell_of_number(Some(number_or_zero(i.original_size))),
        cell(record, "sender"@) == cell_or(i.sender, ""@),
        cell(record, "ephemeral"@) == cell_of_bool(i.ephemeral),
        cell(record, "pinned"@) == cell_of_bool(i.pinned),
        cell(record, "is_template"@) == cell_of_bool(i.is_template),
{
    let c = issue_insert(new_row(i)).columns;
    let v = new_row(i);
    assert(c[0] == "id"@);
    assert(c[1] == "content_hash"@);
    assert(c[2] == "title"@);
    assert(c[3] == "description"@);
    assert(c[4] == "design"@);
    assert(c[5] == "acceptance_criteria"@);
    assert(c[6] == "notes"@);
    assert(c[7] == "status"@);
    assert(c[8] == "priority"@);
    assert(c[9] == "issue_type"@);
    assert(c[10] == "assignee"@);
    assert(c[11] == "owner"@);
    assert(c[12] == "estimated_minutes"@);
    assert(c[13] == "created_at"@);
    assert(c[14] == "created_by"@);
    assert(c[15] == "updated_at"@);
    assert(c[16] == "closed_at"@);
    assert(c[17] == "close_reason"@);
    assert(c[18] == "closed_by_session"@);
    assert(c[19] == "due_at"@);
    assert(c[20] == "defer_until"@);
    assert(c[21] == "external_ref"@);
    assert(c[22] == "source_system"@);
    assert(c[23] == "source_repo"@);
    assert(c[24] == "deleted_at"@);
    assert(c[25] == "deleted_by"@);
    assert(c[26] == "delete_reason"@);
    assert(c[27] == "original_type"@);
    assert(c[28] == "compaction_level"@);
    assert(c[29] == "compacted_at"@);
    assert(c[30] == "compacted_at_commit"@);
    assert(c[31] == "original_size"@);
    assert(c[32] == "sender"@);
    assert(c[33] == "ephemeral"@);
    assert(c[34] == "pinned"@);
    assert(c[35] == "is_template"@);
}

/// Each field of an imported issue is written to the column of its name; texts that are not set are
/// null.
#[verifier::spinoff_prover]
pub proof fn lemma_imported_fields(i: IssueView, record: Record)
    requires
        issue_insert(import_row(i)).writes(record),
    ensures
        cell(record, "id"@) == SqlCell::Text(i.id),
        cell(record, "content_hash"@) == cell_of_opt(i.content_hash),
        cell(record, "title"@) == SqlCell::Text(i.title),
        cell(record, "description"@) == cell_of_opt(i.description),
        cell(record, "design"@) == cell_of_opt(i.design),
        cell(record, "acceptance_criteria"@) == cell_of_opt(i.acceptance_criteria),
        cell(record, "notes"@) == cell_of_opt(i.notes),
        cell(record, "status"@) == SqlCell::Text(i.status.name()),
        cell(record, "priority"@) == SqlCell::Integer(i.priority as i64),
        cell(record, "issue_type"@) == SqlCell::Text(i.issue_type.name()),
        cell(record, "assignee"@) == cell_of_opt(i.assignee),
        cell(record, "owner"@) == cell_of_opt(i.owner),
        cell(record, "estimated_minutes"@) == cell_of_number(i.estimated_minutes),
        cell(record, "created_at"@) == SqlCell::Text(rfc3339(i.created_at)),
        cell(record, "created_by"@) == cell_of_opt(i.created_by),
        cell(record, "updated_at"@) == SqlCell::Text(rfc3339(i.updated_at)),
        cell(record, "closed_at"@) == cell_of_opt(rfc3339_opt(i.closed_at)),
        cell(record, "close_reason"@) == cell_of_opt(i.close_reason),
        cell(record, "closed_by_session"@) == cell_of_opt(i.closed_by_session),
        cell(record, "due_at"@) == cell_of_opt(rfc3339_opt(i.due_at)),
        cell(record, "defer_until"@) == cell_of_opt(rfc3339_opt(i.defer_until)),
        cell(record, "external_ref"@) == cell_of_opt(i.external_ref),
        cell(record, "source_system"@) == cell_of_opt(i.source_system),
        cell(record, "source_repo"@) == cell_or(i.source_repo, "."@),
        cell(record, "deleted_at"@) == cell_of_opt(rfc3339_opt(i.deleted_at)),
        cell(record, "deleted_by"@) == cell_of_opt(i.deleted_by),
        cell(record, "delete_reason"@) == cell_of_opt(i.delete_reason),
        cell(record, "original_type"@) == cell_of_opt(i.original_type),
        cell(record, "compaction_level"@)
            == cell_of_number(Some(number_or_zero(i.compaction_level))),
        cell(record, "compacted_at"@) == cell_of_opt(rfc3339_opt(i.compacted_at)),
        cell(record, "compacted_at_commit"@) == cell_of_opt(i.compacted_at_commit),
        cell(record, "original_size"@) == cell_of_number(Some(number_or_zero(i.original_size))),
        cell(record, "sender"@) == cell_of_opt(i.sender),
        cell(record, "ephemeral"@) == cell_of_bool(i.ephemeral),
        cell(record, "pinned"@) == cell_of_bool(i.pinned),
        cell(record, "is_template"@) == cell_of_bool(i.is_template),
{
    let c = issue_insert(import_row(i)).columns;
    let v = import_row(i);
    assert(c[0] == "id"@);
    assert(c[1] == "content_hash"@);
    assert(c[2] == "title"@);
    assert(c[3] == "description"@);
    assert(c[4] == "design"@);
    assert(c[5] == "acceptance_criteria"@);
    assert(c[6] == "notes"@);
    assert(c[7] == "status"@);
    assert(c[8] == "priority"@);
    assert(c[9] == "issue_type"@);
    assert(c[10] == "assignee"@);
    assert(c[11] == "owner"@);
    assert(c[12] == "estimated_minutes"@);
    assert(c[13] == "created_at"@);
    assert(c[14] == "created_by"@);
    assert(c[15] == "updated_at"@);
    assert(c[16] == "closed_at"@);
    assert(c[17] == "close_reason"@);
    assert(c[18] == "closed_by_session"@);
    assert(c[19] == "due_at"@);
    assert(c[20] == "defer_until"@);
    assert(c[21] == "external_ref"@);
    assert(c[22] == "source_system"@);
    assert(c[23] == "source_repo"@);
    assert(c[24] == "deleted_at"@);
    assert(c[25] == "deleted_by"@);
    assert(c[26] == "delete_reason"@);
    assert(c[27] == "original_type"@);
    assert(c[28] == "compaction_level"@);
    assert(c[29] == "compacted_at"@);
    assert(c[30] == "compacted_at_commit"@);
    assert(c[31] == "original_size"@);
    assert(c[32] == "sender"@);
    assert(c[33] == "ephemeral"@);
    assert(c[34] == "pinned"@);
    assert(c[35] == "is_template"@);
}

/// A query for issues is the columns, the conditions and the order.
proof fn lemma_issue_select_text(tests: Seq<Test>, order: Seq<Key>)
    ensures
        issue_select(tests, order).text() == select_columns() + tests_text(tests, over("issues"@))
            + order_text(order, over("issues"@)),
{
    lemma_select_names();
    lemma_columns_text(issue_columns(), "issues"@);
    let q = issue_select(tests, order);
    reveal_strlit(" FROM issues");
    reveal_strlit(" FROM ");
    reveal_strlit("issues");
    assert(" FROM issues"@ =~= " FROM "@ + "issues"@);
    assert(q.text() =~= "SELECT "@ + names_text(issue_columns()) + " FROM issues"@ + tests_text(
        tests,
        over("issues"@),
    ) + order_text(order, over("issues"@)));
}

/// The query behind `get_issue`.
pub open spec fn ask_issue_by_id(id: Seq<char>) -> Select {
    issue_select(seq![Test::Bound(col("id"@), SqlCell::Text(id))], seq![])
}

pub(crate) proof fn lemma_ask_issue_by_id_text(id: Seq<char>)
    ensures
        ask_issue_by_id(id).text() == select_columns() + " WHERE id = ?"@,
        tests_params(ask_issue_by_id(id).tests) == seq![SqlCell::Text(id)],
{
    let q = ask_issue_by_id(id);
    lemma_issue_select_text(q.tests, q.order);
    reveal_with_fuel(tests_text, 2);
    reveal_with_fuel(tests_params, 2);
    assert(tests_text(q.tests, over("issues"@)) =~= " WHERE id = ?"@) by {
        reveal_strlit(" WHERE id = ?");
        reveal_strlit(" WHERE ");
        reveal_strlit("id");
        reveal_strlit(" = ?");
    }
    assert(q.text() =~= select_columns() + " WHERE id = ?"@);
    assert(tests_params(q.tests) =~= seq![SqlCell::Text(id)]);
}

/// The query for an issue gives the issue with that ID, and no other.
pub proof fn lemma_issue_by_id(base: Base, r: Record, id: Seq<char>)
    ensures
        ask_issue_by_id(id).selects(base, seq![Some(r)])
            <==> base["issues"@].contains(r) && cell(r, "id"@) == SqlCell::Text(id),
        ask_issue_by_id(id).row(seq![Some(r)]) == issue_select(seq![], seq![]).row(seq![Some(r)]),
{
    let q = ask_issue_by_id(id);
    assert(q.tests[0] == Test::Bound(col("id"@), SqlCell::Text(id)));
    lemma_over_one(q, base, seq![Some(r)]);
}

/// The query behind `find_by_external_ref`.
pub open spec fn ask_issue_by_external_ref(external_ref: Seq<char>) -> Select {
    issue_select(seq![Test::Bound(col("external_ref"@), SqlCell::Text(external_ref))], seq![])
}

pub(crate) proof fn lemma_ask_issue_by_external_ref_text(external_ref: Seq<char>)
    ensures
        ask_issue_by_external_ref(external_ref).text() == select_columns()
            + " WHERE external_ref = ?"@,
        tests_params(ask_issue_by_external_ref(external_ref).tests)
            == seq![SqlCell::Text(external_ref)],
{
    let q = ask_issue_by_external_ref(external_ref);
    lemma_issue_select_text(q.tests, q.order);
    reveal_with_fuel(tests_text, 2);
    reveal_with_fuel(tests_params, 2);
    assert(tests_text(q.tests, over("issues"@)) =~= " WHERE external_ref = ?"@) by {
        reveal_strlit(" WHERE external_ref = ?");
        reveal_strlit(" WHERE ");
        reveal_strlit("external_ref");
        reveal_strlit(" = ?");
    }
    assert(q.text() =~= select_columns() + " WHERE external_ref = ?"@);
    assert(tests_params(q.tests) =~= seq![SqlCell::Text(external_ref)]);
}

/// The query by external reference gives the issues with that reference.
pub proof fn lemma_issue_by_external_ref(base: Base, r: Record, external_ref: Seq<char>)
    ensures
        ask_issue_by_external_ref(external_ref).selects(base, seq![Some(r)])
            <==> base["issues"@].contains(r)
                && cell(r, "external_ref"@) == SqlCell::Text(external_ref),
        ask_issue_by_external_ref(external_ref).row(seq![Some(r)])
            == issue_select(seq![], seq![]).row(seq![Some(r)]),
{
    let q = ask_issue_by_external_ref(external_ref);
    assert(q.tests[0] == Test::Bound(col("external_ref"@), SqlCell::Text(external_ref)));
    lemma_over_one(q, base, seq![Some(r)]);
}

/// The query behind `find_by_content_hash`.
pub open spec fn ask_issue_by_content_hash(content_hash: Seq<char>) -> Select {
    issue_select(seq![Test::Bound(col("content_hash"@), SqlCell::Text(content_hash))], seq![])
}

pub(crate) proof fn lemma_ask_issue_by_content_hash_text(content_hash: Seq<char>)
    ensures
        ask_issue_by_content_hash(content_hash).text() == select_columns()
            + " WHERE content_hash = ?"@,
        tests_params(ask_issue_by_content_hash(content_hash).tests)
            == seq![SqlCell::Text(content_hash)],
{
    let q = ask_issue_by_content_hash(content_hash);
    lemma_issue_select_text(q.tests, q.order);
    reveal_with_fuel(tests_text, 2);
    reveal_with_fuel(tests_params, 2);
    assert(tests_text(q.tests, over("issues"@)) =~= " WHERE content_hash = ?"@) by {
        reveal_strlit(" WHERE content_hash = ?");
        reveal_strlit(" WHERE ");
        reveal_strlit("content_hash");
        reveal_strlit(" = ?");
    }
    assert(q.text() =~= select_columns() + " WHERE content_hash = ?"@);
    assert(tests_params(q.tests) =~= seq![SqlCell::Text(content_hash)]);
}

/// The query by content hash gives the issues with that hash.
pub proof fn lemma_issue_by_content_hash(base: Base, r: Record, content_hash: Seq<char>)
    ensures
        ask_issue_by_content_hash(content_hash).selects(base, seq![Some(r)])
            <==> base["issues"@].contains(r)
                && cell(r, "content_hash"@) == SqlCell::Text(content_hash),
        ask_issue_by_content_hash(content_hash).row(seq![Some(r)])
            == issue_select(seq![], seq![]).row(seq![Some(r)]),
{
    let q = ask_issue_by_content_hash(content_hash);
    assert(q.tests[0] == Test::Bound(col("content_hash"@), SqlCell::Text(content_hash)));
    lemma_over_one(q, base, seq![Some(r)]);
}

/// The query behind `get_all_issues_for_export`.
pub open spec fn ask_exported_issues() -> Select {
    issue_select(
        seq![Test::ZeroOrNull(col("ephemeral"@)), Test::NotLike(col("id"@), "%-wisp-%"@)],
        seq![Key { col: col("id"@), way: Way::Ascending }],
    )
}

pub(crate) proof fn lemma_ask_exported_issues_text()
    ensures
        ask_exported_issues().text() == select_columns()
            + " WHERE (ephemeral = 0 OR ephemeral IS NULL) AND id NOT LIKE '%-wisp-%' ORDER BY id ASC"@,
        tests_params(ask_exported_issues().tests) == Seq::<SqlCell>::empty(),
{
    let q = ask_exported_issues();
    lemma_issue_select_text(q.tests, q.order);
    reveal_with_fuel(tests_text, 3);
    reveal_with_fuel(tests_params, 3);
    reveal_with_fuel(order_text, 2);
    assert(
        tests_text(q.tests, over("issues"@))
            =~= " WHERE (ephemeral = 0 OR ephemeral IS NULL) AND id NOT LIKE '%-wisp-%'"@
    ) by {
        reveal_strlit(" WHERE (ephemeral = 0 OR ephemeral IS NULL) AND id NOT LIKE '%-wisp-%'");
        reveal_strlit(" WHERE ");
        reveal_strlit("(");
        reveal_strlit("ephemeral");
        reveal_strlit(" = 0 OR ");
        reveal_strlit(" IS NULL)");
        reveal_strlit(" AND ");
        reveal_strlit("id");
        reveal_strlit(" NOT LIKE '");
        reveal_strlit("%-wisp-%");
        reveal_strlit("'");
    }
    assert(order_text(q.order, over("issues"@)) =~= " ORDER BY id ASC"@) by {
        reveal_strlit(" ORDER BY id ASC");
        reveal_strlit(" ORDER BY ");
        reveal_strlit("id");
        reveal_strlit(" ASC");
    }
    assert(
        " WHERE (ephemeral = 0 OR ephemeral IS NULL) AND id NOT LIKE '%-wisp-%' ORDER BY id ASC"@
            =~= " WHERE (ephemeral = 0 OR ephemeral IS NULL) AND id NOT LIKE '%-wisp-%'"@
            + " ORDER BY id ASC"@
    ) by {
        reveal_strlit(
            " WHERE (ephemeral = 0 OR ephemeral IS NULL) AND id NOT LIKE '%-wisp-%' ORDER BY id ASC"
        );
        reveal_strlit(" WHERE (ephemeral = 0 OR ephemeral IS NULL) AND id NOT LIKE '%-wisp-%'");
        reveal_strlit(" ORDER BY id ASC");
    }
    assert(
        q.text() =~= select_columns()
            + " WHERE (ephemeral = 0 OR ephemeral IS NULL) AND id NOT LIKE '%-wisp-%' ORDER BY id ASC"@
    );
    assert(tests_params(q.tests) =~= Seq::<SqlCell>::empty());
}

/// The export gives every issue that is not ephemeral and has no wisp in its ID, deleted ones
/// among them, in the order of the IDs.
pub proof fn lemma_exported_issues(base: Base, r: Record)
    ensures
        ask_exported_issues().selects(base, seq![Some(r)])
            <==> base["issues"@].contains(r)
                && (cell(r, "ephemeral"@) == SqlCell::Integer(0) || cell(r, "ephemeral"@) is Null)
                && (cell(r, "id"@) matches SqlCell::Text(t) && !like("%-wisp-%"@, t, same_letter())),
        ask_exported_issues().row(seq![Some(r)]) == issue_select(seq![], seq![]).row(seq![Some(r)]),
        forall|a: Pick, b: Pick| #[trigger]
            in_order(ask_exported_issues().order, a, b)
                == (
                    if value(a, col("id"@))
                        == value(b, col("id"@)) { true } else {
                            cell_le(value(a, col("id"@)), value(b, col("id"@)))
                        }
                ),
{
    let q = ask_exported_issues();
    assert(q.tests[0] == Test::ZeroOrNull(col("ephemeral"@)));
    assert(q.tests[1] == Test::NotLike(col("id"@), "%-wisp-%"@));
    reveal_with_fuel(in_order, 2);
    lemma_over_one(q, base, seq![Some(r)]);
}

/// The query behind `blocked_issues_query`.
pub open spec fn ask_blocked_issues() -> Select {
    Select {
        distinct: false,
        wanted: Wanted::Columns(
            issue_columns().map_values(|n: Seq<char>| col(n)).push(second("blocked_by"@)),
        ),
        from: Source {
            table: "issues"@,
            alias: "i"@,
            joins: seq![
                Join {
                    kind: JoinKind::Inner,
                    table: "blocked_issues_cache"@,
                    alias: "bc"@,
                    left: col("id"@),
                    right: second("issue_id"@),
                },
            ],
        },
        tests: seq![Test::OneOf(col("status"@), seq!["open"@, "in_progress"@])],
        order: seq![
            Key { col: col("priority"@), way: Way::Ascending },
            Key { col: col("created_at"@), way: Way::Ascending },
        ],
        limited: false,
    }
}

#[verifier::spinoff_prover]
#[verifier::rlimit(40)]
proof fn lemma_blocked_columns_text()
    ensures
        ({
            let t =
                "SELECT i.id, i.content_hash, i.title, i.description, i.design, i.acceptance_criteria, i.notes, i.status, i.priority, i.issue_type, i.assignee, i.owner, i.estimated_minutes, i.created_at, i.created_by, i.updated_at, i.closed_at, i.close_reason, i.closed_by_session, i.due_at, i.defer_until, i.external_ref, i.source_system, i.source_repo, i.deleted_at, i.deleted_by, i.delete_reason, i.original_type, i.compaction_level, i.compacted_at, i.compacted_at_commit, i.original_size, i.sender, i.ephemeral, i.pinned, i.is_template, bc.blocked_by FROM issues i INNER JOIN blocked_issues_cache bc ON i.id = bc.issue_id WHERE i.status IN ('open', 'in_progress') ORDER BY i.priority ASC, i.created_at ASC"@;
            columns_text(ask_blocked_issues().wanted->Columns_0, ask_blocked_issues().from)
                == t.subrange(7, 537)
        }),
{
    let t =
        "SELECT i.id, i.content_hash, i.title, i.description, i.design, i.acceptance_criteria, i.notes, i.status, i.priority, i.issue_type, i.assignee, i.owner, i.estimated_minutes, i.created_at, i.created_by, i.updated_at, i.closed_at, i.close_reason, i.closed_by_session, i.due_at, i.defer_until, i.external_ref, i.source_system, i.source_repo, i.deleted_at, i.deleted_by, i.delete_reason, i.original_type, i.compaction_level, i.compacted_at, i.compacted_at_commit, i.original_size, i.sender, i.ephemeral, i.pinned, i.is_template, bc.blocked_by FROM issues i INNER JOIN blocked_issues_cache bc ON i.id = bc.issue_id WHERE i.status IN ('open', 'in_progress') ORDER BY i.priority ASC, i.created_at ASC"@;
    let q = ask_blocked_issues();
    let w = q.wanted->Columns_0;
    let names = issue_columns();
    reveal_strlit(
        "SELECT i.id, i.content_hash, i.title, i.description, i.design, i.acceptance_criteria, i.notes, i.status, i.priority, i.issue_type, i.assignee, i.owner, i.estimated_minutes, i.created_at, i.created_by, i.updated_at, i.closed_at, i.close_reason, i.closed_by_session, i.due_at, i.defer_until, i.external_ref, i.source_system, i.source_repo, i.deleted_at, i.deleted_by, i.delete_reason, i.original_type, i.compaction_level, i.compacted_at, i.compacted_at_commit, i.original_size, i.sender, i.ephemeral, i.pinned, i.is_template, bc.blocked_by FROM issues i INNER JOIN blocked_issues_cache bc ON i.id = bc.issue_id WHERE i.status IN ('open', 'in_progress') ORDER BY i.priority ASC, i.created_at ASC",
    );
    reveal_strlit("i");
    reveal_strlit(".");
    reveal_strlit(", ");
    assert(columns_text(w.take(1), q.from) =~= t.subrange(7, 11)) by {
        reveal_strlit("id");
        assert(names[0] == "id"@);
        assert(w[0] == col("id"@));
    }
    assert(columns_text(w.take(2), q.from) =~= t.subrange(7, 27)) by {
        reveal_strlit("content_hash");
        assert(names[1] == "content_hash"@);
        assert(w[1] == col("content_hash"@));
        assert(w.take(2).drop_last() =~= w.take(1));
        assert(t.subrange(7, 27) =~= t.subrange(7, 11) + ", "@ + ("i"@ + "."@ + "content_hash"@));
    }
    assert(columns_text(w.take(3), q.from) =~= t.subrange(7, 36)) by {
        reveal_strlit("title");
        assert(names[2] == "title"@);
        assert(w[2] == col("title"@));
        assert(w.take(3).drop_last() =~= w.take(2));
        assert(t.subrange(7, 36) =~= t.subrange(7, 27) + ", "@ + ("i"@ + "."@ + "title"@));
    }
    assert(columns_text(w.take(4), q.from) =~= t.subrange(7, 51)) by {
        reveal_strlit("description");
        assert(names[3] == "description"@);
        assert(w[3] == col("description"@));
        assert(w.take(4).drop_last() =~= w.take(3));
        assert(t.subrange(7, 51) =~= t.subrange(7, 36) + ", "@ + ("i"@ + "."@ + "description"@));
    }
    assert(columns_text(w.take(5), q.from) =~= t.subrange(7, 61)) by {
        reveal_strlit("design");
        assert(names[4] == "design"@);
        assert(w[4] == col("design"@));
        assert(w.take(5).drop_last() =~= w.take(4));
        assert(t.subrange(7, 61) =~= t.subrange(7, 51) + ", "@ + ("i"@ + "."@ + "design"@));
    }
    assert(columns_text(w.take(6), q.from) =~= t.subrange(7, 84)) by {
        reveal_strlit("acceptance_criteria");
        assert(names[5] == "acceptance_criteria"@);
        assert(w[5] == col("acceptance_criteria"@));
        assert(w.take(6).drop_last() =~= w.take(5));
        assert(
            t.subrange(7, 84) =~= t.subrange(7, 61) + ", "@ + ("i"@ + "."@ + "acceptance_criteria"@)
        );
    }
    assert(columns_text(w.take(7), q.from) =~= t.subrange(7, 93)) by {
        reveal_strlit("notes");
        assert(names[6] == "notes"@);
        assert(w[6] == col("notes"@));
        assert(w.take(7).drop_last() =~= w.take(6));
        assert(t.subrange(7, 93) =~= t.subrange(7, 84) + ", "@ + ("i"@ + "."@ + "notes"@));
    }
    assert(columns_text(w.take(8), q.from) =~= t.subrange(7, 103)) by {
        reveal_strlit("status");
        assert(names[7] == "status"@);
        assert(w[7] == col("status"@));
        assert(w.take(8).drop_last() =~= w.take(7));
        assert(t.subrange(7, 103) =~= t.subrange(7, 93) + ", "@ + ("i"@ + "."@ + "status"@));
    }
    assert(columns_text(w.take(9), q.from) =~= t.subrange(7, 115)) by {
        reveal_strlit("priority");
        assert(names[8] == "priority"@);
        assert(w[8] == col("priority"@));
        assert(w.take(9).drop_last() =~= w.take(8));
        assert(t.subrange(7, 115) =~= t.subrange(7, 103) + ", "@ + ("i"@ + "."@ + "priority"@));
    }
    assert(columns_text(w.take(10), q.from) =~= t.subrange(7, 129)) by {
        reveal_strlit("issue_type");
        assert(names[9] == "issue_type"@);
        assert(w[9] == col("issue_type"@));
        assert(w.take(10).drop_last() =~= w.take(9));
        assert(t.subrange(7, 129) =~= t.subrange(7, 115) + ", "@ + ("i"@ + "."@ + "issue_type"@));
    }
    assert(columns_text(w.take(11), q.from) =~= t.subrange(7, 141)) by {
        reveal_strlit("assignee");
        assert(names[10] == "assignee"@);
        assert(w[10] == col("assignee"@));
        assert(w.take(11).drop_last() =~= w.take(10));
        assert(t.subrange(7, 141) =~= t.subrange(7, 129) + ", "@ + ("i"@ + "."@ + "assignee"@));
    }
    assert(columns_text(w.take(12), q.from) =~= t.subrange(7, 150)) by {
        reveal_strlit("owner");
        assert(names[11] == "owner"@);
        assert(w[11] == col("owner"@));
        assert(w.take(12).drop_last() =~= w.take(11));
        assert(t.subrange(7, 150) =~= t.subrange(7, 141) + ", "@ + ("i"@ + "."@ + "owner"@));
    }
    assert(columns_text(w.take(13), q.from) =~= t.subrange(7, 171)) by {
        reveal_strlit("estimated_minutes");
        assert(names[12] == "estimated_minutes"@);
        assert(w[12] == col("estimated_minutes"@));
        assert(w.take(13).drop_last() =~= w.take(12));
        assert(
            t.subrange(7, 171) =~= t.subrange(7, 150) + ", "@ + ("i"@ + "."@ + "estimated_minutes"@)
        );
    }
    assert(columns_text(w.take(14), q.from) =~= t.subrange(7, 185)) by {
        reveal_strlit("created_at");
        assert(names[13] == "created_at"@);
        assert(w[13] == col("created_at"@));
        assert(w.take(14).drop_last() =~= w.take(13));
        assert(t.subrange(7, 185) =~= t.subrange(7, 171) + ", "@ + ("i"@ + "."@ + "created_at"@));
    }
    assert(columns_text(w.take(15), q.from) =~= t.subrange(7, 199)) by {
        reveal_strlit("created_by");
        assert(names[14] == "created_by"@);
        assert(w[14] == col("created_by"@));
        assert(w.take(15).drop_last() =~= w.take(14));
        assert(t.subrange(7, 199) =~= t.subrange(7, 185) + ", "@ + ("i"@ + "."@ + "created_by"@));
    }
    assert(columns_text(w.take(16), q.from) =~= t.subrange(7, 213)) by {
        reveal_strlit("updated_at");
        assert(names[15] == "updated_at"@);
        assert(w[15] == col("updated_at"@));
        assert(w.take(16).drop_last() =~= w.take(15));
        assert(t.subrange(7, 213) =~= t.subrange(7, 199) + ", "@ + ("i"@ + "."@ + "updated_at"@));
    }
    assert(columns_text(w.take(17), q.from) =~= t.subrange(7, 226)) by {
        reveal_strlit("closed_at");
        assert(names[16] == "closed_at"@);
        assert(w[16] == col("closed_at"@));
        assert(w.take(17).drop_last() =~= w.take(16));
        assert(t.subrange(7, 226) =~= t.subrange(7, 213) + ", "@ + ("i"@ + "."@ + "closed_at"@));
    }
    assert(columns_text(w.take(18), q.from) =~= t.subrange(7, 242)) by {
        reveal_strlit("close_reason");
        assert(names[17] == "close_reason"@);
        assert(w[17] == col("close_reason"@));
        assert(w.take(18).drop_last() =~= w.take(17));
        assert(t.subrange(7, 242) =~= t.subrange(7, 226) + ", "@ + ("i"@ + "."@ + "close_reason"@));
    }
    assert(columns_text(w.take(19), q.from) =~= t.subrange(7, 263)) by {
        reveal_strlit("closed_by_session");
        assert(names[18] == "closed_by_session"@);
        assert(w[18] == col("closed_by_session"@));
        assert(w.take(19).drop_last() =~= w.take(18));
        assert(
            t.subrange(7, 263) =~= t.subrange(7, 242) + ", "@ + ("i"@ + "."@ + "closed_by_session"@)
        );
    }
    assert(columns_text(w.take(20), q.from) =~= t.subrange(7, 273)) by {
        reveal_strlit("due_at");
        assert(names[19] == "due_at"@);
        assert(w[19] == col("due_at"@));
        assert(w.take(20).drop_last() =~= w.take(19));
        assert(t.subrange(7, 273) =~= t.subrange(7, 263) + ", "@ + ("i"@ + "."@ + "due_at"@));
    }
    assert(columns_text(w.take(21), q.from) =~= t.subrange(7, 288)) by {
        reveal_strlit("defer_until");
        assert(names[20] == "defer_until"@);
        assert(w[20] == col("defer_until"@));
        assert(w.take(21).drop_last() =~= w.take(20));
        assert(t.subrange(7, 288) =~= t.subrange(7, 273) + ", "@ + ("i"@ + "."@ + "defer_until"@));
    }
    assert(columns_text(w.take(22), q.from) =~= t.subrange(7, 304)) by {
        reveal_strlit("external_ref");
        assert(names[21] == "external_ref"@);
        assert(w[21] == col("external_ref"@));
        assert(w.take(22).drop_last() =~= w.take(21));
        assert(t.subrange(7, 304) =~= t.subrange(7, 288) + ", "@ + ("i"@ + "."@ + "external_ref"@));
    }
    assert(columns_text(w.take(23), q.from) =~= t.subrange(7, 321)) by {
        reveal_strlit("source_system");
        assert(names[22] == "source_system"@);
        assert(w[22] == col("source_system"@));
        assert(w.take(23).drop_last() =~= w.take(22));
        assert(t.subrange(7, 321) =~= t.subrange(7, 304) + ", "@ + ("i"@ + "."@ + "source_system"@));
    }
    assert(columns_text(w.take(24), q.from) =~= t.subrange(7, 336)) by {
        reveal_strlit("source_repo");
        assert(names[23] == "source_repo"@);
        assert(w[23] == col("source_repo"@));
        assert(w.take(24).drop_last() =~= w.take(23));
        assert(t.subrange(7, 336) =~= t.subrange(7, 321) + ", "@ + ("i"@ + "."@ + "source_repo"@));
    }
    assert(columns_text(w.take(25), q.from) =~= t.subrange(7, 350)) by {
        reveal_strlit("deleted_at");
        assert(names[24] == "deleted_at"@);
        assert(w[24] == col("deleted_at"@));
        assert(w.take(25).drop_last() =~= w.take(24));
        assert(t.subrange(7, 350) =~= t.subrange(7, 336) + ", "@ + ("i"@ + "."@ + "deleted_at"@));
    }
    assert(columns_text(w.take(26), q.from) =~= t.subrange(7, 364)) by {
        reveal_strlit("deleted_by");
        assert(names[25] == "deleted_by"@);
        assert(w[25] == col("deleted_by"@));
        assert(w.take(26).drop_last() =~= w.take(25));
        assert(t.subrange(7, 364) =~= t.subrange(7, 350) + ", "@ + ("i"@ + "."@ + "deleted_by"@));
    }
    assert(columns_text(w.take(27), q.from) =~= t.subrange(7, 381)) by {
        reveal_strlit("delete_reason");
        assert(names[26] == "delete_reason"@);
        assert(w[26] == col("delete_reason"@));
        assert(w.take(27).drop_last() =~= w.take(26));
        assert(t.subrange(7, 381) =~= t.subrange(7, 364) + ", "@ + ("i"@ + "."@ + "delete_reason"@));
    }
    assert(columns_text(w.take(28), q.from) =~= t.subrange(7, 398)) by {
        reveal_strlit("original_type");
        assert(names[27] == "original_type"@);
        assert(w[27] == col("original_type"@));
        assert(w.take(28).drop_last() =~= w.take(27));
        assert(t.subrange(7, 398) =~= t.subrange(7, 381) + ", "@ + ("i"@ + "."@ + "original_type"@));
    }
    assert(columns_text(w.take(29), q.from) =~= t.subrange(7, 418)) by {
        reveal_strlit("compaction_level");
        assert(names[28] == "compaction_level"@);
        assert(w[28] == col("compaction_level"@));
        assert(w.take(29).drop_last() =~= w.take(28));
        assert(
            t.subrange(7, 418) =~= t.subrange(7, 398) + ", "@ + ("i"@ + "."@ + "compaction_level"@)
        );
    }
    assert(columns_text(w.take(30), q.from) =~= t.subrange(7, 434)) by {
        reveal_strlit("compacted_at");
        assert(names[29] == "compacted_at"@);
        assert(w[29] == col("compacted_at"@));
        assert(w.take(30).drop_last() =~= w.take(29));
        assert(t.subrange(7, 434) =~= t.subrange(7, 418) + ", "@ + ("i"@ + "."@ + "compacted_at"@));
    }
    assert(columns_text(w.take(31), q.from) =~= t.subrange(7, 457)) by {
        reveal_strlit("compacted_at_commit");
        assert(names[30] == "compacted_at_commit"@);
        assert(w[30] == col("compacted_at_commit"@));
        assert(w.take(31).drop_last() =~= w.take(30));
        assert(
            t.subrange(7, 457) =~= t.subrange(7, 434) + ", "@
                + ("i"@ + "."@ + "compacted_at_commit"@)
        );
    }
    assert(columns_text(w.take(32), q.from) =~= t.subrange(7, 474)) by {
        reveal_strlit("original_size");
        assert(names[31] == "original_size"@);
        assert(w[31] == col("original_size"@));
        assert(w.take(32).drop_last() =~= w.take(31));
        assert(t.subrange(7, 474) =~= t.subrange(7, 457) + ", "@ + ("i"@ + "."@ + "original_size"@));
    }
    assert(columns_text(w.take(33), q.from) =~= t.subrange(7, 484)) by {
        reveal_strlit("sender");
        assert(names[32] == "sender"@);
        assert(w[32] == col("sender"@));
        assert(w.take(33).drop_last() =~= w.take(32));
        assert(t.subrange(7, 484) =~= t.subrange(7, 474) + ", "@ + ("i"@ + "."@ + "sender"@));
    }
    assert(columns_text(w.take(34), q.from) =~= t.subrange(7, 497)) by {
        reveal_strlit("ephemeral");
        assert(names[33] == "ephemeral"@);
        assert(w[33] == col("ephemeral"@));
        assert(w.take(34).drop_last() =~= w.take(33));
        assert(t.subrange(7, 497) =~= t.subrange(7, 484) + ", "@ + ("i"@ + "."@ + "ephemeral"@));
    }
    assert(columns_text(w.take(35), q.from) =~= t.subrange(7, 507)) by {
        reveal_strlit("pinned");
        assert(names[34] == "pinned"@);
        assert(w[34] == col("pinned"@));
        assert(w.take(35).drop_last() =~= w.take(34));
        assert(t.subrange(7, 507) =~= t.subrange(7, 497) + ", "@ + ("i"@ + "."@ + "pinned"@));
    }
    assert(columns_text(w.take(36), q.from) =~= t.subrange(7, 522)) by {
        reveal_strlit("is_template");
        assert(names[35] == "is_template"@);
        assert(w[35] == col("is_template"@));
        assert(w.take(36).drop_last() =~= w.take(35));
        assert(t.subrange(7, 522) =~= t.subrange(7, 507) + ", "@ + ("i"@ + "."@ + "is_template"@));
    }
    assert(columns_text(w.take(37), q.from) =~= t.subrange(7, 537)) by {
        reveal_strlit("bc");
        reveal_strlit("blocked_by");
        assert(w[36] == second("blocked_by"@));
        assert(w.take(37).drop_last() =~= w.take(36));
        assert(t.subrange(7, 537) =~= t.subrange(7, 522) + ", "@ + ("bc"@ + "."@ + "blocked_by"@));
    }
    assert(w.take(37) =~= w);
}

#[verifier::spinoff_prover]
#[verifier::rlimit(40)]
pub(crate) proof fn lemma_ask_blocked_issues_text()
    ensures
        ask_blocked_issues().text()
            == "SELECT i.id, i.content_hash, i.title, i.description, i.design, i.acceptance_criteria, i.notes, i.status, i.priority, i.issue_type, i.assignee, i.owner, i.estimated_minutes, i.created_at, i.created_by, i.updated_at, i.closed_at, i.close_reason, i.closed_by_session, i.due_at, i.defer_until, i.external_ref, i.source_system, i.source_repo, i.deleted_at, i.deleted_by, i.delete_reason, i.original_type, i.compaction_level, i.compacted_at, i.compacted_at_commit, i.original_size, i.sender, i.ephemeral, i.pinned, i.is_template, bc.blocked_by FROM issues i INNER JOIN blocked_issues_cache bc ON i.id = bc.issue_id WHERE i.status IN ('open', 'in_progress') ORDER BY i.priority ASC, i.created_at ASC"@,
        tests_params(ask_blocked_issues().tests) == Seq::<SqlCell>::empty(),
{
    let t =
        "SELECT i.id, i.content_hash, i.title, i.description, i.design, i.acceptance_criteria, i.notes, i.status, i.priority, i.issue_type, i.assignee, i.owner, i.estimated_minutes, i.created_at, i.created_by, i.updated_at, i.closed_at, i.close_reason, i.closed_by_session, i.due_at, i.defer_until, i.external_ref, i.source_system, i.source_repo, i.deleted_at, i.deleted_by, i.delete_reason, i.original_type, i.compaction_level, i.compacted_at, i.compacted_at_commit, i.original_size, i.sender, i.ephemeral, i.pinned, i.is_template, bc.blocked_by FROM issues i INNER JOIN blocked_issues_cache bc ON i.id = bc.issue_id WHERE i.status IN ('open', 'in_progress') ORDER BY i.priority ASC, i.created_at ASC"@;
    let q = ask_blocked_issues();
    lemma_blocked_columns_text();
    assert(q.from.joins_text(0) =~= seq![]);
    let j = q.from.joins[0];
    assert(j.left == col("id"@) && j.right == second("issue_id"@));
    assert(q.from.column(j.left) =~= "i.id"@) by {
        reveal_strlit("i.id");
        reveal_strlit("i");
        reveal_strlit(".");
        reveal_strlit("id");
    }
    assert(q.from.column(j.right) =~= "bc.issue_id"@) by {
        reveal_strlit("bc.issue_id");
        reveal_strlit("i");
        reveal_strlit("bc");
        reveal_strlit(".");
        reveal_strlit("issue_id");
    }
    assert(q.from.joins_text(1) =~= " INNER JOIN blocked_issues_cache bc ON i.id = bc.issue_id"@) by {
        reveal_strlit(" INNER JOIN blocked_issues_cache bc ON i.id = bc.issue_id");
        reveal_strlit(" INNER JOIN ");
        reveal_strlit("blocked_issues_cache");
        reveal_strlit(" ");
        reveal_strlit("bc");
        reveal_strlit(" ON ");
        reveal_strlit("i.id");
        reveal_strlit(" = ");
        reveal_strlit("bc.issue_id");
    }
    assert(q.from.text() =~= "issues i INNER JOIN blocked_issues_cache bc ON i.id = bc.issue_id"@) by {
        reveal_strlit("issues i INNER JOIN blocked_issues_cache bc ON i.id = bc.issue_id");
        reveal_strlit("issues");
        reveal_strlit(" ");
        reveal_strlit("i");
        reveal_strlit(" INNER JOIN blocked_issues_cache bc ON i.id = bc.issue_id");
    }
    assert(q.tests[0] == Test::OneOf(col("status"@), seq!["open"@, "in_progress"@]));
    assert(q.from.column(col("status"@)) =~= "i.status"@) by {
        reveal_strlit("i.status");
        reveal_strlit("i");
        reveal_strlit(".");
        reveal_strlit("status");
    }
    assert(quoted(q.tests[0]->OneOf_1) =~= "'open', 'in_progress'"@) by {
        reveal_with_fuel(quoted, 3);
        reveal_strlit("'open', 'in_progress'");
        reveal_strlit("'");
        reveal_strlit("open");
        reveal_strlit(", '");
        reveal_strlit("in_progress");
    }
    assert(tests_text(q.tests, q.from) =~= " WHERE i.status IN ('open', 'in_progress')"@) by {
        reveal_strlit(" WHERE i.status IN ('open', 'in_progress')");
        reveal_strlit(" WHERE ");
        reveal_strlit("i.status");
        reveal_strlit(" IN (");
        reveal_strlit("'open', 'in_progress'");
        reveal_strlit(")");
    }
    assert(q.order[0].col == col("priority"@) && q.order[1].col == col("created_at"@));
    assert(q.from.column(col("priority"@)) =~= "i.priority"@) by {
        reveal_strlit("i.priority");
        reveal_strlit("i");
        reveal_strlit(".");
        reveal_strlit("priority");
    }
    assert(q.from.column(col("created_at"@)) =~= "i.created_at"@) by {
        reveal_strlit("i.created_at");
        reveal_strlit("i");
        reveal_strlit(".");
        reveal_strlit("created_at");
    }
    assert(order_text(q.order.take(1), q.from) =~= " ORDER BY i.priority ASC"@) by {
        reveal_strlit(" ORDER BY i.priority ASC");
        reveal_strlit(" ORDER BY ");
        reveal_strlit("i.priority");
        reveal_strlit(" ASC");
    }
    assert(order_text(q.order, q.from) =~= " ORDER BY i.priority ASC, i.created_at ASC"@) by {
        assert(q.order.drop_last() =~= q.order.take(1));
        reveal_strlit(" ORDER BY i.priority ASC, i.created_at ASC");
        reveal_strlit(" ORDER BY i.priority ASC");
        reveal_strlit(", ");
        reveal_strlit("i.created_at");
        reveal_strlit(" ASC");
    }
    assert(t.subrange(0, 7) =~= "SELECT "@ && t.subrange(537, 608) =~= " FROM "@ + "issues i INNER JOIN blocked_issues_cache bc ON i.id = bc.issue_id"@ && t.subrange(
        608,
        692,
    ) =~= " WHERE i.status IN ('open', 'in_progress')"@ + " ORDER BY i.priority ASC, i.created_at ASC"@) by {
        reveal_strlit(
            "SELECT i.id, i.content_hash, i.title, i.description, i.design, i.acceptance_criteria, i.notes, i.status, i.priority, i.issue_type, i.assignee, i.owner, i.estimated_minutes, i.created_at, i.created_by, i.updated_at, i.closed_at, i.close_reason, i.closed_by_session, i.due_at, i.defer_until, i.external_ref, i.source_system, i.source_repo, i.deleted_at, i.deleted_by, i.delete_reason, i.original_type, i.compaction_level, i.compacted_at, i.compacted_at_commit, i.original_size, i.sender, i.ephemeral, i.pinned, i.is_template, bc.blocked_by FROM issues i INNER JOIN blocked_issues_cache bc ON i.id = bc.issue_id WHERE i.status IN ('open', 'in_progress') ORDER BY i.priority ASC, i.created_at ASC",
        );
        reveal_strlit("SELECT ");
        reveal_strlit(" FROM ");
        reveal_strlit("issues i INNER JOIN blocked_issues_cache bc ON i.id = bc.issue_id");
        reveal_strlit(" WHERE i.status IN ('open', 'in_progress')");
        reveal_strlit(" ORDER BY i.priority ASC, i.created_at ASC");
    }
    assert(t.len() == 692) by {
        reveal_strlit(
            "SELECT i.id, i.content_hash, i.title, i.description, i.design, i.acceptance_criteria, i.notes, i.status, i.priority, i.issue_type, i.assignee, i.owner, i.estimated_minutes, i.created_at, i.created_by, i.updated_at, i.closed_at, i.close_reason, i.closed_by_session, i.due_at, i.defer_until, i.external_ref, i.source_system, i.source_repo, i.deleted_at, i.deleted_by, i.delete_reason, i.original_type, i.compaction_level, i.compacted_at, i.compacted_at_commit, i.original_size, i.sender, i.ephemeral, i.pinned, i.is_template, bc.blocked_by FROM issues i INNER JOIN blocked_issues_cache bc ON i.id = bc.issue_id WHERE i.status IN ('open', 'in_progress') ORDER BY i.priority ASC, i.created_at ASC",
        );
    }
    assert(
        t =~= t.subrange(0, 7) + t.subrange(7, 537) + t.subrange(537, 608) + t.subrange(608, 692)
    );
    assert(
        q.text() =~= t.subrange(0, 7) + t.subrange(7, 537) + t.subrange(537, 608)
            + t.subrange(608, 692)
    );
    reveal_with_fuel(tests_params, 2);
    assert(tests_params(q.tests) =~= Seq::<SqlCell>::empty());
}

/// The blocked issues are the open ones and those in progress that the cache has an entry for, each
/// with what the entry holds, the most urgent first and of these the oldest.
pub proof fn lemma_blocked_issues_asked(base: Base, p: Pick)
    ensures
        ask_blocked_issues().selects(base, p) <==> p.len() == 2 && (p[0] matches Some(i)
            && p[1] matches Some(entry) && base["issues"@].contains(i)
            && base["blocked_issues_cache"@].contains(entry) && cell(i, "id"@) == cell(
            entry,
            "issue_id"@,
        ) && !(cell(i, "id"@) is Null) && (cell(i, "status"@) == SqlCell::Text("open"@) || cell(
            i,
            "status"@,
        ) == SqlCell::Text("in_progress"@))),
        ask_blocked_issues().selects(base, p) ==> ask_blocked_issues().row(p) == issue_select(
            seq![],
            seq![],
        ).row(seq![p[0]]).push(cell(p[1]->0, "blocked_by"@)),
        forall|a: Pick, b: Pick| #[trigger]
            in_order(ask_blocked_issues().order, a, b) == (if value(a, col("priority"@)) != value(
                b,
                col("priority"@),
            ) {
                cell_le(value(a, col("priority"@)), value(b, col("priority"@)))
            } else {
                value(a, col("created_at"@)) == value(b, col("created_at"@)) || cell_le(
                    value(a, col("created_at"@)),
                    value(b, col("created_at"@)),
                )
            }),
{
    let q = ask_blocked_issues();
    assert(q.tests[0] == Test::OneOf(col("status"@), seq!["open"@, "in_progress"@]));
    lemma_among2(q.tests[0]->OneOf_1, "open"@, "in_progress"@);
    assert(q.from.joins[0].left == col("id"@) && q.from.joins[0].right == second("issue_id"@));
    assert(q.from.joins[0].table == "blocked_issues_cache"@);
    if p.len() == 2 {
        assert(q.from.offers(base, p) <==> p[0] is Some && base["issues"@].contains(p[0]->0)
            && q.from.fits(base, p, 0));
        assert(all_hold(q.tests, p) <==> q.tests[0].holds(p));
    }
    if q.selects(base, p) {
        let row = q.row(p);
        let own = issue_select(seq![], seq![]).row(seq![p[0]]);
        let w = q.wanted->Columns_0;
        let c = issue_select(seq![], seq![]).wanted->Columns_0;
        assert(w.len() == 37 && c.len() == 36);
        assert forall|k: int| 0 <= k < 37 implies row[k] == own.push(
            cell(p[1]->0, "blocked_by"@),
        )[k] by {
            if k < 36 {
                assert(w[k] == c[k] && c[k] == col(issue_columns()[k]));
            } else {
                assert(w[k] == second("blocked_by"@));
            }
        }
        assert(row =~= own.push(cell(p[1]->0, "blocked_by"@)));
    }
    reveal_with_fuel(in_order, 3);
}

proof fn lemma_written_key(i: IssueView, record: Record)
    requires
        issue_insert(new_row(i)).writes(record) || issue_insert(import_row(i)).writes(record),
    ensures
        cell(record, "id"@) == SqlCell::Text(i.id),
        cell(record, "status"@) == SqlCell::Text(i.status.name()),
{
    if issue_insert(new_row(i)).writes(record) {
        lemma_created_fields(i, record);
    } else {
        lemma_imported_fields(i, record);
    }
}

/// A blocked issue is read back as itself with exactly the blockers that a rebuild wrote for it: from
/// the record that its creation writes and the entry that the rebuild writes, the query gives a row
/// that is read as the issue and the whole list, in its order.
#[verifier::spinoff_prover]
#[verifier::rlimit(60)]
pub proof fn lemma_blocked_issue_reads_back(
    base: Base,
    i: IssueView,
    blockers: Seq<Seq<char>>,
    record: Record,
    entry: Record,
)
    requires
        dates_read_back(i),
        reads_back(blockers),
        issue_insert(new_row(i)).writes(record) || issue_insert(import_row(i)).writes(record),
        put_cache_entry(i.id, blockers).writes(entry),
        base["issues"@].contains(record),
        base["blocked_issues_cache"@].contains(entry),
        i.status is Open || i.status is InProgress,
    ensures
        ask_blocked_issues().selects(base, seq![Some(record), Some(entry)]),
        blocked_issues_of(seq![ask_blocked_issues().row(seq![Some(record), Some(entry)])]) == Ok::<
            Seq<(IssueView, Seq<Seq<char>>)>,
            BeadsErrorView,
        >(seq![(as_stored(i), blockers)]),
{
    let p = seq![Some(record), Some(entry)];
    let q = ask_blocked_issues();
    lemma_written_key(i, record);
    lemma_cache_entry(entry, i.id, blockers);
    lemma_blocked_issues_asked(base, p);
    let own = issue_select(seq![], seq![]).row(seq![Some(record)]);
    assert(own.len() == 36);
    lemma_created_issue_reads_back(i, record);
    assert(seq![p[0]] =~= seq![Some(record)]);
    assert(q.row(p) == own.push(SqlCell::Text(json_of_texts(blockers))));
    lemma_blocked_row_reads_back(own, as_stored(i), blockers);
}

/// A column that an update sets has, among the columns of an issue, the name and the place that it is
/// written and read under.
pub proof fn lemma_set_columns_are_read(c: Column)
    ensures
        0 <= c.place() < 36,
        issue_columns()[c.place()] == c.name(),
{
}

/// The change that an update makes.
pub open spec fn turn_updated(
    list: Seq<(Column, SqlCell)>,
    now: Instant,
    hash: Seq<char>,
    id: Seq<char>,
) -> Update {
    Update {
        table: "issues"@,
        sets: (list + stamps(now, hash)).map_values(
            |a: (Column, SqlCell)| (a.0.name(), Setting::Bound(a.1)),
        ),
        tests: seq![Test::Bound(col("id"@), SqlCell::Text(id))],
    }
}

proof fn lemma_assignments_text(list: Seq<(Column, SqlCell)>)
    ensures
        ({
            let sets = list.map_values(|a: (Column, SqlCell)| (a.0.name(), Setting::Bound(a.1)));
            rendered(assignment_pieces(list)) == sets_text(sets) && bound(assignment_pieces(list))
                == sets_params(sets)
        }),
    decreases list.len(),
{
    let f = |a: (Column, SqlCell)| (a.0.name(), Setting::Bound(a.1));
    let sets = list.map_values(f);
    if list.len() > 0 {
        let front = list.drop_last();
        lemma_assignments_text(front);
        assert(sets.drop_last() =~= front.map_values(f));
        let a = assignment_pieces(front);
        let b = raw_if(list.len() > 1, ", "@);
        let c = raw_bind(list.last().0.name() + " = "@, list.last().1);
        assert(assignment_pieces(list) =~= a + b + c);
        lemma_assembled_concat(a + b, c);
        lemma_assembled_concat(a, b);
        reveal_with_fuel(rendered, 3);
        reveal_with_fuel(bound, 3);
        assert(raw(", "@).drop_last() =~= seq![]);
        assert(rendered(b) =~= if list.len() > 1 {
            ", "@
        } else {
            seq![]
        });
        assert(bound(b) =~= seq![]);
        assert(c.drop_last() =~= raw(list.last().0.name() + " = "@));
        assert(c.drop_last().drop_last() =~= seq![]);
        reveal_strlit(" = ?");
        reveal_strlit(" = ");
        assert(" = ?"@ =~= " = "@ + seq!['?']);
        assert(rendered(c) =~= list.last().0.name() + " = ?"@);
        assert(bound(c) =~= seq![list.last().1]);
        assert(sets_text(sets) =~= sets_text(sets.drop_last()) + rendered(b) + rendered(c));
    }
}

/// An update sets, in the issue with its ID and in no other, each column that it assigns, by the
/// column's name, and besides when the issue was changed and its hash; all other columns stay.
#[verifier::spinoff_prover]
pub proof fn lemma_update_turns(
    before: Record,
    after: Record,
    list: Seq<(Column, SqlCell)>,
    now: Instant,
    hash: Seq<char>,
    id: Seq<char>,
)
    requires
        turn_updated(list, now, hash, id).turns(before, after),
    ensures
        update_statement(list, now, hash, id).sql == "UPDATE "@ + "issues"@ + " SET "@ + sets_text(
            turn_updated(list, now, hash, id).sets,
        ) + tests_text(turn_updated(list, now, hash, id).tests, over("issues"@)) + " "@,
        update_statement(list, now, hash, id).params == sets_params(
            turn_updated(list, now, hash, id).sets,
        ) + seq![SqlCell::Text(id)],
        cell(before, "id"@) == SqlCell::Text(id) ==> {
            &&& forall|k: int|
                0 <= k < list.len() ==> cell(after, (#[trigger] list[k]).0.name()) == list[k].1
            &&& cell(after, "updated_at"@) == SqlCell::Text(rfc3339(now))
            &&& cell(after, "content_hash"@) == SqlCell::Text(hash)
        },
        forall|name: Seq<char>|
            name != "updated_at"@ && name != "content_hash"@ && (forall|k: int|
                0 <= k < list.len() ==> (#[trigger] list[k]).0.name() != name) ==> #[trigger] cell(
                after,
                name,
            ) == cell(before, name),
        cell(before, "id"@) != SqlCell::Text(id) ==> after == before,
{
    let up = turn_updated(list, now, hash, id);
    let all = list + stamps(now, hash);
    lemma_assignments_text(all);
    let a = raw("UPDATE issues SET "@);
    let b = assignment_pieces(all);
    let c = raw_bind(" WHERE id = "@, SqlCell::Text(id));
    let d = raw(" "@);
    lemma_assembled_concat(a, b);
    lemma_assembled_concat(a + b, c);
    lemma_assembled_concat(a + b + c, d);
    reveal_with_fuel(rendered, 3);
    reveal_with_fuel(bound, 3);
    assert(a.drop_last() =~= seq![]);
    assert(d.drop_last() =~= seq![]);
    assert(c.drop_last() =~= raw(" WHERE id = "@));
    assert(c.drop_last().drop_last() =~= seq![]);
    assert(rendered(a) =~= "UPDATE issues SET "@);
    assert(rendered(d) =~= " "@);
    assert(rendered(c) =~= " WHERE id = "@ + seq!['?']);
    assert(bound(a) =~= seq![] && bound(d) =~= seq![] && bound(c) =~= seq![SqlCell::Text(id)]);
    reveal_with_fuel(tests_text, 2);
    assert("UPDATE issues SET "@ =~= "UPDATE "@ + "issues"@ + " SET "@ && " WHERE id = "@ + seq!['?']
        =~= tests_text(up.tests, over("issues"@))) by {
        reveal_strlit("UPDATE issues SET ");
        reveal_strlit("UPDATE ");
        reveal_strlit("issues");
        reveal_strlit(" SET ");
        reveal_strlit(" WHERE id = ");
        reveal_strlit(" WHERE ");
        reveal_strlit("id");
        reveal_strlit(" = ?");
    }
    assert(update_statement(list, now, hash, id).sql =~= "UPDATE "@ + "issues"@ + " SET "@
        + sets_text(up.sets) + tests_text(up.tests, over("issues"@)) + " "@);
    assert(update_statement(list, now, hash, id).params =~= sets_params(up.sets) + seq![
        SqlCell::Text(id),
    ]);
    assert(up.tests[0] == Test::Bound(col("id"@), SqlCell::Text(id)));
    assert(all_hold(up.tests, seq![Some(before)]) <==> up.tests[0].holds(seq![Some(before)]));
    assert forall|k: int| 0 <= k < list.len() implies up.sets[k].0 == (#[trigger] list[k]).0.name()
        && up.sets[k].1 == Setting::Bound(list[k].1) by {
        assert(all[k] == list[k]);
    }
    let n = list.len() as int;
    assert(all[n] == stamps(now, hash)[0] && all[n + 1] == stamps(now, hash)[1]);
    assert(up.sets[n].0 == "updated_at"@ && up.sets[n + 1].0 == "content_hash"@);
    assert forall|name: Seq<char>|
        name != "updated_at"@ && name != "content_hash"@ && (forall|k: int|
            0 <= k < list.len() ==> (#[trigger] list[k]).0.name() != name) implies #[trigger] cell(
        after,
        name,
    ) == cell(before, name) by {
        if up.touches(name) {
            let k = choose|k: int| 0 <= k < up.sets.len() && (#[trigger] up.sets[k]).0 == name;
            assert(up.sets[k].0 == all[k].0.name());
            if k < n {
                assert(list[k].0.name() != name);
            }
        }
    }
}

} // verus!
