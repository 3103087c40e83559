//! What the queries ask of the tables: which records each of them selects, what it gives of them,
//! and in which order.

use vstd::prelude::*;

verus! {

use crate::pattern::like;
use crate::searching::same_letter;
use crate::sql::SqlCell;
use crate::tables::{
    cell,
    cell_le,
    col,
    cols,
    columns_text,
    in_order,
    lemma_all_kept,
    lemma_counted,
    lemma_over_one,
    order_text,
    select,
    tests_params,
    tests_text,
    value,
    Base,
    Key,
    Pick,
    Record,
    Select,
    Test,
    Wanted,
    Way,
};

/// The query behind `get_blocked_ids`.
pub open spec fn ask_blocked_ids() -> Select {
    select(cols(seq!["issue_id"@]), "blocked_issues_cache"@, seq![])
}

#[verifier::spinoff_prover]
pub(crate) proof fn lemma_ask_blocked_ids_text()
    ensures
        ask_blocked_ids().text() == "SELECT issue_id FROM blocked_issues_cache"@,
        tests_params(ask_blocked_ids().tests) == Seq::<SqlCell>::empty(),
{
    let q = ask_blocked_ids();
    let t = "SELECT issue_id FROM blocked_issues_cache"@;
    assert(columns_text(q.wanted->Columns_0, q.from) =~= "issue_id"@) by {
        reveal_with_fuel(columns_text, 2);
    }
    reveal_strlit("SELECT issue_id FROM blocked_issues_cache");
    reveal_strlit("SELECT ");
    reveal_strlit("issue_id");
    reveal_strlit(" FROM ");
    reveal_strlit("blocked_issues_cache");
    assert(t =~= "SELECT "@ + "issue_id"@ + " FROM "@ + "blocked_issues_cache"@);
    assert(q.text() =~= "SELECT "@ + "issue_id"@ + " FROM "@ + "blocked_issues_cache"@);
    reveal_with_fuel(tests_params, 1);
    assert(tests_params(q.tests) =~= Seq::<SqlCell>::empty());
}

/// The query for blocked issues gives the issue of every entry of the cache.
pub proof fn lemma_blocked_ids(base: Base, r: Record)
    ensures
        ask_blocked_ids().selects(base, seq![Some(r)])
            <==> base["blocked_issues_cache"@].contains(r),
        ask_blocked_ids().row(seq![Some(r)]) == seq![cell(r, "issue_id"@)],
{
    let q = ask_blocked_ids();
    lemma_over_one(q, base, seq![Some(r)]);
    assert(q.row(seq![Some(r)]) =~= seq![cell(r, "issue_id"@)]);
}

/// The query behind `is_blocked`.
pub open spec fn ask_blocked_check(issue_id: Seq<char>) -> Select {
    Select {
        limited: true,
        ..select(
            Wanted::One,
            "blocked_issues_cache"@,
            seq![Test::Bound(col("issue_id"@), SqlCell::Text(issue_id))],
        )
    }
}

#[verifier::spinoff_prover]
pub(crate) proof fn lemma_ask_blocked_check_text(issue_id: Seq<char>)
    ensures
        ask_blocked_check(issue_id).text()
            == "SELECT 1 FROM blocked_issues_cache WHERE issue_id = ? LIMIT 1"@,
        tests_params(ask_blocked_check(issue_id).tests) == seq![SqlCell::Text(issue_id)],
{
    let q = ask_blocked_check(issue_id);
    let t = "SELECT 1 FROM blocked_issues_cache WHERE issue_id = ? LIMIT 1"@;
    assert(tests_text(q.tests, q.from) =~= " WHERE "@ + "issue_id"@ + " = ?"@) by {
        reveal_with_fuel(tests_text, 2);
    }
    reveal_strlit("SELECT 1 FROM blocked_issues_cache WHERE issue_id = ? LIMIT 1");
    reveal_strlit("SELECT ");
    reveal_strlit("1");
    reveal_strlit(" FROM ");
    reveal_strlit("blocked_issues_cache");
    reveal_strlit(" WHERE ");
    reveal_strlit("issue_id");
    reveal_strlit(" = ?");
    reveal_strlit(" LIMIT 1");
    assert(
        t =~= "SELECT "@ + "1"@ + " FROM "@ + "blocked_issues_cache"@ + " WHERE "@ + "issue_id"@
            + " = ?"@ + " LIMIT 1"@
    );
    assert(
        q.text() =~= "SELECT "@ + "1"@ + " FROM "@ + "blocked_issues_cache"@ + " WHERE "@
            + "issue_id"@ + " = ?"@ + " LIMIT 1"@
    );
    reveal_with_fuel(tests_params, 2);
    assert(tests_params(q.tests) =~= seq![SqlCell::Text(issue_id)]);
}

/// An issue is found to be blocked exactly by the entries of the cache for it.
pub proof fn lemma_blocked_check(base: Base, r: Record, issue_id: Seq<char>)
    ensures
        ask_blocked_check(issue_id).selects(base, seq![Some(r)])
            <==> base["blocked_issues_cache"@].contains(r)
                && cell(r, "issue_id"@) == SqlCell::Text(issue_id),
{
    let q = ask_blocked_check(issue_id);
    assert(q.tests[0] == Test::Bound(col("issue_id"@), SqlCell::Text(issue_id)));
    lemma_over_one(q, base, seq![Some(r)]);
}

/// The query behind `blockers_query`.
pub open spec fn ask_cached_blockers(issue_id: Seq<char>) -> Select {
    select(
        cols(seq!["blocked_by"@]),
        "blocked_issues_cache"@,
        seq![Test::Bound(col("issue_id"@), SqlCell::Text(issue_id))],
    )
}

#[verifier::spinoff_prover]
pub(crate) proof fn lemma_ask_cached_blockers_text(issue_id: Seq<char>)
    ensures
        ask_cached_blockers(issue_id).text()
            == "SELECT blocked_by FROM blocked_issues_cache WHERE issue_id = ?"@,
        tests_params(ask_cached_blockers(issue_id).tests) == seq![SqlCell::Text(issue_id)],
{
    let q = ask_cached_blockers(issue_id);
    let t = "SELECT blocked_by FROM blocked_issues_cache WHERE issue_id = ?"@;
    assert(columns_text(q.wanted->Columns_0, q.from) =~= "blocked_by"@) by {
        reveal_with_fuel(columns_text, 2);
    }
    assert(tests_text(q.tests, q.from) =~= " WHERE "@ + "issue_id"@ + " = ?"@) by {
        reveal_with_fuel(tests_text, 2);
    }
    reveal_strlit("SELECT blocked_by FROM blocked_issues_cache WHERE issue_id = ?");
    reveal_strlit("SELECT ");
    reveal_strlit("blocked_by");
    reveal_strlit(" FROM ");
    reveal_strlit("blocked_issues_cache");
    reveal_strlit(" WHERE ");
    reveal_strlit("issue_id");
    reveal_strlit(" = ?");
    assert(
        t =~= "SELECT "@ + "blocked_by"@ + " FROM "@ + "blocked_issues_cache"@ + " WHERE "@
            + "issue_id"@ + " = ?"@
    );
    assert(
        q.text() =~= "SELECT "@ + "blocked_by"@ + " FROM "@ + "blocked_issues_cache"@ + " WHERE "@
            + "issue_id"@ + " = ?"@
    );
    reveal_with_fuel(tests_params, 2);
    assert(tests_params(q.tests) =~= seq![SqlCell::Text(issue_id)]);
}

/// The query for what blocks an issue gives what the entries of the cache for it hold.
pub proof fn lemma_cached_blockers(base: Base, r: Record, issue_id: Seq<char>)
    ensures
        ask_cached_blockers(issue_id).selects(base, seq![Some(r)])
            <==> base["blocked_issues_cache"@].contains(r)
                && cell(r, "issue_id"@) == SqlCell::Text(issue_id),
        ask_cached_blockers(issue_id).row(seq![Some(r)]) == seq![cell(r, "blocked_by"@)],
{
    let q = ask_cached_blockers(issue_id);
    assert(q.tests[0] == Test::Bound(col("issue_id"@), SqlCell::Text(issue_id)));
    lemma_over_one(q, base, seq![Some(r)]);
    assert(q.row(seq![Some(r)]) =~= seq![cell(r, "blocked_by"@)]);
}

/// The query behind `comments_query`.
pub open spec fn ask_comments_of(issue_id: Seq<char>) -> Select {
    Select {
        order: seq![Key { col: col("created_at"@), way: Way::Ascending }],
        ..select(
            cols(seq!["id"@, "issue_id"@, "author"@, "text"@, "created_at"@]),
            "comments"@,
            seq![Test::Bound(col("issue_id"@), SqlCell::Text(issue_id))],
        )
    }
}

#[verifier::spinoff_prover]
pub(crate) proof fn lemma_ask_comments_of_text(issue_id: Seq<char>)
    ensures
        ask_comments_of(issue_id).text()
            == "SELECT id, issue_id, author, text, created_at FROM comments WHERE issue_id = ? ORDER BY created_at ASC"@,
        tests_params(ask_comments_of(issue_id).tests) == seq![SqlCell::Text(issue_id)],
{
    let q = ask_comments_of(issue_id);
    let t = "SELECT id, issue_id, author, text, created_at FROM comments WHERE issue_id = ? ORDER BY created_at ASC"@;
    assert(
        columns_text(q.wanted->Columns_0, q.from) =~= "id"@ + ", "@ + "issue_id"@ + ", "@
            + "author"@ + ", "@ + "text"@ + ", "@ + "created_at"@
    ) by {
        reveal_with_fuel(columns_text, 6);
    }
    assert(tests_text(q.tests, q.from) =~= " WHERE "@ + "issue_id"@ + " = ?"@) by {
        reveal_with_fuel(tests_text, 2);
    }
    assert(order_text(q.order, q.from) =~= " ORDER BY "@ + "created_at"@ + " ASC"@) by {
        reveal_with_fuel(order_text, 2);
    }
    reveal_strlit(
        "SELECT id, issue_id, author, text, created_at FROM comments WHERE issue_id = ? ORDER BY created_at ASC"
    );
    reveal_strlit("SELECT ");
    reveal_strlit("id");
    reveal_strlit(", ");
    reveal_strlit("issue_id");
    reveal_strlit("author");
    reveal_strlit("text");
    reveal_strlit("created_at");
    reveal_strlit(" FROM ");
    reveal_strlit("comments");
    reveal_strlit(" WHERE ");
    reveal_strlit(" = ?");
    reveal_strlit(" ORDER BY ");
    reveal_strlit(" ASC");
    assert(
        t =~= "SELECT "@ + "id"@ + ", "@ + "issue_id"@ + ", "@ + "author"@ + ", "@ + "text"@ + ", "@
            + "created_at"@ + " FROM "@ + "comments"@ + " WHERE "@ + "issue_id"@ + " = ?"@
            + " ORDER BY "@ + "created_at"@ + " ASC"@
    );
    assert(
        q.text() =~= "SELECT "@ + "id"@ + ", "@ + "issue_id"@ + ", "@ + "author"@ + ", "@ + "text"@
            + ", "@ + "created_at"@ + " FROM "@ + "comments"@ + " WHERE "@ + "issue_id"@ + " = ?"@
            + " ORDER BY "@ + "created_at"@ + " ASC"@
    );
    reveal_with_fuel(tests_params, 2);
    assert(tests_params(q.tests) =~= seq![SqlCell::Text(issue_id)]);
}

/// The query for the comments of an issue gives all of them, and no others, the oldest first.
pub proof fn lemma_comments_of(base: Base, r: Record, issue_id: Seq<char>)
    ensures
        ask_comments_of(issue_id).selects(base, seq![Some(r)])
            <==> base["comments"@].contains(r) && cell(r, "issue_id"@) == SqlCell::Text(issue_id),
        ask_comments_of(issue_id).row(seq![Some(r)])
            == seq![
                cell(r, "id"@),
                cell(r, "issue_id"@),
                cell(r, "author"@),
                cell(r, "text"@),
                cell(r, "created_at"@),
            ],
        forall|a: Pick, b: Pick| #[trigger]
            in_order(ask_comments_of(issue_id).order, a, b)
                == (
                    if value(a, col("created_at"@))
                        == value(b, col("created_at"@)) { true } else {
                            cell_le(value(a, col("created_at"@)), value(b, col("created_at"@)))
                        }
                ),
{
    let q = ask_comments_of(issue_id);
    assert(q.tests[0] == Test::Bound(col("issue_id"@), SqlCell::Text(issue_id)));
    lemma_over_one(q, base, seq![Some(r)]);
    assert(
        q.row(seq![Some(r)])
            =~= seq![
                cell(r, "id"@),
                cell(r, "issue_id"@),
                cell(r, "author"@),
                cell(r, "text"@),
                cell(r, "created_at"@),
            ]
    );
    reveal_with_fuel(in_order, 2);
}

/// The query behind `all_comments_query`.
pub open spec fn ask_all_comments() -> Select {
    Select {
        order: seq![
            Key { col: col("issue_id"@), way: Way::Natural },
            Key { col: col("created_at"@), way: Way::Ascending },
        ],
        ..select(
            cols(seq!["id"@, "issue_id"@, "author"@, "text"@, "created_at"@]),
            "comments"@,
            seq![],
        )
    }
}

#[verifier::spinoff_prover]
pub(crate) proof fn lemma_ask_all_comments_text()
    ensures
        ask_all_comments().text()
            == "SELECT id, issue_id, author, text, created_at FROM comments ORDER BY issue_id, created_at ASC"@,
        tests_params(ask_all_comments().tests) == Seq::<SqlCell>::empty(),
{
    let q = ask_all_comments();
    let t = "SELECT id, issue_id, author, text, created_at FROM comments ORDER BY issue_id, created_at ASC"@;
    assert(
        columns_text(q.wanted->Columns_0, q.from) =~= "id"@ + ", "@ + "issue_id"@ + ", "@
            + "author"@ + ", "@ + "text"@ + ", "@ + "created_at"@
    ) by {
        reveal_with_fuel(columns_text, 6);
    }
    assert(
        order_text(q.order, q.from) =~= " ORDER BY "@ + "issue_id"@ + ", "@ + "created_at"@
            + " ASC"@
    ) by {
        reveal_with_fuel(order_text, 3);
    }
    reveal_strlit(
        "SELECT id, issue_id, author, text, created_at FROM comments ORDER BY issue_id, created_at ASC"
    );
    reveal_strlit("SELECT ");
    reveal_strlit("id");
    reveal_strlit(", ");
    reveal_strlit("issue_id");
    reveal_strlit("author");
    reveal_strlit("text");
    reveal_strlit("created_at");
    reveal_strlit(" FROM ");
    reveal_strlit("comments");
    reveal_strlit(" ORDER BY ");
    reveal_strlit(" ASC");
    assert(
        t =~= "SELECT "@ + "id"@ + ", "@ + "issue_id"@ + ", "@ + "author"@ + ", "@ + "text"@ + ", "@
            + "created_at"@ + " FROM "@ + "comments"@ + " ORDER BY "@ + "issue_id"@ + ", "@
            + "created_at"@ + " ASC"@
    );
    assert(
        q.text() =~= "SELECT "@ + "id"@ + ", "@ + "issue_id"@ + ", "@ + "author"@ + ", "@ + "text"@
            + ", "@ + "created_at"@ + " FROM "@ + "comments"@ + " ORDER BY "@ + "issue_id"@ + ", "@
            + "created_at"@ + " ASC"@
    );
    reveal_with_fuel(tests_params, 1);
    assert(tests_params(q.tests) =~= Seq::<SqlCell>::empty());
}

/// The query for all comments gives every comment, issue by issue, the oldest first.
pub proof fn lemma_all_comments(base: Base, r: Record)
    ensures
        ask_all_comments().selects(base, seq![Some(r)]) <==> base["comments"@].contains(r),
        ask_all_comments().row(seq![Some(r)])
            == seq![
                cell(r, "id"@),
                cell(r, "issue_id"@),
                cell(r, "author"@),
                cell(r, "text"@),
                cell(r, "created_at"@),
            ],
        forall|a: Pick, b: Pick| #[trigger]
            in_order(ask_all_comments().order, a, b)
                == (
                    if value(a, col("issue_id"@))
                        == value(b, col("issue_id"@)) {
                            (
                                if value(a, col("created_at"@))
                                    == value(b, col("created_at"@)) { true } else {
                                        cell_le(
                                            value(a, col("created_at"@)),
                                            value(b, col("created_at"@)),
                                        )
                                    }
                            )
                        } else { cell_le(value(a, col("issue_id"@)), value(b, col("issue_id"@))) }
                ),
{
    let q = ask_all_comments();
    lemma_over_one(q, base, seq![Some(r)]);
    assert(
        q.row(seq![Some(r)])
            =~= seq![
                cell(r, "id"@),
                cell(r, "issue_id"@),
                cell(r, "author"@),
                cell(r, "text"@),
                cell(r, "created_at"@),
            ]
    );
    reveal_with_fuel(in_order, 3);
}

/// The query behind `id_exists`.
pub open spec fn ask_issue_id_taken(id: Seq<char>) -> Select {
    Select {
        limited: true,
        ..select(Wanted::One, "issues"@, seq![Test::Bound(col("id"@), SqlCell::Text(id))])
    }
}

#[verifier::spinoff_prover]
pub(crate) proof fn lemma_ask_issue_id_taken_text(id: Seq<char>)
    ensures
        ask_issue_id_taken(id).text() == "SELECT 1 FROM issues WHERE id = ? LIMIT 1"@,
        tests_params(ask_issue_id_taken(id).tests) == seq![SqlCell::Text(id)],
{
    let q = ask_issue_id_taken(id);
    let t = "SELECT 1 FROM issues WHERE id = ? LIMIT 1"@;
    assert(tests_text(q.tests, q.from) =~= " WHERE "@ + "id"@ + " = ?"@) by {
        reveal_with_fuel(tests_text, 2);
    }
    reveal_strlit("SELECT 1 FROM issues WHERE id = ? LIMIT 1");
    reveal_strlit("SELECT ");
    reveal_strlit("1");
    reveal_strlit(" FROM ");
    reveal_strlit("issues");
    reveal_strlit(" WHERE ");
    reveal_strlit("id");
    reveal_strlit(" = ?");
    reveal_strlit(" LIMIT 1");
    assert(
        t =~= "SELECT "@ + "1"@ + " FROM "@ + "issues"@ + " WHERE "@ + "id"@ + " = ?"@ + " LIMIT 1"@
    );
    assert(
        q.text() =~= "SELECT "@ + "1"@ + " FROM "@ + "issues"@ + " WHERE "@ + "id"@ + " = ?"@
            + " LIMIT 1"@
    );
    reveal_with_fuel(tests_params, 2);
    assert(tests_params(q.tests) =~= seq![SqlCell::Text(id)]);
}

/// An ID is found to exist exactly by an issue that has it.
pub proof fn lemma_issue_id_taken(base: Base, r: Record, id: Seq<char>)
    ensures
        ask_issue_id_taken(id).selects(base, seq![Some(r)])
            <==> base["issues"@].contains(r) && cell(r, "id"@) == SqlCell::Text(id),
{
    let q = ask_issue_id_taken(id);
    assert(q.tests[0] == Test::Bound(col("id"@), SqlCell::Text(id)));
    lemma_over_one(q, base, seq![Some(r)]);
}

/// The query behind `create_steps`.
pub open spec fn ask_issue_id(id: Seq<char>) -> Select {
    select(cols(seq!["id"@]), "issues"@, seq![Test::Bound(col("id"@), SqlCell::Text(id))])
}

#[verifier::spinoff_prover]
pub(crate) proof fn lemma_ask_issue_id_text(id: Seq<char>)
    ensures
        ask_issue_id(id).text() == "SELECT id FROM issues WHERE id = ?"@,
        tests_params(ask_issue_id(id).tests) == seq![SqlCell::Text(id)],
{
    let q = ask_issue_id(id);
    let t = "SELECT id FROM issues WHERE id = ?"@;
    assert(columns_text(q.wanted->Columns_0, q.from) =~= "id"@) by {
        reveal_with_fuel(columns_text, 2);
    }
    assert(tests_text(q.tests, q.from) =~= " WHERE "@ + "id"@ + " = ?"@) by {
        reveal_with_fuel(tests_text, 2);
    }
    reveal_strlit("SELECT id FROM issues WHERE id = ?");
    reveal_strlit("SELECT ");
    reveal_strlit("id");
    reveal_strlit(" FROM ");
    reveal_strlit("issues");
    reveal_strlit(" WHERE ");
    reveal_strlit(" = ?");
    assert(t =~= "SELECT "@ + "id"@ + " FROM "@ + "issues"@ + " WHERE "@ + "id"@ + " = ?"@);
    assert(q.text() =~= "SELECT "@ + "id"@ + " FROM "@ + "issues"@ + " WHERE "@ + "id"@ + " = ?"@);
    reveal_with_fuel(tests_params, 2);
    assert(tests_params(q.tests) =~= seq![SqlCell::Text(id)]);
}

/// The query before an issue is created finds the issues that have the ID.
pub proof fn lemma_issue_id(base: Base, r: Record, id: Seq<char>)
    ensures
        ask_issue_id(id).selects(base, seq![Some(r)])
            <==> base["issues"@].contains(r) && cell(r, "id"@) == SqlCell::Text(id),
        ask_issue_id(id).row(seq![Some(r)]) == seq![cell(r, "id"@)],
{
    let q = ask_issue_id(id);
    assert(q.tests[0] == Test::Bound(col("id"@), SqlCell::Text(id)));
    lemma_over_one(q, base, seq![Some(r)]);
    assert(q.row(seq![Some(r)]) =~= seq![cell(r, "id"@)]);
}

/// The query behind `count_issues`.
pub open spec fn ask_issue_total() -> Select {
    select(Wanted::Count { capital: false }, "issues"@, seq![])
}

#[verifier::spinoff_prover]
pub(crate) proof fn lemma_ask_issue_total_text()
    ensures
        ask_issue_total().text() == "SELECT count(*) FROM issues"@,
        tests_params(ask_issue_total().tests) == Seq::<SqlCell>::empty(),
{
    let q = ask_issue_total();
    let t = "SELECT count(*) FROM issues"@;
    reveal_strlit("SELECT count(*) FROM issues");
    reveal_strlit("SELECT ");
    reveal_strlit("count(*)");
    reveal_strlit(" FROM ");
    reveal_strlit("issues");
    assert(t =~= "SELECT "@ + "count(*)"@ + " FROM "@ + "issues"@);
    assert(q.text() =~= "SELECT "@ + "count(*)"@ + " FROM "@ + "issues"@);
    reveal_with_fuel(tests_params, 1);
    assert(tests_params(q.tests) =~= Seq::<SqlCell>::empty());
}

/// The number of issues counts each issue once.
pub proof fn lemma_issue_total(base: Base)
    ensures
        ask_issue_total().count(base) == base["issues"@].len(),
{
    let q = ask_issue_total();
    lemma_counted(q, base, |r: Record| true);
    lemma_all_kept(base["issues"@]);
}

/// The query behind `count_exportable_issues`.
pub open spec fn ask_exportable_total() -> Select {
    select(
        Wanted::Count { capital: true },
        "issues"@,
        seq![Test::Zero(col("ephemeral"@)), Test::NotLike(col("id"@), "%-wisp-%"@)],
    )
}

#[verifier::spinoff_prover]
pub(crate) proof fn lemma_ask_exportable_total_text()
    ensures
        ask_exportable_total().text()
            == "SELECT COUNT(*) FROM issues WHERE ephemeral = 0 AND id NOT LIKE '%-wisp-%'"@,
        tests_params(ask_exportable_total().tests) == Seq::<SqlCell>::empty(),
{
    let q = ask_exportable_total();
    let t = "SELECT COUNT(*) FROM issues WHERE ephemeral = 0 AND id NOT LIKE '%-wisp-%'"@;
    assert(
        tests_text(q.tests, q.from) =~= " WHERE "@ + "ephemeral"@ + " = 0"@ + " AND "@ + "id"@
            + " NOT LIKE '"@ + "%-wisp-%"@ + "'"@
    ) by {
        reveal_with_fuel(tests_text, 3);
    }
    reveal_strlit("SELECT COUNT(*) FROM issues WHERE ephemeral = 0 AND id NOT LIKE '%-wisp-%'");
    reveal_strlit("SELECT ");
    reveal_strlit("COUNT(*)");
    reveal_strlit(" FROM ");
    reveal_strlit("issues");
    reveal_strlit(" WHERE ");
    reveal_strlit("ephemeral");
    reveal_strlit(" = 0");
    reveal_strlit(" AND ");
    reveal_strlit("id");
    reveal_strlit(" NOT LIKE '");
    reveal_strlit("%-wisp-%");
    reveal_strlit("'");
    assert(
        t =~= "SELECT "@ + "COUNT(*)"@ + " FROM "@ + "issues"@ + " WHERE "@ + "ephemeral"@ + " = 0"@
            + " AND "@ + "id"@ + " NOT LIKE '"@ + "%-wisp-%"@ + "'"@
    );
    assert(
        q.text() =~= "SELECT "@ + "COUNT(*)"@ + " FROM "@ + "issues"@ + " WHERE "@ + "ephemeral"@
            + " = 0"@ + " AND "@ + "id"@ + " NOT LIKE '"@ + "%-wisp-%"@ + "'"@
    );
    reveal_with_fuel(tests_params, 3);
    assert(tests_params(q.tests) =~= Seq::<SqlCell>::empty());
}

/// The number of exported issues counts those that are not ephemeral and have no wisp in their ID.
pub proof fn lemma_exportable_total(base: Base)
    ensures
        ask_exportable_total().count(base)
            == base["issues"@].filter(
                |r: Record| cell(r, "ephemeral"@) == SqlCell::Integer(0)
                    && (
                        cell(r, "id"@) matches SqlCell::Text(t)
                            && !like("%-wisp-%"@, t, same_letter())
                    )
            ).len(),
{
    let q = ask_exportable_total();
    assert(q.tests[0] == Test::Zero(col("ephemeral"@)));
    assert(q.tests[1] == Test::NotLike(col("id"@), "%-wisp-%"@));
    lemma_counted(
        q,
        base,
        |r: Record| cell(r, "ephemeral"@) == SqlCell::Integer(0)
            && (cell(r, "id"@) matches SqlCell::Text(t) && !like("%-wisp-%"@, t, same_letter())),
    );
}

/// The query behind `get_all_ids`.
pub open spec fn ask_all_issue_ids() -> Select {
    Select {
        order: seq![Key { col: col("id"@), way: Way::Natural }],
        ..select(cols(seq!["id"@]), "issues"@, seq![])
    }
}

#[verifier::spinoff_prover]
pub(crate) proof fn lemma_ask_all_issue_ids_text()
    ensures
        ask_all_issue_ids().text() == "SELECT id FROM issues ORDER BY id"@,
        tests_params(ask_all_issue_ids().tests) == Seq::<SqlCell>::empty(),
{
    let q = ask_all_issue_ids();
    let t = "SELECT id FROM issues ORDER BY id"@;
    assert(columns_text(q.wanted->Columns_0, q.from) =~= "id"@) by {
        reveal_with_fuel(columns_text, 2);
    }
    assert(order_text(q.order, q.from) =~= " ORDER BY "@ + "id"@) by {
        reveal_with_fuel(order_text, 2);
    }
    reveal_strlit("SELECT id FROM issues ORDER BY id");
    reveal_strlit("SELECT ");
    reveal_strlit("id");
    reveal_strlit(" FROM ");
    reveal_strlit("issues");
    reveal_strlit(" ORDER BY ");
    assert(t =~= "SELECT "@ + "id"@ + " FROM "@ + "issues"@ + " ORDER BY "@ + "id"@);
    assert(q.text() =~= "SELECT "@ + "id"@ + " FROM "@ + "issues"@ + " ORDER BY "@ + "id"@);
    reveal_with_fuel(tests_params, 1);
    assert(tests_params(q.tests) =~= Seq::<SqlCell>::empty());
}

/// The query for all IDs gives the ID of every issue, in order.
pub proof fn lemma_all_issue_ids(base: Base, r: Record)
    ensures
        ask_all_issue_ids().selects(base, seq![Some(r)]) <==> base["issues"@].contains(r),
        ask_all_issue_ids().row(seq![Some(r)]) == seq![cell(r, "id"@)],
        forall|a: Pick, b: Pick| #[trigger]
            in_order(ask_all_issue_ids().order, a, b)
                == (
                    if value(a, col("id"@))
                        == value(b, col("id"@)) { true } else {
                            cell_le(value(a, col("id"@)), value(b, col("id"@)))
                        }
                ),
{
    let q = ask_all_issue_ids();
    lemma_over_one(q, base, seq![Some(r)]);
    assert(q.row(seq![Some(r)]) =~= seq![cell(r, "id"@)]);
    reveal_with_fuel(in_order, 2);
}

/// The query behind `status_query`.
pub open spec fn ask_status_of_issue(id: Seq<char>) -> Select {
    select(cols(seq!["status"@]), "issues"@, seq![Test::Bound(col("id"@), SqlCell::Text(id))])
}

#[verifier::spinoff_prover]
pub(crate) proof fn lemma_ask_status_of_issue_text(id: Seq<char>)
    ensures
        ask_status_of_issue(id).text() == "SELECT status FROM issues WHERE id = ?"@,
        tests_params(ask_status_of_issue(id).tests) == seq![SqlCell::Text(id)],
{
    let q = ask_status_of_issue(id);
    let t = "SELECT status FROM issues WHERE id = ?"@;
    assert(columns_text(q.wanted->Columns_0, q.from) =~= "status"@) by {
        reveal_with_fuel(columns_text, 2);
    }
    assert(tests_text(q.tests, q.from) =~= " WHERE "@ + "id"@ + " = ?"@) by {
        reveal_with_fuel(tests_text, 2);
    }
    reveal_strlit("SELECT status FROM issues WHERE id = ?");
    reveal_strlit("SELECT ");
    reveal_strlit("status");
    reveal_strlit(" FROM ");
    reveal_strlit("issues");
    reveal_strlit(" WHERE ");
    reveal_strlit("id");
    reveal_strlit(" = ?");
    assert(t =~= "SELECT "@ + "status"@ + " FROM "@ + "issues"@ + " WHERE "@ + "id"@ + " = ?"@);
    assert(
        q.text() =~= "SELECT "@ + "status"@ + " FROM "@ + "issues"@ + " WHERE "@ + "id"@ + " = ?"@
    );
    reveal_with_fuel(tests_params, 2);
    assert(tests_params(q.tests) =~= seq![SqlCell::Text(id)]);
}

/// The query for a status gives the status of the issue with that ID.
pub proof fn lemma_status_of_issue(base: Base, r: Record, id: Seq<char>)
    ensures
        ask_status_of_issue(id).selects(base, seq![Some(r)])
            <==> base["issues"@].contains(r) && cell(r, "id"@) == SqlCell::Text(id),
        ask_status_of_issue(id).row(seq![Some(r)]) == seq![cell(r, "status"@)],
{
    let q = ask_status_of_issue(id);
    assert(q.tests[0] == Test::Bound(col("id"@), SqlCell::Text(id)));
    lemma_over_one(q, base, seq![Some(r)]);
    assert(q.row(seq![Some(r)]) =~= seq![cell(r, "status"@)]);
}

/// The query behind `label_count_query`.
pub open spec fn ask_label_total(issue_id: Seq<char>, label: Seq<char>) -> Select {
    select(
        Wanted::Count { capital: false },
        "labels"@,
        seq![
            Test::Bound(col("issue_id"@), SqlCell::Text(issue_id)),
            Test::Bound(col("label"@), SqlCell::Text(label)),
        ],
    )
}

#[verifier::spinoff_prover]
pub(crate) proof fn lemma_ask_label_total_text(issue_id: Seq<char>, label: Seq<char>)
    ensures
        ask_label_total(issue_id, label).text()
            == "SELECT count(*) FROM labels WHERE issue_id = ? AND label = ?"@,
        tests_params(ask_label_total(issue_id, label).tests)
            == seq![SqlCell::Text(issue_id), SqlCell::Text(label)],
{
    let q = ask_label_total(issue_id, label);
    let t = "SELECT count(*) FROM labels WHERE issue_id = ? AND label = ?"@;
    assert(
        tests_text(q.tests, q.from) =~= " WHERE "@ + "issue_id"@ + " = ?"@ + " AND "@ + "label"@
            + " = ?"@
    ) by {
        reveal_with_fuel(tests_text, 3);
    }
    reveal_strlit("SELECT count(*) FROM labels WHERE issue_id = ? AND label = ?");
    reveal_strlit("SELECT ");
    reveal_strlit("count(*)");
    reveal_strlit(" FROM ");
    reveal_strlit("labels");
    reveal_strlit(" WHERE ");
    reveal_strlit("issue_id");
    reveal_strlit(" = ?");
    reveal_strlit(" AND ");
    reveal_strlit("label");
    assert(
        t =~= "SELECT "@ + "count(*)"@ + " FROM "@ + "labels"@ + " WHERE "@ + "issue_id"@ + " = ?"@
            + " AND "@ + "label"@ + " = ?"@
    );
    assert(
        q.text() =~= "SELECT "@ + "count(*)"@ + " FROM "@ + "labels"@ + " WHERE "@ + "issue_id"@
            + " = ?"@ + " AND "@ + "label"@ + " = ?"@
    );
    reveal_with_fuel(tests_params, 3);
    assert(tests_params(q.tests) =~= seq![SqlCell::Text(issue_id), SqlCell::Text(label)]);
}

/// How often a label is on an issue counts exactly the records with both.
pub proof fn lemma_label_total(base: Base, issue_id: Seq<char>, label: Seq<char>)
    ensures
        ask_label_total(issue_id, label).count(base)
            == base["labels"@].filter(
                |r: Record| cell(r, "issue_id"@) == SqlCell::Text(issue_id)
                    && cell(r, "label"@) == SqlCell::Text(label)
            ).len(),
{
    let q = ask_label_total(issue_id, label);
    assert(q.tests[0] == Test::Bound(col("issue_id"@), SqlCell::Text(issue_id)));
    assert(q.tests[1] == Test::Bound(col("label"@), SqlCell::Text(label)));
    lemma_counted(
        q,
        base,
        |r: Record| cell(r, "issue_id"@) == SqlCell::Text(issue_id)
            && cell(r, "label"@) == SqlCell::Text(label),
    );
}

/// The query behind `old_labels_query`.
pub open spec fn ask_labels_of(issue_id: Seq<char>) -> Select {
    select(
        cols(seq!["label"@]),
        "labels"@,
        seq![Test::Bound(col("issue_id"@), SqlCell::Text(issue_id))],
    )
}

#[verifier::spinoff_prover]
pub(crate) proof fn lemma_ask_labels_of_text(issue_id: Seq<char>)
    ensures
        ask_labels_of(issue_id).text() == "SELECT label FROM labels WHERE issue_id = ?"@,
        tests_params(ask_labels_of(issue_id).tests) == seq![SqlCell::Text(issue_id)],
{
    let q = ask_labels_of(issue_id);
    let t = "SELECT label FROM labels WHERE issue_id = ?"@;
    assert(columns_text(q.wanted->Columns_0, q.from) =~= "label"@) by {
        reveal_with_fuel(columns_text, 2);
    }
    assert(tests_text(q.tests, q.from) =~= " WHERE "@ + "issue_id"@ + " = ?"@) by {
        reveal_with_fuel(tests_text, 2);
    }
    reveal_strlit("SELECT label FROM labels WHERE issue_id = ?");
    reveal_strlit("SELECT ");
    reveal_strlit("label");
    reveal_strlit(" FROM ");
    reveal_strlit("labels");
    reveal_strlit(" WHERE ");
    reveal_strlit("issue_id");
    reveal_strlit(" = ?");
    assert(t =~= "SELECT "@ + "label"@ + " FROM "@ + "labels"@ + " WHERE "@ + "issue_id"@ + " = ?"@);
    assert(
        q.text() =~= "SELECT "@ + "label"@ + " FROM "@ + "labels"@ + " WHERE "@ + "issue_id"@
            + " = ?"@
    );
    reveal_with_fuel(tests_params, 2);
    assert(tests_params(q.tests) =~= seq![SqlCell::Text(issue_id)]);
}

/// The query for the labels that an issue had gives all of them, and no others.
pub proof fn lemma_labels_of(base: Base, r: Record, issue_id: Seq<char>)
    ensures
        ask_labels_of(issue_id).selects(base, seq![Some(r)])
            <==> base["labels"@].contains(r) && cell(r, "issue_id"@) == SqlCell::Text(issue_id),
        ask_labels_of(issue_id).row(seq![Some(r)]) == seq![cell(r, "label"@)],
{
    let q = ask_labels_of(issue_id);
    assert(q.tests[0] == Test::Bound(col("issue_id"@), SqlCell::Text(issue_id)));
    lemma_over_one(q, base, seq![Some(r)]);
    assert(q.row(seq![Some(r)]) =~= seq![cell(r, "label"@)]);
}

/// The query behind `get_labels`.
pub open spec fn ask_sorted_labels_of(issue_id: Seq<char>) -> Select {
    Select {
        order: seq![Key { col: col("label"@), way: Way::Natural }],
        ..select(
            cols(seq!["label"@]),
            "labels"@,
            seq![Test::Bound(col("issue_id"@), SqlCell::Text(issue_id))],
        )
    }
}

#[verifier::spinoff_prover]
pub(crate) proof fn lemma_ask_sorted_labels_of_text(issue_id: Seq<char>)
    ensures
        ask_sorted_labels_of(issue_id).text()
            == "SELECT label FROM labels WHERE issue_id = ? ORDER BY label"@,
        tests_params(ask_sorted_labels_of(issue_id).tests) == seq![SqlCell::Text(issue_id)],
{
    let q = ask_sorted_labels_of(issue_id);
    let t = "SELECT label FROM labels WHERE issue_id = ? ORDER BY label"@;
    assert(columns_text(q.wanted->Columns_0, q.from) =~= "label"@) by {
        reveal_with_fuel(columns_text, 2);
    }
    assert(tests_text(q.tests, q.from) =~= " WHERE "@ + "issue_id"@ + " = ?"@) by {
        reveal_with_fuel(tests_text, 2);
    }
    assert(order_text(q.order, q.from) =~= " ORDER BY "@ + "label"@) by {
        reveal_with_fuel(order_text, 2);
    }
    reveal_strlit("SELECT label FROM labels WHERE issue_id = ? ORDER BY label");
    reveal_strlit("SELECT ");
    reveal_strlit("label");
    reveal_strlit(" FROM ");
    reveal_strlit("labels");
    reveal_strlit(" WHERE ");
    reveal_strlit("issue_id");
    reveal_strlit(" = ?");
    reveal_strlit(" ORDER BY ");
    assert(
        t =~= "SELECT "@ + "label"@ + " FROM "@ + "labels"@ + " WHERE "@ + "issue_id"@ + " = ?"@
            + " ORDER BY "@ + "label"@
    );
    assert(
        q.text() =~= "SELECT "@ + "label"@ + " FROM "@ + "labels"@ + " WHERE "@ + "issue_id"@
            + " = ?"@ + " ORDER BY "@ + "label"@
    );
    reveal_with_fuel(tests_params, 2);
    assert(tests_params(q.tests) =~= seq![SqlCell::Text(issue_id)]);
}

/// The query for the labels of an issue gives all of them, and no others, in order.
pub proof fn lemma_sorted_labels_of(base: Base, r: Record, issue_id: Seq<char>)
    ensures
        ask_sorted_labels_of(issue_id).selects(base, seq![Some(r)])
            <==> base["labels"@].contains(r) && cell(r, "issue_id"@) == SqlCell::Text(issue_id),
        ask_sorted_labels_of(issue_id).row(seq![Some(r)]) == seq![cell(r, "label"@)],
        forall|a: Pick, b: Pick| #[trigger]
            in_order(ask_sorted_labels_of(issue_id).order, a, b)
                == (
                    if value(a, col("label"@))
                        == value(b, col("label"@)) { true } else {
                            cell_le(value(a, col("label"@)), value(b, col("label"@)))
                        }
                ),
{
    let q = ask_sorted_labels_of(issue_id);
    assert(q.tests[0] == Test::Bound(col("issue_id"@), SqlCell::Text(issue_id)));
    lemma_over_one(q, base, seq![Some(r)]);
    assert(q.row(seq![Some(r)]) =~= seq![cell(r, "label"@)]);
    reveal_with_fuel(in_order, 2);
}

/// The query behind `get_all_labels`.
pub open spec fn ask_all_labels() -> Select {
    Select {
        order: seq![
            Key { col: col("issue_id"@), way: Way::Natural },
            Key { col: col("label"@), way: Way::Natural },
        ],
        ..select(cols(seq!["issue_id"@, "label"@]), "labels"@, seq![])
    }
}

#[verifier::spinoff_prover]
pub(crate) proof fn lemma_ask_all_labels_text()
    ensures
        ask_all_labels().text() == "SELECT issue_id, label FROM labels ORDER BY issue_id, label"@,
        tests_params(ask_all_labels().tests) == Seq::<SqlCell>::empty(),
{
    let q = ask_all_labels();
    let t = "SELECT issue_id, label FROM labels ORDER BY issue_id, label"@;
    assert(columns_text(q.wanted->Columns_0, q.from) =~= "issue_id"@ + ", "@ + "label"@) by {
        reveal_with_fuel(columns_text, 3);
    }
    assert(order_text(q.order, q.from) =~= " ORDER BY "@ + "issue_id"@ + ", "@ + "label"@) by {
        reveal_with_fuel(order_text, 3);
    }
    reveal_strlit("SELECT issue_id, label FROM labels ORDER BY issue_id, label");
    reveal_strlit("SELECT ");
    reveal_strlit("issue_id");
    reveal_strlit(", ");
    reveal_strlit("label");
    reveal_strlit(" FROM ");
    reveal_strlit("labels");
    reveal_strlit(" ORDER BY ");
    assert(
        t =~= "SELECT "@ + "issue_id"@ + ", "@ + "label"@ + " FROM "@ + "labels"@ + " ORDER BY "@
            + "issue_id"@ + ", "@ + "label"@
    );
    assert(
        q.text() =~= "SELECT "@ + "issue_id"@ + ", "@ + "label"@ + " FROM "@ + "labels"@
            + " ORDER BY "@ + "issue_id"@ + ", "@ + "label"@
    );
    reveal_with_fuel(tests_params, 1);
    assert(tests_params(q.tests) =~= Seq::<SqlCell>::empty());
}

/// The query for all labels gives every label with its issue, issue by issue, in order.
pub proof fn lemma_all_labels(base: Base, r: Record)
    ensures
        ask_all_labels().selects(base, seq![Some(r)]) <==> base["labels"@].contains(r),
        ask_all_labels().row(seq![Some(r)]) == seq![cell(r, "issue_id"@), cell(r, "label"@)],
        forall|a: Pick, b: Pick| #[trigger]
            in_order(ask_all_labels().order, a, b)
                == (
                    if value(a, col("issue_id"@))
                        == value(b, col("issue_id"@)) {
                            (
                                if value(a, col("label"@))
                                    == value(b, col("label"@)) { true } else {
                                        cell_le(value(a, col("label"@)), value(b, col("label"@)))
                                    }
                            )
                        } else { cell_le(value(a, col("issue_id"@)), value(b, col("issue_id"@))) }
                ),
{
    let q = ask_all_labels();
    lemma_over_one(q, base, seq![Some(r)]);
    assert(q.row(seq![Some(r)]) =~= seq![cell(r, "issue_id"@), cell(r, "label"@)]);
    reveal_with_fuel(in_order, 3);
}

/// The query behind `labelled_issues_query`.
pub open spec fn ask_issues_with_label(label: Seq<char>) -> Select {
    select(
        cols(seq!["issue_id"@]),
        "labels"@,
        seq![Test::Bound(col("label"@), SqlCell::Text(label))],
    )
}

#[verifier::spinoff_prover]
pub(crate) proof fn lemma_ask_issues_with_label_text(label: Seq<char>)
    ensures
        ask_issues_with_label(label).text() == "SELECT issue_id FROM labels WHERE label = ?"@,
        tests_params(ask_issues_with_label(label).tests) == seq![SqlCell::Text(label)],
{
    let q = ask_issues_with_label(label);
    let t = "SELECT issue_id FROM labels WHERE label = ?"@;
    assert(columns_text(q.wanted->Columns_0, q.from) =~= "issue_id"@) by {
        reveal_with_fuel(columns_text, 2);
    }
    assert(tests_text(q.tests, q.from) =~= " WHERE "@ + "label"@ + " = ?"@) by {
        reveal_with_fuel(tests_text, 2);
    }
    reveal_strlit("SELECT issue_id FROM labels WHERE label = ?");
    reveal_strlit("SELECT ");
    reveal_strlit("issue_id");
    reveal_strlit(" FROM ");
    reveal_strlit("labels");
    reveal_strlit(" WHERE ");
    reveal_strlit("label");
    reveal_strlit(" = ?");
    assert(t =~= "SELECT "@ + "issue_id"@ + " FROM "@ + "labels"@ + " WHERE "@ + "label"@ + " = ?"@);
    assert(
        q.text() =~= "SELECT "@ + "issue_id"@ + " FROM "@ + "labels"@ + " WHERE "@ + "label"@
            + " = ?"@
    );
    reveal_with_fuel(tests_params, 2);
    assert(tests_params(q.tests) =~= seq![SqlCell::Text(label)]);
}

/// The query for the issues with a label gives exactly those.
pub proof fn lemma_issues_with_label(base: Base, r: Record, label: Seq<char>)
    ensures
        ask_issues_with_label(label).selects(base, seq![Some(r)])
            <==> base["labels"@].contains(r) && cell(r, "label"@) == SqlCell::Text(label),
        ask_issues_with_label(label).row(seq![Some(r)]) == seq![cell(r, "issue_id"@)],
{
    let q = ask_issues_with_label(label);
    assert(q.tests[0] == Test::Bound(col("label"@), SqlCell::Text(label)));
    lemma_over_one(q, base, seq![Some(r)]);
    assert(q.row(seq![Some(r)]) =~= seq![cell(r, "issue_id"@)]);
}

/// The query behind `dependency_exists_between`.
pub open spec fn ask_links_between(issue_id: Seq<char>, depends_on_id: Seq<char>) -> Select {
    select(
        Wanted::Count { capital: true },
        "dependencies"@,
        seq![
            Test::Bound(col("issue_id"@), SqlCell::Text(issue_id)),
            Test::Bound(col("depends_on_id"@), SqlCell::Text(depends_on_id)),
        ],
    )
}

#[verifier::spinoff_prover]
pub(crate) proof fn lemma_ask_links_between_text(issue_id: Seq<char>, depends_on_id: Seq<char>)
    ensures
        ask_links_between(issue_id, depends_on_id).text()
            == "SELECT COUNT(*) FROM dependencies WHERE issue_id = ? AND depends_on_id = ?"@,
        tests_params(ask_links_between(issue_id, depends_on_id).tests)
            == seq![SqlCell::Text(issue_id), SqlCell::Text(depends_on_id)],
{
    let q = ask_links_between(issue_id, depends_on_id);
    let t = "SELECT COUNT(*) FROM dependencies WHERE issue_id = ? AND depends_on_id = ?"@;
    assert(
        tests_text(q.tests, q.from) =~= " WHERE "@ + "issue_id"@ + " = ?"@ + " AND "@
            + "depends_on_id"@ + " = ?"@
    ) by {
        reveal_with_fuel(tests_text, 3);
    }
    reveal_strlit("SELECT COUNT(*) FROM dependencies WHERE issue_id = ? AND depends_on_id = ?");
    reveal_strlit("SELECT ");
    reveal_strlit("COUNT(*)");
    reveal_strlit(" FROM ");
    reveal_strlit("dependencies");
    reveal_strlit(" WHERE ");
    reveal_strlit("issue_id");
    reveal_strlit(" = ?");
    reveal_strlit(" AND ");
    reveal_strlit("depends_on_id");
    assert(
        t =~= "SELECT "@ + "COUNT(*)"@ + " FROM "@ + "dependencies"@ + " WHERE "@ + "issue_id"@
            + " = ?"@ + " AND "@ + "depends_on_id"@ + " = ?"@
    );
    assert(
        q.text() =~= "SELECT "@ + "COUNT(*)"@ + " FROM "@ + "dependencies"@ + " WHERE "@
            + "issue_id"@ + " = ?"@ + " AND "@ + "depends_on_id"@ + " = ?"@
    );
    reveal_with_fuel(tests_params, 3);
    assert(tests_params(q.tests) =~= seq![SqlCell::Text(issue_id), SqlCell::Text(depends_on_id)]);
}

/// The number of dependencies between two issues counts those of the first on the second.
pub proof fn lemma_links_between(base: Base, issue_id: Seq<char>, depends_on_id: Seq<char>)
    ensures
        ask_links_between(issue_id, depends_on_id).count(base)
            == base["dependencies"@].filter(
                |r: Record| cell(r, "issue_id"@) == SqlCell::Text(issue_id)
                    && cell(r, "depends_on_id"@) == SqlCell::Text(depends_on_id)
            ).len(),
{
    let q = ask_links_between(issue_id, depends_on_id);
    assert(q.tests[0] == Test::Bound(col("issue_id"@), SqlCell::Text(issue_id)));
    assert(q.tests[1] == Test::Bound(col("depends_on_id"@), SqlCell::Text(depends_on_id)));
    lemma_counted(
        q,
        base,
        |r: Record| cell(r, "issue_id"@) == SqlCell::Text(issue_id)
            && cell(r, "depends_on_id"@) == SqlCell::Text(depends_on_id),
    );
}

/// The query behind `get_parent_id`.
pub open spec fn ask_parent_of(issue_id: Seq<char>) -> Select {
    select(
        cols(seq!["depends_on_id"@]),
        "dependencies"@,
        seq![
            Test::Bound(col("issue_id"@), SqlCell::Text(issue_id)),
            Test::Is(col("type"@), "parent-child"@),
        ],
    )
}

#[verifier::spinoff_prover]
pub(crate) proof fn lemma_ask_parent_of_text(issue_id: Seq<char>)
    ensures
        ask_parent_of(issue_id).text()
            == "SELECT depends_on_id FROM dependencies WHERE issue_id = ? AND type = 'parent-child'"@,
        tests_params(ask_parent_of(issue_id).tests) == seq![SqlCell::Text(issue_id)],
{
    let q = ask_parent_of(issue_id);
    let t = "SELECT depends_on_id FROM dependencies WHERE issue_id = ? AND type = 'parent-child'"@;
    assert(columns_text(q.wanted->Columns_0, q.from) =~= "depends_on_id"@) by {
        reveal_with_fuel(columns_text, 2);
    }
    assert(
        tests_text(q.tests, q.from) =~= " WHERE "@ + "issue_id"@ + " = ?"@ + " AND "@ + "type"@
            + " = '"@ + "parent-child"@ + "'"@
    ) by {
        reveal_with_fuel(tests_text, 3);
    }
    reveal_strlit(
        "SELECT depends_on_id FROM dependencies WHERE issue_id = ? AND type = 'parent-child'"
    );
    reveal_strlit("SELECT ");
    reveal_strlit("depends_on_id");
    reveal_strlit(" FROM ");
    reveal_strlit("dependencies");
    reveal_strlit(" WHERE ");
    reveal_strlit("issue_id");
    reveal_strlit(" = ?");
    reveal_strlit(" AND ");
    reveal_strlit("type");
    reveal_strlit(" = '");
    reveal_strlit("parent-child");
    reveal_strlit("'");
    assert(
        t =~= "SELECT "@ + "depends_on_id"@ + " FROM "@ + "dependencies"@ + " WHERE "@ + "issue_id"@
            + " = ?"@ + " AND "@ + "type"@ + " = '"@ + "parent-child"@ + "'"@
    );
    assert(
        q.text() =~= "SELECT "@ + "depends_on_id"@ + " FROM "@ + "dependencies"@ + " WHERE "@
            + "issue_id"@ + " = ?"@ + " AND "@ + "type"@ + " = '"@ + "parent-child"@ + "'"@
    );
    reveal_with_fuel(tests_params, 3);
    assert(tests_params(q.tests) =~= seq![SqlCell::Text(issue_id)]);
}

/// The query for the parent of an issue gives what the issue depends on as a child.
pub proof fn lemma_parent_of(base: Base, r: Record, issue_id: Seq<char>)
    ensures
        ask_parent_of(issue_id).selects(base, seq![Some(r)])
            <==> base["dependencies"@].contains(r)
                && cell(r, "issue_id"@) == SqlCell::Text(issue_id)
                && cell(r, "type"@) == SqlCell::Text("parent-child"@),
        ask_parent_of(issue_id).row(seq![Some(r)]) == seq![cell(r, "depends_on_id"@)],
{
    let q = ask_parent_of(issue_id);
    assert(q.tests[0] == Test::Bound(col("issue_id"@), SqlCell::Text(issue_id)));
    assert(q.tests[1] == Test::Is(col("type"@), "parent-child"@));
    lemma_over_one(q, base, seq![Some(r)]);
    assert(q.row(seq![Some(r)]) =~= seq![cell(r, "depends_on_id"@)]);
}

/// The query behind `get_dependents`.
pub open spec fn ask_dependents_of(issue_id: Seq<char>) -> Select {
    select(
        cols(seq!["issue_id"@]),
        "dependencies"@,
        seq![Test::Bound(col("depends_on_id"@), SqlCell::Text(issue_id))],
    )
}

#[verifier::spinoff_prover]
pub(crate) proof fn lemma_ask_dependents_of_text(issue_id: Seq<char>)
    ensures
        ask_dependents_of(issue_id).text()
            == "SELECT issue_id FROM dependencies WHERE depends_on_id = ?"@,
        tests_params(ask_dependents_of(issue_id).tests) == seq![SqlCell::Text(issue_id)],
{
    let q = ask_dependents_of(issue_id);
    let t = "SELECT issue_id FROM dependencies WHERE depends_on_id = ?"@;
    assert(columns_text(q.wanted->Columns_0, q.from) =~= "issue_id"@) by {
        reveal_with_fuel(columns_text, 2);
    }
    assert(tests_text(q.tests, q.from) =~= " WHERE "@ + "depends_on_id"@ + " = ?"@) by {
        reveal_with_fuel(tests_text, 2);
    }
    reveal_strlit("SELECT issue_id FROM dependencies WHERE depends_on_id = ?");
    reveal_strlit("SELECT ");
    reveal_strlit("issue_id");
    reveal_strlit(" FROM ");
    reveal_strlit("dependencies");
    reveal_strlit(" WHERE ");
    reveal_strlit("depends_on_id");
    reveal_strlit(" = ?");
    assert(
        t =~= "SELECT "@ + "issue_id"@ + " FROM "@ + "dependencies"@ + " WHERE "@ + "depends_on_id"@
            + " = ?"@
    );
    assert(
        q.text() =~= "SELECT "@ + "issue_id"@ + " FROM "@ + "dependencies"@ + " WHERE "@
            + "depends_on_id"@ + " = ?"@
    );
    reveal_with_fuel(tests_params, 2);
    assert(tests_params(q.tests) =~= seq![SqlCell::Text(issue_id)]);
}

/// The query for dependents gives the issues that depend on the issue.
pub proof fn lemma_dependents_of(base: Base, r: Record, issue_id: Seq<char>)
    ensures
        ask_dependents_of(issue_id).selects(base, seq![Some(r)])
            <==> base["dependencies"@].contains(r)
                && cell(r, "depends_on_id"@) == SqlCell::Text(issue_id),
        ask_dependents_of(issue_id).row(seq![Some(r)]) == seq![cell(r, "issue_id"@)],
{
    let q = ask_dependents_of(issue_id);
    assert(q.tests[0] == Test::Bound(col("depends_on_id"@), SqlCell::Text(issue_id)));
    lemma_over_one(q, base, seq![Some(r)]);
    assert(q.row(seq![Some(r)]) =~= seq![cell(r, "issue_id"@)]);
}

/// The query behind `get_dependencies`.
pub open spec fn ask_dependencies_of(issue_id: Seq<char>) -> Select {
    select(
        cols(seq!["depends_on_id"@]),
        "dependencies"@,
        seq![Test::Bound(col("issue_id"@), SqlCell::Text(issue_id))],
    )
}

#[verifier::spinoff_prover]
pub(crate) proof fn lemma_ask_dependencies_of_text(issue_id: Seq<char>)
    ensures
        ask_dependencies_of(issue_id).text()
            == "SELECT depends_on_id FROM dependencies WHERE issue_id = ?"@,
        tests_params(ask_dependencies_of(issue_id).tests) == seq![SqlCell::Text(issue_id)],
{
    let q = ask_dependencies_of(issue_id);
    let t = "SELECT depends_on_id FROM dependencies WHERE issue_id = ?"@;
    assert(columns_text(q.wanted->Columns_0, q.from) =~= "depends_on_id"@) by {
        reveal_with_fuel(columns_text, 2);
    }
    assert(tests_text(q.tests, q.from) =~= " WHERE "@ + "issue_id"@ + " = ?"@) by {
        reveal_with_fuel(tests_text, 2);
    }
    reveal_strlit("SELECT depends_on_id FROM dependencies WHERE issue_id = ?");
    reveal_strlit("SELECT ");
    reveal_strlit("depends_on_id");
    reveal_strlit(" FROM ");
    reveal_strlit("dependencies");
    reveal_strlit(" WHERE ");
    reveal_strlit("issue_id");
    reveal_strlit(" = ?");
    assert(
        t =~= "SELECT "@ + "depends_on_id"@ + " FROM "@ + "dependencies"@ + " WHERE "@ + "issue_id"@
            + " = ?"@
    );
    assert(
        q.text() =~= "SELECT "@ + "depends_on_id"@ + " FROM "@ + "dependencies"@ + " WHERE "@
            + "issue_id"@ + " = ?"@
    );
    reveal_with_fuel(tests_params, 2);
    assert(tests_params(q.tests) =~= seq![SqlCell::Text(issue_id)]);
}

/// The query for dependencies gives what the issue depends on.
pub proof fn lemma_dependencies_of(base: Base, r: Record, issue_id: Seq<char>)
    ensures
        ask_dependencies_of(issue_id).selects(base, seq![Some(r)])
            <==> base["dependencies"@].contains(r)
                && cell(r, "issue_id"@) == SqlCell::Text(issue_id),
        ask_dependencies_of(issue_id).row(seq![Some(r)]) == seq![cell(r, "depends_on_id"@)],
{
    let q = ask_dependencies_of(issue_id);
    assert(q.tests[0] == Test::Bound(col("issue_id"@), SqlCell::Text(issue_id)));
    lemma_over_one(q, base, seq![Some(r)]);
    assert(q.row(seq![Some(r)]) =~= seq![cell(r, "depends_on_id"@)]);
}

/// The query behind `count_dependencies`.
pub open spec fn ask_dependency_total(issue_id: Seq<char>) -> Select {
    select(
        Wanted::Count { capital: false },
        "dependencies"@,
        seq![Test::Bound(col("issue_id"@), SqlCell::Text(issue_id))],
    )
}

#[verifier::spinoff_prover]
pub(crate) proof fn lemma_ask_dependency_total_text(issue_id: Seq<char>)
    ensures
        ask_dependency_total(issue_id).text()
            == "SELECT count(*) FROM dependencies WHERE issue_id = ?"@,
        tests_params(ask_dependency_total(issue_id).tests) == seq![SqlCell::Text(issue_id)],
{
    let q = ask_dependency_total(issue_id);
    let t = "SELECT count(*) FROM dependencies WHERE issue_id = ?"@;
    assert(tests_text(q.tests, q.from) =~= " WHERE "@ + "issue_id"@ + " = ?"@) by {
        reveal_with_fuel(tests_text, 2);
    }
    reveal_strlit("SELECT count(*) FROM dependencies WHERE issue_id = ?");
    reveal_strlit("SELECT ");
    reveal_strlit("count(*)");
    reveal_strlit(" FROM ");
    reveal_strlit("dependencies");
    reveal_strlit(" WHERE ");
    reveal_strlit("issue_id");
    reveal_strlit(" = ?");
    assert(
        t =~= "SELECT "@ + "count(*)"@ + " FROM "@ + "dependencies"@ + " WHERE "@ + "issue_id"@
            + " = ?"@
    );
    assert(
        q.text() =~= "SELECT "@ + "count(*)"@ + " FROM "@ + "dependencies"@ + " WHERE "@
            + "issue_id"@ + " = ?"@
    );
    reveal_with_fuel(tests_params, 2);
    assert(tests_params(q.tests) =~= seq![SqlCell::Text(issue_id)]);
}

/// The number of dependencies counts those that the issue has.
pub proof fn lemma_dependency_total(base: Base, issue_id: Seq<char>)
    ensures
        ask_dependency_total(issue_id).count(base)
            == base["dependencies"@].filter(
                |r: Record| cell(r, "issue_id"@) == SqlCell::Text(issue_id)
            ).len(),
{
    let q = ask_dependency_total(issue_id);
    assert(q.tests[0] == Test::Bound(col("issue_id"@), SqlCell::Text(issue_id)));
    lemma_counted(q, base, |r: Record| cell(r, "issue_id"@) == SqlCell::Text(issue_id));
}

/// The query behind `count_dependents`.
pub open spec fn ask_dependent_total(issue_id: Seq<char>) -> Select {
    select(
        Wanted::Count { capital: false },
        "dependencies"@,
        seq![Test::Bound(col("depends_on_id"@), SqlCell::Text(issue_id))],
    )
}

#[verifier::spinoff_prover]
pub(crate) proof fn lemma_ask_dependent_total_text(issue_id: Seq<char>)
    ensures
        ask_dependent_total(issue_id).text()
            == "SELECT count(*) FROM dependencies WHERE depends_on_id = ?"@,
        tests_params(ask_dependent_total(issue_id).tests) == seq![SqlCell::Text(issue_id)],
{
    let q = ask_dependent_total(issue_id);
    let t = "SELECT count(*) FROM dependencies WHERE depends_on_id = ?"@;
    assert(tests_text(q.tests, q.from) =~= " WHERE "@ + "depends_on_id"@ + " = ?"@) by {
        reveal_with_fuel(tests_text, 2);
    }
    reveal_strlit("SELECT count(*) FROM dependencies WHERE depends_on_id = ?");
    reveal_strlit("SELECT ");
    reveal_strlit("count(*)");
    reveal_strlit(" FROM ");
    reveal_strlit("dependencies");
    reveal_strlit(" WHERE ");
    reveal_strlit("depends_on_id");
    reveal_strlit(" = ?");
    assert(
        t =~= "SELECT "@ + "count(*)"@ + " FROM "@ + "dependencies"@ + " WHERE "@ + "depends_on_id"@
            + " = ?"@
    );
    assert(
        q.text() =~= "SELECT "@ + "count(*)"@ + " FROM "@ + "dependencies"@ + " WHERE "@
            + "depends_on_id"@ + " = ?"@
    );
    reveal_with_fuel(tests_params, 2);
    assert(tests_params(q.tests) =~= seq![SqlCell::Text(issue_id)]);
}

/// The number of dependents counts the dependencies on the issue.
pub proof fn lemma_dependent_total(base: Base, issue_id: Seq<char>)
    ensures
        ask_dependent_total(issue_id).count(base)
            == base["dependencies"@].filter(
                |r: Record| cell(r, "depends_on_id"@) == SqlCell::Text(issue_id)
            ).len(),
{
    let q = ask_dependent_total(issue_id);
    assert(q.tests[0] == Test::Bound(col("depends_on_id"@), SqlCell::Text(issue_id)));
    lemma_counted(q, base, |r: Record| cell(r, "depends_on_id"@) == SqlCell::Text(issue_id));
}

/// The query behind `all_dependency_records_query`.
pub open spec fn ask_all_links() -> Select {
    Select {
        order: seq![
            Key { col: col("issue_id"@), way: Way::Natural },
            Key { col: col("depends_on_id"@), way: Way::Natural },
        ],
        ..select(
            cols(
                seq![
                    "issue_id"@,
                    "depends_on_id"@,
                    "type"@,
                    "created_at"@,
                    "created_by"@,
                    "metadata"@,
                    "thread_id"@,
                ]
            ),
            "dependencies"@,
            seq![],
        )
    }
}

#[verifier::spinoff_prover]
pub(crate) proof fn lemma_ask_all_links_text()
    ensures
        ask_all_links().text()
            == "SELECT issue_id, depends_on_id, type, created_at, created_by, metadata, thread_id FROM dependencies ORDER BY issue_id, depends_on_id"@,
        tests_params(ask_all_links().tests) == Seq::<SqlCell>::empty(),
{
    let q = ask_all_links();
    let w = q.wanted->Columns_0;
    assert(columns_text(w.take(1), q.from) =~= "issue_id"@);
    assert(columns_text(w.take(2), q.from) =~= "issue_id, depends_on_id"@) by {
        assert(w.take(2).drop_last() =~= w.take(1));
        reveal_strlit("issue_id, depends_on_id");
        reveal_strlit("issue_id");
        reveal_strlit(", ");
        reveal_strlit("depends_on_id");
    }
    assert(columns_text(w.take(3), q.from) =~= "issue_id, depends_on_id, type"@) by {
        assert(w.take(3).drop_last() =~= w.take(2));
        reveal_strlit("issue_id, depends_on_id, type");
        reveal_strlit("issue_id, depends_on_id");
        reveal_strlit(", ");
        reveal_strlit("type");
    }
    assert(columns_text(w.take(4), q.from) =~= "issue_id, depends_on_id, type, created_at"@) by {
        assert(w.take(4).drop_last() =~= w.take(3));
        reveal_strlit("issue_id, depends_on_id, type, created_at");
        reveal_strlit("issue_id, depends_on_id, type");
        reveal_strlit(", ");
        reveal_strlit("created_at");
    }
    assert(
        columns_text(w.take(5), q.from) =~= "issue_id, depends_on_id, type, created_at, created_by"@
    ) by {
        assert(w.take(5).drop_last() =~= w.take(4));
        reveal_strlit("issue_id, depends_on_id, type, created_at, created_by");
        reveal_strlit("issue_id, depends_on_id, type, created_at");
        reveal_strlit(", ");
        reveal_strlit("created_by");
    }
    assert(
        columns_text(w.take(6), q.from)
            =~= "issue_id, depends_on_id, type, created_at, created_by, metadata"@
    ) by {
        assert(w.take(6).drop_last() =~= w.take(5));
        reveal_strlit("issue_id, depends_on_id, type, created_at, created_by, metadata");
        reveal_strlit("issue_id, depends_on_id, type, created_at, created_by");
        reveal_strlit(", ");
        reveal_strlit("metadata");
    }
    assert(
        columns_text(w.take(7), q.from)
            =~= "issue_id, depends_on_id, type, created_at, created_by, metadata, thread_id"@
    ) by {
        assert(w.take(7).drop_last() =~= w.take(6));
        reveal_strlit("issue_id, depends_on_id, type, created_at, created_by, metadata, thread_id");
        reveal_strlit("issue_id, depends_on_id, type, created_at, created_by, metadata");
        reveal_strlit(", ");
        reveal_strlit("thread_id");
    }
    assert(w.take(7) =~= w);
    assert(q.order[0].col == col("issue_id"@) && q.order[0].way is Natural);
    assert(order_text(q.order.take(1), q.from) =~= " ORDER BY issue_id"@) by {
        reveal_strlit(" ORDER BY issue_id");
        reveal_strlit(" ORDER BY ");
        reveal_strlit("issue_id");
    }
    assert(q.order[1].col == col("depends_on_id"@) && q.order[1].way is Natural);
    assert(order_text(q.order.take(2), q.from) =~= " ORDER BY issue_id, depends_on_id"@) by {
        assert(q.order.take(2).drop_last() =~= q.order.take(1));
        reveal_strlit(" ORDER BY issue_id, depends_on_id");
        reveal_strlit(" ORDER BY issue_id");
        reveal_strlit(", ");
        reveal_strlit("depends_on_id");
    }
    assert(q.order.take(2) =~= q.order);
    assert(
        q.text()
            =~= "SELECT issue_id, depends_on_id, type, created_at, created_by, metadata, thread_id FROM dependencies ORDER BY issue_id, depends_on_id"@
    ) by {
        reveal_strlit(
            "SELECT issue_id, depends_on_id, type, created_at, created_by, metadata, thread_id FROM dependencies ORDER BY issue_id, depends_on_id"
        );
        reveal_strlit("SELECT ");
        reveal_strlit("issue_id, depends_on_id, type, created_at, created_by, metadata, thread_id");
        reveal_strlit(" FROM ");
        reveal_strlit("dependencies");
        reveal_strlit(" ORDER BY issue_id, depends_on_id");
    }
    reveal_with_fuel(tests_params, 1);
    assert(tests_params(q.tests) =~= Seq::<SqlCell>::empty());
}

/// The query for all dependencies gives every one, in order.
pub proof fn lemma_all_links(base: Base, r: Record)
    ensures
        ask_all_links().selects(base, seq![Some(r)]) <==> base["dependencies"@].contains(r),
        ask_all_links().row(seq![Some(r)])
            == seq![
                cell(r, "issue_id"@),
                cell(r, "depends_on_id"@),
                cell(r, "type"@),
                cell(r, "created_at"@),
                cell(r, "created_by"@),
                cell(r, "metadata"@),
                cell(r, "thread_id"@),
            ],
        forall|a: Pick, b: Pick| #[trigger]
            in_order(ask_all_links().order, a, b)
                == (
                    if value(a, col("issue_id"@))
                        == value(b, col("issue_id"@)) {
                            (
                                if value(a, col("depends_on_id"@))
                                    == value(b, col("depends_on_id"@)) { true } else {
                                        cell_le(
                                            value(a, col("depends_on_id"@)),
                                            value(b, col("depends_on_id"@)),
                                        )
                                    }
                            )
                        } else { cell_le(value(a, col("issue_id"@)), value(b, col("issue_id"@))) }
                ),
{
    let q = ask_all_links();
    lemma_over_one(q, base, seq![Some(r)]);
    assert(
        q.row(seq![Some(r)])
            =~= seq![
                cell(r, "issue_id"@),
                cell(r, "depends_on_id"@),
                cell(r, "type"@),
                cell(r, "created_at"@),
                cell(r, "created_by"@),
                cell(r, "metadata"@),
                cell(r, "thread_id"@),
            ]
    );
    reveal_with_fuel(in_order, 3);
}

/// The query behind `dependencies_full_query`.
pub open spec fn ask_links_of(issue_id: Seq<char>) -> Select {
    Select {
        order: seq![Key { col: col("depends_on_id"@), way: Way::Natural }],
        ..select(
            cols(
                seq![
                    "issue_id"@,
                    "depends_on_id"@,
                    "type"@,
                    "created_at"@,
                    "created_by"@,
                    "metadata"@,
                    "thread_id"@,
                ]
            ),
            "dependencies"@,
            seq![Test::Bound(col("issue_id"@), SqlCell::Text(issue_id))],
        )
    }
}

#[verifier::spinoff_prover]
pub(crate) proof fn lemma_ask_links_of_text(issue_id: Seq<char>)
    ensures
        ask_links_of(issue_id).text()
            == "SELECT issue_id, depends_on_id, type, created_at, created_by, metadata, thread_id FROM dependencies WHERE issue_id = ? ORDER BY depends_on_id"@,
        tests_params(ask_links_of(issue_id).tests) == seq![SqlCell::Text(issue_id)],
{
    let q = ask_links_of(issue_id);
    let w = q.wanted->Columns_0;
    assert(columns_text(w.take(1), q.from) =~= "issue_id"@);
    assert(columns_text(w.take(2), q.from) =~= "issue_id, depends_on_id"@) by {
        assert(w.take(2).drop_last() =~= w.take(1));
        reveal_strlit("issue_id, depends_on_id");
        reveal_strlit("issue_id");
        reveal_strlit(", ");
        reveal_strlit("depends_on_id");
    }
    assert(columns_text(w.take(3), q.from) =~= "issue_id, depends_on_id, type"@) by {
        assert(w.take(3).drop_last() =~= w.take(2));
        reveal_strlit("issue_id, depends_on_id, type");
        reveal_strlit("issue_id, depends_on_id");
        reveal_strlit(", ");
        reveal_strlit("type");
    }
    assert(columns_text(w.take(4), q.from) =~= "issue_id, depends_on_id, type, created_at"@) by {
        assert(w.take(4).drop_last() =~= w.take(3));
        reveal_strlit("issue_id, depends_on_id, type, created_at");
        reveal_strlit("issue_id, depends_on_id, type");
        reveal_strlit(", ");
        reveal_strlit("created_at");
    }
    assert(
        columns_text(w.take(5), q.from) =~= "issue_id, depends_on_id, type, created_at, created_by"@
    ) by {
        assert(w.take(5).drop_last() =~= w.take(4));
        reveal_strlit("issue_id, depends_on_id, type, created_at, created_by");
        reveal_strlit("issue_id, depends_on_id, type, created_at");
        reveal_strlit(", ");
        reveal_strlit("created_by");
    }
    assert(
        columns_text(w.take(6), q.from)
            =~= "issue_id, depends_on_id, type, created_at, created_by, metadata"@
    ) by {
        assert(w.take(6).drop_last() =~= w.take(5));
        reveal_strlit("issue_id, depends_on_id, type, created_at, created_by, metadata");
        reveal_strlit("issue_id, depends_on_id, type, created_at, created_by");
        reveal_strlit(", ");
        reveal_strlit("metadata");
    }
    assert(
        columns_text(w.take(7), q.from)
            =~= "issue_id, depends_on_id, type, created_at, created_by, metadata, thread_id"@
    ) by {
        assert(w.take(7).drop_last() =~= w.take(6));
        reveal_strlit("issue_id, depends_on_id, type, created_at, created_by, metadata, thread_id");
        reveal_strlit("issue_id, depends_on_id, type, created_at, created_by, metadata");
        reveal_strlit(", ");
        reveal_strlit("thread_id");
    }
    assert(w.take(7) =~= w);
    assert(q.tests[0] == Test::Bound(col("issue_id"@), SqlCell::Text(issue_id)));
    assert(q.tests[0].text(q.from) =~= "issue_id = ?"@) by {
        reveal_strlit("issue_id = ?");
        reveal_strlit("issue_id");
        reveal_strlit(" = ?");
    }
    assert(tests_text(q.tests.take(1), q.from) =~= " WHERE issue_id = ?"@) by {
        reveal_strlit(" WHERE issue_id = ?");
        reveal_strlit(" WHERE ");
        reveal_strlit("issue_id = ?");
    }
    assert(q.tests.take(1) =~= q.tests);
    assert(q.order[0].col == col("depends_on_id"@) && q.order[0].way is Natural);
    assert(order_text(q.order.take(1), q.from) =~= " ORDER BY depends_on_id"@) by {
        reveal_strlit(" ORDER BY depends_on_id");
        reveal_strlit(" ORDER BY ");
        reveal_strlit("depends_on_id");
    }
    assert(q.order.take(1) =~= q.order);
    assert(
        q.text()
            =~= "SELECT issue_id, depends_on_id, type, created_at, created_by, metadata, thread_id FROM dependencies WHERE issue_id = ? ORDER BY depends_on_id"@
    ) by {
        reveal_strlit(
            "SELECT issue_id, depends_on_id, type, created_at, created_by, metadata, thread_id FROM dependencies WHERE issue_id = ? ORDER BY depends_on_id"
        );
        reveal_strlit("SELECT ");
        reveal_strlit("issue_id, depends_on_id, type, created_at, created_by, metadata, thread_id");
        reveal_strlit(" FROM ");
        reveal_strlit("dependencies");
        reveal_strlit(" WHERE issue_id = ?");
        reveal_strlit(" ORDER BY depends_on_id");
    }
    reveal_with_fuel(tests_params, 2);
    assert(tests_params(q.tests) =~= seq![SqlCell::Text(issue_id)]);
}

/// The query for the dependencies of an issue gives all of them, and no others, in order.
pub proof fn lemma_links_of(base: Base, r: Record, issue_id: Seq<char>)
    ensures
        ask_links_of(issue_id).selects(base, seq![Some(r)])
            <==> base["dependencies"@].contains(r)
                && cell(r, "issue_id"@) == SqlCell::Text(issue_id),
        ask_links_of(issue_id).row(seq![Some(r)])
            == seq![
                cell(r, "issue_id"@),
                cell(r, "depends_on_id"@),
                cell(r, "type"@),
                cell(r, "created_at"@),
                cell(r, "created_by"@),
                cell(r, "metadata"@),
                cell(r, "thread_id"@),
            ],
        forall|a: Pick, b: Pick| #[trigger]
            in_order(ask_links_of(issue_id).order, a, b)
                == (
                    if value(a, col("depends_on_id"@))
                        == value(b, col("depends_on_id"@)) { true } else {
                            cell_le(
                                value(a, col("depends_on_id"@)),
                                value(b, col("depends_on_id"@)),
                            )
                        }
                ),
{
    let q = ask_links_of(issue_id);
    assert(q.tests[0] == Test::Bound(col("issue_id"@), SqlCell::Text(issue_id)));
    lemma_over_one(q, base, seq![Some(r)]);
    assert(
        q.row(seq![Some(r)])
            =~= seq![
                cell(r, "issue_id"@),
                cell(r, "depends_on_id"@),
                cell(r, "type"@),
                cell(r, "created_at"@),
                cell(r, "created_by"@),
                cell(r, "metadata"@),
                cell(r, "thread_id"@),
            ]
    );
    reveal_with_fuel(in_order, 2);
}

/// The query behind `get_config`.
pub open spec fn ask_config_value(key: Seq<char>) -> Select {
    select(cols(seq!["value"@]), "config"@, seq![Test::Bound(col("key"@), SqlCell::Text(key))])
}

#[verifier::spinoff_prover]
pub(crate) proof fn lemma_ask_config_value_text(key: Seq<char>)
    ensures
        ask_config_value(key).text() == "SELECT value FROM config WHERE key = ?"@,
        tests_params(ask_config_value(key).tests) == seq![SqlCell::Text(key)],
{
    let q = ask_config_value(key);
    let t = "SELECT value FROM config WHERE key = ?"@;
    assert(columns_text(q.wanted->Columns_0, q.from) =~= "value"@) by {
        reveal_with_fuel(columns_text, 2);
    }
    assert(tests_text(q.tests, q.from) =~= " WHERE "@ + "key"@ + " = ?"@) by {
        reveal_with_fuel(tests_text, 2);
    }
    reveal_strlit("SELECT value FROM config WHERE key = ?");
    reveal_strlit("SELECT ");
    reveal_strlit("value");
    reveal_strlit(" FROM ");
    reveal_strlit("config");
    reveal_strlit(" WHERE ");
    reveal_strlit("key");
    reveal_strlit(" = ?");
    assert(t =~= "SELECT "@ + "value"@ + " FROM "@ + "config"@ + " WHERE "@ + "key"@ + " = ?"@);
    assert(
        q.text() =~= "SELECT "@ + "value"@ + " FROM "@ + "config"@ + " WHERE "@ + "key"@ + " = ?"@
    );
    reveal_with_fuel(tests_params, 2);
    assert(tests_params(q.tests) =~= seq![SqlCell::Text(key)]);
}

/// The query for a setting gives the value that is stored under its key.
pub proof fn lemma_config_value(base: Base, r: Record, key: Seq<char>)
    ensures
        ask_config_value(key).selects(base, seq![Some(r)])
            <==> base["config"@].contains(r) && cell(r, "key"@) == SqlCell::Text(key),
        ask_config_value(key).row(seq![Some(r)]) == seq![cell(r, "value"@)],
{
    let q = ask_config_value(key);
    assert(q.tests[0] == Test::Bound(col("key"@), SqlCell::Text(key)));
    lemma_over_one(q, base, seq![Some(r)]);
    assert(q.row(seq![Some(r)]) =~= seq![cell(r, "value"@)]);
}

/// The query behind `all_config_query`.
pub open spec fn ask_all_config() -> Select {
    select(cols(seq!["key"@, "value"@]), "config"@, seq![])
}

#[verifier::spinoff_prover]
pub(crate) proof fn lemma_ask_all_config_text()
    ensures
        ask_all_config().text() == "SELECT key, value FROM config"@,
        tests_params(ask_all_config().tests) == Seq::<SqlCell>::empty(),
{
    let q = ask_all_config();
    let t = "SELECT key, value FROM config"@;
    assert(columns_text(q.wanted->Columns_0, q.from) =~= "key"@ + ", "@ + "value"@) by {
        reveal_with_fuel(columns_text, 3);
    }
    reveal_strlit("SELECT key, value FROM config");
    reveal_strlit("SELECT ");
    reveal_strlit("key");
    reveal_strlit(", ");
    reveal_strlit("value");
    reveal_strlit(" FROM ");
    reveal_strlit("config");
    assert(t =~= "SELECT "@ + "key"@ + ", "@ + "value"@ + " FROM "@ + "config"@);
    assert(q.text() =~= "SELECT "@ + "key"@ + ", "@ + "value"@ + " FROM "@ + "config"@);
    reveal_with_fuel(tests_params, 1);
    assert(tests_params(q.tests) =~= Seq::<SqlCell>::empty());
}

/// The query for all settings gives every key with its value.
pub proof fn lemma_all_config(base: Base, r: Record)
    ensures
        ask_all_config().selects(base, seq![Some(r)]) <==> base["config"@].contains(r),
        ask_all_config().row(seq![Some(r)]) == seq![cell(r, "key"@), cell(r, "value"@)],
{
    let q = ask_all_config();
    lemma_over_one(q, base, seq![Some(r)]);
    assert(q.row(seq![Some(r)]) =~= seq![cell(r, "key"@), cell(r, "value"@)]);
}

/// The query behind `get_metadata`.
pub open spec fn ask_metadata_value(key: Seq<char>) -> Select {
    select(cols(seq!["value"@]), "metadata"@, seq![Test::Bound(col("key"@), SqlCell::Text(key))])
}

#[verifier::spinoff_prover]
pub(crate) proof fn lemma_ask_metadata_value_text(key: Seq<char>)
    ensures
        ask_metadata_value(key).text() == "SELECT value FROM metadata WHERE key = ?"@,
        tests_params(ask_metadata_value(key).tests) == seq![SqlCell::Text(key)],
{
    let q = ask_metadata_value(key);
    let t = "SELECT value FROM metadata WHERE key = ?"@;
    assert(columns_text(q.wanted->Columns_0, q.from) =~= "value"@) by {
        reveal_with_fuel(columns_text, 2);
    }
    assert(tests_text(q.tests, q.from) =~= " WHERE "@ + "key"@ + " = ?"@) by {
        reveal_with_fuel(tests_text, 2);
    }
    reveal_strlit("SELECT value FROM metadata WHERE key = ?");
    reveal_strlit("SELECT ");
    reveal_strlit("value");
    reveal_strlit(" FROM ");
    reveal_strlit("metadata");
    reveal_strlit(" WHERE ");
    reveal_strlit("key");
    reveal_strlit(" = ?");
    assert(t =~= "SELECT "@ + "value"@ + " FROM "@ + "metadata"@ + " WHERE "@ + "key"@ + " = ?"@);
    assert(
        q.text() =~= "SELECT "@ + "value"@ + " FROM "@ + "metadata"@ + " WHERE "@ + "key"@ + " = ?"@
    );
    reveal_with_fuel(tests_params, 2);
    assert(tests_params(q.tests) =~= seq![SqlCell::Text(key)]);
}

/// The query for metadata gives the value that is stored under the key.
pub proof fn lemma_metadata_value(base: Base, r: Record, key: Seq<char>)
    ensures
        ask_metadata_value(key).selects(base, seq![Some(r)])
            <==> base["metadata"@].contains(r) && cell(r, "key"@) == SqlCell::Text(key),
        ask_metadata_value(key).row(seq![Some(r)]) == seq![cell(r, "value"@)],
{
    let q = ask_metadata_value(key);
    assert(q.tests[0] == Test::Bound(col("key"@), SqlCell::Text(key)));
    lemma_over_one(q, base, seq![Some(r)]);
    assert(q.row(seq![Some(r)]) =~= seq![cell(r, "value"@)]);
}

/// The query behind `get_dirty_issue_count`.
pub open spec fn ask_dirty_total() -> Select {
    select(Wanted::Count { capital: true }, "dirty_issues"@, seq![])
}

#[verifier::spinoff_prover]
pub(crate) proof fn lemma_ask_dirty_total_text()
    ensures
        ask_dirty_total().text() == "SELECT COUNT(*) FROM dirty_issues"@,
        tests_params(ask_dirty_total().tests) == Seq::<SqlCell>::empty(),
{
    let q = ask_dirty_total();
    let t = "SELECT COUNT(*) FROM dirty_issues"@;
    reveal_strlit("SELECT COUNT(*) FROM dirty_issues");
    reveal_strlit("SELECT ");
    reveal_strlit("COUNT(*)");
    reveal_strlit(" FROM ");
    reveal_strlit("dirty_issues");
    assert(t =~= "SELECT "@ + "COUNT(*)"@ + " FROM "@ + "dirty_issues"@);
    assert(q.text() =~= "SELECT "@ + "COUNT(*)"@ + " FROM "@ + "dirty_issues"@);
    reveal_with_fuel(tests_params, 1);
    assert(tests_params(q.tests) =~= Seq::<SqlCell>::empty());
}

/// The number of dirty issues counts every mark.
pub proof fn lemma_dirty_total(base: Base)
    ensures
        ask_dirty_total().count(base) == base["dirty_issues"@].len(),
{
    let q = ask_dirty_total();
    lemma_counted(q, base, |r: Record| true);
    lemma_all_kept(base["dirty_issues"@]);
}

/// The query behind `get_dirty_issue_ids`.
pub open spec fn ask_dirty_ids() -> Select {
    Select {
        order: seq![Key { col: col("marked_at"@), way: Way::Natural }],
        ..select(cols(seq!["issue_id"@]), "dirty_issues"@, seq![])
    }
}

#[verifier::spinoff_prover]
pub(crate) proof fn lemma_ask_dirty_ids_text()
    ensures
        ask_dirty_ids().text() == "SELECT issue_id FROM dirty_issues ORDER BY marked_at"@,
        tests_params(ask_dirty_ids().tests) == Seq::<SqlCell>::empty(),
{
    let q = ask_dirty_ids();
    let t = "SELECT issue_id FROM dirty_issues ORDER BY marked_at"@;
    assert(columns_text(q.wanted->Columns_0, q.from) =~= "issue_id"@) by {
        reveal_with_fuel(columns_text, 2);
    }
    assert(order_text(q.order, q.from) =~= " ORDER BY "@ + "marked_at"@) by {
        reveal_with_fuel(order_text, 2);
    }
    reveal_strlit("SELECT issue_id FROM dirty_issues ORDER BY marked_at");
    reveal_strlit("SELECT ");
    reveal_strlit("issue_id");
    reveal_strlit(" FROM ");
    reveal_strlit("dirty_issues");
    reveal_strlit(" ORDER BY ");
    reveal_strlit("marked_at");
    assert(
        t =~= "SELECT "@ + "issue_id"@ + " FROM "@ + "dirty_issues"@ + " ORDER BY "@ + "marked_at"@
    );
    assert(
        q.text() =~= "SELECT "@ + "issue_id"@ + " FROM "@ + "dirty_issues"@ + " ORDER BY "@
            + "marked_at"@
    );
    reveal_with_fuel(tests_params, 1);
    assert(tests_params(q.tests) =~= Seq::<SqlCell>::empty());
}

/// The query for dirty issues gives the issue of every mark, the oldest mark first.
pub proof fn lemma_dirty_ids(base: Base, r: Record)
    ensures
        ask_dirty_ids().selects(base, seq![Some(r)]) <==> base["dirty_issues"@].contains(r),
        ask_dirty_ids().row(seq![Some(r)]) == seq![cell(r, "issue_id"@)],
        forall|a: Pick, b: Pick| #[trigger]
            in_order(ask_dirty_ids().order, a, b)
                == (
                    if value(a, col("marked_at"@))
                        == value(b, col("marked_at"@)) { true } else {
                            cell_le(value(a, col("marked_at"@)), value(b, col("marked_at"@)))
                        }
                ),
{
    let q = ask_dirty_ids();
    lemma_over_one(q, base, seq![Some(r)]);
    assert(q.row(seq![Some(r)]) =~= seq![cell(r, "issue_id"@)]);
    reveal_with_fuel(in_order, 2);
}

/// The query behind `export_hash_query`.
pub open spec fn ask_export_hash(issue_id: Seq<char>) -> Select {
    select(
        cols(seq!["content_hash"@, "exported_at"@]),
        "export_hashes"@,
        seq![Test::Bound(col("issue_id"@), SqlCell::Text(issue_id))],
    )
}

#[verifier::spinoff_prover]
pub(crate) proof fn lemma_ask_export_hash_text(issue_id: Seq<char>)
    ensures
        ask_export_hash(issue_id).text()
            == "SELECT content_hash, exported_at FROM export_hashes WHERE issue_id = ?"@,
        tests_params(ask_export_hash(issue_id).tests) == seq![SqlCell::Text(issue_id)],
{
    let q = ask_export_hash(issue_id);
    let t = "SELECT content_hash, exported_at FROM export_hashes WHERE issue_id = ?"@;
    assert(columns_text(q.wanted->Columns_0, q.from) =~= "content_hash"@ + ", "@ + "exported_at"@) by {
        reveal_with_fuel(columns_text, 3);
    }
    assert(tests_text(q.tests, q.from) =~= " WHERE "@ + "issue_id"@ + " = ?"@) by {
        reveal_with_fuel(tests_text, 2);
    }
    reveal_strlit("SELECT content_hash, exported_at FROM export_hashes WHERE issue_id = ?");
    reveal_strlit("SELECT ");
    reveal_strlit("content_hash");
    reveal_strlit(", ");
    reveal_strlit("exported_at");
    reveal_strlit(" FROM ");
    reveal_strlit("export_hashes");
    reveal_strlit(" WHERE ");
    reveal_strlit("issue_id");
    reveal_strlit(" = ?");
    assert(
        t =~= "SELECT "@ + "content_hash"@ + ", "@ + "exported_at"@ + " FROM "@ + "export_hashes"@
            + " WHERE "@ + "issue_id"@ + " = ?"@
    );
    assert(
        q.text() =~= "SELECT "@ + "content_hash"@ + ", "@ + "exported_at"@ + " FROM "@
            + "export_hashes"@ + " WHERE "@ + "issue_id"@ + " = ?"@
    );
    reveal_with_fuel(tests_params, 2);
    assert(tests_params(q.tests) =~= seq![SqlCell::Text(issue_id)]);
}

/// The query for an export hash gives the hash of the issue and when it was exported.
pub proof fn lemma_export_hash(base: Base, r: Record, issue_id: Seq<char>)
    ensures
        ask_export_hash(issue_id).selects(base, seq![Some(r)])
            <==> base["export_hashes"@].contains(r)
                && cell(r, "issue_id"@) == SqlCell::Text(issue_id),
        ask_export_hash(issue_id).row(seq![Some(r)])
            == seq![cell(r, "content_hash"@), cell(r, "exported_at"@)],
{
    let q = ask_export_hash(issue_id);
    assert(q.tests[0] == Test::Bound(col("issue_id"@), SqlCell::Text(issue_id)));
    lemma_over_one(q, base, seq![Some(r)]);
    assert(q.row(seq![Some(r)]) =~= seq![cell(r, "content_hash"@), cell(r, "exported_at"@)]);
}

/// The query behind `claim_query`.
pub open spec fn ask_assignee_of(id: Seq<char>) -> Select {
    select(cols(seq!["assignee"@]), "issues"@, seq![Test::Bound(col("id"@), SqlCell::Text(id))])
}

#[verifier::spinoff_prover]
pub(crate) proof fn lemma_ask_assignee_of_text(id: Seq<char>)
    ensures
        ask_assignee_of(id).text() == "SELECT assignee FROM issues WHERE id = ?"@,
        tests_params(ask_assignee_of(id).tests) == seq![SqlCell::Text(id)],
{
    let q = ask_assignee_of(id);
    let t = "SELECT assignee FROM issues WHERE id = ?"@;
    assert(columns_text(q.wanted->Columns_0, q.from) =~= "assignee"@) by {
        reveal_with_fuel(columns_text, 2);
    }
    assert(tests_text(q.tests, q.from) =~= " WHERE "@ + "id"@ + " = ?"@) by {
        reveal_with_fuel(tests_text, 2);
    }
    reveal_strlit("SELECT assignee FROM issues WHERE id = ?");
    reveal_strlit("SELECT ");
    reveal_strlit("assignee");
    reveal_strlit(" FROM ");
    reveal_strlit("issues");
    reveal_strlit(" WHERE ");
    reveal_strlit("id");
    reveal_strlit(" = ?");
    assert(t =~= "SELECT "@ + "assignee"@ + " FROM "@ + "issues"@ + " WHERE "@ + "id"@ + " = ?"@);
    assert(
        q.text() =~= "SELECT "@ + "assignee"@ + " FROM "@ + "issues"@ + " WHERE "@ + "id"@ + " = ?"@
    );
    reveal_with_fuel(tests_params, 2);
    assert(tests_params(q.tests) =~= seq![SqlCell::Text(id)]);
}

/// The query before an issue is claimed gives the assignee of the issue with that ID.
pub proof fn lemma_assignee_of(base: Base, r: Record, id: Seq<char>)
    ensures
        ask_assignee_of(id).selects(base, seq![Some(r)])
            <==> base["issues"@].contains(r) && cell(r, "id"@) == SqlCell::Text(id),
        ask_assignee_of(id).row(seq![Some(r)]) == seq![cell(r, "assignee"@)],
{
    let q = ask_assignee_of(id);
    assert(q.tests[0] == Test::Bound(col("id"@), SqlCell::Text(id)));
    lemma_over_one(q, base, seq![Some(r)]);
    assert(q.row(seq![Some(r)]) =~= seq![cell(r, "assignee"@)]);
}

/// The query behind `parent_links_query`.
pub open spec fn ask_external_edges() -> Select {
    select(
        cols(seq!["issue_id"@, "depends_on_id"@]),
        "dependencies"@,
        seq![Test::Is(col("type"@), "parent-child"@)],
    )
}

#[verifier::spinoff_prover]
pub(crate) proof fn lemma_ask_external_edges_text()
    ensures
        ask_external_edges().text()
            == "SELECT issue_id, depends_on_id FROM dependencies WHERE type = 'parent-child'"@,
        tests_params(ask_external_edges().tests) == Seq::<SqlCell>::empty(),
{
    let q = ask_external_edges();
    let t = "SELECT issue_id, depends_on_id FROM dependencies WHERE type = 'parent-child'"@;
    assert(columns_text(q.wanted->Columns_0, q.from) =~= "issue_id"@ + ", "@ + "depends_on_id"@) by {
        reveal_with_fuel(columns_text, 3);
    }
    assert(tests_text(q.tests, q.from) =~= " WHERE "@ + "type"@ + " = '"@ + "parent-child"@ + "'"@) by {
        reveal_with_fuel(tests_text, 2);
    }
    reveal_strlit("SELECT issue_id, depends_on_id FROM dependencies WHERE type = 'parent-child'");
    reveal_strlit("SELECT ");
    reveal_strlit("issue_id");
    reveal_strlit(", ");
    reveal_strlit("depends_on_id");
    reveal_strlit(" FROM ");
    reveal_strlit("dependencies");
    reveal_strlit(" WHERE ");
    reveal_strlit("type");
    reveal_strlit(" = '");
    reveal_strlit("parent-child");
    reveal_strlit("'");
    assert(
        t =~= "SELECT "@ + "issue_id"@ + ", "@ + "depends_on_id"@ + " FROM "@ + "dependencies"@
            + " WHERE "@ + "type"@ + " = '"@ + "parent-child"@ + "'"@
    );
    assert(
        q.text() =~= "SELECT "@ + "issue_id"@ + ", "@ + "depends_on_id"@ + " FROM "@
            + "dependencies"@ + " WHERE "@ + "type"@ + " = '"@ + "parent-child"@ + "'"@
    );
    reveal_with_fuel(tests_params, 2);
    assert(tests_params(q.tests) =~= Seq::<SqlCell>::empty());
}

/// The query for parents gives every dependency of a child on its parent.
pub proof fn lemma_external_edges(base: Base, r: Record)
    ensures
        ask_external_edges().selects(base, seq![Some(r)])
            <==> base["dependencies"@].contains(r)
                && cell(r, "type"@) == SqlCell::Text("parent-child"@),
        ask_external_edges().row(seq![Some(r)])
            == seq![cell(r, "issue_id"@), cell(r, "depends_on_id"@)],
{
    let q = ask_external_edges();
    assert(q.tests[0] == Test::Is(col("type"@), "parent-child"@));
    lemma_over_one(q, base, seq![Some(r)]);
    assert(q.row(seq![Some(r)]) =~= seq![cell(r, "issue_id"@), cell(r, "depends_on_id"@)]);
}

/// The query behind `edges_query`.
pub open spec fn ask_all_edges() -> Select {
    select(cols(seq!["issue_id"@, "depends_on_id"@]), "dependencies"@, seq![])
}

#[verifier::spinoff_prover]
pub(crate) proof fn lemma_ask_all_edges_text()
    ensures
        ask_all_edges().text() == "SELECT issue_id, depends_on_id FROM dependencies"@,
        tests_params(ask_all_edges().tests) == Seq::<SqlCell>::empty(),
{
    let q = ask_all_edges();
    let t = "SELECT issue_id, depends_on_id FROM dependencies"@;
    assert(columns_text(q.wanted->Columns_0, q.from) =~= "issue_id"@ + ", "@ + "depends_on_id"@) by {
        reveal_with_fuel(columns_text, 3);
    }
    reveal_strlit("SELECT issue_id, depends_on_id FROM dependencies");
    reveal_strlit("SELECT ");
    reveal_strlit("issue_id");
    reveal_strlit(", ");
    reveal_strlit("depends_on_id");
    reveal_strlit(" FROM ");
    reveal_strlit("dependencies");
    assert(t =~= "SELECT "@ + "issue_id"@ + ", "@ + "depends_on_id"@ + " FROM "@ + "dependencies"@);
    assert(
        q.text() =~= "SELECT "@ + "issue_id"@ + ", "@ + "depends_on_id"@ + " FROM "@
            + "dependencies"@
    );
    reveal_with_fuel(tests_params, 1);
    assert(tests_params(q.tests) =~= Seq::<SqlCell>::empty());
}

/// The query for edges gives every dependency, of whatever type.
pub proof fn lemma_all_edges(base: Base, r: Record)
    ensures
        ask_all_edges().selects(base, seq![Some(r)]) <==> base["dependencies"@].contains(r),
        ask_all_edges().row(seq![Some(r)]) == seq![cell(r, "issue_id"@), cell(r, "depends_on_id"@)],
{
    let q = ask_all_edges();
    lemma_over_one(q, base, seq![Some(r)]);
    assert(q.row(seq![Some(r)]) =~= seq![cell(r, "issue_id"@), cell(r, "depends_on_id"@)]);
}

} // verus!
