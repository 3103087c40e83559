//! What the queries over several tables ask, and those that take a list.

use vstd::prelude::*;

verus! {

use crate::chunk::list_statement;
use crate::links::{metadata_of, IssueWithDependencyMetadataView};
use crate::rows::{priority_at, status_of};
use crate::sql::{listed, rendered, stmt, text_at, text_cells, SqlCell, StatementView};
use crate::tables::{
    all_hold,
    cell,
    cell_le,
    col,
    cols,
    columns_text,
    in_order,
    lemma_among2,
    lemma_list_statement,
    lemma_outer_join,
    lemma_over_one,
    order_text,
    quoted,
    second,
    select,
    tests_params,
    tests_text,
    value,
    Base,
    Col,
    Join,
    JoinKind,
    Key,
    Pick,
    Record,
    Select,
    Source,
    Test,
    Union,
    Wanted,
    Way,
};

/// The query behind `get_open_child_ids`.
pub open spec fn ask_open_children(parent_id: Seq<char>) -> Select {
    Select {
        from: Source {
            table: "dependencies"@,
            alias: "d"@,
            joins: seq![
                Join {
                    kind: JoinKind::Plain,
                    table: "issues"@,
                    alias: "i"@,
                    left: second("id"@),
                    right: col("issue_id"@),
                }
            ],
        },
        ..select(
            Wanted::Columns(seq![col("issue_id"@)]),
            "dependencies"@,
            seq![
                Test::Bound(col("depends_on_id"@), SqlCell::Text(parent_id)),
                Test::Is(col("type"@), "parent-child"@),
                Test::OneOf(second("status"@), seq!["open"@, "in_progress"@]),
            ],
        )
    }
}

#[verifier::spinoff_prover]
#[verifier::rlimit(40)]
pub(crate) proof fn lemma_ask_open_children_text(parent_id: Seq<char>)
    ensures
        ask_open_children(parent_id).text()
            == "SELECT d.issue_id FROM dependencies d JOIN issues i ON i.id = d.issue_id WHERE d.depends_on_id = ? AND d.type = 'parent-child' AND i.status IN ('open', 'in_progress')"@,
        tests_params(ask_open_children(parent_id).tests) == seq![SqlCell::Text(parent_id)],
{
    let q = ask_open_children(parent_id);
    let w = q.wanted->Columns_0;
    assert(w[0] == col("issue_id"@));
    assert(q.from.column(w[0]) =~= "d.issue_id"@) by {
        reveal_strlit("d.issue_id");
        reveal_strlit("d");
        reveal_strlit(".");
        reveal_strlit("issue_id");
    }
    assert(columns_text(w.take(1), q.from) =~= "d.issue_id"@);
    assert(w.take(1) =~= w);
    assert(q.from.joins_text(0) =~= seq![]);
    let j0 = q.from.joins[0];
    assert(j0.left == second("id"@) && j0.right == col("issue_id"@));
    assert(q.from.column(j0.left) =~= "i.id"@) by {
        reveal_strlit("i.id");
        reveal_strlit("i");
        reveal_strlit(".");
        reveal_strlit("id");
        reveal_strlit("d");
    }
    assert(q.from.column(j0.right) =~= "d.issue_id"@) by {
        reveal_strlit("d.issue_id");
        reveal_strlit("d");
        reveal_strlit(".");
        reveal_strlit("issue_id");
    }
    assert(q.from.joins_text(1) =~= " JOIN issues i ON i.id = d.issue_id"@) by {
        reveal_strlit(" JOIN issues i ON i.id = d.issue_id");
        reveal_strlit(" JOIN ");
        reveal_strlit("issues");
        reveal_strlit(" ");
        reveal_strlit("i");
        reveal_strlit(" ON ");
        reveal_strlit("i.id");
        reveal_strlit(" = ");
        reveal_strlit("d.issue_id");
    }
    assert(q.from.text() =~= "dependencies d JOIN issues i ON i.id = d.issue_id"@) by {
        reveal_strlit("dependencies d JOIN issues i ON i.id = d.issue_id");
        reveal_strlit("dependencies");
        reveal_strlit(" ");
        reveal_strlit("d");
        reveal_strlit(" JOIN issues i ON i.id = d.issue_id");
    }
    assert(q.tests[0] == Test::Bound(col("depends_on_id"@), SqlCell::Text(parent_id)));
    assert(q.from.column(col("depends_on_id"@)) =~= "d.depends_on_id"@) by {
        reveal_strlit("d.depends_on_id");
        reveal_strlit("d");
        reveal_strlit(".");
        reveal_strlit("depends_on_id");
    }
    assert(q.tests[0].text(q.from) =~= "d.depends_on_id = ?"@) by {
        reveal_strlit("d.depends_on_id = ?");
        reveal_strlit("d.depends_on_id");
        reveal_strlit(" = ?");
    }
    assert(tests_text(q.tests.take(1), q.from) =~= " WHERE d.depends_on_id = ?"@) by {
        reveal_strlit(" WHERE d.depends_on_id = ?");
        reveal_strlit(" WHERE ");
        reveal_strlit("d.depends_on_id = ?");
    }
    assert(q.tests[1] == Test::Is(col("type"@), "parent-child"@));
    assert(q.from.column(col("type"@)) =~= "d.type"@) by {
        reveal_strlit("d.type");
        reveal_strlit("d");
        reveal_strlit(".");
        reveal_strlit("type");
    }
    assert(q.tests[1].text(q.from) =~= "d.type = 'parent-child'"@) by {
        reveal_strlit("d.type = 'parent-child'");
        reveal_strlit("d.type");
        reveal_strlit(" = '");
        reveal_strlit("parent-child");
        reveal_strlit("'");
    }
    assert(
        tests_text(q.tests.take(2), q.from)
            =~= " WHERE d.depends_on_id = ? AND d.type = 'parent-child'"@
    ) by {
        assert(q.tests.take(2).drop_last() =~= q.tests.take(1));
        reveal_strlit(" WHERE d.depends_on_id = ? AND d.type = 'parent-child'");
        reveal_strlit(" WHERE d.depends_on_id = ?");
        reveal_strlit(" AND ");
        reveal_strlit("d.type = 'parent-child'");
    }
    assert(q.tests[2] == Test::OneOf(second("status"@), seq!["open"@, "in_progress"@]));
    assert(q.from.column(second("status"@)) =~= "i.status"@) by {
        reveal_strlit("i.status");
        reveal_strlit("i");
        reveal_strlit(".");
        reveal_strlit("status");
        reveal_strlit("d");
    }
    assert(quoted(q.tests[2]->OneOf_1) =~= "'open', 'in_progress'"@) by {
        reveal_with_fuel(quoted, 3);
        reveal_strlit("'open', 'in_progress'");
        reveal_strlit("'");
        reveal_strlit("open");
        reveal_strlit(", '");
        reveal_strlit("in_progress");
    }
    assert(q.tests[2].text(q.from) =~= "i.status IN ('open', 'in_progress')"@) by {
        reveal_strlit("i.status IN ('open', 'in_progress')");
        reveal_strlit("i.status");
        reveal_strlit(" IN (");
        reveal_strlit("'open', 'in_progress'");
        reveal_strlit(")");
    }
    assert(
        tests_text(q.tests.take(3), q.from)
            =~= " WHERE d.depends_on_id = ? AND d.type = 'parent-child' AND i.status IN ('open', 'in_progress')"@
    ) by {
        assert(q.tests.take(3).drop_last() =~= q.tests.take(2));
        reveal_strlit(
            " WHERE d.depends_on_id = ? AND d.type = 'parent-child' AND i.status IN ('open', 'in_progress')"
        );
        reveal_strlit(" WHERE d.depends_on_id = ? AND d.type = 'parent-child'");
        reveal_strlit(" AND ");
        reveal_strlit("i.status IN ('open', 'in_progress')");
    }
    assert(q.tests.take(3) =~= q.tests);
    assert(
        q.text()
            =~= "SELECT d.issue_id FROM dependencies d JOIN issues i ON i.id = d.issue_id WHERE d.depends_on_id = ? AND d.type = 'parent-child' AND i.status IN ('open', 'in_progress')"@
    ) by {
        reveal_strlit(
            "SELECT d.issue_id FROM dependencies d JOIN issues i ON i.id = d.issue_id WHERE d.depends_on_id = ? AND d.type = 'parent-child' AND i.status IN ('open', 'in_progress')"
        );
        reveal_strlit("SELECT ");
        reveal_strlit("d.issue_id");
        reveal_strlit(" FROM ");
        reveal_strlit("dependencies d JOIN issues i ON i.id = d.issue_id");
        reveal_strlit(
            " WHERE d.depends_on_id = ? AND d.type = 'parent-child' AND i.status IN ('open', 'in_progress')"
        );
    }
    reveal_with_fuel(tests_params, 4);
    assert(tests_params(q.tests) =~= seq![SqlCell::Text(parent_id)]);
}

/// The open children of an issue are exactly the issues, open or in progress, that depend on it as
/// children.
pub proof fn lemma_open_children(base: Base, p: Pick, parent_id: Seq<char>)
    ensures
        ask_open_children(parent_id).selects(base, p) <==> p.len() == 2 && (p[0] matches Some(d)
            && p[1] matches Some(i) && base["dependencies"@].contains(d)
            && base["issues"@].contains(i) && cell(i, "id"@) == cell(d, "issue_id"@) && !(cell(
            i,
            "id"@,
        ) is Null) && cell(d, "depends_on_id"@) == SqlCell::Text(parent_id) && cell(d, "type"@)
            == SqlCell::Text("parent-child"@) && (cell(i, "status"@) == SqlCell::Text("open"@)
            || cell(i, "status"@) == SqlCell::Text("in_progress"@))),
        ask_open_children(parent_id).selects(base, p) ==> ask_open_children(parent_id).row(p)
            == seq![cell(p[0]->0, "issue_id"@)],
{
    let q = ask_open_children(parent_id);
    assert(q.tests[0] == Test::Bound(col("depends_on_id"@), SqlCell::Text(parent_id)));
    assert(q.tests[1] == Test::Is(col("type"@), "parent-child"@));
    assert(q.tests[2] == Test::OneOf(second("status"@), seq!["open"@, "in_progress"@]));
    lemma_among2(q.tests[2]->OneOf_1, "open"@, "in_progress"@);
    assert(q.from.joins[0].left == second("id"@) && q.from.joins[0].right == col("issue_id"@));
    if p.len() == 2 && p[0] is Some && p[1] is Some {
        assert(q.from.fits(base, p, 0) <==> base["issues"@].contains(p[1]->0) && cell(p[1]->0, "id"@)
            == cell(p[0]->0, "issue_id"@) && !(cell(p[1]->0, "id"@) is Null));
        assert(q.from.offers(base, p) <==> base["dependencies"@].contains(p[0]->0) && q.from.fits(
            base,
            p,
            0,
        ));
        assert(all_hold(q.tests, p) <==> q.tests[0].holds(p) && q.tests[1].holds(p)
            && q.tests[2].holds(p));
    }
    if q.selects(base, p) {
        assert(q.from.fits(base, p, 0));
        assert(q.row(p) =~= seq![cell(p[0]->0, "issue_id"@)]);
    }
}

/// The query behind `get_dependencies_with_metadata`.
pub open spec fn ask_dependencies_in_full(issue_id: Seq<char>) -> Select {
    Select {
        from: Source {
            table: "dependencies"@,
            alias: "d"@,
            joins: seq![
                Join {
                    kind: JoinKind::Left,
                    table: "issues"@,
                    alias: "i"@,
                    left: col("depends_on_id"@),
                    right: second("id"@),
                }
            ],
        },
        order: seq![
            Key { col: second("priority"@), way: Way::Ascending },
            Key { col: second("created_at"@), way: Way::Descending },
        ],
        ..select(
            Wanted::Columns(
                seq![
                    col("depends_on_id"@),
                    second("title"@),
                    second("status"@),
                    second("priority"@),
                    col("type"@),
                    second("created_at"@),
                ]
            ),
            "dependencies"@,
            seq![Test::Bound(col("issue_id"@), SqlCell::Text(issue_id))],
        )
    }
}

#[verifier::spinoff_prover]
#[verifier::rlimit(40)]
pub(crate) proof fn lemma_ask_dependencies_in_full_text(issue_id: Seq<char>)
    ensures
        ask_dependencies_in_full(issue_id).text()
            == "SELECT d.depends_on_id, i.title, i.status, i.priority, d.type, i.created_at FROM dependencies d LEFT JOIN issues i ON d.depends_on_id = i.id WHERE d.issue_id = ? ORDER BY i.priority ASC, i.created_at DESC"@,
        tests_params(ask_dependencies_in_full(issue_id).tests) == seq![SqlCell::Text(issue_id)],
{
    let q = ask_dependencies_in_full(issue_id);
    let w = q.wanted->Columns_0;
    assert(w[0] == col("depends_on_id"@));
    assert(q.from.column(w[0]) =~= "d.depends_on_id"@) by {
        reveal_strlit("d.depends_on_id");
        reveal_strlit("d");
        reveal_strlit(".");
        reveal_strlit("depends_on_id");
    }
    assert(columns_text(w.take(1), q.from) =~= "d.depends_on_id"@);
    assert(w[1] == second("title"@));
    assert(q.from.column(w[1]) =~= "i.title"@) by {
        reveal_strlit("i.title");
        reveal_strlit("i");
        reveal_strlit(".");
        reveal_strlit("title");
        reveal_strlit("d");
    }
    assert(columns_text(w.take(2), q.from) =~= "d.depends_on_id, i.title"@) by {
        assert(w.take(2).drop_last() =~= w.take(1));
        reveal_strlit("d.depends_on_id, i.title");
        reveal_strlit("d.depends_on_id");
        reveal_strlit(", ");
        reveal_strlit("i.title");
    }
    assert(w[2] == second("status"@));
    assert(q.from.column(w[2]) =~= "i.status"@) by {
        reveal_strlit("i.status");
        reveal_strlit("i");
        reveal_strlit(".");
        reveal_strlit("status");
        reveal_strlit("d");
    }
    assert(columns_text(w.take(3), q.from) =~= "d.depends_on_id, i.title, i.status"@) by {
        assert(w.take(3).drop_last() =~= w.take(2));
        reveal_strlit("d.depends_on_id, i.title, i.status");
        reveal_strlit("d.depends_on_id, i.title");
        reveal_strlit(", ");
        reveal_strlit("i.status");
    }
    assert(w[3] == second("priority"@));
    assert(q.from.column(w[3]) =~= "i.priority"@) by {
        reveal_strlit("i.priority");
        reveal_strlit("i");
        reveal_strlit(".");
        reveal_strlit("priority");
        reveal_strlit("d");
    }
    assert(columns_text(w.take(4), q.from) =~= "d.depends_on_id, i.title, i.status, i.priority"@) by {
        assert(w.take(4).drop_last() =~= w.take(3));
        reveal_strlit("d.depends_on_id, i.title, i.status, i.priority");
        reveal_strlit("d.depends_on_id, i.title, i.status");
        reveal_strlit(", ");
        reveal_strlit("i.priority");
    }
    assert(w[4] == col("type"@));
    assert(q.from.column(w[4]) =~= "d.type"@) by {
        reveal_strlit("d.type");
        reveal_strlit("d");
        reveal_strlit(".");
        reveal_strlit("type");
    }
    assert(
        columns_text(w.take(5), q.from)
            =~= "d.depends_on_id, i.title, i.status, i.priority, d.type"@
    ) by {
        assert(w.take(5).drop_last() =~= w.take(4));
        reveal_strlit("d.depends_on_id, i.title, i.status, i.priority, d.type");
        reveal_strlit("d.depends_on_id, i.title, i.status, i.priority");
        reveal_strlit(", ");
        reveal_strlit("d.type");
    }
    assert(w[5] == second("created_at"@));
    assert(q.from.column(w[5]) =~= "i.created_at"@) by {
        reveal_strlit("i.created_at");
        reveal_strlit("i");
        reveal_strlit(".");
        reveal_strlit("created_at");
        reveal_strlit("d");
    }
    assert(
        columns_text(w.take(6), q.from)
            =~= "d.depends_on_id, i.title, i.status, i.priority, d.type, i.created_at"@
    ) by {
        assert(w.take(6).drop_last() =~= w.take(5));
        reveal_strlit("d.depends_on_id, i.title, i.status, i.priority, d.type, i.created_at");
        reveal_strlit("d.depends_on_id, i.title, i.status, i.priority, d.type");
        reveal_strlit(", ");
        reveal_strlit("i.created_at");
    }
    assert(w.take(6) =~= w);
    assert(q.from.joins_text(0) =~= seq![]);
    let j0 = q.from.joins[0];
    assert(j0.left == col("depends_on_id"@) && j0.right == second("id"@));
    assert(q.from.column(j0.left) =~= "d.depends_on_id"@) by {
        reveal_strlit("d.depends_on_id");
        reveal_strlit("d");
        reveal_strlit(".");
        reveal_strlit("depends_on_id");
    }
    assert(q.from.column(j0.right) =~= "i.id"@) by {
        reveal_strlit("i.id");
        reveal_strlit("i");
        reveal_strlit(".");
        reveal_strlit("id");
        reveal_strlit("d");
    }
    assert(q.from.joins_text(1) =~= " LEFT JOIN issues i ON d.depends_on_id = i.id"@) by {
        reveal_strlit(" LEFT JOIN issues i ON d.depends_on_id = i.id");
        reveal_strlit(" LEFT JOIN ");
        reveal_strlit("issues");
        reveal_strlit(" ");
        reveal_strlit("i");
        reveal_strlit(" ON ");
        reveal_strlit("d.depends_on_id");
        reveal_strlit(" = ");
        reveal_strlit("i.id");
    }
    assert(q.from.text() =~= "dependencies d LEFT JOIN issues i ON d.depends_on_id = i.id"@) by {
        reveal_strlit("dependencies d LEFT JOIN issues i ON d.depends_on_id = i.id");
        reveal_strlit("dependencies");
        reveal_strlit(" ");
        reveal_strlit("d");
        reveal_strlit(" LEFT JOIN issues i ON d.depends_on_id = i.id");
    }
    assert(q.tests[0] == Test::Bound(col("issue_id"@), SqlCell::Text(issue_id)));
    assert(q.from.column(col("issue_id"@)) =~= "d.issue_id"@) by {
        reveal_strlit("d.issue_id");
        reveal_strlit("d");
        reveal_strlit(".");
        reveal_strlit("issue_id");
    }
    assert(q.tests[0].text(q.from) =~= "d.issue_id = ?"@) by {
        reveal_strlit("d.issue_id = ?");
        reveal_strlit("d.issue_id");
        reveal_strlit(" = ?");
    }
    assert(tests_text(q.tests.take(1), q.from) =~= " WHERE d.issue_id = ?"@) by {
        reveal_strlit(" WHERE d.issue_id = ?");
        reveal_strlit(" WHERE ");
        reveal_strlit("d.issue_id = ?");
    }
    assert(q.tests.take(1) =~= q.tests);
    assert(q.order[0].col == second("priority"@) && q.order[0].way is Ascending);
    assert(q.from.column(second("priority"@)) =~= "i.priority"@) by {
        reveal_strlit("i.priority");
        reveal_strlit("i");
        reveal_strlit(".");
        reveal_strlit("priority");
        reveal_strlit("d");
    }
    assert(order_text(q.order.take(1), q.from) =~= " ORDER BY i.priority ASC"@) by {
        reveal_strlit(" ORDER BY i.priority ASC");
        reveal_strlit(" ORDER BY ");
        reveal_strlit("i.priority");
        reveal_strlit(" ASC");
    }
    assert(q.order[1].col == second("created_at"@) && q.order[1].way is Descending);
    assert(q.from.column(second("created_at"@)) =~= "i.created_at"@) by {
        reveal_strlit("i.created_at");
        reveal_strlit("i");
        reveal_strlit(".");
        reveal_strlit("created_at");
        reveal_strlit("d");
    }
    assert(order_text(q.order.take(2), q.from) =~= " ORDER BY i.priority ASC, i.created_at DESC"@) by {
        assert(q.order.take(2).drop_last() =~= q.order.take(1));
        reveal_strlit(" ORDER BY i.priority ASC, i.created_at DESC");
        reveal_strlit(" ORDER BY i.priority ASC");
        reveal_strlit(", ");
        reveal_strlit("i.created_at");
        reveal_strlit(" DESC");
    }
    assert(q.order.take(2) =~= q.order);
    assert(
        q.text()
            =~= "SELECT d.depends_on_id, i.title, i.status, i.priority, d.type, i.created_at FROM dependencies d LEFT JOIN issues i ON d.depends_on_id = i.id WHERE d.issue_id = ? ORDER BY i.priority ASC, i.created_at DESC"@
    ) by {
        reveal_strlit(
            "SELECT d.depends_on_id, i.title, i.status, i.priority, d.type, i.created_at FROM dependencies d LEFT JOIN issues i ON d.depends_on_id = i.id WHERE d.issue_id = ? ORDER BY i.priority ASC, i.created_at DESC"
        );
        reveal_strlit("SELECT ");
        reveal_strlit("d.depends_on_id, i.title, i.status, i.priority, d.type, i.created_at");
        reveal_strlit(" FROM ");
        reveal_strlit("dependencies d LEFT JOIN issues i ON d.depends_on_id = i.id");
        reveal_strlit(" WHERE d.issue_id = ?");
        reveal_strlit(" ORDER BY i.priority ASC, i.created_at DESC");
    }
    reveal_with_fuel(tests_params, 2);
    assert(tests_params(q.tests) =~= seq![SqlCell::Text(issue_id)]);
}

/// The query behind `get_dependents_with_metadata`.
pub open spec fn ask_dependents_in_full(issue_id: Seq<char>) -> Select {
    Select {
        from: Source {
            table: "dependencies"@,
            alias: "d"@,
            joins: seq![
                Join {
                    kind: JoinKind::Left,
                    table: "issues"@,
                    alias: "i"@,
                    left: col("issue_id"@),
                    right: second("id"@),
                }
            ],
        },
        order: seq![
            Key { col: second("priority"@), way: Way::Ascending },
            Key { col: second("created_at"@), way: Way::Descending },
        ],
        ..select(
            Wanted::Columns(
                seq![
                    col("issue_id"@),
                    second("title"@),
                    second("status"@),
                    second("priority"@),
                    col("type"@),
                    second("created_at"@),
                ]
            ),
            "dependencies"@,
            seq![Test::Bound(col("depends_on_id"@), SqlCell::Text(issue_id))],
        )
    }
}

#[verifier::spinoff_prover]
#[verifier::rlimit(40)]
pub(crate) proof fn lemma_ask_dependents_in_full_text(issue_id: Seq<char>)
    ensures
        ask_dependents_in_full(issue_id).text()
            == "SELECT d.issue_id, i.title, i.status, i.priority, d.type, i.created_at FROM dependencies d LEFT JOIN issues i ON d.issue_id = i.id WHERE d.depends_on_id = ? ORDER BY i.priority ASC, i.created_at DESC"@,
        tests_params(ask_dependents_in_full(issue_id).tests) == seq![SqlCell::Text(issue_id)],
{
    let q = ask_dependents_in_full(issue_id);
    let w = q.wanted->Columns_0;
    assert(w[0] == col("issue_id"@));
    assert(q.from.column(w[0]) =~= "d.issue_id"@) by {
        reveal_strlit("d.issue_id");
        reveal_strlit("d");
        reveal_strlit(".");
        reveal_strlit("issue_id");
    }
    assert(columns_text(w.take(1), q.from) =~= "d.issue_id"@);
    assert(w[1] == second("title"@));
    assert(q.from.column(w[1]) =~= "i.title"@) by {
        reveal_strlit("i.title");
        reveal_strlit("i");
        reveal_strlit(".");
        reveal_strlit("title");
        reveal_strlit("d");
    }
    assert(columns_text(w.take(2), q.from) =~= "d.issue_id, i.title"@) by {
        assert(w.take(2).drop_last() =~= w.take(1));
        reveal_strlit("d.issue_id, i.title");
        reveal_strlit("d.issue_id");
        reveal_strlit(", ");
        reveal_strlit("i.title");
    }
    assert(w[2] == second("status"@));
    assert(q.from.column(w[2]) =~= "i.status"@) by {
        reveal_strlit("i.status");
        reveal_strlit("i");
        reveal_strlit(".");
        reveal_strlit("status");
        reveal_strlit("d");
    }
    assert(columns_text(w.take(3), q.from) =~= "d.issue_id, i.title, i.status"@) by {
        assert(w.take(3).drop_last() =~= w.take(2));
        reveal_strlit("d.issue_id, i.title, i.status");
        reveal_strlit("d.issue_id, i.title");
        reveal_strlit(", ");
        reveal_strlit("i.status");
    }
    assert(w[3] == second("priority"@));
    assert(q.from.column(w[3]) =~= "i.priority"@) by {
        reveal_strlit("i.priority");
        reveal_strlit("i");
        reveal_strlit(".");
        reveal_strlit("priority");
        reveal_strlit("d");
    }
    assert(columns_text(w.take(4), q.from) =~= "d.issue_id, i.title, i.status, i.priority"@) by {
        assert(w.take(4).drop_last() =~= w.take(3));
        reveal_strlit("d.issue_id, i.title, i.status, i.priority");
        reveal_strlit("d.issue_id, i.title, i.status");
        reveal_strlit(", ");
        reveal_strlit("i.priority");
    }
    assert(w[4] == col("type"@));
    assert(q.from.column(w[4]) =~= "d.type"@) by {
        reveal_strlit("d.type");
        reveal_strlit("d");
        reveal_strlit(".");
        reveal_strlit("type");
    }
    assert(columns_text(w.take(5), q.from) =~= "d.issue_id, i.title, i.status, i.priority, d.type"@) by {
        assert(w.take(5).drop_last() =~= w.take(4));
        reveal_strlit("d.issue_id, i.title, i.status, i.priority, d.type");
        reveal_strlit("d.issue_id, i.title, i.status, i.priority");
        reveal_strlit(", ");
        reveal_strlit("d.type");
    }
    assert(w[5] == second("created_at"@));
    assert(q.from.column(w[5]) =~= "i.created_at"@) by {
        reveal_strlit("i.created_at");
        reveal_strlit("i");
        reveal_strlit(".");
        reveal_strlit("created_at");
        reveal_strlit("d");
    }
    assert(
        columns_text(w.take(6), q.from)
            =~= "d.issue_id, i.title, i.status, i.priority, d.type, i.created_at"@
    ) by {
        assert(w.take(6).drop_last() =~= w.take(5));
        reveal_strlit("d.issue_id, i.title, i.status, i.priority, d.type, i.created_at");
        reveal_strlit("d.issue_id, i.title, i.status, i.priority, d.type");
        reveal_strlit(", ");
        reveal_strlit("i.created_at");
    }
    assert(w.take(6) =~= w);
    assert(q.from.joins_text(0) =~= seq![]);
    let j0 = q.from.joins[0];
    assert(j0.left == col("issue_id"@) && j0.right == second("id"@));
    assert(q.from.column(j0.left) =~= "d.issue_id"@) by {
        reveal_strlit("d.issue_id");
        reveal_strlit("d");
        reveal_strlit(".");
        reveal_strlit("issue_id");
    }
    assert(q.from.column(j0.right) =~= "i.id"@) by {
        reveal_strlit("i.id");
        reveal_strlit("i");
        reveal_strlit(".");
        reveal_strlit("id");
        reveal_strlit("d");
    }
    assert(q.from.joins_text(1) =~= " LEFT JOIN issues i ON d.issue_id = i.id"@) by {
        reveal_strlit(" LEFT JOIN issues i ON d.issue_id = i.id");
        reveal_strlit(" LEFT JOIN ");
        reveal_strlit("issues");
        reveal_strlit(" ");
        reveal_strlit("i");
        reveal_strlit(" ON ");
        reveal_strlit("d.issue_id");
        reveal_strlit(" = ");
        reveal_strlit("i.id");
    }
    assert(q.from.text() =~= "dependencies d LEFT JOIN issues i ON d.issue_id = i.id"@) by {
        reveal_strlit("dependencies d LEFT JOIN issues i ON d.issue_id = i.id");
        reveal_strlit("dependencies");
        reveal_strlit(" ");
        reveal_strlit("d");
        reveal_strlit(" LEFT JOIN issues i ON d.issue_id = i.id");
    }
    assert(q.tests[0] == Test::Bound(col("depends_on_id"@), SqlCell::Text(issue_id)));
    assert(q.from.column(col("depends_on_id"@)) =~= "d.depends_on_id"@) by {
        reveal_strlit("d.depends_on_id");
        reveal_strlit("d");
        reveal_strlit(".");
        reveal_strlit("depends_on_id");
    }
    assert(q.tests[0].text(q.from) =~= "d.depends_on_id = ?"@) by {
        reveal_strlit("d.depends_on_id = ?");
        reveal_strlit("d.depends_on_id");
        reveal_strlit(" = ?");
    }
    assert(tests_text(q.tests.take(1), q.from) =~= " WHERE d.depends_on_id = ?"@) by {
        reveal_strlit(" WHERE d.depends_on_id = ?");
        reveal_strlit(" WHERE ");
        reveal_strlit("d.depends_on_id = ?");
    }
    assert(q.tests.take(1) =~= q.tests);
    assert(q.order[0].col == second("priority"@) && q.order[0].way is Ascending);
    assert(q.from.column(second("priority"@)) =~= "i.priority"@) by {
        reveal_strlit("i.priority");
        reveal_strlit("i");
        reveal_strlit(".");
        reveal_strlit("priority");
        reveal_strlit("d");
    }
    assert(order_text(q.order.take(1), q.from) =~= " ORDER BY i.priority ASC"@) by {
        reveal_strlit(" ORDER BY i.priority ASC");
        reveal_strlit(" ORDER BY ");
        reveal_strlit("i.priority");
        reveal_strlit(" ASC");
    }
    assert(q.order[1].col == second("created_at"@) && q.order[1].way is Descending);
    assert(q.from.column(second("created_at"@)) =~= "i.created_at"@) by {
        reveal_strlit("i.created_at");
        reveal_strlit("i");
        reveal_strlit(".");
        reveal_strlit("created_at");
        reveal_strlit("d");
    }
    assert(order_text(q.order.take(2), q.from) =~= " ORDER BY i.priority ASC, i.created_at DESC"@) by {
        assert(q.order.take(2).drop_last() =~= q.order.take(1));
        reveal_strlit(" ORDER BY i.priority ASC, i.created_at DESC");
        reveal_strlit(" ORDER BY i.priority ASC");
        reveal_strlit(", ");
        reveal_strlit("i.created_at");
        reveal_strlit(" DESC");
    }
    assert(q.order.take(2) =~= q.order);
    assert(
        q.text()
            =~= "SELECT d.issue_id, i.title, i.status, i.priority, d.type, i.created_at FROM dependencies d LEFT JOIN issues i ON d.issue_id = i.id WHERE d.depends_on_id = ? ORDER BY i.priority ASC, i.created_at DESC"@
    ) by {
        reveal_strlit(
            "SELECT d.issue_id, i.title, i.status, i.priority, d.type, i.created_at FROM dependencies d LEFT JOIN issues i ON d.issue_id = i.id WHERE d.depends_on_id = ? ORDER BY i.priority ASC, i.created_at DESC"
        );
        reveal_strlit("SELECT ");
        reveal_strlit("d.issue_id, i.title, i.status, i.priority, d.type, i.created_at");
        reveal_strlit(" FROM ");
        reveal_strlit("dependencies d LEFT JOIN issues i ON d.issue_id = i.id");
        reveal_strlit(" WHERE d.depends_on_id = ?");
        reveal_strlit(" ORDER BY i.priority ASC, i.created_at DESC");
    }
    reveal_with_fuel(tests_params, 2);
    assert(tests_params(q.tests) =~= seq![SqlCell::Text(issue_id)]);
}

/// The dependencies of an issue come each with the issue depended on, where there is one, the most
/// urgent first and of these the newest; what is read of a row is the ID, title, status and priority
/// of that issue and the type of the dependency.
pub proof fn lemma_dependencies_in_full(
    base: Base,
    d: Record,
    found: Option<Record>,
    issue_id: Seq<char>,
)
    ensures
        ask_dependencies_in_full(issue_id).selects(base, seq![Some(d), found])
            <==> base["dependencies"@].contains(d)
            && cell(d, "issue_id"@) == SqlCell::Text(issue_id) && match found {
            Some(i) => base["issues"@].contains(i)
                && cell(i, "id"@) == cell(d, "depends_on_id"@) && !(cell(
                i,
                "id"@,
            ) is Null),
            None => forall|i: Record| #[trigger]
                base["issues"@].contains(i) ==> cell(i, "id"@) != cell(d, "depends_on_id"@) || cell(
                    i,
                    "id"@,
                ) is Null,
        },
        metadata_of(ask_dependencies_in_full(issue_id).row(seq![Some(d), found])) == (
            IssueWithDependencyMetadataView {
                id: text_in(cell(d, "depends_on_id"@), seq![]),
                title: match found {
                    Some(i) => text_in(cell(i, "title"@), seq![]),
                    None => seq![],
                },
                status: status_of(
                    match found {
                        Some(i) => text_at(seq![cell(i, "status"@)], 0),
                        None => None,
                    },
                ),
                priority: priority_at(
                    match found {
                        Some(i) => seq![cell(i, "priority"@)],
                        None => seq![SqlCell::Null],
                    },
                    0,
                ),
                dep_type: text_in(cell(d, "type"@), "blocks"@),
            }
        ),
        forall|a: Pick, b: Pick| #[trigger]
            in_order(ask_dependencies_in_full(issue_id).order, a, b)
                == (if value(a, second("priority"@)) != value(
                b,
                second("priority"@),
            ) {
                cell_le(value(a, second("priority"@)), value(b, second("priority"@)))
            } else {
                value(a, second("created_at"@)) == value(b, second("created_at"@)) || cell_le(
                    value(b, second("created_at"@)),
                    value(a, second("created_at"@)),
                )
            }),
{
    let q = ask_dependencies_in_full(issue_id);
    let p = seq![Some(d), found];
    assert(q.tests[0] == Test::Bound(col("issue_id"@), SqlCell::Text(issue_id)));
    assert(q.from.joins[0].left == col("depends_on_id"@) && q.from.joins[0].right == second("id"@));
    assert(all_hold(q.tests, p) <==> q.tests[0].holds(p));
    assert(q.from.joins[0].table == "issues"@ && q.from.table == "dependencies"@);
    lemma_outer_join(q.from, base, d, found);
    if found is None {
        assert(q.from.offers(base, p) <==> base["dependencies"@].contains(d) && forall|i: Record| #[trigger]
            base["issues"@].contains(i) ==> cell(i, "id"@) != cell(d, "depends_on_id"@) || cell(
                i,
                "id"@,
            ) is Null);
    }
    let row = q.row(p);
    let w = q.wanted->Columns_0;
    assert(w.len() == 6 && w[0] == col("depends_on_id"@) && w[1] == second("title"@) && w[2] == second(
        "status"@,
    ) && w[3] == second("priority"@) && w[4] == col("type"@));
    assert(metadata_of(row) =~= metadata_of(row));
    reveal_with_fuel(in_order, 3);
}

/// The dependencies on an issue come each with the issue that depends, where there is one, the most
/// urgent first and of these the newest; what is read of a row is the ID, title, status and priority
/// of that issue and the type of the dependency.
pub proof fn lemma_dependents_in_full(
    base: Base,
    d: Record,
    found: Option<Record>,
    issue_id: Seq<char>,
)
    ensures
        ask_dependents_in_full(issue_id).selects(base, seq![Some(d), found])
            <==> base["dependencies"@].contains(d)
            && cell(d, "depends_on_id"@) == SqlCell::Text(issue_id) && match found {
            Some(i) => base["issues"@].contains(i)
                && cell(i, "id"@) == cell(d, "issue_id"@) && !(cell(
                i,
                "id"@,
            ) is Null),
            None => forall|i: Record| #[trigger]
                base["issues"@].contains(i) ==> cell(i, "id"@) != cell(d, "issue_id"@) || cell(
                    i,
                    "id"@,
                ) is Null,
        },
        metadata_of(ask_dependents_in_full(issue_id).row(seq![Some(d), found])) == (
            IssueWithDependencyMetadataView {
                id: text_in(cell(d, "issue_id"@), seq![]),
                title: match found {
                    Some(i) => text_in(cell(i, "title"@), seq![]),
                    None => seq![],
                },
                status: status_of(
                    match found {
                        Some(i) => text_at(seq![cell(i, "status"@)], 0),
                        None => None,
                    },
                ),
                priority: priority_at(
                    match found {
                        Some(i) => seq![cell(i, "priority"@)],
                        None => seq![SqlCell::Null],
                    },
                    0,
                ),
                dep_type: text_in(cell(d, "type"@), "blocks"@),
            }
        ),
        forall|a: Pick, b: Pick| #[trigger]
            in_order(ask_dependents_in_full(issue_id).order, a, b)
                == (if value(a, second("priority"@)) != value(
                b,
                second("priority"@),
            ) {
                cell_le(value(a, second("priority"@)), value(b, second("priority"@)))
            } else {
                value(a, second("created_at"@)) == value(b, second("created_at"@)) || cell_le(
                    value(b, second("created_at"@)),
                    value(a, second("created_at"@)),
                )
            }),
{
    let q = ask_dependents_in_full(issue_id);
    let p = seq![Some(d), found];
    assert(q.tests[0] == Test::Bound(col("depends_on_id"@), SqlCell::Text(issue_id)));
    assert(q.from.joins[0].left == col("issue_id"@) && q.from.joins[0].right == second("id"@));
    assert(all_hold(q.tests, p) <==> q.tests[0].holds(p));
    assert(q.from.joins[0].table == "issues"@ && q.from.table == "dependencies"@);
    lemma_outer_join(q.from, base, d, found);
    if found is None {
        assert(q.from.offers(base, p) <==> base["dependencies"@].contains(d) && forall|i: Record| #[trigger]
            base["issues"@].contains(i) ==> cell(i, "id"@) != cell(d, "issue_id"@) || cell(
                i,
                "id"@,
            ) is Null);
    }
    let row = q.row(p);
    let w = q.wanted->Columns_0;
    assert(w.len() == 6 && w[0] == col("issue_id"@) && w[1] == second("title"@) && w[2] == second(
        "status"@,
    ) && w[3] == second("priority"@) && w[4] == col("type"@));
    assert(metadata_of(row) =~= metadata_of(row));
    reveal_with_fuel(in_order, 3);
}

/// The query behind `get_blocked_by_blocks_deps_only`.
pub open spec fn ask_blocked_by_blocks() -> Select {
    Select {
        from: Source {
            table: "dependencies"@,
            alias: "d"@,
            joins: seq![
                Join {
                    kind: JoinKind::Left,
                    table: "issues"@,
                    alias: "blocker"@,
                    left: col("depends_on_id"@),
                    right: second("id"@),
                },
                Join {
                    kind: JoinKind::Left,
                    table: "issues"@,
                    alias: "blocked"@,
                    left: col("issue_id"@),
                    right: Col { place: 2, name: "id"@ },
                },
            ],
        },
        distinct: true,
        ..select(
            Wanted::Columns(seq![col("issue_id"@)]),
            "dependencies"@,
            seq![
                Test::Is(col("type"@), "blocks"@),
                Test::NoneOf(second("status"@), seq!["closed"@, "tombstone"@]),
                Test::NoneOf(Col { place: 2, name: "status"@ }, seq!["closed"@, "tombstone"@]),
            ],
        )
    }
}

#[verifier::spinoff_prover]
#[verifier::rlimit(40)]
pub(crate) proof fn lemma_ask_blocked_by_blocks_text()
    ensures
        ask_blocked_by_blocks().text()
            == "SELECT DISTINCT d.issue_id FROM dependencies d LEFT JOIN issues blocker ON d.depends_on_id = blocker.id LEFT JOIN issues blocked ON d.issue_id = blocked.id WHERE d.type = 'blocks' AND blocker.status NOT IN ('closed', 'tombstone') AND blocked.status NOT IN ('closed', 'tombstone')"@,
        tests_params(ask_blocked_by_blocks().tests) == Seq::<SqlCell>::empty(),
{
    let q = ask_blocked_by_blocks();
    let w = q.wanted->Columns_0;
    assert(w[0] == col("issue_id"@));
    assert(q.from.column(w[0]) =~= "d.issue_id"@) by {
        reveal_strlit("d.issue_id");
        reveal_strlit("d");
        reveal_strlit(".");
        reveal_strlit("issue_id");
    }
    assert(columns_text(w.take(1), q.from) =~= "d.issue_id"@);
    assert(w.take(1) =~= w);
    assert(q.from.joins_text(0) =~= seq![]);
    let j0 = q.from.joins[0];
    assert(j0.left == col("depends_on_id"@) && j0.right == second("id"@));
    assert(q.from.column(j0.left) =~= "d.depends_on_id"@) by {
        reveal_strlit("d.depends_on_id");
        reveal_strlit("d");
        reveal_strlit(".");
        reveal_strlit("depends_on_id");
    }
    assert(q.from.column(j0.right) =~= "blocker.id"@) by {
        reveal_strlit("blocker.id");
        reveal_strlit("blocker");
        reveal_strlit(".");
        reveal_strlit("id");
        reveal_strlit("d");
    }
    assert(q.from.joins_text(1) =~= " LEFT JOIN issues blocker ON d.depends_on_id = blocker.id"@) by {
        reveal_strlit(" LEFT JOIN issues blocker ON d.depends_on_id = blocker.id");
        reveal_strlit(" LEFT JOIN ");
        reveal_strlit("issues");
        reveal_strlit(" ");
        reveal_strlit("blocker");
        reveal_strlit(" ON ");
        reveal_strlit("d.depends_on_id");
        reveal_strlit(" = ");
        reveal_strlit("blocker.id");
    }
    let j1 = q.from.joins[1];
    assert(j1.left == col("issue_id"@) && j1.right == Col { place: 2, name: "id"@ });
    assert(q.from.column(j1.left) =~= "d.issue_id"@) by {
        reveal_strlit("d.issue_id");
        reveal_strlit("d");
        reveal_strlit(".");
        reveal_strlit("issue_id");
    }
    assert(q.from.column(j1.right) =~= "blocked.id"@) by {
        reveal_strlit("blocked.id");
        reveal_strlit("blocked");
        reveal_strlit(".");
        reveal_strlit("id");
        reveal_strlit("d");
    }
    assert(
        q.from.joins_text(2)
            =~= " LEFT JOIN issues blocker ON d.depends_on_id = blocker.id LEFT JOIN issues blocked ON d.issue_id = blocked.id"@
    ) by {
        reveal_strlit(
            " LEFT JOIN issues blocker ON d.depends_on_id = blocker.id LEFT JOIN issues blocked ON d.issue_id = blocked.id"
        );
        reveal_strlit(" LEFT JOIN issues blocker ON d.depends_on_id = blocker.id");
        reveal_strlit(" LEFT JOIN ");
        reveal_strlit("issues");
        reveal_strlit(" ");
        reveal_strlit("blocked");
        reveal_strlit(" ON ");
        reveal_strlit("d.issue_id");
        reveal_strlit(" = ");
        reveal_strlit("blocked.id");
    }
    assert(
        q.from.text()
            =~= "dependencies d LEFT JOIN issues blocker ON d.depends_on_id = blocker.id LEFT JOIN issues blocked ON d.issue_id = blocked.id"@
    ) by {
        reveal_strlit(
            "dependencies d LEFT JOIN issues blocker ON d.depends_on_id = blocker.id LEFT JOIN issues blocked ON d.issue_id = blocked.id"
        );
        reveal_strlit("dependencies");
        reveal_strlit(" ");
        reveal_strlit("d");
        reveal_strlit(
            " LEFT JOIN issues blocker ON d.depends_on_id = blocker.id LEFT JOIN issues blocked ON d.issue_id = blocked.id"
        );
    }
    assert(q.tests[0] == Test::Is(col("type"@), "blocks"@));
    assert(q.from.column(col("type"@)) =~= "d.type"@) by {
        reveal_strlit("d.type");
        reveal_strlit("d");
        reveal_strlit(".");
        reveal_strlit("type");
    }
    assert(q.tests[0].text(q.from) =~= "d.type = 'blocks'"@) by {
        reveal_strlit("d.type = 'blocks'");
        reveal_strlit("d.type");
        reveal_strlit(" = '");
        reveal_strlit("blocks");
        reveal_strlit("'");
    }
    assert(tests_text(q.tests.take(1), q.from) =~= " WHERE d.type = 'blocks'"@) by {
        reveal_strlit(" WHERE d.type = 'blocks'");
        reveal_strlit(" WHERE ");
        reveal_strlit("d.type = 'blocks'");
    }
    assert(q.tests[1] == Test::NoneOf(second("status"@), seq!["closed"@, "tombstone"@]));
    assert(q.from.column(second("status"@)) =~= "blocker.status"@) by {
        reveal_strlit("blocker.status");
        reveal_strlit("blocker");
        reveal_strlit(".");
        reveal_strlit("status");
        reveal_strlit("d");
    }
    assert(quoted(q.tests[1]->NoneOf_1) =~= "'closed', 'tombstone'"@) by {
        reveal_with_fuel(quoted, 3);
        reveal_strlit("'closed', 'tombstone'");
        reveal_strlit("'");
        reveal_strlit("closed");
        reveal_strlit(", '");
        reveal_strlit("tombstone");
    }
    assert(q.tests[1].text(q.from) =~= "blocker.status NOT IN ('closed', 'tombstone')"@) by {
        reveal_strlit("blocker.status NOT IN ('closed', 'tombstone')");
        reveal_strlit("blocker.status");
        reveal_strlit(" NOT IN (");
        reveal_strlit("'closed', 'tombstone'");
        reveal_strlit(")");
    }
    assert(
        tests_text(q.tests.take(2), q.from)
            =~= " WHERE d.type = 'blocks' AND blocker.status NOT IN ('closed', 'tombstone')"@
    ) by {
        assert(q.tests.take(2).drop_last() =~= q.tests.take(1));
        reveal_strlit(" WHERE d.type = 'blocks' AND blocker.status NOT IN ('closed', 'tombstone')");
        reveal_strlit(" WHERE d.type = 'blocks'");
        reveal_strlit(" AND ");
        reveal_strlit("blocker.status NOT IN ('closed', 'tombstone')");
    }
    assert(
        q.tests[2] == Test::NoneOf(Col { place: 2, name: "status"@ }, seq!["closed"@, "tombstone"@])
    );
    assert(q.from.column(Col { place: 2, name: "status"@ }) =~= "blocked.status"@) by {
        reveal_strlit("blocked.status");
        reveal_strlit("blocked");
        reveal_strlit(".");
        reveal_strlit("status");
        reveal_strlit("d");
    }
    assert(quoted(q.tests[2]->NoneOf_1) =~= "'closed', 'tombstone'"@) by {
        reveal_with_fuel(quoted, 3);
        reveal_strlit("'closed', 'tombstone'");
        reveal_strlit("'");
        reveal_strlit("closed");
        reveal_strlit(", '");
        reveal_strlit("tombstone");
    }
    assert(q.tests[2].text(q.from) =~= "blocked.status NOT IN ('closed', 'tombstone')"@) by {
        reveal_strlit("blocked.status NOT IN ('closed', 'tombstone')");
        reveal_strlit("blocked.status");
        reveal_strlit(" NOT IN (");
        reveal_strlit("'closed', 'tombstone'");
        reveal_strlit(")");
    }
    assert(
        tests_text(q.tests.take(3), q.from)
            =~= " WHERE d.type = 'blocks' AND blocker.status NOT IN ('closed', 'tombstone') AND blocked.status NOT IN ('closed', 'tombstone')"@
    ) by {
        assert(q.tests.take(3).drop_last() =~= q.tests.take(2));
        reveal_strlit(
            " WHERE d.type = 'blocks' AND blocker.status NOT IN ('closed', 'tombstone') AND blocked.status NOT IN ('closed', 'tombstone')"
        );
        reveal_strlit(" WHERE d.type = 'blocks' AND blocker.status NOT IN ('closed', 'tombstone')");
        reveal_strlit(" AND ");
        reveal_strlit("blocked.status NOT IN ('closed', 'tombstone')");
    }
    assert(q.tests.take(3) =~= q.tests);
    assert(
        q.text()
            =~= "SELECT DISTINCT d.issue_id FROM dependencies d LEFT JOIN issues blocker ON d.depends_on_id = blocker.id LEFT JOIN issues blocked ON d.issue_id = blocked.id WHERE d.type = 'blocks' AND blocker.status NOT IN ('closed', 'tombstone') AND blocked.status NOT IN ('closed', 'tombstone')"@
    ) by {
        reveal_strlit(
            "SELECT DISTINCT d.issue_id FROM dependencies d LEFT JOIN issues blocker ON d.depends_on_id = blocker.id LEFT JOIN issues blocked ON d.issue_id = blocked.id WHERE d.type = 'blocks' AND blocker.status NOT IN ('closed', 'tombstone') AND blocked.status NOT IN ('closed', 'tombstone')"
        );
        reveal_strlit("SELECT DISTINCT ");
        reveal_strlit("d.issue_id");
        reveal_strlit(" FROM ");
        reveal_strlit(
            "dependencies d LEFT JOIN issues blocker ON d.depends_on_id = blocker.id LEFT JOIN issues blocked ON d.issue_id = blocked.id"
        );
        reveal_strlit(
            " WHERE d.type = 'blocks' AND blocker.status NOT IN ('closed', 'tombstone') AND blocked.status NOT IN ('closed', 'tombstone')"
        );
    }
    reveal_with_fuel(tests_params, 4);
    assert(tests_params(q.tests) =~= Seq::<SqlCell>::empty());
}

/// The issues blocked by dependencies of the blocking type alone are exactly those that have one on an
/// issue which exists and is neither closed nor deleted, and that are neither closed nor deleted
/// themselves.
pub proof fn lemma_blocked_by_blocks(base: Base, p: Pick)
    ensures
        ask_blocked_by_blocks().selects(base, p) <==> p.len() == 3 && (p[0] matches Some(d)
            && p[1] matches Some(blocker) && p[2] matches Some(blocked)
            && base["dependencies"@].contains(d) && base["issues"@].contains(blocker)
            && base["issues"@].contains(blocked) && cell(d, "type"@) == SqlCell::Text("blocks"@)
            && cell(blocker, "id"@) == cell(d, "depends_on_id"@) && !(cell(blocker, "id"@) is Null)
            && cell(blocked, "id"@) == cell(d, "issue_id"@) && !(cell(blocked, "id"@) is Null)
            && living(cell(blocker, "status"@)) && living(cell(blocked, "status"@))),
        ask_blocked_by_blocks().selects(base, p) ==> ask_blocked_by_blocks().row(p) == seq![
            cell(p[0]->0, "issue_id"@),
        ],
{
    let q = ask_blocked_by_blocks();
    assert(q.tests[0] == Test::Is(col("type"@), "blocks"@));
    assert(q.tests[1] == Test::NoneOf(second("status"@), seq!["closed"@, "tombstone"@]));
    assert(q.tests[2] == Test::NoneOf(
        Col { place: 2, name: "status"@ },
        seq!["closed"@, "tombstone"@],
    ));
    lemma_among2(q.tests[1]->NoneOf_1, "closed"@, "tombstone"@);
    lemma_among2(q.tests[2]->NoneOf_1, "closed"@, "tombstone"@);
    assert(q.from.joins[0].left == col("depends_on_id"@) && q.from.joins[0].right == second("id"@));
    assert(q.from.joins[1].left == col("issue_id"@) && q.from.joins[1].right == Col {
        place: 2,
        name: "id"@,
    });
    if p.len() == 3 {
        assert(q.from.offers(base, p) <==> p[0] is Some && base["dependencies"@].contains(p[0]->0)
            && q.from.fits(base, p, 0) && q.from.fits(base, p, 1));
        assert(all_hold(q.tests, p) <==> q.tests[0].holds(p) && q.tests[1].holds(p)
            && q.tests[2].holds(p));
    }
    if q.selects(base, p) {
        assert(q.row(p) =~= seq![cell(p[0]->0, "issue_id"@)]);
    }
}

/// The status of an issue that is neither closed nor deleted.
pub open spec fn living(status: SqlCell) -> bool {
    !(status is Null) && status != SqlCell::Text("closed"@) && status != SqlCell::Text("tombstone"@)
}

/// The text that a value is, or a text that stands for none.
pub open spec fn text_in(v: SqlCell, default: Seq<char>) -> Seq<char> {
    match v {
        SqlCell::Text(s) => s,
        _ => default,
    }
}

/// The query behind `epic_counts_query`.
pub open spec fn ask_epic_rows() -> Select {
    Select {
        from: Source {
            table: "dependencies"@,
            alias: "d"@,
            joins: seq![
                Join {
                    kind: JoinKind::Plain,
                    table: "issues"@,
                    alias: "i"@,
                    left: col("issue_id"@),
                    right: second("id"@),
                }
            ],
        },
        ..select(
            Wanted::Renamed {
                first: col("depends_on_id"@),
                name: "epic_id"@,
                rest: seq![second("status"@)],
            },
            "dependencies"@,
            seq![Test::Is(col("type"@), "parent-child"@)],
        )
    }
}

#[verifier::spinoff_prover]
#[verifier::rlimit(40)]
pub(crate) proof fn lemma_ask_epic_rows_text()
    ensures
        ask_epic_rows().text()
            == "SELECT d.depends_on_id AS epic_id, i.status FROM dependencies d JOIN issues i ON d.issue_id = i.id WHERE d.type = 'parent-child'"@,
        tests_params(ask_epic_rows().tests) == Seq::<SqlCell>::empty(),
{
    let q = ask_epic_rows();
    assert(q.from.column(col("depends_on_id"@)) =~= "d.depends_on_id"@) by {
        reveal_strlit("d.depends_on_id");
        reveal_strlit("d");
        reveal_strlit(".");
        reveal_strlit("depends_on_id");
    }
    let w = q.wanted->Renamed_rest;
    assert(w[0] == second("status"@));
    assert(q.from.column(w[0]) =~= "i.status"@) by {
        reveal_strlit("i.status");
        reveal_strlit("i");
        reveal_strlit(".");
        reveal_strlit("status");
        reveal_strlit("d");
    }
    assert(columns_text(w.take(1), q.from) =~= "i.status"@);
    assert(w.take(1) =~= w);
    assert(q.from.joins_text(0) =~= seq![]);
    let j0 = q.from.joins[0];
    assert(j0.left == col("issue_id"@) && j0.right == second("id"@));
    assert(q.from.column(j0.left) =~= "d.issue_id"@) by {
        reveal_strlit("d.issue_id");
        reveal_strlit("d");
        reveal_strlit(".");
        reveal_strlit("issue_id");
    }
    assert(q.from.column(j0.right) =~= "i.id"@) by {
        reveal_strlit("i.id");
        reveal_strlit("i");
        reveal_strlit(".");
        reveal_strlit("id");
        reveal_strlit("d");
    }
    assert(q.from.joins_text(1) =~= " JOIN issues i ON d.issue_id = i.id"@) by {
        reveal_strlit(" JOIN issues i ON d.issue_id = i.id");
        reveal_strlit(" JOIN ");
        reveal_strlit("issues");
        reveal_strlit(" ");
        reveal_strlit("i");
        reveal_strlit(" ON ");
        reveal_strlit("d.issue_id");
        reveal_strlit(" = ");
        reveal_strlit("i.id");
    }
    assert(q.from.text() =~= "dependencies d JOIN issues i ON d.issue_id = i.id"@) by {
        reveal_strlit("dependencies d JOIN issues i ON d.issue_id = i.id");
        reveal_strlit("dependencies");
        reveal_strlit(" ");
        reveal_strlit("d");
        reveal_strlit(" JOIN issues i ON d.issue_id = i.id");
    }
    assert(q.tests[0] == Test::Is(col("type"@), "parent-child"@));
    assert(q.from.column(col("type"@)) =~= "d.type"@) by {
        reveal_strlit("d.type");
        reveal_strlit("d");
        reveal_strlit(".");
        reveal_strlit("type");
    }
    assert(q.tests[0].text(q.from) =~= "d.type = 'parent-child'"@) by {
        reveal_strlit("d.type = 'parent-child'");
        reveal_strlit("d.type");
        reveal_strlit(" = '");
        reveal_strlit("parent-child");
        reveal_strlit("'");
    }
    assert(tests_text(q.tests.take(1), q.from) =~= " WHERE d.type = 'parent-child'"@) by {
        reveal_strlit(" WHERE d.type = 'parent-child'");
        reveal_strlit(" WHERE ");
        reveal_strlit("d.type = 'parent-child'");
    }
    assert(q.tests.take(1) =~= q.tests);
    assert(
        q.text()
            =~= "SELECT d.depends_on_id AS epic_id, i.status FROM dependencies d JOIN issues i ON d.issue_id = i.id WHERE d.type = 'parent-child'"@
    ) by {
        reveal_strlit(
            "SELECT d.depends_on_id AS epic_id, i.status FROM dependencies d JOIN issues i ON d.issue_id = i.id WHERE d.type = 'parent-child'"
        );
        reveal_strlit("SELECT ");
        reveal_strlit("d.depends_on_id");
        reveal_strlit(" AS ");
        reveal_strlit("epic_id");
        reveal_strlit(", ");
        reveal_strlit("i.status");
        reveal_strlit(" FROM ");
        reveal_strlit("dependencies d JOIN issues i ON d.issue_id = i.id");
        reveal_strlit(" WHERE d.type = 'parent-child'");
    }
    reveal_with_fuel(tests_params, 2);
    assert(tests_params(q.tests) =~= Seq::<SqlCell>::empty());
}

/// The rows for the counts of children are one for each issue that depends on another as a child: the
/// parent, and the status of the child.
pub proof fn lemma_epic_rows(base: Base, p: Pick)
    ensures
        ask_epic_rows().selects(base, p) <==> p.len() == 2 && (p[0] matches Some(d)
            && p[1] matches Some(i) && base["dependencies"@].contains(d)
            && base["issues"@].contains(i) && cell(i, "id"@) == cell(d, "issue_id"@) && !(cell(
            i,
            "id"@,
        ) is Null) && cell(d, "type"@) == SqlCell::Text("parent-child"@)),
        ask_epic_rows().selects(base, p) ==> ask_epic_rows().row(p) == seq![
            cell(p[0]->0, "depends_on_id"@),
            cell(p[1]->0, "status"@),
        ],
{
    let q = ask_epic_rows();
    assert(q.tests[0] == Test::Is(col("type"@), "parent-child"@));
    assert(q.from.joins[0].left == col("issue_id"@) && q.from.joins[0].right == second("id"@));
    assert(q.from.joins[0].table == "issues"@);
    if p.len() == 2 {
        assert(q.from.offers(base, p) <==> p[0] is Some && base["dependencies"@].contains(p[0]->0)
            && q.from.fits(base, p, 0));
        assert(all_hold(q.tests, p) <==> q.tests[0].holds(p));
    }
    if q.selects(base, p) {
        assert(q.row(p) =~= seq![cell(p[0]->0, "depends_on_id"@), cell(p[1]->0, "status"@)]);
    }
}

/// The query behind `unique_labels_query`.
pub open spec fn ask_label_counts() -> Select {
    Select {
        from: Source {
            table: "labels"@,
            alias: "l"@,
            joins: seq![
                Join {
                    kind: JoinKind::Plain,
                    table: "issues"@,
                    alias: "i"@,
                    left: col("issue_id"@),
                    right: second("id"@),
                }
            ],
        },
        order: seq![Key { col: col("label"@), way: Way::Natural }],
        ..select(
            Wanted::Tally { by: col("label"@), named: true },
            "labels"@,
            seq![Test::IsNot(second("status"@), "tombstone"@)],
        )
    }
}

#[verifier::spinoff_prover]
#[verifier::rlimit(40)]
pub(crate) proof fn lemma_ask_label_counts_text()
    ensures
        ask_label_counts().text()
            == "SELECT l.label, COUNT(*) as count FROM labels l JOIN issues i ON l.issue_id = i.id WHERE i.status != 'tombstone' GROUP BY l.label ORDER BY l.label"@,
        tests_params(ask_label_counts().tests) == Seq::<SqlCell>::empty(),
{
    let q = ask_label_counts();
    assert(q.from.column(col("label"@)) =~= "l.label"@) by {
        reveal_strlit("l.label");
        reveal_strlit("l");
        reveal_strlit(".");
        reveal_strlit("label");
    }
    assert(q.from.joins_text(0) =~= seq![]);
    let j0 = q.from.joins[0];
    assert(j0.left == col("issue_id"@) && j0.right == second("id"@));
    assert(q.from.column(j0.left) =~= "l.issue_id"@) by {
        reveal_strlit("l.issue_id");
        reveal_strlit("l");
        reveal_strlit(".");
        reveal_strlit("issue_id");
    }
    assert(q.from.column(j0.right) =~= "i.id"@) by {
        reveal_strlit("i.id");
        reveal_strlit("i");
        reveal_strlit(".");
        reveal_strlit("id");
        reveal_strlit("l");
    }
    assert(q.from.joins_text(1) =~= " JOIN issues i ON l.issue_id = i.id"@) by {
        reveal_strlit(" JOIN issues i ON l.issue_id = i.id");
        reveal_strlit(" JOIN ");
        reveal_strlit("issues");
        reveal_strlit(" ");
        reveal_strlit("i");
        reveal_strlit(" ON ");
        reveal_strlit("l.issue_id");
        reveal_strlit(" = ");
        reveal_strlit("i.id");
    }
    assert(q.from.text() =~= "labels l JOIN issues i ON l.issue_id = i.id"@) by {
        reveal_strlit("labels l JOIN issues i ON l.issue_id = i.id");
        reveal_strlit("labels");
        reveal_strlit(" ");
        reveal_strlit("l");
        reveal_strlit(" JOIN issues i ON l.issue_id = i.id");
    }
    assert(q.tests[0] == Test::IsNot(second("status"@), "tombstone"@));
    assert(q.from.column(second("status"@)) =~= "i.status"@) by {
        reveal_strlit("i.status");
        reveal_strlit("i");
        reveal_strlit(".");
        reveal_strlit("status");
        reveal_strlit("l");
    }
    assert(q.tests[0].text(q.from) =~= "i.status != 'tombstone'"@) by {
        reveal_strlit("i.status != 'tombstone'");
        reveal_strlit("i.status");
        reveal_strlit(" != '");
        reveal_strlit("tombstone");
        reveal_strlit("'");
    }
    assert(tests_text(q.tests.take(1), q.from) =~= " WHERE i.status != 'tombstone'"@) by {
        reveal_strlit(" WHERE i.status != 'tombstone'");
        reveal_strlit(" WHERE ");
        reveal_strlit("i.status != 'tombstone'");
    }
    assert(q.tests.take(1) =~= q.tests);
    assert(q.order[0].col == col("label"@) && q.order[0].way is Natural);
    assert(q.from.column(col("label"@)) =~= "l.label"@) by {
        reveal_strlit("l.label");
        reveal_strlit("l");
        reveal_strlit(".");
        reveal_strlit("label");
    }
    assert(order_text(q.order.take(1), q.from) =~= " ORDER BY l.label"@) by {
        reveal_strlit(" ORDER BY l.label");
        reveal_strlit(" ORDER BY ");
        reveal_strlit("l.label");
    }
    assert(q.order.take(1) =~= q.order);
    assert(
        q.text()
            =~= "SELECT l.label, COUNT(*) as count FROM labels l JOIN issues i ON l.issue_id = i.id WHERE i.status != 'tombstone' GROUP BY l.label ORDER BY l.label"@
    ) by {
        reveal_strlit(
            "SELECT l.label, COUNT(*) as count FROM labels l JOIN issues i ON l.issue_id = i.id WHERE i.status != 'tombstone' GROUP BY l.label ORDER BY l.label"
        );
        reveal_strlit("SELECT ");
        reveal_strlit("l.label");
        reveal_strlit(", COUNT(*) as count");
        reveal_strlit(" FROM ");
        reveal_strlit("labels l JOIN issues i ON l.issue_id = i.id");
        reveal_strlit(" WHERE i.status != 'tombstone'");
        reveal_strlit(" GROUP BY ");
        reveal_strlit(" ORDER BY l.label");
    }
    reveal_with_fuel(tests_params, 2);
    assert(tests_params(q.tests) =~= Seq::<SqlCell>::empty());
}

/// A label is counted once for each issue that carries it and is not deleted.
pub proof fn lemma_label_counts(base: Base, label: Seq<char>)
    ensures
        ask_label_counts().wanted is Tally,
        ask_label_counts().tally_pairs(base, ask_label_counts().wanted->by, SqlCell::Text(label))
            == Set::new(
            |at: (int, int)|
                {
                    let l = base["labels"@][at.0];
                    let i = base["issues"@][at.1];
                    0 <= at.0 < base["labels"@].len() && 0 <= at.1 < base["issues"@].len() && cell(
                        l,
                        "label"@,
                    ) == SqlCell::Text(label) && cell(l, "issue_id"@) == cell(i, "id"@) && !(cell(
                        i,
                        "id"@,
                    ) is Null) && !(cell(i, "status"@) is Null) && cell(i, "status"@)
                        != SqlCell::Text("tombstone"@)
                },
        ).len(),
        forall|a: Pick, b: Pick| #[trigger]
            in_order(ask_label_counts().order, a, b) == (value(a, col("label"@)) == value(
                b,
                col("label"@),
            ) || cell_le(value(a, col("label"@)), value(b, col("label"@)))),
{
    let q = ask_label_counts();
    let v = SqlCell::Text(label);
    let labels = base["labels"@];
    let issues = base["issues"@];
    assert(q.tests[0] == Test::IsNot(second("status"@), "tombstone"@));
    assert(q.from.joins[0].left == col("issue_id"@) && q.from.joins[0].right == second("id"@));
    assert(q.from.joins[0].table == "issues"@);
    let counted = Set::new(
        |at: (int, int)|
            {
                let p = seq![Some(labels[at.0]), Some(issues[at.1])];
                0 <= at.0 < labels.len() && 0 <= at.1 < issues.len() && q.selects(base, p) && value(
                    p,
                    col("label"@),
                ) == v
            },
    );
    let meant = Set::new(
        |at: (int, int)|
            {
                let l = labels[at.0];
                let i = issues[at.1];
                0 <= at.0 < labels.len() && 0 <= at.1 < issues.len() && cell(l, "label"@)
                    == SqlCell::Text(label) && cell(l, "issue_id"@) == cell(i, "id"@) && !(cell(
                    i,
                    "id"@,
                ) is Null) && !(cell(i, "status"@) is Null) && cell(i, "status"@) != SqlCell::Text(
                    "tombstone"@,
                )
            },
    );
    assert forall|at: (int, int)| counted.contains(at) == meant.contains(at) by {
        if 0 <= at.0 < labels.len() && 0 <= at.1 < issues.len() {
            let p = seq![Some(labels[at.0]), Some(issues[at.1])];
            assert(labels.contains(labels[at.0]) && issues.contains(issues[at.1]));
            assert(q.from.offers(base, p) <==> q.from.fits(base, p, 0));
            assert(all_hold(q.tests, p) <==> q.tests[0].holds(p));
        }
    }
    assert(counted =~= meant);
    reveal_with_fuel(in_order, 2);
}

/// The query behind `affected_by`.
pub open spec fn ask_affected(issue_id: Seq<char>) -> Union {
    Union {
        one: Select {
            distinct: true,
            ..select(
                cols(seq!["issue_id"@]),
                "dependencies"@,
                seq![Test::Bound(col("depends_on_id"@), SqlCell::Text(issue_id))],
            )
        },
        other: Select {
            distinct: true,
            ..select(
                cols(seq!["depends_on_id"@]),
                "dependencies"@,
                seq![Test::Bound(col("issue_id"@), SqlCell::Text(issue_id))],
            )
        },
    }
}

#[verifier::spinoff_prover]
pub(crate) proof fn lemma_ask_affected_text(issue_id: Seq<char>)
    ensures
        ask_affected(issue_id).is(
            stmt(
                "SELECT DISTINCT issue_id FROM dependencies WHERE depends_on_id = ? UNION SELECT DISTINCT depends_on_id FROM dependencies WHERE issue_id = ?"@,
                seq![SqlCell::Text(issue_id), SqlCell::Text(issue_id)],
            ),
        ),
{
    let u = ask_affected(issue_id);
    reveal_with_fuel(columns_text, 2);
    reveal_with_fuel(tests_text, 2);
    reveal_with_fuel(tests_params, 2);
    assert(u.one.text() =~= "SELECT DISTINCT issue_id FROM dependencies WHERE depends_on_id = ?"@) by {
        reveal_strlit("SELECT DISTINCT issue_id FROM dependencies WHERE depends_on_id = ?");
        reveal_strlit("SELECT DISTINCT ");
        reveal_strlit("issue_id");
        reveal_strlit(" FROM ");
        reveal_strlit("dependencies");
        reveal_strlit(" WHERE ");
        reveal_strlit("depends_on_id");
        reveal_strlit(" = ?");
    }
    assert(u.other.text() =~= "SELECT DISTINCT depends_on_id FROM dependencies WHERE issue_id = ?"@) by {
        reveal_strlit("SELECT DISTINCT depends_on_id FROM dependencies WHERE issue_id = ?");
        reveal_strlit("SELECT DISTINCT ");
        reveal_strlit("issue_id");
        reveal_strlit(" FROM ");
        reveal_strlit("dependencies");
        reveal_strlit(" WHERE ");
        reveal_strlit("depends_on_id");
        reveal_strlit(" = ?");
    }
    assert("SELECT DISTINCT issue_id FROM dependencies WHERE depends_on_id = ? UNION SELECT DISTINCT depends_on_id FROM dependencies WHERE issue_id = ?"@
        =~= "SELECT DISTINCT issue_id FROM dependencies WHERE depends_on_id = ?"@ + " UNION "@
        + "SELECT DISTINCT depends_on_id FROM dependencies WHERE issue_id = ?"@) by {
        reveal_strlit(
            "SELECT DISTINCT issue_id FROM dependencies WHERE depends_on_id = ? UNION SELECT DISTINCT depends_on_id FROM dependencies WHERE issue_id = ?",
        );
        reveal_strlit("SELECT DISTINCT issue_id FROM dependencies WHERE depends_on_id = ?");
        reveal_strlit(" UNION ");
        reveal_strlit("SELECT DISTINCT depends_on_id FROM dependencies WHERE issue_id = ?");
    }
    assert(tests_params(u.one.tests) + tests_params(u.other.tests) =~= seq![
        SqlCell::Text(issue_id),
        SqlCell::Text(issue_id),
    ]);
}

/// The issues that a removal of all dependencies affects are those that depend on the issue and
/// those that it depends on.
pub proof fn lemma_affected(base: Base, r: Record, issue_id: Seq<char>)
    ensures
        ask_affected(issue_id).one.selects(base, seq![Some(r)])
            <==> base["dependencies"@].contains(r)
            && cell(r, "depends_on_id"@) == SqlCell::Text(issue_id),
        ask_affected(issue_id).one.row(seq![Some(r)]) == seq![cell(r, "issue_id"@)],
        ask_affected(issue_id).other.selects(base, seq![Some(r)])
            <==> base["dependencies"@].contains(r) && cell(r, "issue_id"@) == SqlCell::Text(
            issue_id,
        ),
        ask_affected(issue_id).other.row(seq![Some(r)]) == seq![cell(r, "depends_on_id"@)],
{
    let u = ask_affected(issue_id);
    assert(u.one.tests[0] == Test::Bound(col("depends_on_id"@), SqlCell::Text(issue_id)));
    assert(u.other.tests[0] == Test::Bound(col("issue_id"@), SqlCell::Text(issue_id)));
    lemma_over_one(u.one, base, seq![Some(r)]);
    lemma_over_one(u.other, base, seq![Some(r)]);
    assert(u.one.row(seq![Some(r)]) =~= seq![cell(r, "issue_id"@)]);
    assert(u.other.row(seq![Some(r)]) =~= seq![cell(r, "depends_on_id"@)]);
}

/// The query behind `get_labels_for_issues`, for one run of issues.
pub open spec fn ask_labels_of_all(ids: Seq<Seq<char>>) -> Select {
    Select {
        order: seq![
            Key { col: col("issue_id"@), way: Way::Natural },
            Key { col: col("label"@), way: Way::Natural },
        ],
        ..select(
            cols(seq!["issue_id"@, "label"@]),
            "labels"@,
            seq![Test::Among(col("issue_id"@), ids)],
        )
    }
}

/// The query behind `count_dependencies_for_issues`, for one run of issues.
pub open spec fn ask_dependency_counts(ids: Seq<Seq<char>>) -> Select {
    select(
        Wanted::Tally { by: col("issue_id"@), named: false },
        "dependencies"@,
        seq![Test::Among(col("issue_id"@), ids)],
    )
}

/// The query behind `count_dependents_for_issues`, for one run of issues.
pub open spec fn ask_dependent_counts(ids: Seq<Seq<char>>) -> Select {
    select(
        Wanted::Tally { by: col("depends_on_id"@), named: false },
        "dependencies"@,
        seq![Test::Among(col("depends_on_id"@), ids)],
    )
}

#[verifier::spinoff_prover]
pub(crate) proof fn lemma_labels_of_all_text(ids: Seq<Seq<char>>)
    ensures
        ask_labels_of_all(ids).is(
            list_statement(
                "SELECT issue_id, label FROM labels WHERE issue_id IN ("@,
                ids,
                ","@,
                ") ORDER BY issue_id, label"@,
            ),
        ),
{
    let q = ask_labels_of_all(ids);
    let open = "SELECT issue_id, label FROM labels WHERE issue_id IN ("@;
    let close = ") ORDER BY issue_id, label"@;
    let middle = rendered(listed(text_cells(ids), ","@));
    lemma_list_statement(open, ids, close);
    reveal_with_fuel(columns_text, 3);
    reveal_with_fuel(tests_text, 2);
    reveal_with_fuel(tests_params, 2);
    reveal_with_fuel(order_text, 3);
    let head = "SELECT "@ + ("issue_id"@ + ", "@ + "label"@) + " FROM "@ + "labels"@ + (" WHERE "@
        + ("issue_id"@ + " IN ("@));
    let tail = ")"@ + (" ORDER BY "@ + "issue_id"@ + ", "@ + "label"@);
    assert(open =~= head) by {
        reveal_strlit("SELECT issue_id, label FROM labels WHERE issue_id IN (");
        reveal_strlit("SELECT ");
        reveal_strlit("issue_id");
        reveal_strlit(", ");
        reveal_strlit("label");
        reveal_strlit(" FROM ");
        reveal_strlit("labels");
        reveal_strlit(" WHERE ");
        reveal_strlit(" IN (");
    }
    assert(close =~= tail) by {
        reveal_strlit(") ORDER BY issue_id, label");
        reveal_strlit(")");
        reveal_strlit(" ORDER BY ");
        reveal_strlit("issue_id");
        reveal_strlit(", ");
        reveal_strlit("label");
    }
    assert(columns_text(q.wanted->Columns_0, q.from) =~= "issue_id"@ + ", "@ + "label"@);
    assert(tests_text(q.tests, q.from) =~= " WHERE "@ + ("issue_id"@ + " IN ("@) + middle + ")"@);
    assert(order_text(q.order, q.from) =~= " ORDER BY "@ + "issue_id"@ + ", "@ + "label"@);
    assert(q.text() =~= head + middle + tail);
    assert(tests_params(q.tests) =~= text_cells(ids));
}

#[verifier::spinoff_prover]
pub(crate) proof fn lemma_dependency_counts_text(ids: Seq<Seq<char>>)
    ensures
        ask_dependency_counts(ids).is(
            list_statement(
                "SELECT issue_id, COUNT(*) FROM dependencies WHERE issue_id IN ("@,
                ids,
                ","@,
                ") GROUP BY issue_id"@,
            ),
        ),
{
    let q = ask_dependency_counts(ids);
    let open = "SELECT issue_id, COUNT(*) FROM dependencies WHERE issue_id IN ("@;
    let close = ") GROUP BY issue_id"@;
    let middle = rendered(listed(text_cells(ids), ","@));
    lemma_list_statement(open, ids, close);
    reveal_with_fuel(tests_text, 2);
    reveal_with_fuel(tests_params, 2);
    let head = "SELECT "@ + ("issue_id"@ + ", COUNT(*)"@) + " FROM "@ + "dependencies"@
        + (" WHERE "@ + ("issue_id"@ + " IN ("@));
    let tail = ")"@ + (" GROUP BY "@ + "issue_id"@);
    assert(open =~= head) by {
        reveal_strlit("SELECT issue_id, COUNT(*) FROM dependencies WHERE issue_id IN (");
        reveal_strlit("SELECT ");
        reveal_strlit("issue_id");
        reveal_strlit(", COUNT(*)");
        reveal_strlit(" FROM ");
        reveal_strlit("dependencies");
        reveal_strlit(" WHERE ");
        reveal_strlit(" IN (");
    }
    assert(close =~= tail) by {
        reveal_strlit(") GROUP BY issue_id");
        reveal_strlit(")");
        reveal_strlit(" GROUP BY ");
        reveal_strlit("issue_id");
    }
    assert(tests_text(q.tests, q.from) =~= " WHERE "@ + ("issue_id"@ + " IN ("@) + middle + ")"@);
    assert(q.text() =~= head + middle + tail);
    assert(tests_params(q.tests) =~= text_cells(ids));
}

#[verifier::spinoff_prover]
pub(crate) proof fn lemma_dependent_counts_text(ids: Seq<Seq<char>>)
    ensures
        ask_dependent_counts(ids).is(
            list_statement(
                "SELECT depends_on_id, COUNT(*) FROM dependencies WHERE depends_on_id IN ("@,
                ids,
                ","@,
                ") GROUP BY depends_on_id"@,
            ),
        ),
{
    let q = ask_dependent_counts(ids);
    let open = "SELECT depends_on_id, COUNT(*) FROM dependencies WHERE depends_on_id IN ("@;
    let close = ") GROUP BY depends_on_id"@;
    let middle = rendered(listed(text_cells(ids), ","@));
    lemma_list_statement(open, ids, close);
    reveal_with_fuel(tests_text, 2);
    reveal_with_fuel(tests_params, 2);
    let head = "SELECT "@ + ("depends_on_id"@ + ", COUNT(*)"@) + " FROM "@ + "dependencies"@
        + (" WHERE "@ + ("depends_on_id"@ + " IN ("@));
    let tail = ")"@ + (" GROUP BY "@ + "depends_on_id"@);
    assert(open =~= head) by {
        reveal_strlit("SELECT depends_on_id, COUNT(*) FROM dependencies WHERE depends_on_id IN (");
        reveal_strlit("SELECT ");
        reveal_strlit("depends_on_id");
        reveal_strlit(", COUNT(*)");
        reveal_strlit(" FROM ");
        reveal_strlit("dependencies");
        reveal_strlit(" WHERE ");
        reveal_strlit(" IN (");
    }
    assert(close =~= tail) by {
        reveal_strlit(") GROUP BY depends_on_id");
        reveal_strlit(")");
        reveal_strlit(" GROUP BY ");
        reveal_strlit("depends_on_id");
    }
    assert(tests_text(q.tests, q.from) =~= " WHERE "@ + ("depends_on_id"@ + " IN ("@) + middle
        + ")"@);
    assert(q.text() =~= head + middle + tail);
    assert(tests_params(q.tests) =~= text_cells(ids));
}

/// The query for the labels of some issues gives exactly the labels of these, issue by issue, in
/// order.
pub proof fn lemma_labels_of_all(base: Base, r: Record, ids: Seq<Seq<char>>)
    ensures
        ask_labels_of_all(ids).is(
            list_statement(
                "SELECT issue_id, label FROM labels WHERE issue_id IN ("@,
                ids,
                ","@,
                ") ORDER BY issue_id, label"@,
            ),
        ),
        ask_labels_of_all(ids).selects(base, seq![Some(r)])
            <==> base["labels"@].contains(r) && exists|
            k: int,
        |
            0 <= k < ids.len() && cell(r, "issue_id"@) == SqlCell::Text(#[trigger] ids[k]),
        ask_labels_of_all(ids).row(seq![Some(r)]) == seq![cell(r, "issue_id"@), cell(r, "label"@)],
        forall|a: Pick, b: Pick| #[trigger]
            in_order(ask_labels_of_all(ids).order, a, b) == (if value(a, col("issue_id"@)) != value(
                b,
                col("issue_id"@),
            ) {
                cell_le(value(a, col("issue_id"@)), value(b, col("issue_id"@)))
            } else {
                value(a, col("label"@)) == value(b, col("label"@)) || cell_le(
                    value(a, col("label"@)),
                    value(b, col("label"@)),
                )
            }),
{
    let q = ask_labels_of_all(ids);
    lemma_labels_of_all_text(ids);
    assert(q.tests[0] == Test::Among(col("issue_id"@), ids));
    lemma_over_one(q, base, seq![Some(r)]);
    assert(q.row(seq![Some(r)]) =~= seq![cell(r, "issue_id"@), cell(r, "label"@)]);
    reveal_with_fuel(in_order, 3);
}

/// The counts for some issues are, for each of them, the number of its dependencies or of the
/// dependencies on it.
pub proof fn lemma_counts_of_all(base: Base, id: Seq<char>, ids: Seq<Seq<char>>)
    requires
        ids.contains(id),
    ensures
        ask_dependency_counts(ids).is(
            list_statement(
                "SELECT issue_id, COUNT(*) FROM dependencies WHERE issue_id IN ("@,
                ids,
                ","@,
                ") GROUP BY issue_id"@,
            ),
        ),
        ask_dependency_counts(ids).wanted is Tally,
        ask_dependency_counts(ids).tally(
            base,
            ask_dependency_counts(ids).wanted->by,
            SqlCell::Text(id),
        ) == base["dependencies"@].filter(
            |r: Record| cell(r, "issue_id"@) == SqlCell::Text(id),
        ).len(),
        ask_dependent_counts(ids).is(
            list_statement(
                "SELECT depends_on_id, COUNT(*) FROM dependencies WHERE depends_on_id IN ("@,
                ids,
                ","@,
                ") GROUP BY depends_on_id"@,
            ),
        ),
        ask_dependent_counts(ids).wanted is Tally,
        ask_dependent_counts(ids).tally(
            base,
            ask_dependent_counts(ids).wanted->by,
            SqlCell::Text(id),
        ) == base["dependencies"@].filter(
            |r: Record| cell(r, "depends_on_id"@) == SqlCell::Text(id),
        ).len(),
{
    lemma_dependency_counts_text(ids);
    lemma_dependent_counts_text(ids);
    let a = ask_dependency_counts(ids);
    let b = ask_dependent_counts(ids);
    assert(a.tests[0] == Test::Among(col("issue_id"@), ids));
    assert(b.tests[0] == Test::Among(col("depends_on_id"@), ids));
    assert((|r: Record|
        all_hold(a.tests, seq![Some(r)]) && value(seq![Some(r)], col("issue_id"@)) == SqlCell::Text(
            id,
        )) =~= (|r: Record| cell(r, "issue_id"@) == SqlCell::Text(id)));
    assert((|r: Record|
        all_hold(b.tests, seq![Some(r)]) && value(seq![Some(r)], col("depends_on_id"@))
            == SqlCell::Text(id)) =~= (|r: Record| cell(r, "depends_on_id"@) == SqlCell::Text(id)));
}

/// A query for the records with one of some keys that are not marked as gone and for which another
/// table has no record with that key, or one with another value.
pub struct Outdated {
    pub table: Seq<char>,
    pub key: Seq<char>,
    /// The column that holds something where the record is gone.
    pub gone: Seq<char>,
    /// The column that is compared.
    pub value: Seq<char>,
    /// The other table, its key and what the value is compared with.
    pub other: Seq<char>,
    pub other_key: Seq<char>,
    pub other_value: Seq<char>,
    pub keys: Seq<Seq<char>>,
}

impl Outdated {
    /// The text before the list of keys.
    pub open spec fn open(self) -> Seq<char> {
        "SELECT i."@ + self.key + " FROM "@ + self.table + " i WHERE i."@ + self.key + " IN ("@
    }

    /// The text behind the list of keys.
    pub open spec fn close(self) -> Seq<char> {
        (") AND i."@ + self.gone + " IS NULL AND (NOT EXISTS (SELECT 1 FROM "@ + self.other
            + " e WHERE e."@ + self.other_key + " = i."@ + self.key + ")"@) + (" OR i."@ + self.value
            + " != (SELECT e."@ + self.other_value + " FROM "@ + self.other + " e WHERE e."@
            + self.other_key + " = i."@ + self.key + ")) ORDER BY i."@ + self.key)
    }

    /// The statement asks this query.
    pub open spec fn is(self, s: StatementView) -> bool {
        &&& s.sql == self.open() + rendered(listed(text_cells(self.keys), ","@)) + self.close()
        &&& s.params == text_cells(self.keys)
    }

    /// The records of the other table with the key of a record.
    pub open spec fn partner(self, base: Base, r: Record, e: Record) -> bool {
        base[self.other].contains(e) && cell(e, self.other_key) == cell(r, self.key) && !(cell(
            r,
            self.key,
        ) is Null)
    }

    /// The query selects the record.
    pub open spec fn selects(self, base: Base, r: Record) -> bool {
        &&& base[self.table].contains(r)
        &&& cell(r, self.key) matches SqlCell::Text(t) && self.keys.contains(t)
        &&& cell(r, self.gone) is Null
        &&& {
            ||| forall|e: Record| !#[trigger] self.partner(base, r, e)
            ||| exists|e: Record| #[trigger]
                self.partner(base, r, e) && cell(r, self.value) != cell(e, self.other_value) && !(
                cell(r, self.value) is Null) && !(cell(e, self.other_value) is Null)
        }
    }
}

/// The query behind `export_queries`, for one run of issues.
pub open spec fn ask_outdated(ids: Seq<Seq<char>>) -> Outdated {
    Outdated {
        table: "issues"@,
        key: "id"@,
        gone: "deleted_at"@,
        value: "content_hash"@,
        other: "export_hashes"@,
        other_key: "issue_id"@,
        other_value: "content_hash"@,
        keys: ids,
    }
}

#[verifier::spinoff_prover]
#[verifier::rlimit(40)]
pub(crate) proof fn lemma_ask_outdated_text(ids: Seq<Seq<char>>)
    ensures
        ask_outdated(ids).is(
            list_statement(
                "SELECT i.id FROM issues i WHERE i.id IN ("@,
                ids,
                ","@,
                ") AND i.deleted_at IS NULL AND (NOT EXISTS (SELECT 1 FROM export_hashes e WHERE e.issue_id = i.id) OR i.content_hash != (SELECT e.content_hash FROM export_hashes e WHERE e.issue_id = i.id)) ORDER BY i.id"@,
            ),
        ),
{
    let q = ask_outdated(ids);
    lemma_list_statement(
        "SELECT i.id FROM issues i WHERE i.id IN ("@,
        ids,
        ") AND i.deleted_at IS NULL AND (NOT EXISTS (SELECT 1 FROM export_hashes e WHERE e.issue_id = i.id) OR i.content_hash != (SELECT e.content_hash FROM export_hashes e WHERE e.issue_id = i.id)) ORDER BY i.id"@,
    );
    assert("SELECT i.id FROM issues i WHERE i.id IN ("@ =~= q.open()) by {
        reveal_strlit("SELECT i.id FROM issues i WHERE i.id IN (");
        reveal_strlit("SELECT i.");
        reveal_strlit("id");
        reveal_strlit(" FROM ");
        reveal_strlit("issues");
        reveal_strlit(" i WHERE i.");
        reveal_strlit(" IN (");
    }
    assert(") AND i.deleted_at IS NULL AND (NOT EXISTS (SELECT 1 FROM export_hashes e WHERE e.issue_id = i.id)"@
        =~= ") AND i."@ + q.gone + " IS NULL AND (NOT EXISTS (SELECT 1 FROM "@ + q.other
        + " e WHERE e."@ + q.other_key + " = i."@ + q.key + ")"@) by {
        reveal_strlit(") AND i.deleted_at IS NULL AND (NOT EXISTS (SELECT 1 FROM export_hashes e WHERE e.issue_id = i.id)");
        reveal_strlit(") AND i.");
        reveal_strlit("deleted_at");
        reveal_strlit(" IS NULL AND (NOT EXISTS (SELECT 1 FROM ");
        reveal_strlit("export_hashes");
        reveal_strlit(" e WHERE e.");
        reveal_strlit("issue_id");
        reveal_strlit(" = i.");
        reveal_strlit("id");
        reveal_strlit(")");
    }
    assert(" OR i.content_hash != (SELECT e.content_hash FROM export_hashes e WHERE e.issue_id = i.id)) ORDER BY i.id"@
        =~= " OR i."@ + q.value + " != (SELECT e."@ + q.other_value + " FROM "@ + q.other
        + " e WHERE e."@ + q.other_key + " = i."@ + q.key + ")) ORDER BY i."@ + q.key) by {
        reveal_strlit(" OR i.content_hash != (SELECT e.content_hash FROM export_hashes e WHERE e.issue_id = i.id)) ORDER BY i.id");
        reveal_strlit(" OR i.");
        reveal_strlit("content_hash");
        reveal_strlit(" != (SELECT e.");
        reveal_strlit(" FROM ");
        reveal_strlit("export_hashes");
        reveal_strlit(" e WHERE e.");
        reveal_strlit("issue_id");
        reveal_strlit(" = i.");
        reveal_strlit("id");
        reveal_strlit(")) ORDER BY i.");
    }
    assert(") AND i.deleted_at IS NULL AND (NOT EXISTS (SELECT 1 FROM export_hashes e WHERE e.issue_id = i.id) OR i.content_hash != (SELECT e.content_hash FROM export_hashes e WHERE e.issue_id = i.id)) ORDER BY i.id"@
        =~= ") AND i.deleted_at IS NULL AND (NOT EXISTS (SELECT 1 FROM export_hashes e WHERE e.issue_id = i.id)"@
        + " OR i.content_hash != (SELECT e.content_hash FROM export_hashes e WHERE e.issue_id = i.id)) ORDER BY i.id"@) by {
        reveal_strlit(") AND i.deleted_at IS NULL AND (NOT EXISTS (SELECT 1 FROM export_hashes e WHERE e.issue_id = i.id) OR i.content_hash != (SELECT e.content_hash FROM export_hashes e WHERE e.issue_id = i.id)) ORDER BY i.id");
        reveal_strlit(") AND i.deleted_at IS NULL AND (NOT EXISTS (SELECT 1 FROM export_hashes e WHERE e.issue_id = i.id)");
        reveal_strlit(" OR i.content_hash != (SELECT e.content_hash FROM export_hashes e WHERE e.issue_id = i.id)) ORDER BY i.id");
    }
}

/// Of the issues given, those that need to be exported are the ones that are not deleted and have no
/// export hash, or another one than their content has now.
pub proof fn lemma_outdated(base: Base, r: Record, ids: Seq<Seq<char>>)
    ensures
        ask_outdated(ids).selects(base, r) <==> {
            &&& base["issues"@].contains(r)
            &&& exists|k: int|
                0 <= k < ids.len() && cell(r, "id"@) == SqlCell::Text(#[trigger] ids[k])
            &&& cell(r, "deleted_at"@) is Null
            &&& {
                ||| forall|e: Record|
                    #[trigger] base["export_hashes"@].contains(e) ==> cell(e, "issue_id"@) != cell(
                        r,
                        "id"@,
                    )
                ||| exists|e: Record| #[trigger]
                    base["export_hashes"@].contains(e) && cell(e, "issue_id"@) == cell(r, "id"@)
                        && cell(e, "content_hash"@) != cell(r, "content_hash"@) && !(cell(
                        e,
                        "content_hash"@,
                    ) is Null) && !(cell(r, "content_hash"@) is Null)
            }
        },
{
    let q = ask_outdated(ids);
    if cell(r, "id"@) is Text {
        let none = forall|e: Record| !#[trigger] q.partner(base, r, e);
        let bare = forall|e: Record|
            #[trigger] base["export_hashes"@].contains(e) ==> cell(e, "issue_id"@) != cell(
                r,
                "id"@,
            );
        if none {
            assert forall|e: Record| #[trigger] base["export_hashes"@].contains(e) implies cell(
                e,
                "issue_id"@,
            ) != cell(r, "id"@) by {
                assert(!q.partner(base, r, e));
            }
        }
        assert(none == bare);
        if exists|e: Record| #[trigger]
            base["export_hashes"@].contains(e) && cell(e, "issue_id"@) == cell(r, "id"@) && cell(
                e,
                "content_hash"@,
            ) != cell(r, "content_hash"@) && !(cell(e, "content_hash"@) is Null) && !(cell(
                r,
                "content_hash"@,
            ) is Null) {
            let e = choose|e: Record| #[trigger]
                base["export_hashes"@].contains(e) && cell(e, "issue_id"@) == cell(r, "id"@)
                    && cell(e, "content_hash"@) != cell(r, "content_hash"@) && !(cell(
                    e,
                    "content_hash"@,
                ) is Null) && !(cell(r, "content_hash"@) is Null);
            assert(q.partner(base, r, e));
        }
    }
}

} // verus!
