//! What the query for a way along dependencies finds: it gives a row exactly where one issue can be
//! reached from another.

use vstd::prelude::*;

verus! {

use crate::issues::{cycle_sql, cycle_statement};
use crate::model::DependencyTypeView;
use crate::sql::{SqlCell, StatementView};
use crate::tables::{cell, quoted, Base, Record};

/// A query that collects values step by step: the first ones from the records that hold the value
/// bound first, further ones from the records that hold a value collected already. It gives a row
/// where the value bound second is among them.
pub struct Closure {
    pub table: Seq<char>,
    /// The column that the first values are taken from, and the one that is compared for them.
    pub first: (Seq<char>, Seq<char>),
    /// The same for each further step.
    pub step: (Seq<char>, Seq<char>),
    /// The types that a record may have, `None` for any.
    pub types: Option<Seq<Seq<char>>>,
}

impl Closure {
    /// The condition on the type in the text of the query.
    pub open spec fn filter(self) -> Seq<char> {
        match self.types {
            Some(list) => "AND type IN ("@ + quoted(list) + ")"@,
            None => seq![],
        }
    }

    /// The text of the query.
    pub open spec fn text(self) -> Seq<char> {
        "WITH RECURSIVE transitive_deps(id) AS (SELECT "@ + self.first.0 + " FROM "@ + self.table
            + " WHERE "@ + self.first.1 + " = ?1 "@ + self.filter() + " UNION SELECT d."@
            + self.step.0 + " FROM "@ + self.table + " d JOIN transitive_deps td ON d."@
            + self.step.1 + " = td.id WHERE 1=1 "@ + self.filter()
            + ") SELECT 1 FROM transitive_deps WHERE id = ?2 LIMIT 1;"@
    }

    /// The record has one of the types.
    pub open spec fn admits(self, r: Record) -> bool {
        match self.types {
            Some(list) => cell(r, "type"@) matches SqlCell::Text(t) && list.contains(t),
            None => true,
        }
    }

    /// A record leads from one value to another in a step with these columns.
    pub open spec fn leads(
        self,
        base: Base,
        columns: (Seq<char>, Seq<char>),
        from: SqlCell,
        to: SqlCell,
    ) -> bool {
        !(from is Null) && exists|r: Record| #[trigger]
            base[self.table].contains(r) && self.admits(r) && cell(r, columns.1) == from && cell(
                r,
                columns.0,
            ) == to
    }

    /// The value is collected within so many further steps.
    pub open spec fn collects(self, base: Base, start: SqlCell, steps: nat, x: SqlCell) -> bool
        decreases steps,
    {
        if steps == 0 {
            self.leads(base, self.first, start, x)
        } else {
            ||| self.collects(base, start, (steps - 1) as nat, x)
            ||| exists|y: SqlCell| #[trigger]
                self.leads(base, self.step, y, x) && self.collects(
                    base,
                    start,
                    (steps - 1) as nat,
                    y,
                )
        }
    }

    /// The query with these values bound gives a row.
    pub open spec fn finds(self, base: Base, params: Seq<SqlCell>) -> bool {
        !(params[1] is Null) && exists|steps: nat| #[trigger]
            self.collects(base, params[0], steps, params[1])
    }

    /// The statement asks this query.
    pub open spec fn is(self, s: StatementView) -> bool {
        s.sql == self.text() && s.params.len() == 2
    }
}

/// The query for a way along dependencies.
pub open spec fn way_query(blocking_only: bool) -> Closure {
    Closure {
        table: "dependencies"@,
        first: ("depends_on_id"@, "issue_id"@),
        step: ("depends_on_id"@, "issue_id"@),
        types: if blocking_only {
            Some(seq!["blocks"@, "parent-child"@, "conditional-blocks"@])
        } else {
            None
        },
    }
}

/// One value depends on another: a record of the dependencies says so, with a type that blocks
/// where only these count.
pub open spec fn depends(base: Base, blocking_only: bool, a: SqlCell, b: SqlCell) -> bool {
    !(a is Null) && exists|r: Record| #[trigger]
        base["dependencies"@].contains(r) && cell(r, "issue_id"@) == a && cell(r, "depends_on_id"@)
            == b && (blocking_only ==> (cell(r, "type"@) == SqlCell::Text(
            DependencyTypeView::Blocks.name(),
        ) || cell(r, "type"@) == SqlCell::Text(DependencyTypeView::ParentChild.name()) || cell(
            r,
            "type"@,
        ) == SqlCell::Text(DependencyTypeView::ConditionalBlocks.name())))
}

/// The values are a way along dependencies, of one or more of them.
pub open spec fn is_way(base: Base, blocking_only: bool, way: Seq<SqlCell>) -> bool {
    way.len() >= 2 && forall|k: int|
        0 <= k < way.len() - 1 ==> depends(base, blocking_only, #[trigger] way[k], way[k + 1])
}

proof fn lemma_leads_depends(base: Base, blocking_only: bool, a: SqlCell, b: SqlCell)
    ensures
        way_query(blocking_only).leads(base, ("depends_on_id"@, "issue_id"@), a, b) <==> depends(
            base,
            blocking_only,
            a,
            b,
        ),
{
    let q = way_query(blocking_only);
    if blocking_only {
        let list = q.types->0;
        assert(list[0] == "blocks"@ && list[1] == "parent-child"@ && list[2]
            == "conditional-blocks"@);
        assert forall|r: Record| true implies #[trigger] q.admits(r) == (cell(r, "type"@)
            == SqlCell::Text("blocks"@) || cell(r, "type"@) == SqlCell::Text("parent-child"@)
            || cell(r, "type"@) == SqlCell::Text("conditional-blocks"@)) by {
            if q.admits(r) {
                let t = cell(r, "type"@)->Text_0;
                let k = choose|k: int| 0 <= k < list.len() && list[k] == t;
                assert(list[k] == t);
            }
        }
    }
    if q.leads(base, ("depends_on_id"@, "issue_id"@), a, b) {
        let r = choose|r: Record| #[trigger]
            base[q.table].contains(r) && q.admits(r) && cell(r, "issue_id"@) == a && cell(
                r,
                "depends_on_id"@,
            ) == b;
        assert(base["dependencies"@].contains(r));
    }
    if depends(base, blocking_only, a, b) {
        let r = choose|r: Record| #[trigger]
            base["dependencies"@].contains(r) && cell(r, "issue_id"@) == a && cell(
                r,
                "depends_on_id"@,
            ) == b && (blocking_only ==> (cell(r, "type"@) == SqlCell::Text("blocks"@) || cell(
                r,
                "type"@,
            ) == SqlCell::Text("parent-child"@) || cell(r, "type"@) == SqlCell::Text(
                "conditional-blocks"@,
            )));
        assert(base[q.table].contains(r) && q.admits(r));
    }
}

proof fn lemma_collected_has_way(
    base: Base,
    blocking_only: bool,
    start: SqlCell,
    steps: nat,
    x: SqlCell,
) -> (way: Seq<SqlCell>)
    requires
        way_query(blocking_only).collects(base, start, steps, x),
    ensures
        is_way(base, blocking_only, way),
        way[0] == start,
        way.last() == x,
    decreases steps,
{
    let q = way_query(blocking_only);
    if steps == 0 {
        lemma_leads_depends(base, blocking_only, start, x);
        seq![start, x]
    } else if q.collects(base, start, (steps - 1) as nat, x) {
        lemma_collected_has_way(base, blocking_only, start, (steps - 1) as nat, x)
    } else {
        let y = choose|y: SqlCell| #[trigger]
            q.leads(base, q.step, y, x) && q.collects(base, start, (steps - 1) as nat, y);
        let front = lemma_collected_has_way(base, blocking_only, start, (steps - 1) as nat, y);
        lemma_leads_depends(base, blocking_only, y, x);
        let way = front.push(x);
        assert forall|k: int| 0 <= k < way.len() - 1 implies depends(
            base,
            blocking_only,
            #[trigger] way[k],
            way[k + 1],
        ) by {
            if k < front.len() - 1 {
                assert(depends(base, blocking_only, front[k], front[k + 1]));
            }
        }
        way
    }
}

proof fn lemma_way_is_collected(base: Base, blocking_only: bool, way: Seq<SqlCell>)
    requires
        is_way(base, blocking_only, way),
    ensures
        way_query(blocking_only).collects(base, way[0], (way.len() - 2) as nat, way.last()),
    decreases way.len(),
{
    let q = way_query(blocking_only);
    let n = way.len() as int;
    assert(depends(base, blocking_only, way[n - 2], way[n - 2 + 1]));
    lemma_leads_depends(base, blocking_only, way[n - 2], way[n - 1]);
    if n > 2 {
        let front = way.drop_last();
        assert forall|k: int| 0 <= k < front.len() - 1 implies depends(
            base,
            blocking_only,
            #[trigger] front[k],
            front[k + 1],
        ) by {
            assert(depends(base, blocking_only, way[k], way[k + 1]));
        }
        lemma_way_is_collected(base, blocking_only, front);
        assert(q.leads(base, q.step, way[n - 2], way[n - 1]));
    }
}

#[verifier::spinoff_prover]
proof fn lemma_way_text(blocking_only: bool)
    ensures
        cycle_sql(blocking_only) == way_query(blocking_only).text(),
{
    let q = way_query(blocking_only);
    reveal_strlit("depends_on_id");
    reveal_strlit("dependencies");
    reveal_strlit("issue_id");
    reveal_strlit(" FROM ");
    reveal_strlit("");
    let filter = if blocking_only {
        "AND type IN ('blocks', 'parent-child', 'conditional-blocks')"@
    } else {
        ""@
    };
    assert(filter =~= q.filter()) by {
        reveal_strlit("AND type IN ('blocks', 'parent-child', 'conditional-blocks')");
        reveal_strlit("AND type IN (");
        reveal_strlit(")");
        reveal_strlit("'");
        reveal_strlit(", '");
        reveal_strlit("blocks");
        reveal_strlit("parent-child");
        reveal_strlit("conditional-blocks");
        reveal_with_fuel(quoted, 4);
        if blocking_only {
            let list = q.types->0;
            assert(quoted(list) =~= "'"@ + "blocks"@ + "'"@ + ", '"@ + "parent-child"@ + "'"@
                + ", '"@ + "conditional-blocks"@ + "'"@);
        }
    }
    assert("WITH RECURSIVE transitive_deps(id) AS (SELECT depends_on_id FROM dependencies WHERE issue_id = ?1 "@
        =~= "WITH RECURSIVE transitive_deps(id) AS (SELECT "@ + "depends_on_id"@ + " FROM "@
        + "dependencies"@ + " WHERE "@ + "issue_id"@ + " = ?1 "@) by {
        reveal_strlit(
            "WITH RECURSIVE transitive_deps(id) AS (SELECT depends_on_id FROM dependencies WHERE issue_id = ?1 ",
        );
        reveal_strlit("WITH RECURSIVE transitive_deps(id) AS (SELECT ");
        reveal_strlit(" WHERE ");
        reveal_strlit(" = ?1 ");
    }
    let a = "WITH RECURSIVE transitive_deps(id) AS (SELECT "@ + "depends_on_id"@ + " FROM "@
        + "dependencies"@ + " WHERE "@ + "issue_id"@ + " = ?1 "@;
    let b = " UNION SELECT d."@ + "depends_on_id"@ + " FROM "@ + "dependencies"@
        + " d JOIN transitive_deps td ON d."@ + "issue_id"@ + " = td.id WHERE 1=1 "@;
    assert(" UNION SELECT d.depends_on_id FROM dependencies d JOIN transitive_deps td ON d.issue_id = td.id WHERE 1=1 "@
        =~= b) by {
        reveal_strlit(
            " UNION SELECT d.depends_on_id FROM dependencies d JOIN transitive_deps td ON d.issue_id = td.id WHERE 1=1 ",
        );
        reveal_strlit(" UNION SELECT d.");
        reveal_strlit(" d JOIN transitive_deps td ON d.");
        reveal_strlit(" = td.id WHERE 1=1 ");
    }
    let c = ") SELECT 1 FROM transitive_deps WHERE id = ?2 LIMIT 1;"@;
    assert(q.text() =~= a + q.filter() + b + q.filter() + c);
}

/// The query before a dependency is added gives a row exactly where, along one or more dependencies
/// of the types that count, the issue that is depended on already leads to the issue that depends
/// on it: a chain of any length back to it is found, and nothing else is.
pub proof fn lemma_cycle_query_finds_ways(
    base: Base,
    issue_id: Seq<char>,
    depends_on_id: Seq<char>,
    blocking_only: bool,
)
    ensures
        way_query(blocking_only).is(cycle_statement(issue_id, depends_on_id, blocking_only)),
        way_query(blocking_only).finds(
            base,
            cycle_statement(issue_id, depends_on_id, blocking_only).params,
        ) <==> exists|way: Seq<SqlCell>| #[trigger]
            is_way(base, blocking_only, way) && way[0] == SqlCell::Text(depends_on_id)
                && way.last() == SqlCell::Text(issue_id),
{
    let q = way_query(blocking_only);
    let params = cycle_statement(issue_id, depends_on_id, blocking_only).params;
    lemma_way_text(blocking_only);
    if q.finds(base, params) {
        let steps = choose|steps: nat| #[trigger] q.collects(base, params[0], steps, params[1]);
        let way = lemma_collected_has_way(base, blocking_only, params[0], steps, params[1]);
        assert(is_way(base, blocking_only, way));
    }
    if exists|way: Seq<SqlCell>| #[trigger]
        is_way(base, blocking_only, way) && way[0] == SqlCell::Text(depends_on_id) && way.last()
            == SqlCell::Text(issue_id) {
        let way = choose|way: Seq<SqlCell>| #[trigger]
            is_way(base, blocking_only, way) && way[0] == SqlCell::Text(depends_on_id)
                && way.last() == SqlCell::Text(issue_id);
        lemma_way_is_collected(base, blocking_only, way);
    }
}

} // verus!
