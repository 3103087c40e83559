//! What statements ask of the database: tables of records with named columns, and what a
//! statement with a given text selects, writes or removes.

use vstd::prelude::*;

verus! {

use crate::pattern::like;
use crate::searching::same_letter;
use crate::chunk::list_statement;
use crate::sql::{
    bound,
    lemma_assembled_concat,
    listed,
    raw,
    rendered,
    text_cells,
    Piece,
    SqlCell,
    StatementView,
};
use crate::text::text_le;

/// A row of a table: what it holds under the name of each column.
pub type Record = Map<Seq<char>, SqlCell>;

/// A database: the rows of each table, by the table's name.
pub type Base = Map<Seq<char>, Seq<Record>>;

/// What a record holds in a column, nothing where it has no such column.
pub open spec fn cell(r: Record, name: Seq<char>) -> SqlCell {
    if r.dom().contains(name) {
        r[name]
    } else {
        SqlCell::Null
    }
}

/// A column: of the table in some place among those that a query is over.
pub struct Col {
    pub place: int,
    pub name: Seq<char>,
}

/// How a table is joined.
pub enum JoinKind {
    Plain,
    Inner,
    Left,
}

/// A table that is joined to those before it, where two columns hold the same value.
pub struct Join {
    pub kind: JoinKind,
    pub table: Seq<char>,
    pub alias: Seq<char>,
    pub left: Col,
    pub right: Col,
}

/// The tables that a query is over.
pub struct Source {
    pub table: Seq<char>,
    /// What the table is called in the query, empty for a query over one table.
    pub alias: Seq<char>,
    pub joins: Seq<Join>,
}

/// One record of each table that a query is over; an outer join may have none.
pub type Pick = Seq<Option<Record>>;

/// What a column holds in a choice of records.
pub open spec fn value(p: Pick, c: Col) -> SqlCell {
    match p[c.place] {
        Some(r) => cell(r, c.name),
        None => SqlCell::Null,
    }
}

/// A query over one table.
pub open spec fn over(table: Seq<char>) -> Source {
    Source { table, alias: seq![], joins: seq![] }
}

/// A column of the only table, or of the first one.
pub open spec fn col(name: Seq<char>) -> Col {
    Col { place: 0, name }
}

/// A column of the second table.
pub open spec fn second(name: Seq<char>) -> Col {
    Col { place: 1, name }
}

impl Source {
    /// What a table is called.
    pub open spec fn called(self, place: int) -> Seq<char> {
        if place == 0 {
            self.alias
        } else {
            self.joins[place - 1].alias
        }
    }

    /// A column in the text of a query.
    pub open spec fn column(self, c: Col) -> Seq<char> {
        if self.alias.len() == 0 {
            c.name
        } else {
            self.called(c.place) + "."@ + c.name
        }
    }

    /// The first `n` joins in the text of a query.
    pub open spec fn joins_text(self, n: int) -> Seq<char>
        decreases n,
    {
        if n <= 0 {
            seq![]
        } else {
            let j = self.joins[n - 1];
            let word = match j.kind {
                JoinKind::Plain => " JOIN "@,
                JoinKind::Inner => " INNER JOIN "@,
                JoinKind::Left => " LEFT JOIN "@,
            };
            self.joins_text(n - 1) + word + j.table + " "@ + j.alias + " ON "@ + self.column(j.left)
                + " = "@ + self.column(j.right)
        }
    }

    /// The tables in the text of a query.
    pub open spec fn text(self) -> Seq<char> {
        if self.alias.len() == 0 {
            self.table
        } else {
            self.table + " "@ + self.alias + self.joins_text(self.joins.len() as int)
        }
    }

    /// The records fit together in the place of a join.
    pub open spec fn fits(self, base: Base, p: Pick, k: int) -> bool {
        let j = self.joins[k];
        let same = |q: Pick| value(q, j.left) == value(q, j.right) && !(value(q, j.left) is Null);
        match p[k + 1] {
            Some(r) => base[j.table].contains(r) && same(p),
            None => j.kind is Left && forall|r: Record| #[trigger]
                base[j.table].contains(r) ==> !same(p.update(k + 1, Some(r))),
        }
    }

    /// The records are a choice that the query is over.
    pub open spec fn offers(self, base: Base, p: Pick) -> bool {
        &&& p.len() == self.joins.len() + 1
        &&& p[0] is Some && base[self.table].contains(p[0]->0)
        &&& forall|k: int| 0 <= k < self.joins.len() ==> #[trigger] self.fits(base, p, k)
    }
}

/// A condition of a statement.
pub enum Test {
    /// The column holds the value that is bound.
    Bound(Col, SqlCell),
    /// The column holds this text.
    Is(Col, Seq<char>),
    /// The column holds another value than this text.
    IsNot(Col, Seq<char>),
    /// The column holds one of these texts.
    OneOf(Col, Seq<Seq<char>>),
    /// The column holds a value, and none of these texts.
    NoneOf(Col, Seq<Seq<char>>),
    /// The column holds the number 0.
    Zero(Col),
    /// The column holds the number 0 or nothing.
    ZeroOrNull(Col),
    /// The column holds nothing.
    Absent(Col),
    /// The column holds a text that the pattern does not match.
    NotLike(Col, Seq<char>),
    /// The column holds one of the texts that are bound.
    Among(Col, Seq<Seq<char>>),
}

/// Texts in quotes, separated by commas.
pub open spec fn quoted(list: Seq<Seq<char>>) -> Seq<char>
    decreases list.len(),
{
    if list.len() == 0 {
        seq![]
    } else if list.len() == 1 {
        "'"@ + list[0] + "'"@
    } else {
        quoted(list.drop_last()) + ", '"@ + list.last() + "'"@
    }
}

impl Test {
    /// The condition in the text of a statement.
    pub open spec fn text(self, from: Source) -> Seq<char> {
        match self {
            Test::Bound(c, _) => from.column(c) + " = ?"@,
            Test::Is(c, s) => from.column(c) + " = '"@ + s + "'"@,
            Test::IsNot(c, s) => from.column(c) + " != '"@ + s + "'"@,
            Test::OneOf(c, list) => from.column(c) + " IN ("@ + quoted(list) + ")"@,
            Test::NoneOf(c, list) => from.column(c) + " NOT IN ("@ + quoted(list) + ")"@,
            Test::Zero(c) => from.column(c) + " = 0"@,
            Test::ZeroOrNull(c) => "("@ + from.column(c) + " = 0 OR "@ + from.column(c)
                + " IS NULL)"@,
            Test::Absent(c) => from.column(c) + " IS NULL"@,
            Test::NotLike(c, s) => from.column(c) + " NOT LIKE '"@ + s + "'"@,
            Test::Among(c, list) => from.column(c) + " IN ("@ + rendered(
                listed(text_cells(list), ","@),
            ) + ")"@,
        }
    }

    /// The values that the condition binds.
    pub open spec fn params(self) -> Seq<SqlCell> {
        match self {
            Test::Bound(_, v) => seq![v],
            Test::Among(_, list) => text_cells(list),
            _ => seq![],
        }
    }

    /// The condition holds of a choice of records. Nothing is equal to a missing value, nor
    /// different from it.
    pub open spec fn holds(self, p: Pick) -> bool {
        match self {
            Test::Bound(c, v) => value(p, c) == v && !(v is Null),
            Test::Is(c, s) => value(p, c) == SqlCell::Text(s),
            Test::IsNot(c, s) => !(value(p, c) is Null) && value(p, c) != SqlCell::Text(s),
            Test::OneOf(c, list) => value(p, c) matches SqlCell::Text(t) && list.contains(t),
            Test::NoneOf(c, list) => !(value(p, c) is Null) && !(value(p, c) matches SqlCell::Text(
                t,
            ) && list.contains(t)),
            Test::Zero(c) => value(p, c) == SqlCell::Integer(0),
            Test::ZeroOrNull(c) => value(p, c) == SqlCell::Integer(0) || value(p, c) is Null,
            Test::Absent(c) => value(p, c) is Null,
            Test::NotLike(c, s) => value(p, c) matches SqlCell::Text(t) && !like(
                s,
                t,
                same_letter(),
            ),
            Test::Among(c, list) => value(p, c) matches SqlCell::Text(t) && list.contains(t),
        }
    }
}

/// Conditions in the text of a statement.
pub open spec fn tests_text(tests: Seq<Test>, from: Source) -> Seq<char>
    decreases tests.len(),
{
    if tests.len() == 0 {
        seq![]
    } else if tests.len() == 1 {
        " WHERE "@ + tests[0].text(from)
    } else {
        tests_text(tests.drop_last(), from) + " AND "@ + tests.last().text(from)
    }
}

/// The values that conditions bind.
pub open spec fn tests_params(tests: Seq<Test>) -> Seq<SqlCell>
    decreases tests.len(),
{
    if tests.len() == 0 {
        seq![]
    } else {
        tests_params(tests.drop_last()) + tests.last().params()
    }
}

/// All conditions hold.
pub open spec fn all_hold(tests: Seq<Test>, p: Pick) -> bool {
    forall|k: int| 0 <= k < tests.len() ==> (#[trigger] tests[k]).holds(p)
}

/// What a query gives of the records that it selects.
pub enum Wanted {
    Columns(Seq<Col>),
    /// Whether there are any.
    One,
    /// How many there are. The word stands in capitals or not.
    Count { capital: bool },
    /// Each value of a column with how many there are that hold it. The number may have a name.
    Tally { by: Col, named: bool },
    /// Columns, the first of which gets another name.
    Renamed { first: Col, name: Seq<char>, rest: Seq<Col> },
}

/// A column by which a result is ordered.
pub struct Key {
    pub col: Col,
    pub way: Way,
}

/// The direction of an order; the natural one is ascending.
pub enum Way {
    Natural,
    Ascending,
    Descending,
}

/// A query.
pub struct Select {
    pub distinct: bool,
    pub wanted: Wanted,
    pub from: Source,
    pub tests: Seq<Test>,
    pub order: Seq<Key>,
    /// One record is enough.
    pub limited: bool,
}

/// Columns in the text of a query.
pub open spec fn columns_text(list: Seq<Col>, from: Source) -> Seq<char>
    decreases list.len(),
{
    if list.len() == 0 {
        seq![]
    } else if list.len() == 1 {
        from.column(list[0])
    } else {
        columns_text(list.drop_last(), from) + ", "@ + from.column(list.last())
    }
}

/// An order in the text of a query.
pub open spec fn order_text(list: Seq<Key>, from: Source) -> Seq<char>
    decreases list.len(),
{
    if list.len() == 0 {
        seq![]
    } else {
        let k = list.last();
        let way = match k.way {
            Way::Natural => seq![],
            Way::Ascending => " ASC"@,
            Way::Descending => " DESC"@,
        };
        let front = if list.len() == 1 {
            " ORDER BY "@
        } else {
            order_text(list.drop_last(), from) + ", "@
        };
        front + from.column(k.col) + way
    }
}

/// The order of values: none first, then numbers, then texts.
pub open spec fn cell_le(a: SqlCell, b: SqlCell) -> bool {
    match (a, b) {
        (SqlCell::Null, _) => true,
        (SqlCell::Integer(x), SqlCell::Integer(y)) => x <= y,
        (SqlCell::Integer(_), SqlCell::Text(_)) => true,
        (SqlCell::Text(x), SqlCell::Text(y)) => text_le(x, y),
        _ => a == b,
    }
}

/// One choice of records may stand before another.
pub open spec fn in_order(list: Seq<Key>, a: Pick, b: Pick) -> bool
    decreases list.len(),
{
    if list.len() == 0 {
        true
    } else {
        let k = list[0];
        let (x, y) = if k.way is Descending {
            (value(b, k.col), value(a, k.col))
        } else {
            (value(a, k.col), value(b, k.col))
        };
        if x == y {
            in_order(list.drop_first(), a, b)
        } else {
            cell_le(x, y)
        }
    }
}

impl Select {
    /// The text of the query.
    pub open spec fn text(self) -> Seq<char> {
        let word = if self.distinct {
            "SELECT DISTINCT "@
        } else {
            "SELECT "@
        };
        let wanted = match self.wanted {
            Wanted::Columns(list) => columns_text(list, self.from),
            Wanted::One => "1"@,
            Wanted::Count { capital } => if capital {
                "COUNT(*)"@
            } else {
                "count(*)"@
            },
            Wanted::Tally { by, named } => self.from.column(by) + if named {
                ", COUNT(*) as count"@
            } else {
                ", COUNT(*)"@
            },
            Wanted::Renamed { first, name, rest } => self.from.column(first) + " AS "@ + name
                + ", "@ + columns_text(rest, self.from),
        };
        let group = match self.wanted {
            Wanted::Tally { by, .. } => " GROUP BY "@ + self.from.column(by),
            _ => seq![],
        };
        let limit = if self.limited {
            " LIMIT 1"@
        } else {
            seq![]
        };
        word + wanted + " FROM "@ + self.from.text() + tests_text(self.tests, self.from)
            + group + order_text(self.order, self.from) + limit
    }

    /// The statement asks this query.
    pub open spec fn is(self, s: StatementView) -> bool {
        s.sql == self.text() && s.params == tests_params(self.tests)
    }

    /// The query selects a choice of records.
    pub open spec fn selects(self, base: Base, p: Pick) -> bool {
        self.from.offers(base, p) && all_hold(self.tests, p)
    }

    /// A row of the result.
    pub open spec fn row(self, p: Pick) -> Seq<SqlCell> {
        match self.wanted {
            Wanted::Columns(list) => Seq::new(list.len(), |i: int| value(p, list[i])),
            Wanted::Renamed { first, rest, .. } => seq![value(p, first)] + Seq::new(
                rest.len(),
                |i: int| value(p, rest[i]),
            ),
            _ => seq![SqlCell::Integer(1)],
        }
    }

    /// How many of the records that a query over one table selects hold a value in a column.
    pub open spec fn tally(self, base: Base, by: Col, v: SqlCell) -> nat {
        base[self.from.table].filter(
            |r: Record| all_hold(self.tests, seq![Some(r)]) && value(seq![Some(r)], by) == v,
        ).len()
    }

    /// How many of the choices that a query over two tables selects hold a value in a column.
    pub open spec fn tally_pairs(self, base: Base, by: Col, v: SqlCell) -> nat {
        let a = base[self.from.table];
        let b = base[self.from.joins[0].table];
        Set::new(
            |at: (int, int)|
                {
                    let p = seq![Some(a[at.0]), Some(b[at.1])];
                    0 <= at.0 < a.len() && 0 <= at.1 < b.len() && self.selects(base, p) && value(
                        p,
                        by,
                    ) == v
                },
        ).len()
    }

    /// How many records a query over one table selects.
    pub open spec fn count(self, base: Base) -> nat {
        base[self.from.table].filter(|r: Record| all_hold(self.tests, seq![Some(r)])).len()
    }
}

/// The columns of a query over one table.
pub open spec fn cols(names: Seq<Seq<char>>) -> Wanted {
    Wanted::Columns(names.map_values(|n: Seq<char>| col(n)))
}

/// A query over one table.
pub open spec fn select(wanted: Wanted, table: Seq<char>, tests: Seq<Test>) -> Select {
    Select { distinct: false, wanted, from: over(table), tests, order: seq![], limited: false }
}

/// A query over one table selects exactly its records of which the conditions hold.
pub proof fn lemma_over_one(q: Select, base: Base, p: Pick)
    requires
        q.from.joins.len() == 0,
    ensures
        q.selects(base, p) <==> p.len() == 1 && p[0] is Some && base[q.from.table].contains(p[0]->0)
            && all_hold(q.tests, p),
{
}

/// An outer join of two tables pairs a record with each one that holds the same value, and with none
/// where there is no such one.
pub proof fn lemma_outer_join(from: Source, base: Base, d: Record, found: Option<Record>)
    requires
        from.joins.len() == 1,
        from.joins[0].kind is Left,
        from.joins[0].left.place == 0,
        from.joins[0].right.place == 1,
    ensures
        from.offers(base, seq![Some(d), found]) <==> base[from.table].contains(d) && ({
            let j = from.joins[0];
            match found {
                Some(i) => base[j.table].contains(i) && cell(i, j.right.name) == cell(
                    d,
                    j.left.name,
                ) && !(cell(i, j.right.name) is Null),
                None => forall|i: Record| #[trigger]
                    base[j.table].contains(i) ==> cell(i, j.right.name) != cell(d, j.left.name)
                        || cell(i, j.right.name) is Null,
            }
        }),
{
    let p = seq![Some(d), found];
    let j = from.joins[0];
    assert(from.offers(base, p) <==> base[from.table].contains(d) && from.fits(base, p, 0));
    if found is None {
        assert forall|i: Record| true implies #[trigger] value(p.update(1, Some(i)), j.left) == cell(
            d,
            j.left.name,
        ) by {}
        assert forall|i: Record| true implies #[trigger] value(p.update(1, Some(i)), j.right)
            == cell(i, j.right.name) by {}
        let apart = forall|i: Record| #[trigger]
            base[j.table].contains(i) ==> cell(i, j.right.name) != cell(d, j.left.name) || cell(
                i,
                j.right.name,
            ) is Null;
        if from.fits(base, p, 0) {
            assert forall|i: Record| #[trigger] base[j.table].contains(i) implies cell(
                i,
                j.right.name,
            ) != cell(d, j.left.name) || cell(i, j.right.name) is Null by {
                assert(value(p.update(1, Some(i)), j.left) == cell(d, j.left.name));
                assert(value(p.update(1, Some(i)), j.right) == cell(i, j.right.name));
            }
        }
        if apart {
            assert forall|i: Record| #[trigger] base[j.table].contains(i) implies !(value(
                p.update(1, Some(i)),
                j.left,
            ) == value(p.update(1, Some(i)), j.right) && !(value(
                p.update(1, Some(i)),
                j.left,
            ) is Null)) by {}
            assert(from.fits(base, p, 0));
        }
    }
}

/// A query over one table counts exactly its records of which the conditions hold.
pub proof fn lemma_counted(q: Select, base: Base, f: spec_fn(Record) -> bool)
    requires
        forall|r: Record| #[trigger] f(r) == all_hold(q.tests, seq![Some(r)]),
    ensures
        q.count(base) == base[q.from.table].filter(f).len(),
{
    assert(f =~= |r: Record| all_hold(q.tests, seq![Some(r)]));
}

/// Nothing is left out where everything counts.
pub proof fn lemma_all_kept(list: Seq<Record>)
    ensures
        list.filter(|r: Record| true) == list,
    decreases list.len(),
{
    reveal(Seq::filter);
    if list.len() > 0 {
        lemma_all_kept(list.drop_last());
        assert(list =~= list.drop_last().push(list.last()));
    } else {
        assert(list =~= seq![]);
    }
}

/// The texts of a list of two.
pub proof fn lemma_among2(list: Seq<Seq<char>>, a: Seq<char>, b: Seq<char>)
    requires
        list == seq![a, b],
    ensures
        forall|t: Seq<char>| #[trigger] list.contains(t) <==> t == a || t == b,
{
    assert(list[0] == a && list[1] == b);
}

/// The texts of a list of three.
pub proof fn lemma_among3(list: Seq<Seq<char>>, a: Seq<char>, b: Seq<char>, c: Seq<char>)
    requires
        list == seq![a, b, c],
    ensures
        forall|t: Seq<char>| #[trigger] list.contains(t) <==> t == a || t == b || t == c,
{
    assert(list[0] == a && list[1] == b && list[2] == c);
}

/// Both queries, each row once.
pub struct Union {
    pub one: Select,
    pub other: Select,
}

impl Union {
    pub open spec fn is(self, s: StatementView) -> bool {
        &&& s.sql == self.one.text() + " UNION "@ + self.other.text()
        &&& s.params == tests_params(self.one.tests) + tests_params(self.other.tests)
    }
}

/// The values of a list are bound one by one, in their order.
pub proof fn lemma_listed(values: Seq<SqlCell>, sep: Seq<char>)
    ensures
        bound(listed(values, sep)) == values,
    decreases values.len(),
{
    reveal_with_fuel(bound, 3);
    if values.len() == 0 {
        assert(values =~= seq![]);
    } else if values.len() == 1 {
        let pieces = seq![Piece::Bind(values[0])];
        assert(pieces.drop_last() =~= seq![]);
        assert(bound(pieces) =~= values);
    } else {
        lemma_listed(values.drop_last(), sep);
        let front = listed(values.drop_last(), sep);
        let pieces = front + seq![Piece::Raw(sep), Piece::Bind(values.last())];
        assert(pieces.drop_last() =~= front.push(Piece::Raw(sep)));
        assert(front.push(Piece::Raw(sep)).drop_last() =~= front);
        assert(bound(pieces) =~= values);
    }
}

/// A statement with a list is its opening text, the placeholders and its closing text, and binds
/// the list.
pub proof fn lemma_list_statement(open: Seq<char>, ids: Seq<Seq<char>>, close: Seq<char>)
    ensures
        list_statement(open, ids, ","@, close).sql == open + rendered(
            listed(text_cells(ids), ","@),
        ) + close,
        list_statement(open, ids, ","@, close).params == text_cells(ids),
{
    let l = listed(text_cells(ids), ","@);
    reveal_with_fuel(rendered, 2);
    reveal_with_fuel(bound, 2);
    lemma_listed(text_cells(ids), ","@);
    lemma_assembled_concat(raw(open), l);
    lemma_assembled_concat(raw(open) + l, raw(close));
    assert(raw(open).drop_last() =~= seq![]);
    assert(raw(close).drop_last() =~= seq![]);
    assert(rendered(raw(open)) =~= open);
    assert(rendered(raw(close)) =~= close);
    assert(bound(raw(open)) =~= seq![]);
    assert(bound(raw(close)) =~= seq![]);
    assert(list_statement(open, ids, ","@, close).params =~= text_cells(ids));
}

/// The statement that deletes records.
pub struct Delete {
    pub table: Seq<char>,
    pub tests: Seq<Test>,
}

impl Delete {
    pub open spec fn is(self, s: StatementView) -> bool {
        &&& s.sql == "DELETE FROM "@ + self.table + tests_text(self.tests, over(self.table))
        &&& s.params == tests_params(self.tests)
    }

    /// The record goes.
    pub open spec fn takes(self, r: Record) -> bool {
        all_hold(self.tests, seq![Some(r)])
    }
}

/// Placeholders, separated by commas.
pub open spec fn marks_text(n: nat) -> Seq<char>
    decreases n,
{
    if n == 0 {
        seq![]
    } else if n == 1 {
        "?"@
    } else {
        marks_text((n - 1) as nat) + ", ?"@
    }
}

/// Names, separated by commas.
pub open spec fn names_text(list: Seq<Seq<char>>) -> Seq<char>
    decreases list.len(),
{
    if list.len() == 0 {
        seq![]
    } else if list.len() == 1 {
        list[0]
    } else {
        names_text(list.drop_last()) + ", "@ + list.last()
    }
}

/// The statement that inserts a record.
pub struct Insert {
    pub word: Seq<char>,
    pub table: Seq<char>,
    pub columns: Seq<Seq<char>>,
    pub values: Seq<SqlCell>,
}

impl Insert {
    pub open spec fn is(self, s: StatementView) -> bool {
        &&& s.sql == self.word + " INTO "@ + self.table + " ("@ + names_text(self.columns)
            + ") VALUES ("@ + marks_text(self.columns.len()) + ")"@
        &&& s.params == self.values
        &&& self.values.len() == self.columns.len()
    }

    /// The record holds what is inserted.
    pub open spec fn writes(self, r: Record) -> bool {
        forall|i: int|
            0 <= i < self.columns.len() ==> cell(r, #[trigger] self.columns[i]) == self.values[i]
    }
}

/// What a column is set to.
pub enum Setting {
    /// The value that is bound.
    Bound(SqlCell),
    /// This text.
    Literal(Seq<char>),
}

impl Setting {
    /// The value that the column gets.
    pub open spec fn value(self) -> SqlCell {
        match self {
            Setting::Bound(v) => v,
            Setting::Literal(s) => SqlCell::Text(s),
        }
    }

    /// What stands behind the column in the text of the statement.
    pub open spec fn text(self) -> Seq<char> {
        match self {
            Setting::Bound(_) => " = ?"@,
            Setting::Literal(s) => " = '"@ + s + "'"@,
        }
    }

    /// The values that are bound.
    pub open spec fn params(self) -> Seq<SqlCell> {
        match self {
            Setting::Bound(v) => seq![v],
            Setting::Literal(_) => seq![],
        }
    }
}

/// The statement that changes records.
pub struct Update {
    pub table: Seq<char>,
    pub sets: Seq<(Seq<char>, Setting)>,
    pub tests: Seq<Test>,
}

/// The columns that are set, in the text of a statement.
pub open spec fn sets_text(sets: Seq<(Seq<char>, Setting)>) -> Seq<char>
    decreases sets.len(),
{
    if sets.len() == 0 {
        seq![]
    } else if sets.len() == 1 {
        sets[0].0 + sets[0].1.text()
    } else {
        sets_text(sets.drop_last()) + ", "@ + sets.last().0 + sets.last().1.text()
    }
}

/// The values that are bound for the columns that are set.
pub open spec fn sets_params(sets: Seq<(Seq<char>, Setting)>) -> Seq<SqlCell>
    decreases sets.len(),
{
    if sets.len() == 0 {
        seq![]
    } else {
        sets_params(sets.drop_last()) + sets.last().1.params()
    }
}

impl Update {
    pub open spec fn is(self, s: StatementView) -> bool {
        &&& s.sql == "UPDATE "@ + self.table + " SET "@ + sets_text(self.sets) + tests_text(
            self.tests,
            over(self.table),
        )
        &&& s.params == sets_params(self.sets) + tests_params(self.tests)
    }

    /// The column is set.
    pub open spec fn touches(self, name: Seq<char>) -> bool {
        exists|k: int| 0 <= k < self.sets.len() && (#[trigger] self.sets[k]).0 == name
    }

    /// A record becomes another: the columns that are set hold the new values where the conditions
    /// hold of the record, and everything else stays.
    pub open spec fn turns(self, before: Record, after: Record) -> bool {
        if all_hold(self.tests, seq![Some(before)]) {
            &&& forall|k: int|
                0 <= k < self.sets.len() ==> cell(after, (#[trigger] self.sets[k]).0)
                    == self.sets[k].1.value()
            &&& forall|name: Seq<char>|
                !self.touches(name) ==> #[trigger] cell(after, name) == cell(before, name)
        } else {
            after == before
        }
    }
}

/// The columns of one table stand under their bare names.
pub proof fn lemma_columns_text(names: Seq<Seq<char>>, table: Seq<char>)
    ensures
        columns_text(names.map_values(|n: Seq<char>| col(n)), over(table)) == names_text(names),
    decreases names.len(),
{
    let list = names.map_values(|n: Seq<char>| col(n));
    if names.len() > 1 {
        lemma_columns_text(names.drop_last(), table);
        assert(list.drop_last() =~= names.drop_last().map_values(|n: Seq<char>| col(n)));
    }
}

} // verus!
