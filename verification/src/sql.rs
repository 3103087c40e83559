//! Statements for the database and the rows that come back.

use vstd::prelude::*;

verus! {

/// A value that is bound to a statement or stands in a row.
#[derive(Debug, Clone, PartialEq, Eq)]
pub enum SqlValue {
    Null,
    Integer(i64),
    Text(String),
    /// A value of a type that no column of the tracker has.
    Other,
}

/// The view of [`SqlValue`].
#[verifier::ext_equal]
pub enum SqlCell {
    Null,
    Integer(i64),
    Text(Seq<char>),
    Other,
}

impl DeepView for SqlValue {
    type V = SqlCell;

    open spec fn deep_view(&self) -> SqlCell {
        match self {
            SqlValue::Null => SqlCell::Null,
            SqlValue::Integer(i) => SqlCell::Integer(*i),
            SqlValue::Text(s) => SqlCell::Text(s@),
            SqlValue::Other => SqlCell::Other,
        }
    }
}

/// A text, or null.
pub open spec fn cell_of_opt(s: Option<Seq<char>>) -> SqlCell {
    match s {
        Some(s) => SqlCell::Text(s),
        None => SqlCell::Null,
    }
}

/// A text, or a text that stands for none.
pub open spec fn cell_or(s: Option<Seq<char>>, default: Seq<char>) -> SqlCell {
    match s {
        Some(s) => SqlCell::Text(s),
        None => SqlCell::Text(default),
    }
}

/// A number, or null.
pub open spec fn cell_of_number(n: Option<i32>) -> SqlCell {
    match n {
        Some(n) => SqlCell::Integer(n as i64),
        None => SqlCell::Null,
    }
}

/// A truth value as a number.
pub open spec fn cell_of_bool(b: bool) -> SqlCell {
    SqlCell::Integer(if b {
        1
    } else {
        0
    })
}

impl SqlValue {
    /// A text.
    pub fn text(s: &str) -> (r: SqlValue)
        ensures
            r.deep_view() == SqlCell::Text(s@),
    {
        SqlValue::Text(s.to_owned())
    }

    /// A text, or null.
    pub fn opt_text(s: &Option<String>) -> (r: SqlValue)
        ensures
            r.deep_view() == cell_of_opt(s.deep_view()),
    {
        match s {
            Some(s) => SqlValue::Text(s.clone()),
            None => SqlValue::Null,
        }
    }

    /// A text, or a text that stands for none.
    pub fn text_or(s: &Option<String>, default: &str) -> (r: SqlValue)
        ensures
            r.deep_view() == cell_or(s.deep_view(), default@),
    {
        match s {
            Some(s) => SqlValue::Text(s.clone()),
            None => SqlValue::Text(default.to_owned()),
        }
    }

    /// A copy of the value.
    pub fn copy(&self) -> (r: SqlValue)
        ensures
            r.deep_view() == self.deep_view(),
    {
        match self {
            SqlValue::Null => SqlValue::Null,
            SqlValue::Integer(i) => SqlValue::Integer(*i),
            SqlValue::Text(s) => SqlValue::Text(s.clone()),
            SqlValue::Other => SqlValue::Other,
        }
    }

    /// A number, or null.
    pub fn opt_number(n: &Option<i32>) -> (r: SqlValue)
        ensures
            r.deep_view() == cell_of_number(*n),
    {
        match n {
            Some(n) => SqlValue::Integer(*n as i64),
            None => SqlValue::Null,
        }
    }

    /// A truth value as a number.
    pub fn truth(b: bool) -> (r: SqlValue)
        ensures
            r.deep_view() == cell_of_bool(b),
    {
        SqlValue::Integer(
            if b {
                1
            } else {
                0
            },
        )
    }
}

/// A statement with the values bound to its placeholders, in order.
#[derive(Debug, Clone, PartialEq, Eq)]
pub struct Statement {
    pub sql: String,
    pub params: Vec<SqlValue>,
}

/// The view of [`Statement`].
#[verifier::ext_equal]
pub struct StatementView {
    pub sql: Seq<char>,
    pub params: Seq<SqlCell>,
}

impl DeepView for Statement {
    type V = StatementView;

    open spec fn deep_view(&self) -> StatementView {
        StatementView { sql: self.sql@, params: self.params.deep_view() }
    }
}

/// A statement with these placeholders bound.
pub open spec fn stmt(sql: Seq<char>, params: Seq<SqlCell>) -> StatementView {
    StatementView { sql, params }
}

impl Statement {
    /// A copy of the statement.
    pub fn copy(&self) -> (r: Statement)
        ensures
            r.deep_view() == self.deep_view(),
    {
        let mut params: Vec<SqlValue> = Vec::new();
        let mut i: usize = 0;
        while i < self.params.len()
            invariant
                i <= self.params.len(),
                params.len() == i,
                forall|k: int|
                    0 <= k < i ==> (#[trigger] params@[k]).deep_view()
                        == self.params@[k].deep_view(),
            decreases self.params.len() - i,
        {
            params.push(self.params[i].copy());
            i += 1;
        }
        assert(params.deep_view() =~= self.params.deep_view());
        Statement { sql: self.sql.clone(), params }
    }

    /// A statement without placeholders.
    pub fn plain(sql: &str) -> (r: Statement)
        ensures
            r.deep_view() == stmt(sql@, seq![]),
    {
        let params: Vec<SqlValue> = Vec::new();
        assert(params.deep_view() =~= seq![]);
        Statement { sql: sql.to_owned(), params }
    }

    /// A statement with one text bound.
    pub fn with_text(sql: &str, a: &str) -> (r: Statement)
        ensures
            r.deep_view() == stmt(sql@, seq![SqlCell::Text(a@)]),
    {
        let mut params: Vec<SqlValue> = Vec::new();
        params.push(SqlValue::text(a));
        assert(params.deep_view() =~= seq![SqlCell::Text(a@)]);
        Statement { sql: sql.to_owned(), params }
    }

    /// A statement with two texts bound.
    pub fn with_texts2(sql: &str, a: &str, b: &str) -> (r: Statement)
        ensures
            r.deep_view() == stmt(sql@, seq![SqlCell::Text(a@), SqlCell::Text(b@)]),
    {
        let mut params: Vec<SqlValue> = Vec::new();
        params.push(SqlValue::text(a));
        params.push(SqlValue::text(b));
        assert(params.deep_view() =~= seq![SqlCell::Text(a@), SqlCell::Text(b@)]);
        Statement { sql: sql.to_owned(), params }
    }

    /// A statement with three texts bound.
    pub fn with_texts3(sql: &str, a: &str, b: &str, c: &str) -> (r: Statement)
        ensures
            r.deep_view() == stmt(
                sql@,
                seq![SqlCell::Text(a@), SqlCell::Text(b@), SqlCell::Text(c@)],
            ),
    {
        let mut params: Vec<SqlValue> = Vec::new();
        params.push(SqlValue::text(a));
        params.push(SqlValue::text(b));
        params.push(SqlValue::text(c));
        assert(params.deep_view() =~= seq![
            SqlCell::Text(a@),
            SqlCell::Text(b@),
            SqlCell::Text(c@),
        ]);
        Statement { sql: sql.to_owned(), params }
    }
}

/// One row of a result.
#[derive(Debug, Clone, PartialEq, Eq)]
pub struct Row {
    pub values: Vec<SqlValue>,
}

impl DeepView for Row {
    type V = Seq<SqlCell>;

    open spec fn deep_view(&self) -> Seq<SqlCell> {
        self.values.deep_view()
    }
}

/// The text in a column, `None` where the column is missing or holds no text.
pub open spec fn text_at(row: Seq<SqlCell>, i: int) -> Option<Seq<char>> {
    if 0 <= i < row.len() {
        match row[i] {
            SqlCell::Text(s) => Some(s),
            _ => None,
        }
    } else {
        None
    }
}

/// The text in a column, or a text that stands for none.
pub open spec fn text_at_or(row: Seq<SqlCell>, i: int, default: Seq<char>) -> Seq<char> {
    match text_at(row, i) {
        Some(s) => s,
        None => default,
    }
}

/// The number in a column, `None` where the column is missing or holds no integer.
pub open spec fn integer_at(row: Seq<SqlCell>, i: int) -> Option<i64> {
    if 0 <= i < row.len() {
        match row[i] {
            SqlCell::Integer(n) => Some(n),
            _ => None,
        }
    } else {
        None
    }
}

/// The number in a column, 0 where there is none.
pub open spec fn integer_at_or_zero(row: Seq<SqlCell>, i: int) -> i64 {
    match integer_at(row, i) {
        Some(n) => n,
        None => 0,
    }
}

impl Row {
    /// The text in a column.
    pub fn text(&self, i: usize) -> (r: Option<String>)
        ensures
            r.deep_view() == text_at(self.deep_view(), i as int),
    {
        if i < self.values.len() {
            assert(self.deep_view()[i as int] == self.values@[i as int].deep_view());
            match &self.values[i] {
                SqlValue::Text(s) => Some(s.clone()),
                _ => None,
            }
        } else {
            None
        }
    }

    /// The text in a column, or a text that stands for none.
    pub fn text_or(&self, i: usize, default: &str) -> (r: String)
        ensures
            r@ == text_at_or(self.deep_view(), i as int, default@),
    {
        match self.text(i) {
            Some(s) => s,
            None => default.to_owned(),
        }
    }

    /// The text in a column, empty where there is none.
    pub fn text_or_empty(&self, i: usize) -> (r: String)
        ensures
            r@ == text_at_or(self.deep_view(), i as int, seq![]),
    {
        match self.text(i) {
            Some(s) => s,
            None => String::new(),
        }
    }

    /// The number in a column.
    pub fn integer(&self, i: usize) -> (r: Option<i64>)
        ensures
            r == integer_at(self.deep_view(), i as int),
    {
        if i < self.values.len() {
            assert(self.deep_view()[i as int] == self.values@[i as int].deep_view());
            match &self.values[i] {
                SqlValue::Integer(n) => Some(*n),
                _ => None,
            }
        } else {
            None
        }
    }

    /// The number in a column, 0 where there is none.
    pub fn integer_or_zero(&self, i: usize) -> (r: i64)
        ensures
            r == integer_at_or_zero(self.deep_view(), i as int),
    {
        match self.integer(i) {
            Some(n) => n,
            None => 0,
        }
    }
}

/// The texts in one column of a result, rows without a text left out.
pub open spec fn column_texts(rows: Seq<Seq<SqlCell>>, i: int) -> Seq<Seq<char>>
    decreases rows.len(),
{
    if rows.len() == 0 {
        seq![]
    } else {
        let front = column_texts(rows.drop_last(), i);
        match text_at(rows.last(), i) {
            Some(s) => front.push(s),
            None => front,
        }
    }
}

/// Collects the texts in one column of a result.
pub fn texts_in_column(rows: &Vec<Row>, i: usize) -> (r: Vec<String>)
    ensures
        r.deep_view() == column_texts(rows.deep_view(), i as int),
{
    let ghost all = rows.deep_view();
    let mut out: Vec<String> = Vec::new();
    let mut k: usize = 0;
    assert(out.deep_view() =~= column_texts(all.take(0), i as int));
    while k < rows.len()
        invariant
            all == rows.deep_view(),
            k <= rows.len(),
            out.deep_view() == column_texts(all.take(k as int), i as int),
        decreases rows.len() - k,
    {
        assert(all.take(k + 1).drop_last() =~= all.take(k as int));
        assert(all.take(k + 1).last() == rows@[k as int].deep_view());
        let ghost before = out.deep_view();
        match rows[k].text(i) {
            Some(s) => {
                let ghost item = s@;
                out.push(s);
                assert(out.deep_view() =~= before.push(item));
            },
            None => {},
        }
        k += 1;
    }
    assert(all.take(all.len() as int) =~= all);
    out
}

/// The pairs of texts in the first two columns of a result, a missing text taken as empty.
pub open spec fn pairs(rows: Seq<Seq<SqlCell>>) -> Seq<(Seq<char>, Seq<char>)> {
    rows.map_values(
        |row: Seq<SqlCell>| (text_at_or(row, 0, seq![]), text_at_or(row, 1, seq![])),
    )
}

/// Collects the pairs of texts in the first two columns of a result.
pub fn text_pairs(rows: &Vec<Row>) -> (r: Vec<(String, String)>)
    ensures
        r.deep_view() == pairs(rows.deep_view()),
{
    let mut out: Vec<(String, String)> = Vec::new();
    let mut k: usize = 0;
    while k < rows.len()
        invariant
            k <= rows.len(),
            out.len() == k,
            forall|j: int|
                0 <= j < k ==> (#[trigger] out@[j]).deep_view() == pairs(rows.deep_view())[j],
        decreases rows.len() - k,
    {
        assert(rows.deep_view()[k as int] == rows@[k as int].deep_view());
        let a = rows[k].text_or_empty(0);
        let b = rows[k].text_or_empty(1);
        out.push((a, b));
        k += 1;
    }
    assert(out.deep_view() =~= pairs(rows.deep_view()));
    out
}

/// The pairs of texts in the first two columns of a result, rows without both left out.
pub open spec fn full_pairs(rows: Seq<Seq<SqlCell>>) -> Seq<(Seq<char>, Seq<char>)>
    decreases rows.len(),
{
    if rows.len() == 0 {
        seq![]
    } else {
        let front = full_pairs(rows.drop_last());
        match (text_at(rows.last(), 0), text_at(rows.last(), 1)) {
            (Some(a), Some(b)) => front.push((a, b)),
            _ => front,
        }
    }
}

/// Collects the pairs of texts in the first two columns of a result where both are there.
pub fn full_text_pairs(rows: &Vec<Row>) -> (r: Vec<(String, String)>)
    ensures
        r.deep_view() == full_pairs(rows.deep_view()),
{
    let ghost all = rows.deep_view();
    let mut out: Vec<(String, String)> = Vec::new();
    let mut k: usize = 0;
    assert(out.deep_view() =~= full_pairs(all.take(0)));
    while k < rows.len()
        invariant
            all == rows.deep_view(),
            k <= rows.len(),
            out.deep_view() == full_pairs(all.take(k as int)),
        decreases rows.len() - k,
    {
        assert(all.take(k + 1).drop_last() =~= all.take(k as int));
        assert(all.take(k + 1).last() == rows@[k as int].deep_view());
        let ghost before = out.deep_view();
        match (rows[k].text(0), rows[k].text(1)) {
            (Some(a), Some(b)) => {
                let ghost item = (a@, b@);
                out.push((a, b));
                assert(out.deep_view() =~= before.push(item));
            },
            _ => {},
        }
        k += 1;
    }
    assert(all.take(all.len() as int) =~= all);
    out
}

/// A count that came back from the database, 0 where it is no size.
pub open spec fn size_of(n: i64) -> usize {
    if 0 <= n <= usize::MAX {
        n as usize
    } else {
        0
    }
}

/// A count that came back from the database as a size.
pub fn size_from(n: i64) -> (r: usize)
    ensures
        r == size_of(n),
{
    if n >= 0 && n as u64 <= usize::MAX as u64 {
        n as usize
    } else {
        0
    }
}

/// A piece of a statement: text that stands in it as it is, or a placeholder with its value.
pub enum Piece {
    Raw(Seq<char>),
    Bind(SqlCell),
}

/// The text of a statement made of pieces: a question mark for each placeholder.
pub open spec fn rendered(pieces: Seq<Piece>) -> Seq<char>
    decreases pieces.len(),
{
    if pieces.len() == 0 {
        seq![]
    } else {
        rendered(pieces.drop_last()) + match pieces.last() {
            Piece::Raw(s) => s,
            Piece::Bind(_) => seq!['?'],
        }
    }
}

/// The values bound to a statement made of pieces.
pub open spec fn bound(pieces: Seq<Piece>) -> Seq<SqlCell>
    decreases pieces.len(),
{
    if pieces.len() == 0 {
        seq![]
    } else {
        match pieces.last() {
            Piece::Raw(_) => bound(pieces.drop_last()),
            Piece::Bind(v) => bound(pieces.drop_last()).push(v),
        }
    }
}

/// The statement made of pieces.
pub open spec fn assembled(pieces: Seq<Piece>) -> StatementView {
    StatementView { sql: rendered(pieces), params: bound(pieces) }
}

/// A piece of text.
pub open spec fn raw(s: Seq<char>) -> Seq<Piece> {
    seq![Piece::Raw(s)]
}

/// A piece of text where `c` holds, nothing otherwise.
pub open spec fn raw_if(c: bool, s: Seq<char>) -> Seq<Piece> {
    if c {
        raw(s)
    } else {
        seq![]
    }
}

/// A text followed by a placeholder.
pub open spec fn raw_bind(s: Seq<char>, v: SqlCell) -> Seq<Piece> {
    seq![Piece::Raw(s), Piece::Bind(v)]
}

/// Placeholders for values, separated by `sep`.
pub open spec fn listed(values: Seq<SqlCell>, sep: Seq<char>) -> Seq<Piece>
    decreases values.len(),
{
    if values.len() == 0 {
        seq![]
    } else if values.len() == 1 {
        seq![Piece::Bind(values[0])]
    } else {
        listed(values.drop_last(), sep) + seq![Piece::Raw(sep), Piece::Bind(values.last())]
    }
}

/// A list of values between an opening and a closing text, nothing for an empty list.
pub open spec fn one_of(open: Seq<char>, values: Seq<SqlCell>, close: Seq<char>) -> Seq<Piece> {
    if values.len() == 0 {
        seq![]
    } else {
        raw(open) + listed(values, ","@) + raw(close)
    }
}

/// How many question marks stand in a text.
pub open spec fn marks(s: Seq<char>) -> nat
    decreases s.len(),
{
    if s.len() == 0 {
        0
    } else {
        marks(s.drop_last()) + if s.last() == '?' {
            1nat
        } else {
            0nat
        }
    }
}

/// No piece of text holds a question mark.
pub open spec fn unmarked(pieces: Seq<Piece>) -> bool {
    forall|i: int, k: int|
        0 <= i < pieces.len() && pieces[i] is Raw && 0 <= k < pieces[i]->Raw_0.len()
            ==> #[trigger] pieces[i]->Raw_0[k] != '?'
}

proof fn lemma_marks_concat(a: Seq<char>, b: Seq<char>)
    ensures
        marks(a + b) == marks(a) + marks(b),
    decreases b.len(),
{
    if b.len() == 0 {
        assert(a + b =~= a);
    } else {
        assert((a + b).drop_last() =~= a + b.drop_last());
        lemma_marks_concat(a, b.drop_last());
    }
}

proof fn lemma_no_marks(s: Seq<char>)
    requires
        forall|k: int| 0 <= k < s.len() ==> s[k] != '?',
    ensures
        marks(s) == 0,
    decreases s.len(),
{
    if s.len() > 0 {
        lemma_no_marks(s.drop_last());
    }
}

/// A statement made of pieces has as many placeholders as bound values.
pub proof fn lemma_placeholders_are_bound(pieces: Seq<Piece>)
    requires
        unmarked(pieces),
    ensures
        marks(assembled(pieces).sql) == assembled(pieces).params.len(),
    decreases pieces.len(),
{
    if pieces.len() > 0 {
        let front = pieces.drop_last();
        assert(unmarked(front)) by {
            assert forall|i: int, k: int|
                0 <= i < front.len() && front[i] is Raw && 0 <= k
                    < front[i]->Raw_0.len() implies #[trigger] front[i]->Raw_0[k] != '?' by {
                assert(pieces[i]->Raw_0[k] != '?');
            }
        }
        lemma_placeholders_are_bound(front);
        match pieces.last() {
            Piece::Raw(s) => {
                assert forall|k: int| 0 <= k < s.len() implies s[k] != '?' by {
                    assert(pieces[pieces.len() - 1]->Raw_0[k] != '?');
                }
                lemma_no_marks(s);
                lemma_marks_concat(rendered(front), s);
            },
            Piece::Bind(_) => {
                lemma_marks_concat(rendered(front), seq!['?']);
                reveal_with_fuel(marks, 2);
                assert(seq!['?'].drop_last() =~= seq![]);
                assert(marks(seq!['?']) == 1);
            },
        }
    } else {
        assert(marks(seq![]) == 0);
    }
}

/// The statement made of two runs of pieces is the one run's text and values, then the other's.
pub proof fn lemma_assembled_concat(a: Seq<Piece>, b: Seq<Piece>)
    ensures
        rendered(a + b) == rendered(a) + rendered(b),
        bound(a + b) == bound(a) + bound(b),
    decreases b.len(),
{
    if b.len() == 0 {
        assert(a + b =~= a);
        assert(rendered(a) + rendered(b) =~= rendered(a));
        assert(bound(a) + bound(b) =~= bound(a));
    } else {
        assert((a + b).drop_last() =~= a + b.drop_last());
        lemma_assembled_concat(a, b.drop_last());
        assert(rendered(a + b) =~= rendered(a) + rendered(b));
        assert(bound(a + b) =~= bound(a) + bound(b));
    }
}

/// A statement in the making.
pub struct SqlBuilder {
    sql: String,
    params: Vec<SqlValue>,
    pieces: Ghost<Seq<Piece>>,
}

impl SqlBuilder {
    /// The pieces put in so far.
    pub closed spec fn pieces(&self) -> Seq<Piece> {
        self.pieces@
    }

    /// Text and values are those of the pieces.
    pub closed spec fn wf(&self) -> bool {
        &&& self.sql@ == rendered(self.pieces@)
        &&& self.params.deep_view() == bound(self.pieces@)
    }

    /// An empty statement.
    pub fn new() -> (r: SqlBuilder)
        ensures
            r.wf(),
            r.pieces() == Seq::<Piece>::empty(),
    {
        let params: Vec<SqlValue> = Vec::new();
        assert(params.deep_view() =~= seq![]);
        SqlBuilder { sql: String::new(), params, pieces: Ghost(Seq::empty()) }
    }

    /// Appends text.
    pub fn raw(&mut self, s: &str)
        requires
            old(self).wf(),
        ensures
            final(self).wf(),
            final(self).pieces() == old(self).pieces() + raw(s@),
    {
        let ghost next = self.pieces@ + raw(s@);
        assert(next.drop_last() =~= self.pieces@);
        self.sql.append(s);
        self.pieces = Ghost(next);
    }

    /// Appends a placeholder with its value.
    pub fn bind(&mut self, v: SqlValue)
        requires
            old(self).wf(),
        ensures
            final(self).wf(),
            final(self).pieces() == old(self).pieces() + seq![Piece::Bind(v.deep_view())],
    {
        let ghost cell = v.deep_view();
        let ghost next = self.pieces@ + seq![Piece::Bind(cell)];
        let ghost before = self.params.deep_view();
        assert(next.drop_last() =~= self.pieces@);
        self.sql.push('?');
        self.params.push(v);
        assert(self.params.deep_view() =~= before.push(cell));
        assert(self.sql@ =~= rendered(next.drop_last()) + seq!['?']);
        self.pieces = Ghost(next);
    }

    /// Appends text where `c` holds.
    pub fn raw_if(&mut self, c: bool, s: &str)
        requires
            old(self).wf(),
        ensures
            final(self).wf(),
            final(self).pieces() == old(self).pieces() + raw_if(c, s@),
    {
        if c {
            self.raw(s);
        }
        assert(!c ==> self.pieces() =~= old(self).pieces() + raw_if(c, s@));
    }

    /// Appends text and a placeholder with its value.
    pub fn raw_bind(&mut self, s: &str, v: SqlValue)
        requires
            old(self).wf(),
        ensures
            final(self).wf(),
            final(self).pieces() == old(self).pieces() + raw_bind(s@, v.deep_view()),
    {
        let ghost cell = v.deep_view();
        self.raw(s);
        self.bind(v);
        assert(self.pieces() =~= old(self).pieces() + raw_bind(s@, cell));
    }

    /// Appends placeholders for values, separated by `sep`.
    pub fn list(&mut self, values: Vec<SqlValue>, sep: &str)
        requires
            old(self).wf(),
        ensures
            final(self).wf(),
            final(self).pieces() == old(self).pieces() + listed(values.deep_view(), sep@),
    {
        let ghost all = values.deep_view();
        let ghost start = self.pieces();
        let mut rest = values;
        let mut done: usize = 0;
        let ghost mut taken: Seq<SqlCell> = seq![];
        assert(self.pieces() =~= start + listed(taken, sep@));
        while rest.len() > 0
            invariant
                self.wf(),
                taken.len() == done,
                taken + rest.deep_view() == all,
                done + rest.len() == all.len(),
                all.len() <= usize::MAX,
                self.pieces() == start + listed(taken, sep@),
            decreases rest.len(),
        {
            let ghost tail = rest.deep_view();
            let v = rest.remove(0);
            assert(v.deep_view() == tail[0]);
            assert(rest.deep_view() =~= tail.drop_first());
            let ghost before = self.pieces();
            let ghost next = taken.push(v.deep_view());
            let ghost cell = v.deep_view();
            assert(next.drop_last() =~= taken);
            if done > 0 {
                self.raw_bind(sep, v);
                assert(self.pieces() =~= start + listed(next, sep@));
            } else {
                self.bind(v);
                assert(listed(taken, sep@) =~= seq![]);
                assert(self.pieces() =~= start + listed(next, sep@));
            }
            assert(next + rest.deep_view() =~= taken + tail);
            proof {
                taken = next;
            }
            done += 1;
        }
        assert(taken =~= all);
    }

    /// Appends a list of values between an opening and a closing text, nothing for an empty list.
    pub fn one_of(&mut self, open: &str, values: Vec<SqlValue>, close: &str)
        requires
            old(self).wf(),
        ensures
            final(self).wf(),
            final(self).pieces() == old(self).pieces() + one_of(
                open@,
                values.deep_view(),
                close@,
            ),
    {
        let ghost start = self.pieces();
        let ghost all = values.deep_view();
        if values.len() > 0 {
            self.raw(open);
            self.list(values, ",");
            self.raw(close);
            assert(self.pieces() =~= start + one_of(open@, all, close@));
        } else {
            assert(self.pieces() =~= start + one_of(open@, all, close@));
        }
    }

    /// The finished statement.
    pub fn finish(self) -> (r: Statement)
        requires
            self.wf(),
        ensures
            r.deep_view() == assembled(self.pieces()),
    {
        Statement { sql: self.sql, params: self.params }
    }
}

/// Texts as values to bind.
pub open spec fn text_cells(list: Seq<Seq<char>>) -> Seq<SqlCell> {
    list.map_values(|s: Seq<char>| SqlCell::Text(s))
}

/// Texts as values to bind.
pub fn text_values(list: &Vec<String>) -> (r: Vec<SqlValue>)
    ensures
        r.deep_view() == text_cells(list.deep_view()),
{
    let mut out: Vec<SqlValue> = Vec::new();
    let mut i: usize = 0;
    while i < list.len()
        invariant
            i <= list.len(),
            out.len() == i,
            forall|k: int|
                0 <= k < i ==> (#[trigger] out@[k]).deep_view() == SqlCell::Text(list@[k]@),
        decreases list.len() - i,
    {
        out.push(SqlValue::text(list[i].as_str()));
        i += 1;
    }
    assert(out.deep_view() =~= text_cells(list.deep_view()));
    out
}

} // verus!
