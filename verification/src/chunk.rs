//! Long lists of values cut into runs that one statement can bind.

use crate::sql::{text_values, SqlBuilder, Statement};
use vstd::prelude::*;

verus! {

use crate::sql::{assembled, listed, raw, text_cells, StatementView};

/// How many values are bound to one statement at most.
pub const SQLITE_VAR_LIMIT: usize = 900;

/// A sequence cut into runs of `n`, the last one as long as what is left.
pub open spec fn chunked<T>(s: Seq<T>, n: int) -> Seq<Seq<T>>
    decreases s.len(),
{
    if s.len() == 0 || n <= 0 {
        seq![]
    } else if s.len() <= n {
        seq![s]
    } else {
        seq![s.take(n)] + chunked(s.skip(n), n)
    }
}

/// Runs put together again.
pub open spec fn concatenated<T>(runs: Seq<Seq<T>>) -> Seq<T>
    decreases runs.len(),
{
    if runs.len() == 0 {
        seq![]
    } else {
        concatenated(runs.drop_last()) + runs.last()
    }
}

proof fn lemma_concatenated_front<T>(first: Seq<T>, runs: Seq<Seq<T>>)
    ensures
        concatenated(seq![first] + runs) == first + concatenated(runs),
    decreases runs.len(),
{
    reveal_with_fuel(concatenated, 2);
    if runs.len() == 0 {
        assert((seq![first] + runs).drop_last() =~= seq![]);
        assert(concatenated(seq![first] + runs) =~= first + concatenated(runs));
    } else {
        assert((seq![first] + runs).drop_last() =~= seq![first] + runs.drop_last());
        lemma_concatenated_front(first, runs.drop_last());
        assert(concatenated(seq![first] + runs) =~= first + concatenated(runs));
    }
}

/// The runs cover the sequence: each is as long as the limit allows, none is empty, and put
/// together they are the sequence in its order.
pub proof fn lemma_chunked_covers<T>(s: Seq<T>, n: int)
    requires
        n > 0,
    ensures
        concatenated(chunked(s, n)) == s,
        forall|i: int|
            0 <= i < chunked(s, n).len() ==> 0 < (#[trigger] chunked(s, n)[i]).len() <= n,
    decreases s.len(),
{
    let runs = chunked(s, n);
    reveal_with_fuel(concatenated, 2);
    if s.len() == 0 {
        assert(concatenated(runs) =~= s);
    } else if s.len() <= n {
        assert(runs.drop_last() =~= seq![]);
        assert(concatenated(runs) =~= s);
    } else {
        let rest = chunked(s.skip(n), n);
        lemma_chunked_covers(s.skip(n), n);
        lemma_concatenated_front(s.take(n), rest);
        assert(s.take(n) + s.skip(n) =~= s);
        assert forall|i: int| 0 <= i < runs.len() implies 0 < (#[trigger] runs[i]).len() <= n by {
            if i > 0 {
                assert(runs[i] == rest[i - 1]);
            }
        }
    }
}

/// A statement that lists texts between an opening and a closing text.
pub open spec fn list_statement(
    open: Seq<char>,
    ids: Seq<Seq<char>>,
    sep: Seq<char>,
    close: Seq<char>,
) -> StatementView {
    assembled(raw(open) + listed(text_cells(ids), sep) + raw(close))
}

/// One statement for each run of texts.
pub open spec fn list_statements(
    open: Seq<char>,
    ids: Seq<Seq<char>>,
    sep: Seq<char>,
    close: Seq<char>,
) -> Seq<StatementView> {
    chunked(ids, SQLITE_VAR_LIMIT as int).map_values(
        |run: Seq<Seq<char>>| list_statement(open, run, sep, close),
    )
}

/// Cuts a list of texts into runs.
pub fn chunks(ids: &Vec<String>, n: usize) -> (r: Vec<Vec<String>>)
    requires
        n > 0,
    ensures
        r.deep_view() == chunked(ids.deep_view(), n as int),
{
    let ghost all = ids.deep_view();
    let mut out: Vec<Vec<String>> = Vec::new();
    let mut from: usize = 0;
    assert(all.skip(0) =~= all);
    assert(out.deep_view() + chunked(all, n as int) =~= chunked(all, n as int));
    while from < ids.len()
        invariant
            n > 0,
            all == ids.deep_view(),
            from <= ids.len(),
            out.deep_view() + chunked(all.skip(from as int), n as int) == chunked(all, n as int),
        decreases ids.len() - from,
    {
        let to: usize = if ids.len() - from <= n {
            ids.len()
        } else {
            from + n
        };
        let ghost rest = all.skip(from as int);
        let mut run: Vec<String> = Vec::new();
        let mut i: usize = from;
        while i < to
            invariant
                all == ids.deep_view(),
                from <= i <= to <= ids.len(),
                run.len() == i - from,
                forall|k: int| 0 <= k < run.len() ==> (#[trigger] run@[k])@ == all[from + k],
            decreases to - i,
        {
            run.push(ids[i].clone());
            i += 1;
        }
        assert(run.deep_view() =~= rest.take(to - from));
        let ghost before = out.deep_view();
        let ghost item = run.deep_view();
        out.push(run);
        assert(out.deep_view() =~= before.push(item));
        proof {
            if rest.len() <= n {
                assert(rest.take(to - from) =~= rest);
                assert(all.skip(to as int) =~= seq![]);
                assert(out.deep_view() + chunked(all.skip(to as int), n as int) =~= before
                    + chunked(rest, n as int));
            } else {
                assert(rest.skip(n as int) =~= all.skip(to as int));
                assert(out.deep_view() + chunked(all.skip(to as int), n as int) =~= before
                    + chunked(rest, n as int));
            }
        }
        from = to;
    }
    assert(all.skip(from as int) =~= seq![]);
    assert(out.deep_view() =~= chunked(all, n as int));
    out
}

/// Makes a statement that lists texts between an opening and a closing text.
pub fn list_texts(open: &str, ids: &Vec<String>, sep: &str, close: &str) -> (r: Statement)
    ensures
        r.deep_view() == list_statement(open@, ids.deep_view(), sep@, close@),
{
    let mut b = SqlBuilder::new();
    b.raw(open);
    b.list(text_values(ids), sep);
    b.raw(close);
    assert(b.pieces() =~= raw(open@) + listed(text_cells(ids.deep_view()), sep@) + raw(close@));
    b.finish()
}

/// Makes one statement for each run of texts.
pub fn list_texts_in_runs(open: &str, ids: &Vec<String>, sep: &str, close: &str) -> (r: Vec<
    Statement,
>)
    ensures
        r.deep_view() == list_statements(open@, ids.deep_view(), sep@, close@),
{
    let runs = chunks(ids, SQLITE_VAR_LIMIT);
    let ghost all = runs.deep_view();
    let mut out: Vec<Statement> = Vec::new();
    let mut i: usize = 0;
    while i < runs.len()
        invariant
            i <= runs.len(),
            all == runs.deep_view(),
            out.len() == i,
            forall|k: int|
                0 <= k < i ==> (#[trigger] out@[k]).deep_view() == list_statement(
                    open@,
                    all[k],
                    sep@,
                    close@,
                ),
        decreases runs.len() - i,
    {
        out.push(list_texts(open, &runs[i], sep, close));
        i += 1;
    }
    assert(out.deep_view() =~= list_statements(open@, ids.deep_view(), sep@, close@));
    out
}

} // verus!
