//! Comments on issues.

use crate::assoc::TextMap;
use crate::clock::Timestamp;
use crate::error::BeadsError;
use crate::links::touch;
use crate::model::{Comment, EventType};
use crate::mutation::MutationContext;
use crate::rows::datetime_in;
use crate::sql::{Row, SqlValue, Statement};
use vstd::prelude::*;

verus! {

use crate::assoc::grouped;
use crate::clock::rfc3339;
use crate::error::{outcome, BeadsErrorView};
use crate::links::touch_statement;
use crate::model::CommentView;
use crate::rows::datetime_at;
use crate::sql::{integer_at_or_zero, stmt, text_at_or, SqlCell, StatementView};

/// Query for the comments of an issue.
pub fn comments_query(issue_id: &str) -> (r: Statement)
    ensures
        r.deep_view() == stmt(
            "SELECT id, issue_id, author, text, created_at FROM comments WHERE issue_id = ? ORDER BY created_at ASC"@,
            seq![SqlCell::Text(issue_id@)],
        ),
        crate::asked::ask_comments_of(issue_id@).is(r.deep_view()),
{
    proof {
        crate::asked::lemma_ask_comments_of_text(issue_id@);
    }
    Statement::with_text(
        "SELECT id, issue_id, author, text, created_at FROM comments WHERE issue_id = ? ORDER BY created_at ASC",
        issue_id,
    )
}

/// Query for all comments of all issues.
pub fn all_comments_query() -> (r: Statement)
    ensures
        r.deep_view() == stmt(
            "SELECT id, issue_id, author, text, created_at FROM comments ORDER BY issue_id, created_at ASC"@,
            seq![],
        ),
        crate::asked::ask_all_comments().is(r.deep_view()),
{
    proof {
        crate::asked::lemma_ask_all_comments_text();
    }
    Statement::plain(
        "SELECT id, issue_id, author, text, created_at FROM comments ORDER BY issue_id, created_at ASC",
    )
}

/// Query for a comment by ID.
pub fn comment_query(comment_id: i64) -> (r: Statement)
    ensures
        r.deep_view() == stmt(
            "SELECT id, issue_id, author, text, created_at FROM comments WHERE id = ?"@,
            seq![SqlCell::Integer(comment_id)],
        ),
{
    let params: Vec<SqlValue> = vec![SqlValue::Integer(comment_id)];
    assert(params.deep_view() =~= seq![SqlCell::Integer(comment_id)]);
    Statement {
        sql: "SELECT id, issue_id, author, text, created_at FROM comments WHERE id = ?".to_owned(),
        params,
    }
}

/// The comment in a row, or the error of its date.
pub open spec fn comment_of_row(row: Seq<SqlCell>) -> Result<CommentView, BeadsErrorView> {
    match datetime_at(row, 4) {
        Ok(created_at) => Ok(
            CommentView {
                id: integer_at_or_zero(row, 0),
                issue_id: text_at_or(row, 1, seq![]),
                author: text_at_or(row, 2, seq![]),
                body: text_at_or(row, 3, seq![]),
                created_at,
            },
        ),
        Err(e) => Err(e),
    }
}

/// Reads a comment from a row.
pub fn fetch_comment(row: &Row) -> (r: Result<Comment, BeadsError>)
    ensures
        outcome(r) == comment_of_row(row.deep_view()),
{
    match datetime_in(row, 4) {
        Ok(created_at) => Ok(
            Comment {
                id: row.integer_or_zero(0),
                issue_id: row.text_or_empty(1),
                author: row.text_or_empty(2),
                body: row.text_or_empty(3),
                created_at,
            },
        ),
        Err(e) => Err(e),
    }
}

/// The comments in rows, or the error of the first row that cannot be read.
pub open spec fn comments_of_rows(rows: Seq<Seq<SqlCell>>) -> Result<
    Seq<CommentView>,
    BeadsErrorView,
>
    decreases rows.len(),
{
    if rows.len() == 0 {
        Ok(seq![])
    } else {
        match comments_of_rows(rows.drop_last()) {
            Ok(front) => match comment_of_row(rows.last()) {
                Ok(c) => Ok(front.push(c)),
                Err(e) => Err(e),
            },
            Err(e) => Err(e),
        }
    }
}

proof fn lemma_comments_error(rows: Seq<Seq<SqlCell>>, k: int)
    requires
        0 <= k <= rows.len(),
        comments_of_rows(rows.take(k)) is Err,
    ensures
        comments_of_rows(rows) == comments_of_rows(rows.take(k)),
    decreases rows.len() - k,
{
    if k == rows.len() {
        assert(rows.take(k) =~= rows);
    } else {
        assert(rows.drop_last().take(k) =~= rows.take(k));
        lemma_comments_error(rows.drop_last(), k);
    }
}

/// Get comments from rows.
pub fn get_comments(rows: &Vec<Row>) -> (r: Result<Vec<Comment>, BeadsError>)
    ensures
        outcome(r) == comments_of_rows(rows.deep_view()),
{
    let ghost all = rows.deep_view();
    let mut out: Vec<Comment> = Vec::new();
    let mut i: usize = 0;
    assert(out.deep_view() =~= seq![]);
    while i < rows.len()
        invariant
            all == rows.deep_view(),
            i <= rows.len(),
            comments_of_rows(all.take(i as int)) == Ok::<Seq<CommentView>, BeadsErrorView>(
                out.deep_view(),
            ),
        decreases rows.len() - i,
    {
        assert(all.take(i + 1).drop_last() =~= all.take(i as int));
        assert(all.take(i + 1).last() == rows@[i as int].deep_view());
        match fetch_comment(&rows[i]) {
            Ok(c) => {
                let ghost before = out.deep_view();
                let ghost item = c.deep_view();
                out.push(c);
                assert(out.deep_view() =~= before.push(item));
            },
            Err(e) => {
                proof {
                    lemma_comments_error(all, i + 1);
                }
                return Err(e);
            },
        }
        i += 1;
    }
    assert(all.take(all.len() as int) =~= all);
    Ok(out)
}

/// Comments, paired with the issue they are on.
pub open spec fn by_issue(comments: Seq<CommentView>) -> Seq<(Seq<char>, CommentView)> {
    comments.map_values(|c: CommentView| (c.issue_id, c))
}

/// Get all comments for all issues, from the rows of the query for them.
///
/// Returns a map from `issue_id` to its list of comments.
pub fn get_all_comments(rows: &Vec<Row>) -> (r: Result<TextMap<Vec<Comment>>, BeadsError>)
    ensures
        outcome(r) == (match comments_of_rows(rows.deep_view()) {
            Ok(comments) => Ok(grouped(by_issue(comments))),
            Err(e) => Err(e),
        }),
{
    let comments = match get_comments(rows) {
        Ok(comments) => comments,
        Err(e) => {
            return Err(e);
        },
    };
    let ghost all = by_issue(comments.deep_view());
    let ghost raw = comments@;
    let mut out: TextMap<Vec<Comment>> = TextMap::new();
    let mut rest = comments;
    let ghost mut n: int = 0;
    assert(grouped(all.take(0)) =~= seq![]);
    assert(raw.skip(0) =~= raw);
    while rest.len() > 0
        invariant
            0 <= n <= raw.len(),
            all.len() == raw.len(),
            forall|k: int|
                0 <= k < raw.len() ==> #[trigger] all[k] == (raw[k].issue_id@, raw[k].deep_view()),
            rest@ == raw.skip(n),
            out.deep_view() == grouped(all.take(n)),
        decreases rest.len(),
    {
        let c = rest.remove(0);
        assert(c == raw[n]);
        assert(rest@ =~= raw.skip(n + 1));
        assert(all.take(n + 1).drop_last() =~= all.take(n));
        assert(all.take(n + 1).last() == all[n]);
        let id = c.issue_id.clone();
        out.append(id.as_str(), c);
        proof {
            n = n + 1;
        }
    }
    assert(all.take(n) =~= all);
    Ok(out)
}

/// Statement that inserts a comment, dated by the database.
pub fn insert_comment_row(issue_id: &str, author: &str, text: &str) -> (r: Statement)
    ensures
        r.deep_view() == stmt(
            "INSERT INTO comments (issue_id, author, text, created_at) VALUES (?, ?, ?, CURRENT_TIMESTAMP)"@,
            seq![SqlCell::Text(issue_id@), SqlCell::Text(author@), SqlCell::Text(text@)],
        ),
{
    Statement::with_texts3(
        "INSERT INTO comments (issue_id, author, text, created_at) VALUES (?, ?, ?, CURRENT_TIMESTAMP)",
        issue_id,
        author,
        text,
    )
}

/// Query for the ID of the comment inserted last.
pub fn inserted_comment_query() -> (r: Statement)
    ensures
        r.deep_view() == stmt("SELECT last_insert_rowid()"@, seq![]),
{
    Statement::plain("SELECT last_insert_rowid()")
}

/// Add a comment to an issue: what is left to do once its row has been inserted.
pub fn add_comment(
    issue_id: &str,
    text: &str,
    ctx: &mut MutationContext,
    now: Timestamp,
) -> (r: Statement)
    ensures
        r.deep_view() == touch_statement(issue_id@, now.deep_view()),
        final(ctx).deep_view() == old(ctx).deep_view().with_event(
            EventType::Commented,
            issue_id@,
            Some(text@),
            now.deep_view(),
        ).with_dirty(issue_id@),
        crate::mutation::recorded(
            old(ctx).deep_view(),
            final(ctx).deep_view(),
            EventType::Commented,
            issue_id@,
            now.deep_view(),
        ),
{
    proof {
        crate::mutation::lemma_recorded(
            old(ctx).deep_view(),
            EventType::Commented,
            issue_id@,
            Some(text@),
            now.deep_view(),
        );
    }
    ctx.record_event(EventType::Commented, issue_id, Some(text.to_owned()), now);
    ctx.mark_dirty(issue_id);
    touch(issue_id, now)
}

/// The statement that adds a comment of an imported issue.
pub open spec fn import_comment(issue_id: Seq<char>, c: CommentView) -> StatementView {
    stmt(
        "INSERT OR REPLACE INTO comments (id, issue_id, author, text, created_at) VALUES (?, ?, ?, ?, ?)"@,
        seq![
            SqlCell::Integer(c.id),
            SqlCell::Text(issue_id),
            SqlCell::Text(c.author),
            SqlCell::Text(c.body),
            SqlCell::Text(rfc3339(c.created_at)),
        ],
    )
}

/// Sync comments for an issue (remove existing, add new).
pub fn sync_comments_for_import(issue_id: &str, comments: &Vec<Comment>) -> (r: Vec<Statement>)
    ensures
        r.deep_view() == seq![
            stmt("DELETE FROM comments WHERE issue_id = ?"@, seq![SqlCell::Text(issue_id@)]),
        ] + comments.deep_view().map_values(|c: CommentView| import_comment(issue_id@, c)),
        crate::written::drop_comments_removed(issue_id@).is(r.deep_view()[0]),
{
    proof {
        crate::written::lemma_drop_comments_removed_text(issue_id@);
    }
    let mut out: Vec<Statement> = Vec::new();
    out.push(Statement::with_text("DELETE FROM comments WHERE issue_id = ?", issue_id));
    let mut i: usize = 0;
    while i < comments.len()
        invariant
            i <= comments.len(),
            out.len() == i + 1,
            out@[0].deep_view() == stmt(
                "DELETE FROM comments WHERE issue_id = ?"@,
                seq![SqlCell::Text(issue_id@)],
            ),
            forall|k: int|
                1 <= k < i + 1 ==> (#[trigger] out@[k]).deep_view() == import_comment(
                    issue_id@,
                    comments@[k - 1].deep_view(),
                ),
        decreases comments.len() - i,
    {
        let c = &comments[i];
        let params: Vec<SqlValue> = vec![
            SqlValue::Integer(c.id),
            SqlValue::text(issue_id),
            SqlValue::text(c.author.as_str()),
            SqlValue::text(c.body.as_str()),
            SqlValue::Text(c.created_at.to_rfc3339()),
        ];
        assert(params.deep_view() =~= import_comment(issue_id@, c.deep_view()).params);
        out.push(
            Statement {
                sql: "INSERT OR REPLACE INTO comments (id, issue_id, author, text, created_at) VALUES (?, ?, ?, ?, ?)".to_owned(),
                params,
            },
        );
        i += 1;
    }
    assert(out.deep_view() =~= seq![
        stmt("DELETE FROM comments WHERE issue_id = ?"@, seq![SqlCell::Text(issue_id@)]),
    ] + comments.deep_view().map_values(|c: CommentView| import_comment(issue_id@, c)));
    out
}

} // verus!
