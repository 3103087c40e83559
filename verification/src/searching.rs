//! What listing, searching and asking for ready issues select and in which order, whatever issues
//! are stored.

use crate::queries::ReadySortPolicy;
use vstd::prelude::*;

verus! {

broadcast use vstd::seq_lib::group_to_multiset_ensures;

use crate::clock::{rfc3339, Instant};
use crate::issues::select_columns;
use crate::model::{IssueTypeView, StatusView};
use crate::pattern::{lemma_escaped_matches_inside, like, occurs_at};
use crate::queries::{
    any_label,
    assignee_is,
    capped_limit,
    date_is,
    every_label,
    inside_pattern,
    items,
    limit_pieces,
    list_order,
    list_pieces,
    parent_condition,
    priority_cells,
    ready_condition,
    ready_order,
    ready_pieces,
    search_pieces,
    search_start,
    status_cells,
    title_carries,
    type_cells,
    with_filters,
    wrapped_limit,
    ListFiltersView,
    ReadyFiltersView,
};
use crate::sql::{one_of, raw, raw_bind, raw_if, Piece, SqlCell};
use crate::text::{lemma_text_le_total, lemma_text_le_transitive, text_le};

/// What is stored of an issue, as far as the queries look at it.
pub struct Stored {
    pub id: Seq<char>,
    pub title: Seq<char>,
    pub description: Option<Seq<char>>,
    pub status: Seq<char>,
    pub issue_type: Seq<char>,
    pub priority: i32,
    pub assignee: Option<Seq<char>>,
    pub is_template: bool,
    pub pinned: bool,
    pub ephemeral: bool,
    pub created_at: Seq<char>,
    pub updated_at: Seq<char>,
    /// The second to which the issue is put off.
    pub defer_until: Option<int>,
    pub labels: Set<Seq<char>>,
    /// The issues of which it is a child.
    pub parents: Set<Seq<char>>,
    /// The cache of blocked issues has an entry for it.
    pub blocked: bool,
}

/// A condition in a query for issues.
pub enum Condition {
    StatusIn(Seq<StatusView>),
    TypeIn(Seq<IssueTypeView>),
    PriorityIn(Seq<i32>),
    Assignee(Seq<char>),
    Unassigned,
    NotClosed,
    NotClosedOrDeferred,
    NotTemplate,
    Label(Seq<char>),
    AnyLabel(Seq<Seq<char>>),
    Title(Seq<char>),
    UpdatedBy(Instant),
    UpdatedSince(Instant),
    /// The title, the description or the ID carries a text.
    Carries(Seq<char>),
    /// Open or in progress.
    Active,
    ActiveOrDeferred,
    NotBlocked,
    /// Not put off to a later time.
    NotPutOff,
    NotPinned,
    NotEphemeral,
    NotWisp,
    ChildOf(Seq<char>),
    /// One of these issues.
    Among(Seq<Seq<char>>),
}

/// A letter of the Latin alphabet in lower case, any other character as it is.
pub open spec fn lower(c: char) -> char {
    if 'A' <= c <= 'Z' {
        (c as int + 32) as char
    } else {
        c
    }
}

/// A text with the letters of the Latin alphabet in lower case.
pub open spec fn lowered(s: Seq<char>) -> Seq<char> {
    s.map_values(|c: char| lower(c))
}

/// The characters are equal, or one is the capital of the other.
pub open spec fn same_letter() -> spec_fn(char, char) -> bool {
    |a: char, b: char| lower(a) == lower(b)
}

/// The text carries another one somewhere, in capitals or not.
pub open spec fn carries(text: Seq<char>, s: Seq<char>) -> bool {
    exists|k: int| occurs_at(s, text, k, same_letter())
}

/// The text matches the pattern of what carries another one.
pub open spec fn matches_inside(text: Seq<char>, s: Seq<char>) -> bool {
    like(inside_pattern(s), text, same_letter())
}

/// The title, the description or the ID of an issue carries a text.
pub open spec fn mentions(issue: Stored, s: Seq<char>) -> bool {
    carries(issue.title, s) || (issue.description matches Some(d) && carries(d, s)) || carries(
        issue.id,
        s,
    )
}

impl Condition {
    /// Whether a stored issue meets the condition at the second `now`. Stored dates compare as
    /// texts.
    pub open spec fn met(self, issue: Stored, now: int) -> bool {
        match self {
            Condition::StatusIn(list) => exists|k: int|
                0 <= k < list.len() && (#[trigger] list[k]).name() == issue.status,
            Condition::TypeIn(list) => exists|k: int|
                0 <= k < list.len() && (#[trigger] list[k]).name() == issue.issue_type,
            Condition::PriorityIn(list) => list.contains(issue.priority),
            Condition::Assignee(name) => issue.assignee == Some(name),
            Condition::Unassigned => issue.assignee is None,
            Condition::NotClosed => issue.status != "closed"@ && issue.status != "tombstone"@,
            Condition::NotClosedOrDeferred => issue.status != "closed"@ && issue.status
                != "tombstone"@ && issue.status != "deferred"@,
            Condition::NotTemplate => !issue.is_template,
            Condition::Label(label) => issue.labels.contains(label),
            Condition::AnyLabel(list) => exists|k: int|
                0 <= k < list.len() && issue.labels.contains(#[trigger] list[k]),
            Condition::Title(s) => matches_inside(issue.title, s),
            Condition::UpdatedBy(t) => text_le(issue.updated_at, rfc3339(t)),
            Condition::UpdatedSince(t) => text_le(rfc3339(t), issue.updated_at),
            Condition::Carries(s) => matches_inside(issue.title, s) || (
            issue.description matches Some(d) && matches_inside(d, s)) || matches_inside(
                issue.id,
                s,
            ),
            Condition::Active => issue.status == "open"@ || issue.status == "in_progress"@,
            Condition::ActiveOrDeferred => issue.status == "open"@ || issue.status
                == "in_progress"@ || issue.status == "deferred"@,
            Condition::NotBlocked => !issue.blocked,
            Condition::NotPutOff => issue.defer_until matches Some(t) ==> t <= now,
            Condition::NotPinned => !issue.pinned,
            Condition::NotEphemeral => !issue.ephemeral,
            Condition::NotWisp => !carries(issue.id, "-wisp-"@),
            Condition::ChildOf(parent) => issue.parents.contains(parent),
            Condition::Among(ids) => ids.contains(issue.id),
        }
    }

    /// The condition in the text of a query. `close` is what closes a list.
    pub open spec fn pieces(self, close: Seq<char>) -> Seq<Piece> {
        match self {
            Condition::StatusIn(list) => one_of(" AND status IN ("@, status_cells(list), close),
            Condition::TypeIn(list) => one_of(" AND issue_type IN ("@, type_cells(list), close),
            Condition::PriorityIn(list) => one_of(
                " AND priority IN ("@,
                priority_cells(list),
                close,
            ),
            Condition::Assignee(name) => assignee_is(Some(name)),
            Condition::Unassigned => raw(" AND assignee IS NULL"@),
            Condition::NotClosed => raw(" AND status NOT IN ('closed', 'tombstone')"@),
            Condition::NotClosedOrDeferred => raw(
                " AND status NOT IN ('closed', 'tombstone', 'deferred')"@,
            ),
            Condition::NotTemplate => raw(" AND (is_template = 0 OR is_template IS NULL)"@),
            Condition::Label(label) => raw_bind(
                " AND id IN (SELECT issue_id FROM labels WHERE label = "@,
                SqlCell::Text(label),
            ) + raw(")"@),
            Condition::AnyLabel(list) => any_label(list),
            Condition::Title(s) => title_carries(Some(s)),
            Condition::UpdatedBy(t) => date_is(" AND updated_at <= "@, Some(t)),
            Condition::UpdatedSince(t) => date_is(" AND updated_at >= "@, Some(t)),
            Condition::Carries(s) => {
                let pattern = SqlCell::Text(inside_pattern(s));
                raw_bind(" AND (title LIKE "@, pattern) + raw_bind(
                    " ESCAPE '\\' OR description LIKE "@,
                    pattern,
                ) + raw_bind(" ESCAPE '\\' OR id LIKE "@, pattern) + raw(" ESCAPE '\\')"@)
            },
            Condition::Active => raw(" AND status IN ('open', 'in_progress')"@),
            Condition::ActiveOrDeferred => raw(
                " AND status IN ('open', 'in_progress', 'deferred')"@,
            ),
            Condition::NotBlocked => raw(
                " AND NOT EXISTS (SELECT 1 FROM blocked_issues_cache WHERE issue_id = issues.id)"@,
            ),
            Condition::NotPutOff => raw(
                " AND (defer_until IS NULL OR datetime(defer_until) <= datetime('now'))"@,
            ),
            Condition::NotPinned => raw(" AND (pinned = 0 OR pinned IS NULL)"@),
            Condition::NotEphemeral => raw(" AND (ephemeral = 0 OR ephemeral IS NULL)"@),
            Condition::NotWisp => raw(" AND id NOT LIKE '%-wisp-%'"@),
            Condition::ChildOf(parent) => parent_condition(Some(parent), false, seq![]),
            Condition::Among(ids) => parent_condition(Some(seq![]), true, ids),
        }
    }
}

/// One condition after the other, in the text of a query.
pub open spec fn condition_pieces(list: Seq<Condition>, close: Seq<char>) -> Seq<Piece>
    decreases list.len(),
{
    if list.len() == 0 {
        seq![]
    } else {
        condition_pieces(list.drop_last(), close) + list.last().pieces(close)
    }
}

/// A condition where `given` holds, none otherwise.
pub open spec fn where_given(given: bool, c: Condition) -> Seq<Condition> {
    if given {
        seq![c]
    } else {
        seq![]
    }
}

/// The condition that every one of these labels is on the issue.
pub open spec fn label_conditions(labels: Seq<Seq<char>>) -> Seq<Condition> {
    labels.map_values(|label: Seq<char>| Condition::Label(label))
}

/// The conditions on the state of an issue that listing and searching share.
pub open spec fn state_conditions(f: ListFiltersView) -> Seq<Condition> {
    where_given(items(f.statuses).len() > 0, Condition::StatusIn(items(f.statuses)))
        + where_given(items(f.types).len() > 0, Condition::TypeIn(items(f.types))) + where_given(
        items(f.priorities).len() > 0,
        Condition::PriorityIn(items(f.priorities)),
    ) + where_given(f.assignee is Some, Condition::Assignee(f.assignee->0)) + where_given(
        f.unassigned,
        Condition::Unassigned,
    ) + where_given(!f.include_closed && f.include_deferred, Condition::NotClosed) + where_given(
        !f.include_closed && !f.include_deferred,
        Condition::NotClosedOrDeferred,
    )
}

/// The other conditions that listing and searching share.
pub open spec fn other_conditions(f: ListFiltersView) -> Seq<Condition> {
    where_given(!f.include_templates, Condition::NotTemplate) + label_conditions(items(f.labels))
        + where_given(items(f.labels_or).len() > 0, Condition::AnyLabel(items(f.labels_or)))
        + where_given(f.title_contains is Some, Condition::Title(f.title_contains->0))
}

/// The conditions that listing and searching share.
pub open spec fn shared_conditions(f: ListFiltersView) -> Seq<Condition> {
    state_conditions(f) + other_conditions(f)
}

/// The conditions of a listing.
pub open spec fn list_conditions(f: ListFiltersView) -> Seq<Condition> {
    shared_conditions(f) + where_given(
        f.updated_before is Some,
        Condition::UpdatedBy(f.updated_before->0),
    ) + where_given(f.updated_after is Some, Condition::UpdatedSince(f.updated_after->0))
}

/// The conditions of a search.
pub open spec fn search_conditions(query: Seq<char>, f: ListFiltersView) -> Seq<Condition> {
    seq![Condition::Carries(query)] + shared_conditions(f)
}

/// The conditions that make an issue ready.
pub open spec fn ready_state(include_deferred: bool) -> Seq<Condition> {
    where_given(include_deferred, Condition::ActiveOrDeferred) + where_given(
        !include_deferred,
        Condition::Active,
    ) + seq![Condition::NotBlocked] + where_given(!include_deferred, Condition::NotPutOff) + seq![
        Condition::NotPinned,
        Condition::NotEphemeral,
        Condition::NotWisp,
        Condition::NotTemplate,
    ]
}

/// The filters on the type of ready issues.
pub open spec fn ready_types(f: ReadyFiltersView) -> Seq<Condition> {
    where_given(items(f.types).len() > 0, Condition::TypeIn(items(f.types)))
}

/// The other filters on ready issues, given the descendants of the parent asked for.
pub open spec fn ready_filters(f: ReadyFiltersView, descendants: Seq<Seq<char>>) -> Seq<Condition> {
    where_given(items(f.priorities).len() > 0, Condition::PriorityIn(items(f.priorities)))
        + where_given(f.assignee is Some, Condition::Assignee(f.assignee->0)) + where_given(
        f.unassigned,
        Condition::Unassigned,
    ) + label_conditions(f.labels_and) + where_given(
        f.labels_or.len() > 0,
        Condition::AnyLabel(f.labels_or),
    ) + where_given(f.parent is Some && f.recursive, Condition::Among(descendants)) + where_given(
        f.parent is Some && !f.recursive,
        Condition::ChildOf(f.parent->0),
    )
}

/// The conditions of the query for ready issues.
pub open spec fn ready_conditions(f: ReadyFiltersView, descendants: Seq<Seq<char>>) -> Seq<
    Condition,
> {
    ready_state(f.include_deferred) + ready_types(f) + ready_filters(f, descendants)
}

/// An issue can be worked on: it is open or in progress, not blocked, not put off to a later time,
/// neither pinned nor ephemeral, and neither a wisp nor a template. With deferred issues included,
/// deferred ones are ready too, whatever time they are put off to.
pub open spec fn is_ready(issue: Stored, include_deferred: bool, now: int) -> bool {
    &&& issue.status == "open"@ || issue.status == "in_progress"@ || (include_deferred
        && issue.status == "deferred"@)
    &&& !issue.blocked
    &&& include_deferred || (issue.defer_until matches Some(t) ==> t <= now)
    &&& !issue.pinned
    &&& !issue.ephemeral
    &&& !carries(issue.id, "-wisp-"@)
    &&& !issue.is_template
}

/// An issue meets all conditions.
pub open spec fn all_met(list: Seq<Condition>, issue: Stored, now: int) -> bool {
    forall|k: int| 0 <= k < list.len() ==> (#[trigger] list[k]).met(issue, now)
}

/// The stored issues that meet all conditions.
pub open spec fn selected(list: Seq<Condition>, issues: Seq<Stored>, now: int) -> Seq<Stored>
    decreases issues.len(),
{
    if issues.len() == 0 {
        seq![]
    } else if all_met(list, issues.last(), now) {
        selected(list, issues.drop_last(), now).push(issues.last())
    } else {
        selected(list, issues.drop_last(), now)
    }
}

/// An order of issues.
pub enum SortOrder {
    /// By priority, the newest first among equals.
    PriorityNewest,
    /// By priority, the oldest first among equals.
    PriorityOldest,
    /// By priority the other way round, the oldest first among equals.
    LeastPriorityOldest,
    Newest,
    Oldest,
    LastUpdated,
    FirstUpdated,
    Title,
    TitleReversed,
    /// The two most urgent priorities before the others, the oldest first in each group.
    UrgentOldest,
}

/// A number comes first, and where the numbers are equal the texts decide.
pub open spec fn first_by(a: int, b: int, then_in_order: bool) -> bool {
    a < b || (a == b && then_in_order)
}

/// In which of two groups a priority is: urgent or not.
pub open spec fn urgency(priority: i32) -> int {
    if priority <= 1 {
        0
    } else {
        1
    }
}

impl SortOrder {
    /// The order in the text of a query.
    pub open spec fn text(self) -> Seq<char> {
        match self {
            SortOrder::PriorityNewest => " ORDER BY priority ASC, created_at DESC"@,
            SortOrder::PriorityOldest => " ORDER BY priority ASC, created_at ASC"@,
            SortOrder::LeastPriorityOldest => " ORDER BY priority DESC, created_at ASC"@,
            SortOrder::Newest => " ORDER BY created_at DESC"@,
            SortOrder::Oldest => " ORDER BY created_at ASC"@,
            SortOrder::LastUpdated => " ORDER BY updated_at DESC"@,
            SortOrder::FirstUpdated => " ORDER BY updated_at ASC"@,
            SortOrder::Title => " ORDER BY title COLLATE NOCASE ASC"@,
            SortOrder::TitleReversed => " ORDER BY title COLLATE NOCASE DESC"@,
            SortOrder::UrgentOldest =>
                " ORDER BY CASE WHEN priority <= 1 THEN 0 ELSE 1 END, created_at ASC"@,
        }
    }

    /// One issue may stand before another.
    pub open spec fn allows(self, a: Stored, b: Stored) -> bool {
        match self {
            SortOrder::PriorityNewest => first_by(
                a.priority as int,
                b.priority as int,
                text_le(b.created_at, a.created_at),
            ),
            SortOrder::PriorityOldest => first_by(
                a.priority as int,
                b.priority as int,
                text_le(a.created_at, b.created_at),
            ),
            SortOrder::LeastPriorityOldest => first_by(
                b.priority as int,
                a.priority as int,
                text_le(a.created_at, b.created_at),
            ),
            SortOrder::Newest => text_le(b.created_at, a.created_at),
            SortOrder::Oldest => text_le(a.created_at, b.created_at),
            SortOrder::LastUpdated => text_le(b.updated_at, a.updated_at),
            SortOrder::FirstUpdated => text_le(a.updated_at, b.updated_at),
            SortOrder::Title => text_le(lowered(a.title), lowered(b.title)),
            SortOrder::TitleReversed => text_le(lowered(b.title), lowered(a.title)),
            SortOrder::UrgentOldest => first_by(
                urgency(a.priority),
                urgency(b.priority),
                text_le(a.created_at, b.created_at),
            ),
        }
    }

    /// Each issue may stand before those after it.
    pub open spec fn keeps(self, issues: Seq<Stored>) -> bool {
        forall|i: int, j: int|
            0 <= i < j < issues.len() ==> self.allows(#[trigger] issues[i], #[trigger] issues[j])
    }
}

/// The order of a listing.
pub open spec fn list_sort(sort: Option<Seq<char>>, reverse: bool) -> SortOrder {
    match sort {
        Some(field) => if field == "priority"@ {
            if reverse {
                SortOrder::LeastPriorityOldest
            } else {
                SortOrder::PriorityNewest
            }
        } else if field == "created_at"@ || field == "created"@ {
            if reverse {
                SortOrder::Oldest
            } else {
                SortOrder::Newest
            }
        } else if field == "updated_at"@ || field == "updated"@ {
            if reverse {
                SortOrder::FirstUpdated
            } else {
                SortOrder::LastUpdated
            }
        } else if field == "title"@ {
            if reverse {
                SortOrder::TitleReversed
            } else {
                SortOrder::Title
            }
        } else {
            SortOrder::PriorityNewest
        },
        None => if reverse {
            SortOrder::LeastPriorityOldest
        } else {
            SortOrder::PriorityNewest
        },
    }
}

/// The order of ready issues.
pub open spec fn ready_sort(sort: ReadySortPolicy) -> SortOrder {
    match sort {
        ReadySortPolicy::Hybrid => SortOrder::UrgentOldest,
        ReadySortPolicy::Priority => SortOrder::PriorityOldest,
        ReadySortPolicy::Oldest => SortOrder::Oldest,
    }
}

/// These are the stored issues that meet all conditions, in this order. Among equals any order is
/// right.
pub open spec fn answers(
    r: Seq<Stored>,
    list: Seq<Condition>,
    order: SortOrder,
    issues: Seq<Stored>,
    now: int,
) -> bool {
    r.to_multiset() == selected(list, issues, now).to_multiset() && order.keeps(r)
}

/// The issues of a list that mention a text.
pub open spec fn mentioning(issues: Seq<Stored>, s: Seq<char>) -> Seq<Stored>
    decreases issues.len(),
{
    if issues.len() == 0 {
        seq![]
    } else if mentions(issues.last(), s) {
        mentioning(issues.drop_last(), s).push(issues.last())
    } else {
        mentioning(issues.drop_last(), s)
    }
}

proof fn lemma_pieces_concat(a: Seq<Condition>, b: Seq<Condition>, close: Seq<char>)
    ensures
        condition_pieces(a + b, close) == condition_pieces(a, close) + condition_pieces(b, close),
    decreases b.len(),
{
    if b.len() == 0 {
        assert(a + b =~= a);
        assert(condition_pieces(a, close) + condition_pieces(b, close) =~= condition_pieces(
            a,
            close,
        ));
    } else {
        assert((a + b).drop_last() =~= a + b.drop_last());
        lemma_pieces_concat(a, b.drop_last(), close);
        assert(condition_pieces(a, close) + (condition_pieces(b.drop_last(), close)
            + b.last().pieces(close)) =~= condition_pieces(a, close) + condition_pieces(
            b.drop_last(),
            close,
        ) + b.last().pieces(close));
    }
}

proof fn lemma_pieces_of_one(given: bool, c: Condition, close: Seq<char>)
    ensures
        condition_pieces(where_given(given, c), close) == (if given {
            c.pieces(close)
        } else {
            seq![]
        }),
{
    reveal_with_fuel(condition_pieces, 2);
    if given {
        assert(where_given(given, c).drop_last() =~= seq![]);
        assert(seq![] + c.pieces(close) =~= c.pieces(close));
    }
}

proof fn lemma_pieces_of_labels(labels: Seq<Seq<char>>, close: Seq<char>)
    ensures
        condition_pieces(label_conditions(labels), close) == every_label(labels),
    decreases labels.len(),
{
    if labels.len() > 0 {
        lemma_pieces_of_labels(labels.drop_last(), close);
        assert(label_conditions(labels).drop_last() =~= label_conditions(labels.drop_last()));
        let c = Condition::Label(labels.last());
        assert(label_conditions(labels).last() == c);
        let front = every_label(labels.drop_last());
        let bind = raw_bind(
            " AND id IN (SELECT issue_id FROM labels WHERE label = "@,
            SqlCell::Text(labels.last()),
        );
        assert(front + (bind + raw(")"@)) =~= front + bind + raw(")"@));
    }
}

proof fn lemma_appended(
    query: Seq<Piece>,
    list: Seq<Condition>,
    c: Seq<Condition>,
    more: Seq<Piece>,
    close: Seq<char>,
)
    requires
        condition_pieces(c, close) == more,
    ensures
        query + condition_pieces(list + c, close) == query + condition_pieces(list, close) + more,
{
    lemma_pieces_concat(list, c, close);
    assert(query + (condition_pieces(list, close) + more) =~= query + condition_pieces(list, close)
        + more);
}

proof fn lemma_state_pieces(query: Seq<Piece>, f: ListFiltersView, close: Seq<char>)
    ensures
        query + condition_pieces(state_conditions(f), close) == query + one_of(
            " AND status IN ("@,
            status_cells(items(f.statuses)),
            close,
        ) + one_of(" AND issue_type IN ("@, type_cells(items(f.types)), close) + one_of(
            " AND priority IN ("@,
            priority_cells(items(f.priorities)),
            close,
        ) + assignee_is(f.assignee) + raw_if(f.unassigned, " AND assignee IS NULL"@) + raw_if(
            !f.include_closed && f.include_deferred,
            " AND status NOT IN ('closed', 'tombstone')"@,
        ) + raw_if(
            !f.include_closed && !f.include_deferred,
            " AND status NOT IN ('closed', 'tombstone', 'deferred')"@,
        ),
{
    let c1 = where_given(items(f.statuses).len() > 0, Condition::StatusIn(items(f.statuses)));
    let c2 = where_given(items(f.types).len() > 0, Condition::TypeIn(items(f.types)));
    let c3 = where_given(
        items(f.priorities).len() > 0,
        Condition::PriorityIn(items(f.priorities)),
    );
    let c4 = where_given(f.assignee is Some, Condition::Assignee(f.assignee->0));
    let c5 = where_given(f.unassigned, Condition::Unassigned);
    let c6 = where_given(!f.include_closed && f.include_deferred, Condition::NotClosed);
    let c7 = where_given(!f.include_closed && !f.include_deferred, Condition::NotClosedOrDeferred);
    let p1 = one_of(" AND status IN ("@, status_cells(items(f.statuses)), close);
    let p2 = one_of(" AND issue_type IN ("@, type_cells(items(f.types)), close);
    let p3 = one_of(" AND priority IN ("@, priority_cells(items(f.priorities)), close);
    let p4 = assignee_is(f.assignee);
    let p5 = raw_if(f.unassigned, " AND assignee IS NULL"@);
    let p6 = raw_if(
        !f.include_closed && f.include_deferred,
        " AND status NOT IN ('closed', 'tombstone')"@,
    );
    let p7 = raw_if(
        !f.include_closed && !f.include_deferred,
        " AND status NOT IN ('closed', 'tombstone', 'deferred')"@,
    );
    assert(condition_pieces(c1, close) == p1) by {
        lemma_pieces_of_one(
            items(f.statuses).len() > 0,
            Condition::StatusIn(items(f.statuses)),
            close,
        );
    }
    assert(condition_pieces(c2, close) == p2) by {
        lemma_pieces_of_one(items(f.types).len() > 0, Condition::TypeIn(items(f.types)), close);
    }
    assert(condition_pieces(c3, close) == p3) by {
        lemma_pieces_of_one(
            items(f.priorities).len() > 0,
            Condition::PriorityIn(items(f.priorities)),
            close,
        );
    }
    assert(condition_pieces(c4, close) == p4) by {
        lemma_pieces_of_one(f.assignee is Some, Condition::Assignee(f.assignee->0), close);
    }
    assert(condition_pieces(c5, close) == p5) by {
        lemma_pieces_of_one(f.unassigned, Condition::Unassigned, close);
    }
    assert(condition_pieces(c6, close) == p6) by {
        lemma_pieces_of_one(
            !f.include_closed && f.include_deferred,
            Condition::NotClosed,
            close,
        );
    }
    assert(condition_pieces(c7, close) == p7) by {
        lemma_pieces_of_one(
            !f.include_closed && !f.include_deferred,
            Condition::NotClosedOrDeferred,
            close,
        );
    }
    lemma_appended(query, c1, c2, p2, close);
    lemma_appended(query, c1 + c2, c3, p3, close);
    lemma_appended(query, c1 + c2 + c3, c4, p4, close);
    lemma_appended(query, c1 + c2 + c3 + c4, c5, p5, close);
    lemma_appended(query, c1 + c2 + c3 + c4 + c5, c6, p6, close);
    lemma_appended(query, c1 + c2 + c3 + c4 + c5 + c6, c7, p7, close);
}

proof fn lemma_other_pieces(query: Seq<Piece>, f: ListFiltersView, close: Seq<char>)
    ensures
        query + condition_pieces(other_conditions(f), close) == query + raw_if(
            !f.include_templates,
            " AND (is_template = 0 OR is_template IS NULL)"@,
        ) + every_label(items(f.labels)) + any_label(items(f.labels_or)) + title_carries(
            f.title_contains,
        ),
{
    let c1 = where_given(!f.include_templates, Condition::NotTemplate);
    let c2 = label_conditions(items(f.labels));
    let c3 = where_given(items(f.labels_or).len() > 0, Condition::AnyLabel(items(f.labels_or)));
    let c4 = where_given(f.title_contains is Some, Condition::Title(f.title_contains->0));
    lemma_pieces_of_one(!f.include_templates, Condition::NotTemplate, close);
    lemma_pieces_of_labels(items(f.labels), close);
    lemma_pieces_of_one(
        items(f.labels_or).len() > 0,
        Condition::AnyLabel(items(f.labels_or)),
        close,
    );
    lemma_pieces_of_one(f.title_contains is Some, Condition::Title(f.title_contains->0), close);
    lemma_appended(query, c1, c2, every_label(items(f.labels)), close);
    lemma_appended(query, c1 + c2, c3, any_label(items(f.labels_or)), close);
    lemma_appended(query, c1 + c2 + c3, c4, title_carries(f.title_contains), close);
}

proof fn lemma_shared_pieces(query: Seq<Piece>, f: ListFiltersView, close: Seq<char>)
    ensures
        with_filters(query, f, close) == query + condition_pieces(shared_conditions(f), close),
{
    let a = condition_pieces(state_conditions(f), close);
    let b = condition_pieces(other_conditions(f), close);
    lemma_state_pieces(query, f, close);
    lemma_other_pieces(query + a, f, close);
    lemma_pieces_concat(state_conditions(f), other_conditions(f), close);
    assert(query + (a + b) =~= query + a + b);
}

/// The query that lists issues asks for those that meet the conditions of the listing, in its
/// order.
pub proof fn lemma_list_conditions(f: ListFiltersView)
    ensures
        list_pieces(f) == raw(select_columns() + " WHERE 1=1"@) + condition_pieces(
            list_conditions(f),
            ") "@,
        ) + raw(list_sort(f.sort, f.reverse).text()) + limit_pieces(f.limit, wrapped_limit()),
{
    let start = raw(select_columns() + " WHERE 1=1"@);
    let shared = shared_conditions(f);
    let by = where_given(f.updated_before is Some, Condition::UpdatedBy(f.updated_before->0));
    let since = where_given(f.updated_after is Some, Condition::UpdatedSince(f.updated_after->0));
    lemma_shared_pieces(start, f, ") "@);
    lemma_pieces_of_one(
        f.updated_before is Some,
        Condition::UpdatedBy(f.updated_before->0),
        ") "@,
    );
    lemma_pieces_of_one(
        f.updated_after is Some,
        Condition::UpdatedSince(f.updated_after->0),
        ") "@,
    );
    lemma_appended(start, shared, by, date_is(" AND updated_at <= "@, f.updated_before), ") "@);
    lemma_appended(
        start,
        shared + by,
        since,
        date_is(" AND updated_at >= "@, f.updated_after),
        ") "@,
    );
    assert(list_order(f.sort, f.reverse) == list_sort(f.sort, f.reverse).text());
}

/// The query that searches issues asks for those that meet the conditions of the search, by
/// priority and the newest first among equals.
pub proof fn lemma_search_conditions(query: Seq<char>, f: ListFiltersView)
    ensures
        search_pieces(query, f) == raw(select_columns() + " WHERE 1=1"@) + condition_pieces(
            search_conditions(query, f),
            ")"@,
        ) + raw(SortOrder::PriorityNewest.text()) + limit_pieces(f.limit, wrapped_limit()),
{
    let start = raw(select_columns() + " WHERE 1=1"@);
    let c = Condition::Carries(query);
    let first = where_given(true, c);
    lemma_pieces_of_one(true, c, ")"@);
    lemma_pieces_concat(first, shared_conditions(f), ")"@);
    lemma_shared_pieces(search_start(query), f, ")"@);
    assert(search_start(query) =~= start + c.pieces(")"@));
    let rest = condition_pieces(shared_conditions(f), ")"@);
    assert(start + (c.pieces(")"@) + rest) =~= start + c.pieces(")"@) + rest);
}

proof fn lemma_ready_state_pieces(include_deferred: bool, close: Seq<char>)
    ensures
        condition_pieces(ready_state(include_deferred), close) == ready_condition(
            include_deferred,
        ),
{
    reveal_with_fuel(condition_pieces, 8);
    let list = ready_state(include_deferred);
    if include_deferred {
        assert(list =~= seq![
            Condition::ActiveOrDeferred,
            Condition::NotBlocked,
            Condition::NotPinned,
            Condition::NotEphemeral,
            Condition::NotWisp,
            Condition::NotTemplate,
        ]);
    } else {
        assert(list =~= seq![
            Condition::Active,
            Condition::NotBlocked,
            Condition::NotPutOff,
            Condition::NotPinned,
            Condition::NotEphemeral,
            Condition::NotWisp,
            Condition::NotTemplate,
        ]);
    }
    assert(condition_pieces(list, close) =~= ready_condition(include_deferred));
}

proof fn lemma_ready_filter_pieces(
    query: Seq<Piece>,
    f: ReadyFiltersView,
    descendants: Seq<Seq<char>>,
    close: Seq<char>,
)
    ensures
        query + condition_pieces(ready_filters(f, descendants), close) == query + one_of(
            " AND priority IN ("@,
            priority_cells(items(f.priorities)),
            close,
        ) + assignee_is(f.assignee) + raw_if(f.unassigned, " AND assignee IS NULL"@) + every_label(
            f.labels_and,
        ) + any_label(f.labels_or) + parent_condition(f.parent, f.recursive, descendants),
{
    let c1 = where_given(
        items(f.priorities).len() > 0,
        Condition::PriorityIn(items(f.priorities)),
    );
    let c2 = where_given(f.assignee is Some, Condition::Assignee(f.assignee->0));
    let c3 = where_given(f.unassigned, Condition::Unassigned);
    let c4 = label_conditions(f.labels_and);
    let c5 = where_given(f.labels_or.len() > 0, Condition::AnyLabel(f.labels_or));
    let c6 = where_given(f.parent is Some && f.recursive, Condition::Among(descendants));
    let c7 = where_given(f.parent is Some && !f.recursive, Condition::ChildOf(f.parent->0));
    let p1 = one_of(" AND priority IN ("@, priority_cells(items(f.priorities)), close);
    let p2 = assignee_is(f.assignee);
    let p3 = raw_if(f.unassigned, " AND assignee IS NULL"@);
    let p4 = every_label(f.labels_and);
    let p5 = any_label(f.labels_or);
    let parent = parent_condition(f.parent, f.recursive, descendants);
    let p6: Seq<Piece> = if f.recursive {
        parent
    } else {
        seq![]
    };
    let p7: Seq<Piece> = if f.recursive {
        seq![]
    } else {
        parent
    };
    assert(condition_pieces(c1, close) == p1) by {
        lemma_pieces_of_one(
            items(f.priorities).len() > 0,
            Condition::PriorityIn(items(f.priorities)),
            close,
        );
    }
    assert(condition_pieces(c2, close) == p2) by {
        lemma_pieces_of_one(f.assignee is Some, Condition::Assignee(f.assignee->0), close);
    }
    assert(condition_pieces(c3, close) == p3) by {
        lemma_pieces_of_one(f.unassigned, Condition::Unassigned, close);
    }
    assert(condition_pieces(c4, close) == p4) by {
        lemma_pieces_of_labels(f.labels_and, close);
    }
    assert(condition_pieces(c5, close) == p5) by {
        lemma_pieces_of_one(f.labels_or.len() > 0, Condition::AnyLabel(f.labels_or), close);
    }
    assert(condition_pieces(c6, close) == p6) by {
        lemma_pieces_of_one(
            f.parent is Some && f.recursive,
            Condition::Among(descendants),
            close,
        );
    }
    assert(condition_pieces(c7, close) == p7) by {
        lemma_pieces_of_one(
            f.parent is Some && !f.recursive,
            Condition::ChildOf(f.parent->0),
            close,
        );
    }
    lemma_appended(query, c1, c2, p2, close);
    lemma_appended(query, c1 + c2, c3, p3, close);
    lemma_appended(query, c1 + c2 + c3, c4, p4, close);
    lemma_appended(query, c1 + c2 + c3 + c4, c5, p5, close);
    lemma_appended(query, c1 + c2 + c3 + c4 + c5, c6, p6, close);
    lemma_appended(query, c1 + c2 + c3 + c4 + c5 + c6, c7, p7, close);
    let front = query + p1 + p2 + p3 + p4 + p5;
    assert(front + p6 + p7 =~= front + parent);
}

/// The query for ready issues asks for those that meet the conditions of ready issues and the
/// filters, in the order of the sort policy.
pub proof fn lemma_ready_conditions(
    f: ReadyFiltersView,
    sort: ReadySortPolicy,
    descendants: Seq<Seq<char>>,
)
    ensures
        ready_pieces(f, sort, descendants) == raw(select_columns() + " WHERE 1=1"@)
            + condition_pieces(ready_state(f.include_deferred) + ready_types(f), ") "@)
            + condition_pieces(ready_filters(f, descendants), ")"@) + raw(ready_sort(sort).text())
            + limit_pieces(f.limit, capped_limit()),
{
    let start = raw(select_columns() + " WHERE 1=1"@);
    lemma_ready_state_pieces(f.include_deferred, ") "@);
    lemma_pieces_of_one(items(f.types).len() > 0, Condition::TypeIn(items(f.types)), ") "@);
    lemma_appended(
        start,
        ready_state(f.include_deferred),
        ready_types(f),
        one_of(" AND issue_type IN ("@, type_cells(items(f.types)), ") "@),
        ") "@,
    );
    let front = start + condition_pieces(ready_state(f.include_deferred) + ready_types(f), ") "@);
    lemma_ready_filter_pieces(front, f, descendants, ")"@);
    assert(ready_order(sort) == ready_sort(sort).text());
}

proof fn lemma_all_met_concat(a: Seq<Condition>, b: Seq<Condition>, issue: Stored, now: int)
    ensures
        all_met(a + b, issue, now) <==> all_met(a, issue, now) && all_met(b, issue, now),
{
    let both = a + b;
    if all_met(both, issue, now) {
        assert forall|k: int| 0 <= k < a.len() implies (#[trigger] a[k]).met(issue, now) by {
            assert(both[k] == a[k]);
        }
        assert forall|k: int| 0 <= k < b.len() implies (#[trigger] b[k]).met(issue, now) by {
            assert(both[a.len() + k] == b[k]);
        }
    }
}

/// Which issues the query for ready issues asks for: those that are ready and meet the filters.
pub proof fn lemma_ready_definition(
    f: ReadyFiltersView,
    descendants: Seq<Seq<char>>,
    issue: Stored,
    now: int,
)
    ensures
        all_met(ready_conditions(f, descendants), issue, now) <==> is_ready(
            issue,
            f.include_deferred,
            now,
        ) && all_met(ready_types(f), issue, now) && all_met(
            ready_filters(f, descendants),
            issue,
            now,
        ),
{
    let state = ready_state(f.include_deferred);
    lemma_all_met_concat(state + ready_types(f), ready_filters(f, descendants), issue, now);
    lemma_all_met_concat(state, ready_types(f), issue, now);
    if f.include_deferred {
        assert(state =~= seq![
            Condition::ActiveOrDeferred,
            Condition::NotBlocked,
            Condition::NotPinned,
            Condition::NotEphemeral,
            Condition::NotWisp,
            Condition::NotTemplate,
        ]);
        if all_met(state, issue, now) {
            assert(state[0].met(issue, now) && state[1].met(issue, now) && state[2].met(issue, now));
            assert(state[3].met(issue, now) && state[4].met(issue, now) && state[5].met(issue, now));
        }
    } else {
        assert(state =~= seq![
            Condition::Active,
            Condition::NotBlocked,
            Condition::NotPutOff,
            Condition::NotPinned,
            Condition::NotEphemeral,
            Condition::NotWisp,
            Condition::NotTemplate,
        ]);
        if all_met(state, issue, now) {
            assert(state[0].met(issue, now) && state[1].met(issue, now) && state[2].met(issue, now));
            assert(state[3].met(issue, now) && state[4].met(issue, now) && state[5].met(issue, now));
            assert(state[6].met(issue, now));
        }
    }
}

/// Each order of issues is one: any two issues may stand one way or the other, and the order of
/// three follows from that of two and two.
pub proof fn lemma_sort_order(order: SortOrder, a: Stored, b: Stored, c: Stored)
    ensures
        order.allows(a, b) || order.allows(b, a),
        order.allows(a, b) && order.allows(b, c) ==> order.allows(a, c),
{
    lemma_compared(a.created_at, b.created_at, c.created_at);
    lemma_compared(a.updated_at, b.updated_at, c.updated_at);
    lemma_compared(lowered(a.title), lowered(b.title), lowered(c.title));
}

proof fn lemma_compared(a: Seq<char>, b: Seq<char>, c: Seq<char>)
    ensures
        text_le(a, b) || text_le(b, a),
        text_le(a, b) && text_le(b, c) ==> text_le(a, c),
        text_le(c, b) && text_le(b, a) ==> text_le(c, a),
{
    lemma_text_le_total(a, b);
    if text_le(a, b) && text_le(b, c) {
        lemma_text_le_transitive(a, b, c);
    }
    if text_le(c, b) && text_le(b, a) {
        lemma_text_le_transitive(c, b, a);
    }
}

/// A text matches the pattern exactly where it carries what is looked for.
pub proof fn lemma_inside_pattern(text: Seq<char>, s: Seq<char>)
    ensures
        matches_inside(text, s) == carries(text, s),
{
    reveal_strlit("%");
    assert("%"@ =~= seq!['%']);
    lemma_escaped_matches_inside(s, text, same_letter());
}

proof fn lemma_selected_by_search(
    query: Seq<char>,
    f: ListFiltersView,
    issues: Seq<Stored>,
    now: int,
)
    requires
        f.updated_before is None,
        f.updated_after is None,
    ensures
        selected(search_conditions(query, f), issues, now) == mentioning(
            selected(list_conditions(f), issues, now),
            query,
        ),
    decreases issues.len(),
{
    if issues.len() > 0 {
        let front = issues.drop_last();
        let last = issues.last();
        lemma_selected_by_search(query, f, front, now);
        let first = seq![Condition::Carries(query)];
        let shared = shared_conditions(f);
        assert(list_conditions(f) =~= shared);
        lemma_inside_pattern(last.title, query);
        lemma_inside_pattern(last.id, query);
        if last.description is Some {
            lemma_inside_pattern(last.description->0, query);
        }
        lemma_all_met_concat(first, shared, last, now);
        assert(all_met(first, last, now) <==> mentions(last, query)) by {
            if all_met(first, last, now) {
                assert(first[0].met(last, now));
            }
        }
        let listed = selected(list_conditions(f), front, now);
        if all_met(shared, last, now) {
            assert(listed.push(last).drop_last() =~= listed);
        }
    }
}

proof fn lemma_mentioning(issues: Seq<Stored>, s: Seq<char>)
    ensures
        mentioning(issues, s).to_multiset() == issues.to_multiset().filter(
            |issue: Stored| mentions(issue, s),
        ),
        forall|k: int|
            0 <= k < mentioning(issues, s).len() ==> issues.contains(
                #[trigger] mentioning(issues, s)[k],
            ),
    decreases issues.len(),
{
    let pred = |issue: Stored| mentions(issue, s);
    if issues.len() == 0 {
        assert(mentioning(issues, s).to_multiset() =~= issues.to_multiset().filter(pred));
    } else {
        let front = issues.drop_last();
        lemma_mentioning(front, s);
        assert(issues =~= front.push(issues.last()));
        assert(issues.to_multiset() =~= front.to_multiset().insert(issues.last()));
        assert(mentioning(issues, s).to_multiset() =~= issues.to_multiset().filter(pred));
        assert forall|k: int| 0 <= k < mentioning(issues, s).len() implies issues.contains(
            #[trigger] mentioning(issues, s)[k],
        ) by {
            let x = mentioning(issues, s)[k];
            if k < mentioning(front, s).len() {
                assert(x == mentioning(front, s)[k]);
                assert(issues[front.index_of(x)] == x);
            } else {
                assert(issues[issues.len() - 1] == x);
            }
        }
    }
}

proof fn lemma_mentioning_in_order(order: SortOrder, issues: Seq<Stored>, s: Seq<char>)
    requires
        order.keeps(issues),
    ensures
        order.keeps(mentioning(issues, s)),
    decreases issues.len(),
{
    if issues.len() > 0 {
        let front = issues.drop_last();
        let last = issues.last();
        assert(order.keeps(front)) by {
            assert forall|i: int, j: int| 0 <= i < j < front.len() implies order.allows(
                #[trigger] front[i],
                #[trigger] front[j],
            ) by {
                assert(order.allows(issues[i], issues[j]));
            }
        }
        lemma_mentioning_in_order(order, front, s);
        lemma_mentioning(front, s);
        let found = mentioning(front, s);
        let all = mentioning(issues, s);
        assert forall|i: int, j: int| 0 <= i < j < all.len() implies order.allows(
            #[trigger] all[i],
            #[trigger] all[j],
        ) by {
            assert(all[i] == found[i]);
            if j < found.len() {
                assert(all[j] == found[j]);
            } else {
                let k = front.index_of(found[i]);
                assert(order.allows(issues[k], issues[issues.len() - 1]));
            }
        }
    }
}

/// A search gives exactly those of the listed issues that mention the text, in capitals or not,
/// in the order of the listing, whatever issues are stored. The listing has the filters of the
/// search, without a limit, a sort field or dates.
pub proof fn lemma_search_narrows_listing(
    query: Seq<char>,
    f: ListFiltersView,
    issues: Seq<Stored>,
    now: int,
    r: Seq<Stored>,
)
    requires
        f.sort is None,
        !f.reverse,
        f.limit is None,
        f.updated_before is None,
        f.updated_after is None,
        answers(r, list_conditions(f), list_sort(f.sort, f.reverse), issues, now),
    ensures
        answers(
            mentioning(r, query),
            search_conditions(query, f),
            SortOrder::PriorityNewest,
            issues,
            now,
        ),
{
    lemma_selected_by_search(query, f, issues, now);
    lemma_mentioning(r, query);
    lemma_mentioning(selected(list_conditions(f), issues, now), query);
    lemma_mentioning_in_order(SortOrder::PriorityNewest, r, query);
}

} // verus!
