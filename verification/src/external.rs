//! Dependencies on capabilities of other projects, and what they block.

use crate::assoc::{group_pairs, TextMap};
use crate::chunk::list_texts_in_runs;
use crate::mutation::put_once;
use crate::scan::{position_from, strip_prefix};
use crate::sql::{full_text_pairs, text_pairs, Row, Statement};
use crate::text::{chars_of, holds, joined, same_text, text_between};
use vstd::prelude::*;

verus! {

use crate::assoc::{
    append_in,
    get_in,
    grouped,
    has_key,
    items_for,
    lemma_get_in,
    lemma_grouped,
    lemma_put_in,
    lemma_put_in_keys,
    list_of,
    put_in,
    unique_keys,
};
use crate::chunk::list_statements;
use crate::mutation::{insert_once, lemma_insert_once};
use crate::scan::behind_prefix;
use crate::sql::{column_texts, full_pairs, pairs, stmt};

/// A dependency ID names a capability of a project: `external:project:capability`, with no colon
/// in the project, and neither empty.
pub open spec fn names_capability(
    dep_id: Seq<char>,
    project: Seq<char>,
    capability: Seq<char>,
) -> bool {
    &&& dep_id == "external"@ + seq![':'] + project + seq![':'] + capability
    &&& project.len() > 0
    &&& capability.len() > 0
    &&& !project.contains(':')
}

/// A dependency ID names one capability of one project at most.
pub proof fn lemma_names_one_capability(
    dep_id: Seq<char>,
    p1: Seq<char>,
    c1: Seq<char>,
    p2: Seq<char>,
    c2: Seq<char>,
)
    requires
        names_capability(dep_id, p1, c1),
        names_capability(dep_id, p2, c2),
    ensures
        p1 == p2,
        c1 == c2,
{
    let start = "external"@.len() + 1;
    assert(dep_id[(start + p1.len()) as int] == ':');
    assert(dep_id[(start + p2.len()) as int] == ':');
    assert(forall|k: int| 0 <= k < p1.len() ==> dep_id[start + k] == #[trigger] p1[k]);
    assert(forall|k: int| 0 <= k < p2.len() ==> dep_id[start + k] == #[trigger] p2[k]);
    if p1.len() < p2.len() {
        assert(p2[p1.len() as int] == ':');
        assert(p2.contains(':'));
    }
    if p2.len() < p1.len() {
        assert(p1[p2.len() as int] == ':');
        assert(p1.contains(':'));
    }
    assert(p1 =~= p2);
    let behind = start + p1.len() + 1;
    assert(c1 =~= dep_id.skip(behind as int));
    assert(c2 =~= dep_id.skip(behind as int));
}

/// The project and the capability that a dependency ID names.
pub open spec fn capability_of(dep_id: Seq<char>) -> Option<(Seq<char>, Seq<char>)> {
    if exists|p: Seq<char>, c: Seq<char>| names_capability(dep_id, p, c) {
        Some(choose|p: Seq<char>, c: Seq<char>| names_capability(dep_id, p, c))
    } else {
        None
    }
}

/// The project and the capability that a dependency ID names.
pub fn parse_external_dependency(dep_id: &str) -> (r: Option<(String, String)>)
    ensures
        r.deep_view() == capability_of(dep_id@),
        r matches Some((p, c)) ==> names_capability(dep_id@, p@, c@),
{
    let chars = chars_of(dep_id);
    let first: usize = position_from(&chars, ':', 0);
    let prefix = text_between(&chars, 0, first);
    proof {
        reveal_strlit("external");
        assert("external"@.len() == 8);
        assert(!"external"@.contains(':')) by {
            assert forall|k: int| 0 <= k < 8 implies "external"@[k] != ':' by {
                assert("external"@[0] == 'e');
                assert("external"@[1] == 'x');
                assert("external"@[2] == 't');
                assert("external"@[3] == 'e');
                assert("external"@[4] == 'r');
                assert("external"@[5] == 'n');
                assert("external"@[6] == 'a');
                assert("external"@[7] == 'l');
            }
        }
        assert forall|p: Seq<char>, c: Seq<char>| names_capability(dep_id@, p, c) implies first
            == 8 && prefix@ == "external"@ && first < chars.len() by {
            assert(dep_id@[8] == ':');
            assert forall|k: int| 0 <= k < 8 implies dep_id@[k] == "external"@[k] by {}
            if first < 8 {
                assert("external"@[first as int] == ':');
                assert("external"@.contains(':'));
            }
            assert(prefix@ =~= "external"@);
        }
    }
    if !same_text(prefix.as_str(), "external") || first == chars.len() {
        return None;
    }
    let second: usize = position_from(&chars, ':', first + 1);
    let ghost rest = dep_id@.subrange(first + 1, second as int);
    proof {
        assert forall|p: Seq<char>, c: Seq<char>| names_capability(dep_id@, p, c) implies second
            < chars.len() && p == rest && c == dep_id@.subrange(second + 1, dep_id@.len() as int) by {
            assert(dep_id@[(9 + p.len()) as int] == ':');
            assert forall|k: int| 0 <= k < p.len() implies dep_id@[9 + k] == p[k] by {}
            if second < 9 + p.len() {
                assert(p[second - 9] == ':');
                assert(p.contains(':'));
            }
            assert(second == 9 + p.len());
            assert(p =~= rest);
            assert(c =~= dep_id@.subrange(second + 1, dep_id@.len() as int));
        }
    }
    if second == chars.len() {
        return None;
    }
    let project = text_between(&chars, first + 1, second);
    let capability = text_between(&chars, second + 1, chars.len());
    if project.as_str().is_empty() || capability.as_str().is_empty() {
        return None;
    }
    proof {
        assert(dep_id@ =~= "external"@ + seq![':'] + project@ + seq![':'] + capability@) by {
            assert(dep_id@.subrange(0, first as int) =~= "external"@);
            assert forall|k: int| 0 <= k < dep_id@.len() implies dep_id@[k] == ("external"@ + seq![
                ':',
            ] + project@ + seq![':'] + capability@)[k] by {
                if k < 8 {
                    assert(dep_id@.subrange(0, first as int)[k] == "external"@[k]);
                }
            }
        }
        assert(!project@.contains(':')) by {
            if project@.contains(':') {
                let k = project@.index_of(':');
                assert(chars@[first + 1 + k] == ':');
            }
        }
        assert(names_capability(dep_id@, project@, capability@));
    }
    Some((project, capability))
}

/// Query for the IDs of external dependencies.
pub fn list_external_dependency_ids(blocking_only: bool) -> (r: Statement)
    ensures
        r.deep_view() == stmt(
            if blocking_only {
                "SELECT DISTINCT depends_on_id FROM dependencies WHERE depends_on_id LIKE 'external:%' AND type IN ('blocks', 'parent-child', 'conditional-blocks', 'waits-for')"@
            } else {
                "SELECT DISTINCT depends_on_id FROM dependencies WHERE depends_on_id LIKE 'external:%'"@
            },
            seq![],
        ),
{
    if blocking_only {
        Statement::plain(
            "SELECT DISTINCT depends_on_id FROM dependencies WHERE depends_on_id LIKE 'external:%' AND type IN ('blocks', 'parent-child', 'conditional-blocks', 'waits-for')",
        )
    } else {
        Statement::plain(
            "SELECT DISTINCT depends_on_id FROM dependencies WHERE depends_on_id LIKE 'external:%'",
        )
    }
}

/// Each text once, in the order of its first occurrence.
pub open spec fn distinct(s: Seq<Seq<char>>) -> Seq<Seq<char>>
    decreases s.len(),
{
    if s.len() == 0 {
        seq![]
    } else {
        insert_once(distinct(s.drop_last()), s.last())
    }
}

/// The same texts, none of them twice.
pub proof fn lemma_distinct(s: Seq<Seq<char>>)
    ensures
        distinct(s).no_duplicates(),
        distinct(s).to_set() == s.to_set(),
    decreases s.len(),
{
    if s.len() == 0 {
        assert(distinct(s).to_set() =~= s.to_set());
    } else {
        lemma_distinct(s.drop_last());
        lemma_insert_once(distinct(s.drop_last()), s.last());
        assert(s =~= s.drop_last().push(s.last()));
        assert(s.to_set() =~= s.drop_last().to_set().insert(s.last())) by {
            assert forall|t: Seq<char>| s.to_set().contains(t) <==> s.drop_last().to_set().insert(
                s.last(),
            ).contains(t) by {
                if s.drop_last().contains(t) {
                    let k = s.drop_last().index_of(t);
                    assert(s[k] == t);
                }
                assert(s[s.len() - 1] == s.last());
                if s.contains(t) {
                    let k = s.index_of(t);
                    if k < s.len() - 1 {
                        assert(s.drop_last()[k] == t);
                    }
                }
            }
        }
    }
}

/// The texts in the first column of a result, each once.
pub fn distinct_texts(rows: &Vec<Row>) -> (r: Vec<String>)
    ensures
        r.deep_view() == distinct(column_texts(rows.deep_view(), 0)),
{
    let texts = crate::sql::texts_in_column(rows, 0);
    let ghost all = texts.deep_view();
    let mut out: Vec<String> = Vec::new();
    let mut i: usize = 0;
    assert(out.deep_view() =~= distinct(all.take(0)));
    while i < texts.len()
        invariant
            all == texts.deep_view(),
            i <= texts.len(),
            out.deep_view() == distinct(all.take(i as int)),
        decreases texts.len() - i,
    {
        assert(all.take(i + 1).drop_last() =~= all.take(i as int));
        assert(all.take(i + 1).last() == texts@[i as int]@);
        put_once(&mut out, texts[i].as_str());
        i += 1;
    }
    assert(all.take(all.len() as int) =~= all);
    out
}

/// The capabilities that dependency IDs ask of each project, each once.
pub open spec fn wanted(ids: Seq<Seq<char>>) -> Seq<(Seq<char>, Seq<Seq<char>>)>
    decreases ids.len(),
{
    if ids.len() == 0 {
        seq![]
    } else {
        let front = wanted(ids.drop_last());
        match capability_of(ids.last()) {
            Some((project, capability)) => put_in(
                front,
                project,
                insert_once(list_of(get_in(front, project)), capability),
            ),
            None => front,
        }
    }
}

/// Collects the capabilities that dependency IDs ask of each project.
pub fn wanted_capabilities(ids: &Vec<String>) -> (r: TextMap<Vec<String>>)
    ensures
        r.deep_view() == wanted(ids.deep_view()),
{
    let ghost all = ids.deep_view();
    let mut out: TextMap<Vec<String>> = TextMap::new();
    let mut i: usize = 0;
    assert(wanted(all.take(0)) =~= seq![]);
    while i < ids.len()
        invariant
            all == ids.deep_view(),
            i <= ids.len(),
            out.deep_view() == wanted(all.take(i as int)),
        decreases ids.len() - i,
    {
        assert(all.take(i + 1).drop_last() =~= all.take(i as int));
        assert(all.take(i + 1).last() == ids@[i as int]@);
        match parse_external_dependency(ids[i].as_str()) {
            Some((project, capability)) => {
                let mut list = match out.get(project.as_str()) {
                    Some(list) => crate::text::copy_texts(list),
                    None => Vec::new(),
                };
                assert(list.deep_view() =~= list_of(get_in(out.deep_view(), project@)));
                put_once(&mut list, capability.as_str());
                out.insert(project.as_str(), list);
            },
            None => {},
        }
        i += 1;
    }
    assert(all.take(all.len() as int) =~= all);
    out
}

/// The labels that issues carry to provide capabilities.
pub open spec fn provider_labels(capabilities: Seq<Seq<char>>) -> Seq<Seq<char>> {
    capabilities.map_values(|c: Seq<char>| "provides:"@ + c)
}

/// Queries in the database of another project for the labels of capabilities that are provided:
/// labels of closed or deleted issues.
pub fn capability_queries(capabilities: &Vec<String>) -> (r: Vec<Statement>)
    ensures
        r.deep_view() == list_statements(
            "SELECT DISTINCT l.label FROM labels l INNER JOIN issues i ON i.id = l.issue_id WHERE i.status IN ('closed', 'tombstone') AND l.label IN ("@,
            provider_labels(capabilities.deep_view()),
            ","@,
            ")"@,
        ),
{
    let mut labels: Vec<String> = Vec::new();
    let mut i: usize = 0;
    while i < capabilities.len()
        invariant
            i <= capabilities.len(),
            labels.len() == i,
            forall|k: int|
                0 <= k < i ==> (#[trigger] labels@[k])@ == "provides:"@ + capabilities@[k]@,
        decreases capabilities.len() - i,
    {
        labels.push(joined("provides:", capabilities[i].as_str()));
        i += 1;
    }
    assert(labels.deep_view() =~= provider_labels(capabilities.deep_view()));
    list_texts_in_runs(
        "SELECT DISTINCT l.label FROM labels l INNER JOIN issues i ON i.id = l.issue_id WHERE i.status IN ('closed', 'tombstone') AND l.label IN (",
        &labels,
        ",",
        ")",
    )
}

/// The capabilities that labels provide, each once; other labels provide none.
pub open spec fn provided(labels: Seq<Seq<char>>) -> Seq<Seq<char>>
    decreases labels.len(),
{
    if labels.len() == 0 {
        seq![]
    } else {
        let front = provided(labels.drop_last());
        match behind_prefix(labels.last(), "provides:"@) {
            Some(capability) => insert_once(front, capability),
            None => front,
        }
    }
}

/// Collects the capabilities that the labels in a result provide.
pub fn provided_capabilities(rows: &Vec<Row>) -> (r: Vec<String>)
    ensures
        r.deep_view() == provided(column_texts(rows.deep_view(), 0)),
{
    let labels = crate::sql::texts_in_column(rows, 0);
    let ghost all = labels.deep_view();
    let mut out: Vec<String> = Vec::new();
    let mut i: usize = 0;
    assert(out.deep_view() =~= provided(all.take(0)));
    while i < labels.len()
        invariant
            all == labels.deep_view(),
            i <= labels.len(),
            out.deep_view() == provided(all.take(i as int)),
        decreases labels.len() - i,
    {
        assert(all.take(i + 1).drop_last() =~= all.take(i as int));
        assert(all.take(i + 1).last() == labels@[i as int]@);
        match strip_prefix(labels[i].as_str(), "provides:") {
            Some(capability) => put_once(&mut out, capability.as_str()),
            None => {},
        }
        i += 1;
    }
    assert(all.take(all.len() as int) =~= all);
    out
}

/// Whether an external dependency is satisfied: its project is known to provide the capability.
pub open spec fn is_satisfied(
    dep_id: Seq<char>,
    satisfied: Seq<(Seq<char>, Seq<Seq<char>>)>,
) -> bool {
    match capability_of(dep_id) {
        Some((project, capability)) => match get_in(satisfied, project) {
            Some(capabilities) => capabilities.contains(capability),
            None => false,
        },
        None => false,
    }
}

/// The satisfaction of each dependency.
pub open spec fn satisfaction(
    ids: Seq<Seq<char>>,
    satisfied: Seq<(Seq<char>, Seq<Seq<char>>)>,
) -> Seq<(Seq<char>, bool)>
    decreases ids.len(),
{
    if ids.len() == 0 {
        seq![]
    } else {
        put_in(
            satisfaction(ids.drop_last(), satisfied),
            ids.last(),
            is_satisfied(ids.last(), satisfied),
        )
    }
}

/// Resolve external dependency satisfaction, given for each project that could be queried the
/// capabilities it provides.
///
/// Returns a map of external dependency IDs to whether they are satisfied.
/// Missing projects or query failures are treated as unsatisfied.
pub fn resolve_external_dependency_statuses(
    ids: &Vec<String>,
    satisfied: &TextMap<Vec<String>>,
) -> (r: TextMap<bool>)
    ensures
        r.deep_view() == satisfaction(ids.deep_view(), satisfied.deep_view()),
{
    let ghost all = ids.deep_view();
    let mut out: TextMap<bool> = TextMap::new();
    let mut i: usize = 0;
    assert(satisfaction(all.take(0), satisfied.deep_view()) =~= seq![]);
    while i < ids.len()
        invariant
            all == ids.deep_view(),
            i <= ids.len(),
            out.deep_view() == satisfaction(all.take(i as int), satisfied.deep_view()),
        decreases ids.len() - i,
    {
        assert(all.take(i + 1).drop_last() =~= all.take(i as int));
        assert(all.take(i + 1).last() == ids@[i as int]@);
        let found = match parse_external_dependency(ids[i].as_str()) {
            Some((project, capability)) => match satisfied.get(project.as_str()) {
                Some(capabilities) => holds(capabilities, capability.as_str()),
                None => false,
            },
            None => false,
        };
        out.insert(ids[i].as_str(), found);
        i += 1;
    }
    assert(all.take(all.len() as int) =~= all);
    out
}

/// Each dependency asked for has a status, and it is the one that its project decides.
pub proof fn lemma_satisfaction(
    ids: Seq<Seq<char>>,
    satisfied: Seq<(Seq<char>, Seq<Seq<char>>)>,
    id: Seq<char>,
)
    ensures
        get_in(satisfaction(ids, satisfied), id) == (if ids.contains(id) {
            Some(is_satisfied(id, satisfied))
        } else {
            None
        }),
    decreases ids.len(),
{
    if ids.len() > 0 {
        let front = ids.drop_last();
        lemma_satisfaction(front, satisfied, id);
        lemma_put_in(
            satisfaction(front, satisfied),
            ids.last(),
            is_satisfied(ids.last(), satisfied),
            id,
        );
        if ids.contains(id) && ids.last() != id {
            let k = ids.index_of(id);
            assert(front[k] == id);
        }
        if front.contains(id) {
            let k = front.index_of(id);
            assert(ids[k] == id);
        }
        if ids.last() == id {
            assert(ids[ids.len() - 1] == id);
        }
    }
}

/// Query for the external dependencies that can block.
pub fn external_blocking_query() -> (r: Statement)
    ensures
        r.deep_view() == stmt(
            "SELECT issue_id, depends_on_id FROM dependencies WHERE depends_on_id LIKE 'external:%' AND type IN ('blocks', 'parent-child', 'conditional-blocks', 'waits-for')"@,
            seq![],
        ),
{
    Statement::plain(
        "SELECT issue_id, depends_on_id FROM dependencies WHERE depends_on_id LIKE 'external:%' AND type IN ('blocks', 'parent-child', 'conditional-blocks', 'waits-for')",
    )
}

/// Query for the links from children to parents.
pub fn parent_links_query() -> (r: Statement)
    ensures
        r.deep_view() == stmt(
            "SELECT issue_id, depends_on_id FROM dependencies WHERE type = 'parent-child'"@,
            seq![],
        ),
        crate::asked::ask_external_edges().is(r.deep_view()),
{
    proof {
        crate::asked::lemma_ask_external_edges_text();
    }
    Statement::plain("SELECT issue_id, depends_on_id FROM dependencies WHERE type = 'parent-child'")
}

/// What blocks an issue by an external dependency.
pub open spec fn external_mark(depends_on_id: Seq<char>) -> Seq<char> {
    depends_on_id + ":blocked"@
}

/// What blocks an issue by its parent.
pub open spec fn parent_mark(parent_id: Seq<char>) -> Seq<char> {
    parent_id + ":parent-blocked"@
}

/// The unsatisfied dependencies, as pairs of an issue and what blocks it. A dependency of unknown
/// status is unsatisfied.
pub open spec fn unsatisfied(
    links: Seq<(Seq<char>, Seq<char>)>,
    statuses: Seq<(Seq<char>, bool)>,
) -> Seq<(Seq<char>, Seq<char>)>
    decreases links.len(),
{
    if links.len() == 0 {
        seq![]
    } else {
        let front = unsatisfied(links.drop_last(), statuses);
        if get_in(statuses, links.last().1) == Some(true) {
            front
        } else {
            front.push((links.last().0, external_mark(links.last().1)))
        }
    }
}

/// A set of issues that contains the issues blocked directly and every child of an issue in it.
pub open spec fn spreads(
    s: Set<Seq<char>>,
    direct: Seq<(Seq<char>, Seq<char>)>,
    links: Seq<(Seq<char>, Seq<char>)>,
) -> bool {
    &&& forall|id: Seq<char>| #[trigger] has_key(direct, id) ==> s.contains(id)
    &&& forall|k: int|
        0 <= k < links.len() && s.contains((#[trigger] links[k]).1) ==> s.contains(links[k].0)
}

/// `s` is the least set that contains the issues blocked directly and every child of an issue in
/// it.
pub open spec fn spread(
    s: Set<Seq<char>>,
    direct: Seq<(Seq<char>, Seq<char>)>,
    links: Seq<(Seq<char>, Seq<char>)>,
) -> bool {
    &&& spreads(s, direct, links)
    &&& forall|t: Set<Seq<char>>| spreads(t, direct, links) ==> #[trigger] s.subset_of(t)
}

/// The marks of the parents of `id` that are in `parents`, each once.
pub open spec fn marks_parents(
    marks: Seq<Seq<char>>,
    id: Seq<char>,
    links: Seq<(Seq<char>, Seq<char>)>,
    parents: Set<Seq<char>>,
) -> bool {
    &&& marks.no_duplicates()
    &&& forall|m: Seq<char>| #[trigger]
        marks.contains(m) <==> exists|p: Seq<char>|
            #![trigger parents.contains(p)]
            parents.contains(p) && links.contains((id, p)) && m == parent_mark(p)
}

/// What blocks an issue: its own unsatisfied dependencies in their order, then its blocked parents.
pub open spec fn blockers_listed(
    list: Seq<Seq<char>>,
    id: Seq<char>,
    direct: Seq<(Seq<char>, Seq<char>)>,
    links: Seq<(Seq<char>, Seq<char>)>,
    parents: Set<Seq<char>>,
) -> bool {
    let own = items_for(direct, id);
    &&& own.len() <= list.len()
    &&& list.take(own.len() as int) == own
    &&& marks_parents(list.skip(own.len() as int), id, links, parents)
}

fn unsatisfied_links(links: &Vec<(String, String)>, statuses: &TextMap<bool>) -> (r: Vec<
    (String, String),
>)
    ensures
        r.deep_view() == unsatisfied(links.deep_view(), statuses.deep_view()),
{
    let ghost all = links.deep_view();
    let mut out: Vec<(String, String)> = Vec::new();
    let mut i: usize = 0;
    assert(out.deep_view() =~= unsatisfied(all.take(0), statuses.deep_view()));
    while i < links.len()
        invariant
            all == links.deep_view(),
            i <= links.len(),
            out.deep_view() == unsatisfied(all.take(i as int), statuses.deep_view()),
        decreases links.len() - i,
    {
        assert(all.take(i + 1).drop_last() =~= all.take(i as int));
        assert(all.take(i + 1).last() == links@[i as int].deep_view());
        let satisfied = match statuses.get(links[i].1.as_str()) {
            Some(b) => *b,
            None => false,
        };
        if !satisfied {
            let ghost before = out.deep_view();
            let mark = joined(links[i].1.as_str(), ":blocked");
            let ghost item = (links@[i as int].0@, mark@);
            out.push((links[i].0.clone(), mark));
            assert(out.deep_view() =~= before.push(item));
        }
        i += 1;
    }
    assert(all.take(all.len() as int) =~= all);
    out
}

/// Links read from the parents' side.
spec fn flipped(links: Seq<(Seq<char>, Seq<char>)>) -> Seq<(Seq<char>, Seq<char>)> {
    links.map_values(|e: (Seq<char>, Seq<char>)| (e.1, e.0))
}

proof fn lemma_flipped(links: Seq<(Seq<char>, Seq<char>)>, p: Seq<char>, c: Seq<char>)
    ensures
        items_for(flipped(links), p).contains(c) <==> links.contains((c, p)),
    decreases links.len(),
{
    if links.len() > 0 {
        let front = links.drop_last();
        lemma_flipped(front, p, c);
        assert(flipped(links).drop_last() =~= flipped(front));
        let items = items_for(flipped(front), p);
        if links.last().1 == p {
            lemma_contains_after_push(items, links.last().0, c);
        }
        if front.contains((c, p)) {
            let k = front.index_of((c, p));
            assert(links[k] == (c, p));
        }
        if links.contains((c, p)) && links.last() != (c, p) {
            let k = links.index_of((c, p));
            assert(front[k] == (c, p));
        }
        if links.last() == (c, p) {
            assert(links[links.len() - 1] == (c, p));
        }
    }
}

proof fn lemma_contains_after_push(s: Seq<Seq<char>>, x: Seq<char>, v: Seq<char>)
    ensures
        s.push(x).contains(v) <==> s.contains(v) || v == x,
{
    let r = s.push(x);
    if s.contains(v) {
        let k = s.index_of(v);
        assert(r[k] == v);
    }
    assert(r[s.len() as int] == x);
    if r.contains(v) {
        let k = r.index_of(v);
        if k < s.len() {
            assert(s[k] == v);
        }
    }
}

proof fn lemma_parent_mark_injective(p: Seq<char>, q: Seq<char>)
    requires
        parent_mark(p) == parent_mark(q),
    ensures
        p == q,
{
    assert(parent_mark(p).len() == p.len() + ":parent-blocked"@.len());
    assert(parent_mark(q).len() == q.len() + ":parent-blocked"@.len());
    assert(p =~= parent_mark(p).take(p.len() as int));
    assert(q =~= parent_mark(q).take(q.len() as int));
}

proof fn lemma_marks_differ(d: Seq<char>, p: Seq<char>)
    ensures
        external_mark(d) != parent_mark(p),
{
    reveal_strlit(":blocked");
    reveal_strlit(":parent-blocked");
    let a = external_mark(d);
    let b = parent_mark(p);
    assert(":blocked"@.len() == 8);
    assert(":parent-blocked"@.len() == 15);
    assert(a[a.len() - 8] == ":blocked"@[0]);
    assert(b[b.len() - 8] == ":parent-blocked"@[7]);
    assert(":blocked"@[0] == ':');
    assert(":parent-blocked"@[7] == '-');
}

proof fn lemma_own_marks(
    links: Seq<(Seq<char>, Seq<char>)>,
    statuses: Seq<(Seq<char>, bool)>,
    id: Seq<char>,
    p: Seq<char>,
)
    ensures
        !items_for(unsatisfied(links, statuses), id).contains(parent_mark(p)),
    decreases links.len(),
{
    if links.len() > 0 {
        lemma_own_marks(links.drop_last(), statuses, id, p);
        lemma_marks_differ(links.last().1, p);
        let front = unsatisfied(links.drop_last(), statuses);
        let item = (links.last().0, external_mark(links.last().1));
        assert(front.push(item).drop_last() =~= front);
        lemma_contains_after_push(items_for(front, id), item.1, parent_mark(p));
    }
}

proof fn lemma_no_items(direct: Seq<(Seq<char>, Seq<char>)>, id: Seq<char>)
    requires
        !has_key(direct, id),
    ensures
        items_for(direct, id).len() == 0,
    decreases direct.len(),
{
    if direct.len() > 0 {
        let front = direct.drop_last();
        assert(direct[direct.len() - 1].0 != id);
        assert(!has_key(front, id)) by {
            if has_key(front, id) {
                let k = choose|k: int| 0 <= k < front.len() && (#[trigger] front[k]).0 == id;
                assert(direct[k].0 == id);
            }
        }
        lemma_no_items(front, id);
    }
}

/// A list holds the own blockers of an issue, then the marks of the parents it is paired with.
spec fn marked(
    list: Seq<Seq<char>>,
    id: Seq<char>,
    direct: Seq<(Seq<char>, Seq<char>)>,
    done: Set<(Seq<char>, Seq<char>)>,
) -> bool {
    let own = items_for(direct, id);
    let marks = list.skip(own.len() as int);
    &&& own.len() <= list.len()
    &&& list.take(own.len() as int) == own
    &&& marks.no_duplicates()
    &&& forall|m: Seq<char>| #[trigger]
        marks.contains(m) <==> exists|p: Seq<char>|
            #![trigger parent_mark(p)]
            done.contains((id, p)) && m == parent_mark(p)
}

/// The map lists what blocks each issue in it, with the links in `done` followed.
spec fn lists_blockers(
    m: Seq<(Seq<char>, Seq<Seq<char>>)>,
    direct: Seq<(Seq<char>, Seq<char>)>,
    links: Seq<(Seq<char>, Seq<char>)>,
    done: Set<(Seq<char>, Seq<char>)>,
) -> bool {
    &&& unique_keys(m)
    &&& forall|id: Seq<char>| #[trigger] has_key(direct, id) ==> has_key(m, id)
    &&& forall|id: Seq<char>| #[trigger]
        has_key(m, id) ==> marked(list_of(get_in(m, id)), id, direct, done)
    &&& forall|e: (Seq<char>, Seq<char>)| #[trigger]
        done.contains(e) ==> links.contains(e) && has_key(m, e.0)
    &&& forall|t: Set<Seq<char>>, id: Seq<char>|
        spreads(t, direct, links) && has_key(m, id) ==> #[trigger] t.contains(id)
}

proof fn lemma_mark_added(
    m: Seq<(Seq<char>, Seq<Seq<char>>)>,
    direct: Seq<(Seq<char>, Seq<char>)>,
    links: Seq<(Seq<char>, Seq<char>)>,
    done: Set<(Seq<char>, Seq<char>)>,
    c: Seq<char>,
    p: Seq<char>,
)
    requires
        lists_blockers(m, direct, links, done),
        links.contains((c, p)),
        has_key(m, p),
        !items_for(direct, c).contains(parent_mark(p)),
    ensures
        list_of(get_in(m, c)).contains(parent_mark(p)) ==> lists_blockers(
            m,
            direct,
            links,
            done.insert((c, p)),
        ) && has_key(m, c),
        !list_of(get_in(m, c)).contains(parent_mark(p)) ==> {
            let n = append_in(m, c, parent_mark(p));
            &&& lists_blockers(n, direct, links, done.insert((c, p)))
            &&& forall|id: Seq<char>| #[trigger] has_key(n, id) <==> has_key(m, id) || id == c
        },
{
    let mark = parent_mark(p);
    let list = list_of(get_in(m, c));
    let own = items_for(direct, c);
    let more = done.insert((c, p));
    lemma_get_in(m, c);
    if list.contains(mark) {
        assert(has_key(m, c));
        assert(marked(list, c, direct, done));
        let marks = list.skip(own.len() as int);
        let k = list.index_of(mark);
        if k < own.len() {
            assert(list.take(own.len() as int)[k] == mark);
            assert(own.contains(mark));
        }
        assert(marks[k - own.len()] == mark);
        assert(marks.contains(mark));
        let q = choose|q: Seq<char>|
            #![trigger parent_mark(q)]
            done.contains((c, q)) && mark == parent_mark(q);
        lemma_parent_mark_injective(p, q);
        assert(more =~= done);
    } else {
        let n = append_in(m, c, mark);
        lemma_put_in_keys(m, c, list.push(mark));
        assert forall|id: Seq<char>| #[trigger] has_key(n, id) <==> has_key(m, id) || id == c by {
            lemma_put_in(m, c, list.push(mark), id);
        }
        assert forall|id: Seq<char>| #[trigger] has_key(direct, id) implies has_key(n, id) by {
            assert(has_key(m, id));
        }
        assert forall|e: (Seq<char>, Seq<char>)| #[trigger] more.contains(e) implies
            links.contains(e) && has_key(n, e.0) by {
            if e != (c, p) {
                assert(done.contains(e));
                assert(has_key(m, e.0));
            }
        }
        assert forall|t: Set<Seq<char>>, id: Seq<char>|
            spreads(t, direct, links) && has_key(n, id) implies #[trigger] t.contains(id) by {
            if id == c {
                assert(has_key(m, p));
                assert(t.contains(p));
                let k = links.index_of((c, p));
                assert(t.contains(links[k].1));
            } else {
                assert(has_key(m, id));
            }
        }
        assert forall|id: Seq<char>| #[trigger] has_key(n, id) implies marked(
            list_of(get_in(n, id)),
            id,
            direct,
            more,
        ) by {
            lemma_put_in(m, c, list.push(mark), id);
            if id == c {
                if !has_key(m, c) {
                    if has_key(direct, c) {
                        assert(has_key(m, c));
                    }
                    lemma_no_items(direct, c);
                    assert(list =~= seq![]);
                    assert(own =~= seq![]);
                    assert(forall|q: Seq<char>| !done.contains((c, q))) by {
                        assert forall|q: Seq<char>| !done.contains((c, q)) by {
                            if done.contains((c, q)) {
                                assert(has_key(m, c));
                            }
                        }
                    }
                    assert(list.take(0) =~= own);
                    assert(marked(list, c, direct, done)) by {
                        assert(list.skip(0) =~= seq![]);
                    }
                }
                assert(marked(list, c, direct, done));
                let marks = list.skip(own.len() as int);
                let after = list.push(mark);
                assert(after.take(own.len() as int) =~= list.take(own.len() as int));
                assert(after.skip(own.len() as int) =~= marks.push(mark));
                assert(!marks.contains(mark)) by {
                    if marks.contains(mark) {
                        let k = marks.index_of(mark);
                        assert(list[k + own.len()] == mark);
                    }
                }
                assert(marks.push(mark).no_duplicates());
                assert forall|x: Seq<char>| #[trigger] marks.push(mark).contains(x) <==> exists|
                    q: Seq<char>,
                |
                    #![trigger parent_mark(q)]
                    more.contains((c, q)) && x == parent_mark(q) by {
                    lemma_contains_after_push(marks, mark, x);
                    if marks.contains(x) {
                        let q = choose|q: Seq<char>|
                            #![trigger parent_mark(q)]
                            done.contains((c, q)) && x == parent_mark(q);
                        assert(more.contains((c, q)) && x == parent_mark(q));
                    }
                    if x == mark {
                        assert(more.contains((c, p)) && x == parent_mark(p));
                    }
                    if exists|q: Seq<char>|
                        #![trigger parent_mark(q)]
                        more.contains((c, q)) && x == parent_mark(q) {
                        let q = choose|q: Seq<char>|
                            #![trigger parent_mark(q)]
                            more.contains((c, q)) && x == parent_mark(q);
                        if q != p {
                            assert(done.contains((c, q)));
                        }
                    }
                }
            } else {
                assert(has_key(m, id));
                let old_list = list_of(get_in(m, id));
                assert(marked(old_list, id, direct, done));
                let marks = old_list.skip(items_for(direct, id).len() as int);
                assert forall|x: Seq<char>| #[trigger] marks.contains(x) <==> exists|q: Seq<char>|
                    #![trigger parent_mark(q)]
                    more.contains((id, q)) && x == parent_mark(q) by {
                    if marks.contains(x) {
                        let q = choose|q: Seq<char>|
                            #![trigger parent_mark(q)]
                            done.contains((id, q)) && x == parent_mark(q);
                        assert(more.contains((id, q)) && x == parent_mark(q));
                    }
                    if exists|q: Seq<char>|
                        #![trigger parent_mark(q)]
                        more.contains((id, q)) && x == parent_mark(q) {
                        let q = choose|q: Seq<char>|
                            #![trigger parent_mark(q)]
                            more.contains((id, q)) && x == parent_mark(q);
                        assert(done.contains((id, q)) && x == parent_mark(q));
                    }
                }
            }
        }
    }
}

/// The links to the issues in `seen`.
spec fn links_to(
    links: Seq<(Seq<char>, Seq<char>)>,
    seen: Set<Seq<char>>,
) -> Set<(Seq<char>, Seq<char>)> {
    Set::new(|e: (Seq<char>, Seq<char>)| links.contains(e) && seen.contains(e.1))
}

fn follow_parent(
    blockers: &mut TextMap<Vec<String>>,
    queue: &mut Vec<String>,
    parent: &str,
    children: &Vec<String>,
    Ghost(direct): Ghost<Seq<(Seq<char>, Seq<char>)>>,
    Ghost(links): Ghost<Seq<(Seq<char>, Seq<char>)>>,
    Ghost(done): Ghost<Set<(Seq<char>, Seq<char>)>>,
)
    requires
        lists_blockers(old(blockers).deep_view(), direct, links, done),
        has_key(old(blockers).deep_view(), parent@),
        forall|c: Seq<char>| #[trigger] children.deep_view().contains(c) ==> links.contains((c, parent@)),
        forall|c: Seq<char>| !(#[trigger] items_for(direct, c)).contains(parent_mark(parent@)),
    ensures
        lists_blockers(
            final(blockers).deep_view(),
            direct,
            links,
            done.union(
                Set::new(
                    |e: (Seq<char>, Seq<char>)|
                        e.1 == parent@ && children.deep_view().contains(e.0),
                ),
            ),
        ),
        forall|id: Seq<char>| #[trigger]
            has_key(final(blockers).deep_view(), id) ==> has_key(old(blockers).deep_view(), id)
                || final(queue).deep_view().contains(id),
        forall|id: Seq<char>| #[trigger]
            has_key(old(blockers).deep_view(), id) ==> has_key(final(blockers).deep_view(), id),
        forall|id: Seq<char>| #[trigger]
            children.deep_view().contains(id) ==> has_key(final(blockers).deep_view(), id),
        forall|id: Seq<char>| #[trigger]
            old(queue).deep_view().contains(id) ==> final(queue).deep_view().contains(id),
        forall|id: Seq<char>| #[trigger]
            final(queue).deep_view().contains(id) ==> old(queue).deep_view().contains(id)
                || children.deep_view().contains(id),
{
    let ghost p = parent@;
    let ghost kids = children.deep_view();
    let ghost m0 = blockers.deep_view();
    let ghost q0 = queue.deep_view();
    let mark = joined(parent, ":parent-blocked");
    let mut k: usize = 0;
    let ghost mut now = done;
    proof {
        assert(now =~= done.union(Set::new(|e: (Seq<char>, Seq<char>)| e.1 == p && kids.take(0).contains(e.0))));
    }
    while k < children.len()
        invariant
            k <= children.len(),
            kids == children.deep_view(),
            p == parent@,
            mark@ == parent_mark(p),
            forall|c: Seq<char>| #[trigger] kids.contains(c) ==> links.contains((c, p)),
            forall|c: Seq<char>| !(#[trigger] items_for(direct, c)).contains(parent_mark(p)),
            lists_blockers(blockers.deep_view(), direct, links, now),
            now == done.union(
                Set::new(
                    |e: (Seq<char>, Seq<char>)| e.1 == p && kids.take(k as int).contains(e.0),
                ),
            ),
            has_key(m0, p),
            forall|id: Seq<char>| #[trigger]
                has_key(blockers.deep_view(), id) ==> has_key(m0, id)
                    || queue.deep_view().contains(id),
            forall|id: Seq<char>| #[trigger] has_key(m0, id) ==> has_key(blockers.deep_view(), id),
            forall|id: Seq<char>| #[trigger]
                kids.take(k as int).contains(id) ==> has_key(blockers.deep_view(), id),
            forall|id: Seq<char>| #[trigger] q0.contains(id) ==> queue.deep_view().contains(id),
            forall|id: Seq<char>| #[trigger]
                queue.deep_view().contains(id) ==> q0.contains(id) || kids.contains(id),
        decreases children.len() - k,
    {
        let ghost c = kids[k as int];
        let ghost m = blockers.deep_view();
        let ghost q = queue.deep_view();
        assert(c == children@[k as int]@);
        assert(kids.contains(c));
        assert(links.contains((c, p)));
        assert(!items_for(direct, c).contains(parent_mark(p)));
        proof {
            lemma_mark_added(m, direct, links, now, c, p);
        }
        let known = match blockers.get(children[k].as_str()) {
            Some(list) => holds(list, mark.as_str()),
            None => false,
        };
        assert(known == list_of(get_in(m, c)).contains(mark@));
        if !known {
            blockers.append(children[k].as_str(), mark.clone());
            queue.push(children[k].clone());
            assert(queue.deep_view() =~= q.push(c));
        }
        proof {
            assert forall|id: Seq<char>|
                #![trigger queue.deep_view().contains(id)]
                #![trigger q.contains(id)]
                queue.deep_view().contains(id) == (q.contains(id) || (!known && id == c)) by {
                lemma_contains_after_push(q, c, id);
            }
            assert(kids.take(k + 1) =~= kids.take(k as int).push(c));
            assert forall|id: Seq<char>|
                #![trigger kids.take(k + 1).contains(id)]
                #![trigger kids.take(k as int).contains(id)]
                kids.take(k + 1).contains(id) == (kids.take(k as int).contains(id) || id == c) by {
                lemma_contains_after_push(kids.take(k as int), c, id);
            }
            assert(now.insert((c, p)) =~= done.union(
                Set::new(
                    |e: (Seq<char>, Seq<char>)| e.1 == p && kids.take(k + 1).contains(e.0),
                ),
            ));
            now = now.insert((c, p));
            assert forall|id: Seq<char>| #[trigger] has_key(m0, id) implies has_key(
                blockers.deep_view(),
                id,
            ) by {
                assert(has_key(m, id));
            }
            assert forall|id: Seq<char>| #[trigger] kids.take(k + 1).contains(id) implies has_key(
                blockers.deep_view(),
                id,
            ) by {
                if id != c {
                    assert(kids.take(k as int).contains(id));
                    assert(has_key(m, id));
                }
            }
            assert forall|id: Seq<char>| #[trigger] has_key(blockers.deep_view(), id) implies
                has_key(m0, id) || queue.deep_view().contains(id) by {
                if has_key(m, id) {
                } else {
                    assert(id == c);
                }
            }
            assert forall|id: Seq<char>| #[trigger] q0.contains(id) implies
                queue.deep_view().contains(id) by {
                assert(q.contains(id));
            }
        }
        k += 1;
    }
    assert(kids.take(kids.len() as int) =~= kids);
}

/// Compute blockers caused by unsatisfied external dependencies, given the rows of the external
/// dependencies that can block, the rows of the links from children to parents, and the status of
/// each external dependency.
///
/// This excludes external dependencies from the blocked cache and evaluates
/// them at query time, including parent-child propagation.
pub fn external_blockers(
    rows: &Vec<Row>,
    edge_rows: &Vec<Row>,
    external_statuses: &TextMap<bool>,
) -> (r: TextMap<Vec<String>>)
    ensures
        ({
            let direct = unsatisfied(pairs(rows.deep_view()), external_statuses.deep_view());
            let links = full_pairs(edge_rows.deep_view());
            let blocked = Set::new(|id: Seq<char>| has_key(r.deep_view(), id));
            &&& unique_keys(r.deep_view())
            &&& spread(blocked, direct, links)
            &&& forall|id: Seq<char>| #[trigger]
                has_key(r.deep_view(), id) ==> blockers_listed(
                    list_of(get_in(r.deep_view(), id)),
                    id,
                    direct,
                    links,
                    blocked,
                )
        }),
{
    let own = unsatisfied_links(&text_pairs(rows), external_statuses);
    let ghost direct = unsatisfied(pairs(rows.deep_view()), external_statuses.deep_view());
    let mut blockers = group_pairs(&own);
    let edges = full_text_pairs(edge_rows);
    let ghost links = edges.deep_view();
    let ghost none = Set::<(Seq<char>, Seq<char>)>::empty();
    proof {
        lemma_start(direct, links);
    }
    let mut by_parent: Vec<(String, String)> = Vec::new();
    let mut i: usize = 0;
    while i < edges.len()
        invariant
            i <= edges.len(),
            links == edges.deep_view(),
            by_parent.len() == i,
            forall|k: int|
                0 <= k < i ==> (#[trigger] by_parent@[k]).deep_view() == (links[k].1, links[k].0),
        decreases edges.len() - i,
    {
        by_parent.push((edges[i].1.clone(), edges[i].0.clone()));
        i += 1;
    }
    assert(by_parent.deep_view() =~= flipped(links));
    let children_by_parent = group_pairs(&by_parent);
    let mut queue: Vec<String> = Vec::new();
    let mut i: usize = 0;
    let ghost m0 = blockers.deep_view();
    while i < blockers.len()
        invariant
            i <= blockers.deep_view().len(),
            m0 == blockers.deep_view(),
            queue.len() == i,
            forall|k: int| 0 <= k < i ==> (#[trigger] queue@[k])@ == m0[k].0,
        decreases blockers.deep_view().len() - i,
    {
        queue.push(blockers.key(i).to_owned());
        i += 1;
    }
    let mut seen: Vec<String> = Vec::new();
    proof {
        assert(links_to(links, seen.deep_view().to_set()) =~= none);
        assert forall|id: Seq<char>| #[trigger] has_key(m0, id) implies queue.deep_view().contains(
            id,
        ) by {
            let k = choose|k: int| 0 <= k < m0.len() && (#[trigger] m0[k]).0 == id;
            assert(queue.deep_view()[k] == id);
        }
        assert forall|id: Seq<char>| #[trigger] queue.deep_view().contains(id) implies has_key(
            m0,
            id,
        ) by {
            let k = queue.deep_view().index_of(id);
            assert(m0[k].0 == id);
        }
    }
    let ghost universe = universe_of(direct, links);
    while queue.len() > 0
        invariant
            links == full_pairs(edge_rows.deep_view()),
            direct == unsatisfied(pairs(rows.deep_view()), external_statuses.deep_view()),
            children_by_parent.deep_view() == grouped(flipped(links)),
            universe == universe_of(direct, links),
            lists_blockers(
                blockers.deep_view(),
                direct,
                links,
                links_to(links, seen.deep_view().to_set()),
            ),
            forall|id: Seq<char>| #[trigger]
                has_key(blockers.deep_view(), id) ==> seen.deep_view().contains(id)
                    || queue.deep_view().contains(id),
            forall|id: Seq<char>| #[trigger]
                queue.deep_view().contains(id) ==> has_key(blockers.deep_view(), id),
            forall|id: Seq<char>| #[trigger]
                seen.deep_view().contains(id) ==> has_key(blockers.deep_view(), id),
        decreases universe.difference(seen.deep_view().to_set()).len(), queue.len(),
    {
        let ghost q = queue.deep_view();
        let ghost m = blockers.deep_view();
        let ghost s = seen.deep_view();
        let last: usize = queue.len() - 1;
        let parent = queue[last].clone();
        queue.pop();
        assert(queue.deep_view() =~= q.drop_last());
        assert(parent@ == q.last());
        assert(q[last as int] == parent@);
        assert(q.contains(parent@));
        assert(has_key(m, parent@));
        assert forall|id: Seq<char>| #[trigger] q.contains(id) implies queue.deep_view().contains(
            id,
        ) || id == parent@ by {
            let k = q.index_of(id);
            if k < last {
                assert(queue.deep_view()[k] == id);
            }
        }
        assert forall|id: Seq<char>| #[trigger] queue.deep_view().contains(id) implies q.contains(
            id,
        ) by {
            let k = queue.deep_view().index_of(id);
            assert(q[k] == id);
        }
        if holds(&seen, parent.as_str()) {
            assert forall|id: Seq<char>| #[trigger] has_key(blockers.deep_view(), id) implies
                seen.deep_view().contains(id) || queue.deep_view().contains(id) by {
                if q.contains(id) {
                }
            }
            continue;
        }
        let ghost done = links_to(links, s.to_set());
        seen.push(parent.clone());
        proof {
            assert(seen.deep_view() =~= s.push(parent@));
            assert forall|id: Seq<char>|
                #![trigger seen.deep_view().contains(id)]
                #![trigger s.contains(id)]
                seen.deep_view().contains(id) == (s.contains(id) || id == parent@) by {
                lemma_contains_after_push(s, parent@, id);
            }
            lemma_universe(direct, links, m, parent@);
            lemma_universe_shrinks(direct, links, s, parent@);
            lemma_grouped(flipped(links), parent@);
        }
        let empty: Vec<String> = Vec::new();
        let children = match children_by_parent.get(parent.as_str()) {
            Some(list) => list,
            None => &empty,
        };
        let ghost kids = children.deep_view();
        proof {
            assert(kids =~= items_for(flipped(links), parent@)) by {
                assert(empty.deep_view() =~= seq![]);
            }
            assert forall|c: Seq<char>| #[trigger] kids.contains(c) <==> links.contains((c, parent@)) by {
                lemma_flipped(links, parent@, c);
            }
            assert forall|c: Seq<char>| !(#[trigger] items_for(direct, c)).contains(
                parent_mark(parent@),
            ) by {
                lemma_own_marks(
                    pairs(rows.deep_view()),
                    external_statuses.deep_view(),
                    c,
                    parent@,
                );
            }
        }
        follow_parent(
            &mut blockers,
            &mut queue,
            parent.as_str(),
            children,
            Ghost(direct),
            Ghost(links),
            Ghost(done),
        );
        proof {
            let after = done.union(
                Set::new(|e: (Seq<char>, Seq<char>)| e.1 == parent@ && kids.contains(e.0)),
            );
            assert(after =~= links_to(links, seen.deep_view().to_set())) by {
                assert forall|e: (Seq<char>, Seq<char>)| after.contains(e) <==> links_to(
                    links,
                    seen.deep_view().to_set(),
                ).contains(e) by {
                    assert(e == (e.0, e.1));
                    assert(kids.contains(e.0) <==> links.contains((e.0, parent@)));
                    assert(seen.deep_view().contains(e.1) == (s.contains(e.1) || e.1 == parent@));
                }
            }
            assert forall|id: Seq<char>| #[trigger] has_key(blockers.deep_view(), id) implies
                seen.deep_view().contains(id) || queue.deep_view().contains(id) by {
                if has_key(m, id) {
                    assert(s.contains(id) || q.contains(id));
                }
            }
            assert forall|id: Seq<char>| #[trigger] queue.deep_view().contains(id) implies has_key(
                blockers.deep_view(),
                id,
            ) by {
                if kids.contains(id) {
                } else {
                    assert(q.contains(id));
                    assert(has_key(m, id));
                }
            }
            assert forall|id: Seq<char>| #[trigger] seen.deep_view().contains(id) implies has_key(
                blockers.deep_view(),
                id,
            ) by {
                if id != parent@ {
                    assert(s.contains(id));
                    assert(has_key(m, id));
                }
            }
        }
    }
    proof {
        let m = blockers.deep_view();
        let blocked = Set::new(|id: Seq<char>| has_key(m, id));
        let all = seen.deep_view().to_set();
        assert(blocked =~= all) by {
            assert forall|id: Seq<char>| blocked.contains(id) <==> all.contains(id) by {
                if blocked.contains(id) {
                    assert(has_key(m, id));
                    assert(!queue.deep_view().contains(id));
                }
                if all.contains(id) {
                    assert(seen.deep_view().contains(id));
                }
            }
        }
        lemma_end(m, direct, links, blocked);
    }
    blockers
}

spec fn universe_of(
    direct: Seq<(Seq<char>, Seq<char>)>,
    links: Seq<(Seq<char>, Seq<char>)>,
) -> Set<Seq<char>> {
    direct.map_values(|e: (Seq<char>, Seq<char>)| e.0).to_set().union(
        links.map_values(|e: (Seq<char>, Seq<char>)| e.0).to_set(),
    )
}

proof fn lemma_universe(
    direct: Seq<(Seq<char>, Seq<char>)>,
    links: Seq<(Seq<char>, Seq<char>)>,
    m: Seq<(Seq<char>, Seq<Seq<char>>)>,
    id: Seq<char>,
)
    requires
        exists|done: Set<(Seq<char>, Seq<char>)>| lists_blockers(m, direct, links, done),
        has_key(m, id),
    ensures
        universe_of(direct, links).contains(id),
{
    let done = choose|done: Set<(Seq<char>, Seq<char>)>| lists_blockers(m, direct, links, done);
    let u = universe_of(direct, links);
    assert(spreads(u, direct, links)) by {
        let d = direct.map_values(|e: (Seq<char>, Seq<char>)| e.0);
        let l = links.map_values(|e: (Seq<char>, Seq<char>)| e.0);
        assert forall|x: Seq<char>| #[trigger] has_key(direct, x) implies u.contains(x) by {
            let k = choose|k: int| 0 <= k < direct.len() && (#[trigger] direct[k]).0 == x;
            assert(d[k] == x);
            assert(d.contains(x));
        }
        assert forall|k: int| 0 <= k < links.len() && u.contains((#[trigger] links[k]).1) implies
            u.contains(links[k].0) by {
            assert(l[k] == links[k].0);
            assert(l.contains(links[k].0));
        }
    }
    assert(u.contains(id));
}

proof fn lemma_universe_shrinks(
    direct: Seq<(Seq<char>, Seq<char>)>,
    links: Seq<(Seq<char>, Seq<char>)>,
    seen: Seq<Seq<char>>,
    id: Seq<char>,
)
    requires
        universe_of(direct, links).contains(id),
        !seen.contains(id),
    ensures
        universe_of(direct, links).difference(seen.push(id).to_set()).len() < universe_of(
            direct,
            links,
        ).difference(seen.to_set()).len(),
{
    let u = universe_of(direct, links);
    vstd::seq_lib::seq_to_set_is_finite(direct.map_values(|e: (Seq<char>, Seq<char>)| e.0));
    vstd::seq_lib::seq_to_set_is_finite(links.map_values(|e: (Seq<char>, Seq<char>)| e.0));
    let left = u.difference(seen.to_set());
    vstd::set_lib::lemma_len_subset(left, u);
    assert(u.difference(seen.push(id).to_set()) =~= left.remove(id)) by {
        assert forall|x: Seq<char>| u.difference(seen.push(id).to_set()).contains(x)
            <==> left.remove(id).contains(x) by {
            lemma_contains_after_push(seen, id, x);
        }
    }
    assert(left.contains(id));
}

proof fn lemma_start(
    direct: Seq<(Seq<char>, Seq<char>)>,
    links: Seq<(Seq<char>, Seq<char>)>,
)
    ensures
        lists_blockers(grouped(direct), direct, links, Set::empty()),
{
    let m = grouped(direct);
    lemma_grouped(direct, seq![]);
    assert forall|id: Seq<char>| has_key(m, id) <==> has_key(direct, id) by {
        lemma_grouped(direct, id);
        lemma_get_in(m, id);
    }
    assert forall|id: Seq<char>| #[trigger] has_key(m, id) implies marked(
        list_of(get_in(m, id)),
        id,
        direct,
        Set::empty(),
    ) by {
        lemma_grouped(direct, id);
        let own = items_for(direct, id);
        assert(own.take(own.len() as int) =~= own);
        assert(own.skip(own.len() as int) =~= seq![]);
    }
    assert forall|t: Set<Seq<char>>, id: Seq<char>|
        spreads(t, direct, links) && has_key(m, id) implies #[trigger] t.contains(id) by {
        assert(has_key(direct, id));
    }
}

proof fn lemma_end(
    m: Seq<(Seq<char>, Seq<Seq<char>>)>,
    direct: Seq<(Seq<char>, Seq<char>)>,
    links: Seq<(Seq<char>, Seq<char>)>,
    blocked: Set<Seq<char>>,
)
    requires
        lists_blockers(m, direct, links, links_to(links, blocked)),
        blocked == Set::new(|id: Seq<char>| has_key(m, id)),
    ensures
        spread(blocked, direct, links),
        forall|id: Seq<char>| #[trigger]
            has_key(m, id) ==> blockers_listed(
                list_of(get_in(m, id)),
                id,
                direct,
                links,
                blocked,
            ),
{
    let done = links_to(links, blocked);
    assert(spreads(blocked, direct, links)) by {
        assert forall|k: int| 0 <= k < links.len() && blocked.contains(
            (#[trigger] links[k]).1,
        ) implies blocked.contains(links[k].0) by {
            assert(links.contains(links[k]));
            assert(done.contains(links[k]));
        }
    }
    assert forall|t: Set<Seq<char>>| spreads(t, direct, links) implies #[trigger] blocked.subset_of(
        t,
    ) by {
        assert forall|id: Seq<char>| blocked.contains(id) implies t.contains(id) by {
            assert(has_key(m, id));
        }
    }
    assert forall|id: Seq<char>| #[trigger] has_key(m, id) implies blockers_listed(
        list_of(get_in(m, id)),
        id,
        direct,
        links,
        blocked,
    ) by {
        let list = list_of(get_in(m, id));
        assert(marked(list, id, direct, done));
        let marks = list.skip(items_for(direct, id).len() as int);
        assert forall|x: Seq<char>| #[trigger] marks.contains(x) <==> exists|p: Seq<char>|
            #![trigger blocked.contains(p)]
            blocked.contains(p) && links.contains((id, p)) && x == parent_mark(p) by {
            if marks.contains(x) {
                let p = choose|p: Seq<char>|
                    #![trigger parent_mark(p)]
                    done.contains((id, p)) && x == parent_mark(p);
                assert(blocked.contains(p) && links.contains((id, p)));
            }
            if exists|p: Seq<char>|
                #![trigger blocked.contains(p)]
                blocked.contains(p) && links.contains((id, p)) && x == parent_mark(p) {
                let p = choose|p: Seq<char>|
                    #![trigger blocked.contains(p)]
                    blocked.contains(p) && links.contains((id, p)) && x == parent_mark(p);
                assert(done.contains((id, p)) && x == parent_mark(p));
            }
        }
    }
}

} // verus!
