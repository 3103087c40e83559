//! Cycles in the dependency graph.

use crate::assoc::{group_pairs, TextMap};
use crate::circuits::find_circuits;
use crate::order::sort_unique;
use crate::sql::{text_pairs, Row, Statement};
use crate::text::holds;
use vstd::prelude::*;

verus! {

use crate::assoc::{grouped, items_for, keys_of, lemma_grouped, list_of};
use crate::circuits::{all_circuits, arc, before, circuit, is_graph, parts_at};
use crate::order::{lemma_sorted_unique, strictly_ascends};
use crate::sql::{pairs, stmt};
use crate::text::{lemma_text_le_antisymmetric, lemma_text_le_total, text_le, text_lt};

/// There is an edge from `u` to `v`.
pub open spec fn has_edge(edges: Seq<(Seq<char>, Seq<char>)>, u: Seq<char>, v: Seq<char>) -> bool {
    edges.contains((u, v))
}

/// A walk along edges that ends where it starts and visits no other node twice.
pub open spec fn is_cycle(edges: Seq<(Seq<char>, Seq<char>)>, c: Seq<Seq<char>>) -> bool {
    &&& c.len() >= 2
    &&& c[0] == c.last()
    &&& c.drop_last().no_duplicates()
    &&& is_walk(edges, c)
}

/// Each node of a walk has an edge to the next one.
pub open spec fn is_walk(edges: Seq<(Seq<char>, Seq<char>)>, w: Seq<Seq<char>>) -> bool {
    forall|i: int|
        #![trigger w[i]]
        0 <= i && i + 1 < w.len() ==> has_edge(edges, w[i], w[i + 1])
}

/// There is a closed walk of at least one edge.
pub open spec fn cyclic(edges: Seq<(Seq<char>, Seq<char>)>) -> bool {
    exists|w: Seq<Seq<char>>| #[trigger] is_walk(edges, w) && w.len() >= 2 && w[0] == w.last()
}

/// A cycle read from another one of its nodes on.
pub open spec fn rotated(c: Seq<Seq<char>>, k: int) -> Seq<Seq<char>> {
    c.subrange(k, c.len() - 1) + c.subrange(0, k + 1)
}

/// The same cycle, read from some node on.
pub open spec fn same_up_to_rotation(a: Seq<Seq<char>>, b: Seq<Seq<char>>) -> bool {
    exists|k: int| 0 <= k < a.len() - 1 && b == #[trigger] rotated(a, k)
}

/// The first node is the least.
pub open spec fn starts_least(c: Seq<Seq<char>>) -> bool {
    forall|i: int| 0 <= i < c.len() ==> text_le(c[0], #[trigger] c[i])
}

/// The lists agree up to the place `d`, where the first has the smaller text.
pub open spec fn smaller_at(a: Seq<Seq<char>>, b: Seq<Seq<char>>, d: int) -> bool {
    &&& 0 <= d < a.len()
    &&& d < b.len()
    &&& forall|i: int| 0 <= i < d ==> #[trigger] a[i] == b[i]
    &&& text_lt(a[d], b[d])
}

/// The first list comes before the second in the order of a dictionary.
pub open spec fn listed_before(a: Seq<Seq<char>>, b: Seq<Seq<char>>) -> bool {
    exists|d: int| smaller_at(a, b, d)
}

/// A graph with a closed walk has a cycle, and only such a graph has one.
pub proof fn lemma_cyclic(edges: Seq<(Seq<char>, Seq<char>)>)
    ensures
        cyclic(edges) <==> exists|c: Seq<Seq<char>>| is_cycle(edges, c),
{
    if cyclic(edges) {
        let w = choose|w: Seq<Seq<char>>| #[trigger]
            is_walk(edges, w) && w.len() >= 2 && w[0] == w.last();
        lemma_closed_walk(edges, w);
    }
    if exists|c: Seq<Seq<char>>| is_cycle(edges, c) {
        let c = choose|c: Seq<Seq<char>>| is_cycle(edges, c);
        assert(is_walk(edges, c));
    }
}

proof fn lemma_closed_walk(edges: Seq<(Seq<char>, Seq<char>)>, w: Seq<Seq<char>>)
    requires
        is_walk(edges, w),
        w.len() >= 2,
        w[0] == w.last(),
    ensures
        exists|c: Seq<Seq<char>>| is_cycle(edges, c),
    decreases w.len(),
{
    let front = w.drop_last();
    if front.no_duplicates() {
        assert(is_cycle(edges, w));
    } else {
        let (i, j) = choose|i: int, j: int|
            0 <= i < front.len() && 0 <= j < front.len() && i != j && #[trigger] front[i]
                == #[trigger] front[j];
        let (a, b): (int, int) = if i < j {
            (i, j)
        } else {
            (j, i)
        };
        let part = w.subrange(a, b + 1);
        assert forall|k: int| #![trigger part[k]] 0 <= k && k + 1 < part.len() implies has_edge(
            edges,
            part[k],
            part[k + 1],
        ) by {
            assert(part[k] == w[a + k]);
            assert(part[k + 1] == w[a + k + 1]);
        }
        assert(front[i] == w[i] && front[j] == w[j]);
        lemma_closed_walk(edges, part);
    }
}

/// A walk along edges leads from `u` to `v`.
pub open spec fn leads_to(edges: Seq<(Seq<char>, Seq<char>)>, u: Seq<char>, v: Seq<char>) -> bool {
    exists|w: Seq<Seq<char>>| #[trigger]
        is_walk(edges, w) && w.len() >= 1 && w[0] == u && w.last() == v
}

/// Where the dependencies have no cycle, adding one creates a cycle exactly if it is one of an
/// issue on itself or a way leads from the issue depended on back to the dependent one.
pub proof fn lemma_new_edge(edges: Seq<(Seq<char>, Seq<char>)>, u: Seq<char>, v: Seq<char>)
    requires
        !cyclic(edges),
    ensures
        cyclic(edges.push((u, v))) <==> u == v || leads_to(edges, v, u),
{
    let more = edges.push((u, v));
    assert(more[edges.len() as int] == (u, v));
    if u == v {
        assert(is_walk(more, seq![u, u]));
    } else if leads_to(edges, v, u) {
        let w = choose|w: Seq<Seq<char>>| #[trigger]
            is_walk(edges, w) && w.len() >= 1 && w[0] == v && w.last() == u;
        let z = seq![u] + w;
        assert forall|i: int| #![trigger z[i]] 0 <= i && i + 1 < z.len() implies has_edge(
            more,
            z[i],
            z[i + 1],
        ) by {
            if i > 0 {
                assert(z[i] == w[i - 1] && z[i + 1] == w[i]);
                assert(has_edge(edges, w[i - 1], w[i - 1 + 1]));
                let k = edges.index_of((z[i], z[i + 1]));
                assert(more[k] == (z[i], z[i + 1]));
            }
        }
        assert(is_walk(more, z));
    }
    if cyclic(more) {
        lemma_cyclic(more);
        let c = choose|c: Seq<Seq<char>>| is_cycle(more, c);
        lemma_edge_used(edges, u, v, c);
    }
}

proof fn lemma_old_edge(
    edges: Seq<(Seq<char>, Seq<char>)>,
    e: (Seq<char>, Seq<char>),
    a: Seq<char>,
    b: Seq<char>,
)
    requires
        has_edge(edges.push(e), a, b),
        (a, b) != e,
    ensures
        has_edge(edges, a, b),
{
    let k = edges.push(e).index_of((a, b));
    assert(edges[k] == (a, b));
}

proof fn lemma_edge_used(
    edges: Seq<(Seq<char>, Seq<char>)>,
    u: Seq<char>,
    v: Seq<char>,
    c: Seq<Seq<char>>,
)
    requires
        !cyclic(edges),
        is_cycle(edges.push((u, v)), c),
    ensures
        leads_to(edges, v, u),
{
    let n = c.len() - 1;
    if forall|i: int| 0 <= i < n ==> (#[trigger] c[i], c[i + 1]) != (u, v) {
        assert forall|i: int| #![trigger c[i]] 0 <= i && i + 1 < c.len() implies has_edge(
            edges,
            c[i],
            c[i + 1],
        ) by {
            lemma_old_edge(edges, (u, v), c[i], c[i + 1]);
        }
        assert(is_walk(edges, c));
    } else {
        let i = choose|i: int| 0 <= i < n && (#[trigger] c[i], c[i + 1]) == (u, v);
        lemma_way_round(edges, u, v, c, i);
    }
}

/// The rest of a cycle leads from the end of one of its edges back to the start.
proof fn lemma_way_round(
    edges: Seq<(Seq<char>, Seq<char>)>,
    u: Seq<char>,
    v: Seq<char>,
    c: Seq<Seq<char>>,
    i: int,
)
    requires
        is_cycle(edges.push((u, v)), c),
        0 <= i < c.len() - 1,
        c[i] == u,
        c[i + 1] == v,
    ensures
        leads_to(edges, v, u),
{
    let n = c.len() - 1;
    let w = c.subrange(i + 1, n) + c.subrange(0, i + 1);
    assert(w.len() == n);
    assert(w.last() == u);
    assert(w[0] == v);
    assert forall|k: int| #![trigger w[k]] 0 <= k && k + 1 < w.len() implies has_edge(
        edges,
        w[k],
        w[k + 1],
    ) by {
        let j: int = if k < n - i - 1 {
            i + 1 + k
        } else {
            k - (n - i - 1)
        };
        assert(w[k] == c[j]);
        assert(w[k + 1] == c[j + 1]);
        assert(c.drop_last()[j] != c.drop_last()[i]);
        lemma_old_edge(edges, (u, v), c[j], c[j + 1]);
    }
    assert(is_walk(edges, w));
}

/// The texts that numbers stand for.
spec fn named(names: Seq<Seq<char>>, c: Seq<usize>) -> Seq<Seq<char>> {
    c.map_values(|v: usize| names[v as int])
}

/// The graph has the edges between the named nodes.
spec fn numbers(
    edges: Seq<(Seq<char>, Seq<char>)>,
    names: Seq<Seq<char>>,
    g: Seq<Seq<usize>>,
) -> bool {
    &&& g.len() == names.len()
    &&& names.len() <= usize::MAX
    &&& strictly_ascends(names)
    &&& is_graph(g)
    &&& forall|u: usize, v: usize|
        u < names.len() && v < names.len() ==> (#[trigger] g[u as int].contains(v) <==> has_edge(
            edges,
            names[u as int],
            names[v as int],
        ))
    &&& forall|i: int| 0 <= i < edges.len() ==> names.contains((#[trigger] edges[i]).0)
}

proof fn lemma_on_circuit(g: Seq<Seq<usize>>, c: Seq<usize>, i: int)
    requires
        circuit(g, c),
        0 <= i < c.len(),
    ensures
        c[i] < g.len(),
{
    if i < c.len() - 1 {
        assert(arc(g, c[i], c[i + 1]));
    } else {
        assert(arc(g, c[0], c[1]));
    }
}

proof fn lemma_named_cycle(
    edges: Seq<(Seq<char>, Seq<char>)>,
    names: Seq<Seq<char>>,
    g: Seq<Seq<usize>>,
    c: Seq<usize>,
)
    requires
        numbers(edges, names, g),
        circuit(g, c),
    ensures
        is_cycle(edges, named(names, c)),
        starts_least(named(names, c)),
{
    let t = named(names, c);
    assert forall|i: int| #![trigger t[i]] 0 <= i && i + 1 < t.len() implies has_edge(
        edges,
        t[i],
        t[i + 1],
    ) by {
        lemma_on_circuit(g, c, i);
        lemma_on_circuit(g, c, i + 1);
        assert(arc(g, c[i], c[i + 1]));
        assert(g[c[i] as int].contains(c[i + 1]));
    }
    let front = t.drop_last();
    assert forall|i: int, j: int|
        0 <= i < front.len() && 0 <= j < front.len() && i != j implies front[i] != front[j] by {
        lemma_on_circuit(g, c, i);
        lemma_on_circuit(g, c, j);
        assert(c[i] != c[j]);
        if c[i] < c[j] {
            assert(text_lt(names[c[i] as int], names[c[j] as int]));
        } else {
            assert(text_lt(names[c[j] as int], names[c[i] as int]));
        }
    }
    assert forall|i: int| 0 <= i < t.len() implies text_le(t[0], #[trigger] t[i]) by {
        lemma_on_circuit(g, c, i);
        lemma_on_circuit(g, c, 0);
        if 0 < i < c.len() - 1 {
            assert(text_lt(names[c[0] as int], names[c[i] as int]));
        } else {
            assert(t[i] == t[0]);
            lemma_text_le_total(t[0], t[i]);
        }
    }
}

proof fn lemma_least_place(q: Seq<usize>, n: int) -> (m: int)
    requires
        0 < n <= q.len(),
    ensures
        0 <= m < n,
        forall|i: int| 0 <= i < n ==> q[m] <= #[trigger] q[i],
    decreases n,
{
    if n == 1 {
        0
    } else {
        let m = lemma_least_place(q, n - 1);
        if q[n - 1] < q[m] {
            n - 1
        } else {
            m
        }
    }
}

/// The numbers of the nodes of a cycle.
proof fn lemma_numbering(
    edges: Seq<(Seq<char>, Seq<char>)>,
    names: Seq<Seq<char>>,
    g: Seq<Seq<usize>>,
    t: Seq<Seq<char>>,
) -> (q: Seq<usize>)
    requires
        numbers(edges, names, g),
        is_cycle(edges, t),
    ensures
        q.len() == t.len(),
        forall|i: int|
            0 <= i < t.len() ==> #[trigger] q[i] < names.len() && names[q[i] as int] == t[i],
        q[0] == q.last(),
{
    let n = t.len() - 1;
    assert forall|i: int| 0 <= i < t.len() implies names.contains(#[trigger] t[i]) by {
        let j: int = if i < n {
            i
        } else {
            0
        };
        assert(t[i] == t[j]);
        assert(has_edge(edges, t[j], t[j + 1]));
        let k = edges.index_of((t[j], t[j + 1]));
        assert(edges[k].0 == t[j]);
    }
    let q = Seq::new(t.len(), |i: int| names.index_of(t[i]) as usize);
    assert forall|i: int| 0 <= i < t.len() implies #[trigger] q[i] < names.len()
        && names[q[i] as int] == t[i] by {
        assert(names.contains(t[i]));
    }
    q
}

/// A closed walk read from its place `m` on.
spec fn turned(q: Seq<usize>, m: int) -> Seq<usize> {
    q.subrange(m, q.len() - 1) + q.subrange(0, m + 1)
}

/// The place of the walk that stands in place `i` after turning.
spec fn turned_place(q: Seq<usize>, m: int, i: int) -> int {
    if i < q.len() - 1 - m {
        m + i
    } else {
        i - (q.len() - 1 - m)
    }
}

proof fn lemma_turned(q: Seq<usize>, m: int, i: int)
    requires
        0 <= m < q.len() - 1,
        0 <= i < q.len(),
    ensures
        turned(q, m).len() == q.len(),
        turned(q, m)[i] == q[turned_place(q, m, i)],
        i < q.len() - 1 ==> 0 <= turned_place(q, m, i) < q.len() - 1,
{
}

proof fn lemma_turned_apart(q: Seq<usize>, m: int, i: int, j: int)
    requires
        0 <= m < q.len() - 1,
        0 <= i < j < q.len() - 1,
        forall|a: int, b: int|
            0 <= a < b < q.len() - 1 ==> #[trigger] q[a] != #[trigger] q[b],
    ensures
        turned(q, m)[i] != turned(q, m)[j],
{
    lemma_turned(q, m, i);
    lemma_turned(q, m, j);
    let a = turned_place(q, m, i);
    let b = turned_place(q, m, j);
    if a < b {
        assert(q[a] != q[b]);
    } else {
        assert(q[b] != q[a]);
    }
}

proof fn lemma_turned_arc(g: Seq<Seq<usize>>, q: Seq<usize>, m: int, i: int)
    requires
        0 <= m < q.len() - 1,
        0 <= i < q.len() - 1,
        q[0] == q.last(),
        arc(g, q[turned_place(q, m, i)], q[turned_place(q, m, i) + 1]),
    ensures
        arc(g, turned(q, m)[i], turned(q, m)[i + 1]),
{
    lemma_turned(q, m, i);
    lemma_turned(q, m, i + 1);
}

proof fn lemma_turned_circuit(g: Seq<Seq<usize>>, q: Seq<usize>, m: int)
    requires
        0 <= m < q.len() - 1,
        q[0] == q.last(),
        forall|i: int, j: int|
            0 <= i < j < q.len() - 1 ==> #[trigger] q[i] != #[trigger] q[j],
        forall|i: int| #![trigger q[i]] 0 <= i < q.len() - 1 ==> arc(g, q[i], q[i + 1]),
        forall|i: int| 0 <= i < q.len() - 1 ==> q[m] <= #[trigger] q[i],
    ensures
        circuit(g, turned(q, m)),
{
    let c = turned(q, m);
    let n = q.len() - 1;
    assert(c.len() == q.len() && c[0] == c.last()) by {
        lemma_turned(q, m, 0);
        lemma_turned(q, m, n);
    }
    assert forall|i: int, j: int| 0 <= i < j < n implies #[trigger] c[i] != #[trigger] c[j] by {
        lemma_turned_apart(q, m, i, j);
    }
    assert forall|i: int| 0 < i < n implies c[0] < #[trigger] c[i] by {
        lemma_turned(q, m, 0);
        lemma_turned(q, m, i);
        lemma_turned_apart(q, m, 0, i);
    }
    assert forall|i: int| #![trigger c[i]] 0 <= i < n implies arc(g, c[i], c[i + 1]) by {
        lemma_turned(q, m, i);
        let a = turned_place(q, m, i);
        assert(arc(g, q[a], q[a + 1]));
        lemma_turned_arc(g, q, m, i);
    }
}

proof fn lemma_turned_back(names: Seq<Seq<char>>, q: Seq<usize>, t: Seq<Seq<char>>, m: int)
    requires
        0 <= m < q.len() - 1,
        q.len() == t.len(),
        q[0] == q.last(),
        forall|i: int|
            0 <= i < t.len() ==> #[trigger] q[i] < names.len() && names[q[i] as int] == t[i],
    ensures
        same_up_to_rotation(named(names, turned(q, m)), t),
{
    let c = turned(q, m);
    let x = named(names, c);
    let n = q.len() - 1;
    let k: int = if m == 0 {
        0
    } else {
        n - m
    };
    lemma_turned(q, m, 0);
    let y = rotated(x, k);
    assert(y.len() == t.len());
    assert forall|i: int| 0 <= i < t.len() implies #[trigger] y[i] == t[i] by {
        let j: int = if i < n - k {
            k + i
        } else {
            i - (n - k)
        };
        assert(y[i] == x[j]);
        lemma_turned(q, m, j);
        let a = turned_place(q, m, j);
        assert(q[a] == q[i]);
        assert(q[i] < names.len());
    }
    assert(y =~= t);
    assert(t == rotated(x, k));
}

proof fn lemma_numbered_cycle(
    edges: Seq<(Seq<char>, Seq<char>)>,
    names: Seq<Seq<char>>,
    g: Seq<Seq<usize>>,
    t: Seq<Seq<char>>,
) -> (c: Seq<usize>)
    requires
        numbers(edges, names, g),
        is_cycle(edges, t),
    ensures
        circuit(g, c),
        same_up_to_rotation(named(names, c), t),
{
    let n = t.len() - 1;
    let q = lemma_numbering(edges, names, g, t);
    let m = lemma_least_place(q, n);
    assert forall|i: int, j: int| 0 <= i < j < n implies #[trigger] q[i] != #[trigger] q[j] by {
        assert(t.drop_last()[i] != t.drop_last()[j]);
    }
    assert forall|i: int| #![trigger q[i]] 0 <= i < n implies arc(g, q[i], q[i + 1]) by {
        assert(q[i + 1] < names.len());
        assert(has_edge(edges, t[i], t[i + 1]));
        assert(g[q[i] as int].contains(q[i + 1]));
    }
    lemma_turned_circuit(g, q, m);
    lemma_turned_back(names, q, t, m);
    turned(q, m)
}

proof fn lemma_order_kept(
    edges: Seq<(Seq<char>, Seq<char>)>,
    names: Seq<Seq<char>>,
    g: Seq<Seq<usize>>,
    a: Seq<usize>,
    b: Seq<usize>,
)
    requires
        numbers(edges, names, g),
        circuit(g, a),
        circuit(g, b),
        before(a, b),
    ensures
        listed_before(named(names, a), named(names, b)),
{
    let x = named(names, a);
    let y = named(names, b);
    let d = choose|d: int| parts_at(a, b, d);
    lemma_on_circuit(g, a, d);
    lemma_on_circuit(g, b, d);
    assert forall|i: int| 0 <= i < d implies #[trigger] x[i] == y[i] by {
        assert(a[i] == b[i]);
    }
    assert(text_lt(names[a[d] as int], names[b[d] as int]));
    assert(smaller_at(x, y, d));
}

/// A cycle that starts at its least node does so in no other rotation.
proof fn lemma_least_rotation(
    edges: Seq<(Seq<char>, Seq<char>)>,
    x: Seq<Seq<char>>,
    k: int,
)
    requires
        is_cycle(edges, x),
        starts_least(x),
        0 <= k < x.len() - 1,
        starts_least(rotated(x, k)),
    ensures
        rotated(x, k) == x,
{
    let y = rotated(x, k);
    let n = x.len() - 1;
    if k == 0 {
        assert(y =~= x);
    } else {
        assert(y[0] == x[k]);
        assert(y[n - k] == x[0]);
        assert(text_le(y[0], y[n - k]));
        assert(text_le(x[0], x[k]));
        lemma_text_le_antisymmetric(x[0], x[k]);
        assert(x.drop_last()[0] != x.drop_last()[k]);
    }
}

proof fn lemma_no_rotation(
    edges: Seq<(Seq<char>, Seq<char>)>,
    x: Seq<Seq<char>>,
    y: Seq<Seq<char>>,
)
    requires
        is_cycle(edges, x),
        starts_least(x),
        starts_least(y),
        listed_before(x, y),
    ensures
        !same_up_to_rotation(x, y),
{
    if same_up_to_rotation(x, y) {
        let k = choose|k: int| 0 <= k < x.len() - 1 && y == #[trigger] rotated(x, k);
        lemma_least_rotation(edges, x, k);
        let d = choose|d: int| smaller_at(x, y, d);
        assert(x[d] != y[d]);
    }
}

proof fn lemma_items_are_edges(
    edges: Seq<(Seq<char>, Seq<char>)>,
    u: Seq<char>,
    v: Seq<char>,
)
    ensures
        items_for(edges, u).contains(v) <==> has_edge(edges, u, v),
    decreases edges.len(),
{
    if edges.len() > 0 {
        let front = edges.drop_last();
        let last = edges.last();
        lemma_items_are_edges(front, u, v);
        if has_edge(front, u, v) {
            let i = front.index_of((u, v));
            assert(edges[i] == (u, v));
        }
        if has_edge(edges, u, v) {
            let i = edges.index_of((u, v));
            if i < front.len() {
                assert(front[i] == (u, v));
            }
        }
        if last.0 == u {
            let items = items_for(front, u);
            let all = items.push(last.1);
            if items.contains(v) {
                let i = items.index_of(v);
                assert(all[i] == v);
            }
            if all.contains(v) {
                let i = all.index_of(v);
                if i < items.len() {
                    assert(items[i] == v);
                } else {
                    assert(edges[edges.len() - 1] == (u, v));
                }
            }
            if edges[edges.len() - 1] == (u, v) {
                assert(all[items.len() as int] == v);
            }
        }
    }
}

/// Query for the edges of the dependency graph.
pub fn edges_query() -> (r: Statement)
    ensures
        r.deep_view() == stmt("SELECT issue_id, depends_on_id FROM dependencies"@, seq![]),
        crate::asked::ask_all_edges().is(r.deep_view()),
{
    proof {
        crate::asked::lemma_ask_all_edges_text();
    }
    Statement::plain("SELECT issue_id, depends_on_id FROM dependencies")
}

/// The places of the names that a list holds, in ascending order.
fn places(names: &Vec<String>, list: Option<&Vec<String>>) -> (r: Vec<usize>)
    ensures
        forall|i: int| 0 <= i < r.len() ==> #[trigger] r@[i] < names.len(),
        forall|i: int, j: int| 0 <= i < j < r.len() ==> #[trigger] r@[i] < #[trigger] r@[j],
        forall|v: usize|
            v < names.len() ==> (#[trigger] r@.contains(v) <==> list_of(list.deep_view()).contains(
                names.deep_view()[v as int],
            )),
{
    let mut out: Vec<usize> = Vec::new();
    match list {
        Some(list) => {
            let mut k: usize = 0;
            while k < names.len()
                invariant
                    k <= names.len(),
                    forall|i: int| 0 <= i < out.len() ==> #[trigger] out@[i] < k,
                    forall|i: int, j: int|
                        0 <= i < j < out.len() ==> #[trigger] out@[i] < #[trigger] out@[j],
                    forall|v: usize|
                        v < k ==> (#[trigger] out@.contains(v) <==> list.deep_view().contains(
                            names.deep_view()[v as int],
                        )),
                decreases names.len() - k,
            {
                let ghost before_it = out@;
                assert(names@[k as int]@ == names.deep_view()[k as int]);
                if holds(list, names[k].as_str()) {
                    out.push(k);
                    assert(out@[before_it.len() as int] == k);
                }
                assert forall|v: usize| v < k implies (#[trigger] out@.contains(v)
                    <==> before_it.contains(v)) by {
                    if before_it.contains(v) {
                        let i = before_it.index_of(v);
                        assert(out@[i] == v);
                    }
                    if out@.contains(v) {
                        let i = out@.index_of(v);
                        assert(before_it[i] == v);
                    }
                }
                k += 1;
            }
        },
        None => {},
    }
    out
}

fn numbered(list: &Vec<(String, String)>, names: &Vec<String>) -> (r: Vec<Vec<usize>>)
    requires
        strictly_ascends(names.deep_view()),
        forall|t: Seq<char>| #[trigger]
            names.deep_view().contains(t) <==> keys_of(list.deep_view()).contains(t),
    ensures
        numbers(list.deep_view(), names.deep_view(), r.deep_view()),
{
    let ghost edges = list.deep_view();
    let graph: TextMap<Vec<String>> = group_pairs(list);
    let mut out: Vec<Vec<usize>> = Vec::new();
    let mut u: usize = 0;
    while u < names.len()
        invariant
            graph.deep_view() == grouped(edges),
            u <= names.len(),
            out.len() == u,
            forall|k: int, i: int|
                0 <= k < u && 0 <= i < out@[k].len() ==> #[trigger] out@[k]@[i] < names.len(),
            forall|k: int, i: int, j: int|
                0 <= k < u && 0 <= i < j < out@[k].len() ==> #[trigger] out@[k]@[i]
                    < #[trigger] out@[k]@[j],
            forall|k: int, v: usize|
                0 <= k < u && v < names.len() ==> (#[trigger] out@[k]@.contains(v) <==> has_edge(
                    edges,
                    names.deep_view()[k],
                    names.deep_view()[v as int],
                )),
        decreases names.len() - u,
    {
        let ghost name = names.deep_view()[u as int];
        assert(names@[u as int]@ == name);
        let here = places(names, graph.get(names[u].as_str()));
        proof {
            lemma_grouped(edges, name);
            assert forall|v: usize| v < names.len() implies (#[trigger] here@.contains(v)
                <==> has_edge(edges, name, names.deep_view()[v as int])) by {
                lemma_items_are_edges(edges, name, names.deep_view()[v as int]);
            }
        }
        out.push(here);
        u += 1;
    }
    proof {
        let g = out.deep_view();
        assert forall|k: int| 0 <= k < out.len() implies #[trigger] g[k] == out@[k]@ by {
            assert(g[k] =~= out@[k]@);
        }
        assert forall|i: int| 0 <= i < edges.len() implies names.deep_view().contains(
            (#[trigger] edges[i]).0,
        ) by {
            assert(keys_of(edges)[i] == edges[i].0);
        }
        assert forall|k: usize, v: usize| k < names.len() && v < names.len() implies (
        #[trigger] g[k as int].contains(v) <==> has_edge(
            edges,
            names.deep_view()[k as int],
            names.deep_view()[v as int],
        )) by {
            assert(out@[k as int]@.contains(v) <==> has_edge(
                edges,
                names.deep_view()[k as int],
                names.deep_view()[v as int],
            ));
        }
        assert(names.deep_view().len() == names.len());
    }
    out
}

fn named_path(names: &Vec<String>, path: &Vec<usize>) -> (r: Vec<String>)
    requires
        forall|i: int| 0 <= i < path.len() ==> #[trigger] path@[i] < names.len(),
    ensures
        r.deep_view() == named(names.deep_view(), path@),
{
    let mut out: Vec<String> = Vec::new();
    let mut i: usize = 0;
    while i < path.len()
        invariant
            i <= path.len(),
            out.len() == i,
            forall|k: int| 0 <= k < path.len() ==> #[trigger] path@[k] < names.len(),
            forall|k: int|
                0 <= k < i ==> (#[trigger] out@[k])@ == names.deep_view()[path@[k] as int],
        decreases path.len() - i,
    {
        assert(path@[i as int] < names.len());
        out.push(names[path[i]].clone());
        i += 1;
    }
    assert(out.deep_view() =~= named(names.deep_view(), path@));
    out
}

/// Detect all cycles in the dependency graph, given the rows of its edges.
///
/// Returns a list of cycles, where each cycle is a vector of issue IDs: it starts at its least
/// issue and ends there again. The cycles come in the order of a dictionary, each once.
/// Uses an iterative depth-first search to avoid stack overflow on deep graphs.
pub fn detect_all_cycles(rows: &Vec<Row>) -> (r: Vec<Vec<String>>)
    ensures
        forall|i: int|
            0 <= i < r.len() ==> is_cycle(pairs(rows.deep_view()), #[trigger] r.deep_view()[i]),
        forall|c: Seq<Seq<char>>| #[trigger]
            is_cycle(pairs(rows.deep_view()), c) ==> exists|i: int|
                0 <= i < r.len() && same_up_to_rotation(#[trigger] r.deep_view()[i], c),
        forall|i: int, j: int|
            0 <= i < j < r.len() ==> !same_up_to_rotation(
                #[trigger] r.deep_view()[i],
                #[trigger] r.deep_view()[j],
            ),
        forall|i: int| 0 <= i < r.len() ==> starts_least(#[trigger] r.deep_view()[i]),
        forall|i: int, j: int|
            0 <= i < j < r.len() ==> listed_before(
                #[trigger] r.deep_view()[i],
                #[trigger] r.deep_view()[j],
            ),
        r.len() > 0 <==> cyclic(pairs(rows.deep_view())),
{
    let list = text_pairs(rows);
    let ghost edges = list.deep_view();
    let mut from: Vec<String> = Vec::new();
    let mut i: usize = 0;
    while i < list.len()
        invariant
            edges == list.deep_view(),
            i <= list.len(),
            from.len() == i,
            forall|k: int| 0 <= k < i ==> (#[trigger] from@[k])@ == edges[k].0,
        decreases list.len() - i,
    {
        from.push(list[i].0.clone());
        i += 1;
    }
    assert(from.deep_view() =~= keys_of(edges));
    let names = sort_unique(&from);
    proof {
        lemma_sorted_unique(keys_of(edges));
    }
    let graph = numbered(&list, &names);
    let found = find_circuits(&graph);
    let ghost g = graph.deep_view();
    let ghost all = found.deep_view();
    let ghost texts = names.deep_view();
    let mut out: Vec<Vec<String>> = Vec::new();
    let mut k: usize = 0;
    while k < found.len()
        invariant
            numbers(edges, texts, g),
            texts == names.deep_view(),
            all == found.deep_view(),
            all_circuits(g, all),
            k <= found.len(),
            out.len() == k,
            forall|j: int| 0 <= j < k ==> (#[trigger] out@[j]).deep_view() == named(texts, all[j]),
        decreases found.len() - k,
    {
        let ghost c = all[k as int];
        assert(c =~= found@[k as int]@);
        assert forall|j: int| 0 <= j < c.len() implies #[trigger] c[j] < names.len() by {
            lemma_on_circuit(g, c, j);
        }
        out.push(named_path(&names, &found[k]));
        k += 1;
    }
    proof {
        let r = out.deep_view();
        assert forall|i: int| 0 <= i < r.len() implies #[trigger] r[i] == named(texts, all[i])
            && is_cycle(edges, r[i]) && starts_least(r[i]) by {
            assert(out@[i].deep_view() == named(texts, all[i]));
            lemma_named_cycle(edges, texts, g, all[i]);
        }
        assert forall|c: Seq<Seq<char>>| #[trigger] is_cycle(edges, c) implies exists|i: int|
            0 <= i < r.len() && same_up_to_rotation(#[trigger] r[i], c) by {
            let q = lemma_numbered_cycle(edges, texts, g, c);
            let i = all.index_of(q);
            assert(all[i] == q);
            assert(r[i] == named(texts, all[i]));
        }
        assert forall|i: int, j: int| 0 <= i < j < r.len() implies !same_up_to_rotation(
            #[trigger] r[i],
            #[trigger] r[j],
        ) && listed_before(r[i], r[j]) by {
            lemma_order_kept(edges, texts, g, all[i], all[j]);
            lemma_no_rotation(edges, r[i], r[j]);
        }
        lemma_cyclic(edges);
        if r.len() > 0 {
            assert(is_cycle(edges, r[0]));
        }
    }
    out
}

} // verus!
