//! The elementary circuits of a graph whose nodes are numbers.

use vstd::prelude::*;

verus! {

/// There is an arc from `u` to `v`.
pub open spec fn arc(g: Seq<Seq<usize>>, u: usize, v: usize) -> bool {
    u < g.len() && g[u as int].contains(v)
}

/// Each node lists the nodes that its arcs lead to, in strictly ascending order.
pub open spec fn is_graph(g: Seq<Seq<usize>>) -> bool {
    &&& g.len() <= usize::MAX
    &&& forall|u: int, i: int|
        0 <= u < g.len() && 0 <= i < g[u].len() ==> #[trigger] g[u][i] < g.len()
    &&& forall|u: int, i: int, j: int|
        0 <= u < g.len() && 0 <= i < j < g[u].len() ==> #[trigger] g[u][i] < #[trigger] g[u][j]
}

/// A walk along arcs that ends where it starts, meets no other node twice and starts at its least
/// node.
pub open spec fn circuit(g: Seq<Seq<usize>>, c: Seq<usize>) -> bool {
    &&& c.len() >= 2
    &&& c[0] == c.last()
    &&& forall|i: int| 0 < i < c.len() - 1 ==> c[0] < #[trigger] c[i]
    &&& forall|i: int, j: int|
        0 <= i < j < c.len() - 1 ==> #[trigger] c[i] != #[trigger] c[j]
    &&& forall|i: int| #![trigger c[i]] 0 <= i < c.len() - 1 ==> arc(g, c[i], c[i + 1])
}

/// The sequences agree up to the place `d`, where the first has the smaller number.
pub open spec fn parts_at(a: Seq<usize>, b: Seq<usize>, d: int) -> bool {
    &&& 0 <= d < a.len()
    &&& d < b.len()
    &&& forall|i: int| 0 <= i < d ==> #[trigger] a[i] == b[i]
    &&& a[d] < b[d]
}

/// The first sequence comes before the second in the order of a dictionary.
pub open spec fn before(a: Seq<usize>, b: Seq<usize>) -> bool {
    exists|d: int| parts_at(a, b, d)
}

/// These are the circuits that come before `key`, in the order of a dictionary.
spec fn gathered(g: Seq<Seq<usize>>, found: Seq<Seq<usize>>, key: Seq<usize>) -> bool {
    &&& forall|i: int|
        0 <= i < found.len() ==> circuit(g, #[trigger] found[i]) && before(found[i], key)
    &&& forall|c: Seq<usize>| #[trigger] circuit(g, c) && before(c, key) ==> found.contains(c)
    &&& forall|i: int, j: int|
        0 <= i < j < found.len() ==> before(#[trigger] found[i], #[trigger] found[j])
}

/// These are all circuits of the graph, in the order of a dictionary.
pub open spec fn all_circuits(g: Seq<Seq<usize>>, found: Seq<Seq<usize>>) -> bool {
    &&& forall|i: int| 0 <= i < found.len() ==> circuit(g, #[trigger] found[i])
    &&& forall|c: Seq<usize>| #[trigger] circuit(g, c) ==> found.contains(c)
    &&& forall|i: int, j: int|
        0 <= i < j < found.len() ==> before(#[trigger] found[i], #[trigger] found[j])
}

/// `c` begins with `p` and goes on.
spec fn extends(c: Seq<usize>, p: Seq<usize>) -> bool {
    &&& c.len() > p.len()
    &&& forall|i: int| 0 <= i < p.len() ==> #[trigger] c[i] == p[i]
}

/// The node that the arc in a place leads to, the number of nodes where there is no such arc.
spec fn target(g: Seq<Seq<usize>>, u: usize, k: int) -> usize {
    if k < g[u as int].len() {
        g[u as int][k]
    } else {
        g.len() as usize
    }
}

/// The circuits up to the next arc are those up to this one and those that take it.
proof fn lemma_next_arc(g: Seq<Seq<usize>>, p: Seq<usize>, k: int, c: Seq<usize>)
    requires
        is_graph(g),
        p.len() > 0,
        p.last() < g.len(),
        0 <= k < g[p.last() as int].len(),
        circuit(g, c),
    ensures
        before(c, p.push(target(g, p.last(), k + 1))) <==> before(
            c,
            p.push(target(g, p.last(), k)),
        ) || (extends(c, p) && c[p.len() as int] == target(g, p.last(), k)),
{
    let u = p.last();
    let v = target(g, u, k);
    let a = p.push(v);
    let b = p.push(target(g, u, k + 1));
    let n = p.len() as int;
    assert(v < b[n]);
    if before(c, b) {
        let d = choose|d: int| parts_at(c, b, d);
        if d < n {
            assert(parts_at(c, a, d));
        } else {
            assert(extends(c, p)) by {
                assert forall|i: int| 0 <= i < p.len() implies #[trigger] c[i] == p[i] by {
                    assert(c[i] == b[i]);
                }
            }
            assert(c[n - 1] == u);
            assert(n - 1 < c.len() - 1);
            assert(arc(g, c[n - 1], c[n - 1 + 1]));
            let j = choose|j: int| 0 <= j < g[u as int].len() && g[u as int][j] == c[n];
            assert(g[u as int][j] == c[n]);
            if j < k {
                assert(g[u as int][j] < g[u as int][k]);
                assert(parts_at(c, a, n));
            } else if j > k + 1 {
                assert(g[u as int][k + 1] < g[u as int][j]);
            }
        }
    }
    if before(c, a) {
        let d = choose|d: int| parts_at(c, a, d);
        assert forall|i: int| 0 <= i < d implies #[trigger] c[i] == b[i] by {
            assert(c[i] == a[i]);
        }
        assert(parts_at(c, b, d));
    }
    if extends(c, p) && c[n] == v {
        assert(parts_at(c, b, n));
    }
}

/// No circuit comes between a node and its first arc.
proof fn lemma_first_arc(g: Seq<Seq<usize>>, p: Seq<usize>, v: usize, c: Seq<usize>)
    requires
        is_graph(g),
        v < g.len(),
        circuit(g, c),
    ensures
        before(c, p.push(v).push(target(g, v, 0))) <==> before(c, p.push(v)),
{
    let a = p.push(v);
    let b = a.push(target(g, v, 0));
    let n = p.len() as int;
    if before(c, b) {
        let d = choose|d: int| parts_at(c, b, d);
        if d <= n {
            assert forall|i: int| 0 <= i < d implies #[trigger] c[i] == a[i] by {
                assert(c[i] == b[i]);
            }
            assert(parts_at(c, a, d));
        } else {
            assert(d == n + 1);
            assert(c[n] == b[n]);
            assert(n < c.len() - 1);
            assert(arc(g, c[n], c[n + 1]));
            let j = choose|j: int| 0 <= j < g[v as int].len() && g[v as int][j] == c[n + 1];
            if j > 0 {
                assert(g[v as int][0] < g[v as int][j]);
            }
            assert(false);
        }
    }
    if before(c, a) {
        let d = choose|d: int| parts_at(c, a, d);
        assert forall|i: int| 0 <= i < d implies #[trigger] c[i] == b[i] by {
            assert(c[i] == a[i]);
        }
        assert(parts_at(c, b, d));
    }
}

/// The circuits up to the end of a path are those before it and those that go on from it.
proof fn lemma_last_arc(g: Seq<Seq<usize>>, p: Seq<usize>, c: Seq<usize>)
    requires
        is_graph(g),
        p.len() > 0,
        circuit(g, c),
    ensures
        before(c, p.push(g.len() as usize)) <==> before(c, p) || extends(c, p),
{
    let b = p.push(g.len() as usize);
    let n = p.len() as int;
    if before(c, b) {
        let d = choose|d: int| parts_at(c, b, d);
        assert forall|i: int| 0 <= i < d implies #[trigger] c[i] == p[i] by {
            assert(c[i] == b[i]);
        }
        if d < n {
            assert(parts_at(c, p, d));
        }
    }
    if before(c, p) {
        let d = choose|d: int| parts_at(c, p, d);
        assert forall|i: int| 0 <= i < d implies #[trigger] c[i] == b[i] by {
            assert(c[i] == p[i]);
        }
        assert(parts_at(c, b, d));
    }
    if extends(c, p) {
        assert forall|i: int| 0 <= i < n implies #[trigger] c[i] == b[i] by {
            assert(c[i] == p[i]);
        }
        lemma_nodes(g, c, n);
        assert(parts_at(c, b, n));
    }
}

/// What is on a circuit is a node.
proof fn lemma_nodes(g: Seq<Seq<usize>>, c: Seq<usize>, i: int)
    requires
        circuit(g, c),
        0 <= i < c.len(),
    ensures
        c[i] < g.len(),
{
    if i < c.len() - 1 {
        assert(arc(g, c[i], c[i + 1]));
    } else {
        assert(arc(g, c[0], c[1]));
    }
}

/// A way on from `v` back to the root, by nodes above the root that are not taken.
pub open spec fn way_back(
    g: Seq<Seq<usize>>,
    taken: Seq<bool>,
    root: usize,
    v: usize,
    w: Seq<usize>,
) -> bool {
    &&& w.len() >= 2
    &&& w[0] == v
    &&& w.last() == root
    &&& forall|i: int| 0 <= i < w.len() - 1 ==> is_free(taken, root, #[trigger] w[i])
    &&& forall|i: int| #![trigger w[i]] 0 <= i < w.len() - 1 ==> arc(g, w[i], w[i + 1])
}

/// A node above the root that is not taken.
pub open spec fn is_free(taken: Seq<bool>, root: usize, v: usize) -> bool {
    root < v && v < taken.len() && !taken[v as int]
}

/// A walk by free nodes.
spec fn free_walk(
    g: Seq<Seq<usize>>,
    taken: Seq<bool>,
    root: usize,
    v: usize,
    x: usize,
    w: Seq<usize>,
) -> bool {
    &&& w.len() >= 1
    &&& w[0] == v
    &&& w.last() == x
    &&& forall|i: int| 0 <= i < w.len() ==> is_free(taken, root, #[trigger] w[i])
    &&& forall|i: int| #![trigger w[i]] 0 <= i < w.len() - 1 ==> arc(g, w[i], w[i + 1])
}

/// `x` can be reached from `v` by free nodes.
spec fn reached(g: Seq<Seq<usize>>, taken: Seq<bool>, root: usize, v: usize, x: usize) -> bool {
    exists|w: Seq<usize>| free_walk(g, taken, root, v, x, w)
}

proof fn lemma_reach_further(
    g: Seq<Seq<usize>>,
    taken: Seq<bool>,
    root: usize,
    v: usize,
    x: usize,
    y: usize,
)
    requires
        reached(g, taken, root, v, x),
        arc(g, x, y),
    ensures
        y == root ==> exists|w: Seq<usize>| way_back(g, taken, root, v, w),
        is_free(taken, root, y) ==> reached(g, taken, root, v, y),
{
    let w = choose|w: Seq<usize>| free_walk(g, taken, root, v, x, w);
    let z = w.push(y);
    assert forall|i: int| #![trigger z[i]] 0 <= i < z.len() - 1 implies arc(g, z[i], z[i + 1]) by {
        assert(z[i] == w[i]);
        if i < w.len() - 1 {
            assert(z[i + 1] == w[i + 1]);
        } else {
            assert(w[i] == x);
        }
    }
    assert forall|i: int| 0 <= i < z.len() - 1 implies is_free(taken, root, #[trigger] z[i]) by {
        assert(z[i] == w[i]);
    }
    if y == root {
        assert(way_back(g, taken, root, v, z));
    }
    if is_free(taken, root, y) {
        assert(free_walk(g, taken, root, v, y, z));
    }
}

/// All arcs of a node that was seen lead to nodes that were seen or are not free, and none to the
/// root.
spec fn settled(
    g: Seq<Seq<usize>>,
    taken: Seq<bool>,
    root: usize,
    seen: Seq<bool>,
    x: usize,
    n: int,
) -> bool {
    forall|j: int|
        0 <= j < n ==> (#[trigger] g[x as int][j]) != root && (is_free(taken, root, g[x as int][j])
            ==> seen[g[x as int][j] as int])
}

proof fn lemma_no_way_back(
    g: Seq<Seq<usize>>,
    taken: Seq<bool>,
    root: usize,
    seen: Seq<bool>,
    v: usize,
    w: Seq<usize>,
    i: int,
)
    requires
        is_graph(g),
        seen.len() == g.len(),
        v < g.len(),
        seen[v as int],
        forall|x: usize|
            x < g.len() && #[trigger] seen[x as int] ==> settled(
                g,
                taken,
                root,
                seen,
                x,
                g[x as int].len() as int,
            ),
        way_back(g, taken, root, v, w),
        0 <= i < w.len(),
    ensures
        i < w.len() - 1 ==> w[i] < g.len() && seen[w[i] as int],
        i == w.len() - 1 ==> false,
    decreases i,
{
    if i > 0 {
        lemma_no_way_back(g, taken, root, seen, v, w, i - 1);
        let x = w[i - 1];
        assert(arc(g, w[i - 1], w[i - 1 + 1]));
        let j = choose|j: int| 0 <= j < g[x as int].len() && g[x as int][j] == w[i];
        assert(g[x as int][j] == w[i]);
        assert(seen[x as int]);
        assert(settled(g, taken, root, seen, x, g[x as int].len() as int));
        if i < w.len() - 1 {
            assert(is_free(taken, root, w[i]));
        }
    }
}

/// How many nodes were not seen yet.
spec fn unseen(seen: Seq<bool>) -> nat
    decreases seen.len(),
{
    if seen.len() == 0 {
        0
    } else {
        unseen(seen.drop_last()) + (if seen.last() {
            0nat
        } else {
            1nat
        })
    }
}

proof fn lemma_seen(seen: Seq<bool>, k: int)
    requires
        0 <= k < seen.len(),
        !seen[k],
    ensures
        unseen(seen.update(k, true)) + 1 == unseen(seen),
    decreases seen.len(),
{
    if k == seen.len() - 1 {
        assert(seen.update(k, true).drop_last() =~= seen.drop_last());
    } else {
        lemma_seen(seen.drop_last(), k);
        assert(seen.update(k, true).drop_last() =~= seen.drop_last().update(k, true));
    }
}

fn blank(n: usize) -> (r: Vec<bool>)
    ensures
        r@ == Seq::new(n as nat, |i: int| false),
{
    let mut out: Vec<bool> = Vec::new();
    let mut i: usize = 0;
    while i < n
        invariant
            i <= n,
            out@ == Seq::new(i as nat, |j: int| false),
        decreases n - i,
    {
        out.push(false);
        i += 1;
        assert(out@ =~= Seq::new(i as nat, |j: int| false));
    }
    out
}

/// Whether a way leads from `v` back to the root, by nodes above the root that are not taken.
fn leads_back(g: &Vec<Vec<usize>>, taken: &Vec<bool>, root: usize, v: usize) -> (r: bool)
    requires
        is_graph(g.deep_view()),
        taken.len() == g.len(),
        is_free(taken@, root, v),
    ensures
        r == exists|w: Seq<usize>| way_back(g.deep_view(), taken@, root, v, w),
{
    let ghost gr = g.deep_view();
    let n: usize = g.len();
    let mut seen: Vec<bool> = blank(n);
    seen.set(v, true);
    let mut todo: Vec<usize> = Vec::new();
    todo.push(v);
    proof {
        assert(free_walk(gr, taken@, root, v, v, seq![v]));
        assert(todo@[0] == v);
    }
    while todo.len() > 0
        invariant
            gr == g.deep_view(),
            is_graph(gr),
            n == g.len(),
            taken.len() == n,
            seen.len() == n,
            v < n,
            seen@[v as int],
            forall|i: int| 0 <= i < todo.len() ==> #[trigger] todo@[i] < n,
            forall|x: usize|
                x < n && #[trigger] seen@[x as int] ==> reached(gr, taken@, root, v, x) && (
                todo@.contains(x) || settled(
                    gr,
                    taken@,
                    root,
                    seen@,
                    x,
                    gr[x as int].len() as int,
                )),
            forall|i: int| 0 <= i < todo.len() ==> seen@[#[trigger] todo@[i] as int],
        decreases unseen(seen@), todo.len(),
    {
        let ghost before_pop = todo@;
        let ghost left = unseen(seen@);
        let top: usize = todo.len() - 1;
        let u: usize = todo[top];
        todo.pop();
        assert(todo@ =~= before_pop.drop_last());
        assert(before_pop[top as int] == u);
        assert(seen@[u as int]);
        assert forall|x: usize| before_pop.contains(x) && x != u implies todo@.contains(x) by {
            let i = before_pop.index_of(x);
            assert(todo@[i] == x);
        }
        assert(g@[u as int].deep_view() == gr[u as int]);
        let mut j: usize = 0;
        while j < g[u].len()
            invariant
                gr == g.deep_view(),
                is_graph(gr),
                n == g.len(),
                u < n,
                g@[u as int].deep_view() == gr[u as int],
                taken.len() == n,
                seen.len() == n,
                v < n,
                seen@[v as int],
                j <= gr[u as int].len(),
                seen@[u as int],
                forall|i: int| 0 <= i < todo.len() ==> #[trigger] todo@[i] < n,
                forall|x: usize|
                    x < n && #[trigger] seen@[x as int] ==> reached(gr, taken@, root, v, x) && (
                    x == u || todo@.contains(x) || settled(
                        gr,
                        taken@,
                        root,
                        seen@,
                        x,
                        gr[x as int].len() as int,
                    )),
                forall|i: int| 0 <= i < todo.len() ==> seen@[#[trigger] todo@[i] as int],
                settled(gr, taken@, root, seen@, u, j as int),
                unseen(seen@) < left || (unseen(seen@) == left && todo.len() == top),
            decreases gr[u as int].len() - j,
        {
            let w: usize = g[u][j];
            assert(w == gr[u as int][j as int]);
            assert(w < n);
            proof {
                assert(gr[u as int].contains(w));
                lemma_reach_further(gr, taken@, root, v, u, w);
            }
            if w == root {
                return true;
            }
            let ghost seen0 = seen@;
            let ghost todo0 = todo@;
            if w > root && !taken[w] && !seen[w] {
                proof {
                    lemma_seen(seen@, w as int);
                }
                seen.set(w, true);
                todo.push(w);
                assert(seen@ =~= seen0.update(w as int, true));
                assert(todo@.last() == w);
                assert forall|x: usize| todo0.contains(x) implies todo@.contains(x) by {
                    let i = todo0.index_of(x);
                    assert(todo@[i] == x);
                }
            }
            assert forall|x: usize, m: int|
                x < n && 0 <= m <= gr[x as int].len() && #[trigger] settled(
                    gr,
                    taken@,
                    root,
                    seen0,
                    x,
                    m,
                ) implies settled(gr, taken@, root, seen@, x, m) by {
                assert forall|k: int| 0 <= k < m implies (#[trigger] gr[x as int][k]) != root && (
                is_free(taken@, root, gr[x as int][k]) ==> seen@[gr[x as int][k] as int]) by {
                    assert(gr[x as int][k] < gr.len());
                }
            }
            assert forall|x: usize| x < n && #[trigger] seen@[x as int] implies reached(
                gr,
                taken@,
                root,
                v,
                x,
            ) && (x == u || todo@.contains(x) || settled(
                gr,
                taken@,
                root,
                seen@,
                x,
                gr[x as int].len() as int,
            )) by {
                if x != w {
                    assert(seen0[x as int]);
                }
            }
            j += 1;
        }
        assert forall|x: usize| x < n && #[trigger] seen@[x as int] implies todo@.contains(x)
            || settled(gr, taken@, root, seen@, x, gr[x as int].len() as int) by {}
    }
    proof {
        if exists|w: Seq<usize>| way_back(gr, taken@, root, v, w) {
            let w = choose|w: Seq<usize>| way_back(gr, taken@, root, v, w);
            lemma_no_way_back(gr, taken@, root, seen@, v, w, w.len() - 1);
        }
    }
    false
}

/// A path that the search follows from its first node by greater nodes, with the number of arcs of
/// each node that were looked at. The last one looked at of each node leads to the next node.
spec fn on_way(g: Seq<Seq<usize>>, path: Seq<usize>, next: Seq<usize>) -> bool {
    &&& path.len() > 0
    &&& path.len() == next.len()
    &&& forall|i: int| 0 <= i < path.len() ==> #[trigger] path[i] < g.len()
    &&& forall|i: int| 0 < i < path.len() ==> path[0] < #[trigger] path[i]
    &&& forall|i: int, j: int|
        0 <= i < j < path.len() ==> #[trigger] path[i] != #[trigger] path[j]
    &&& forall|i: int| 0 <= i < path.len() ==> #[trigger] next[i] <= g[path[i] as int].len()
    &&& forall|i: int|
        #![trigger next[i]]
        0 <= i < path.len() - 1 ==> next[i] >= 1 && g[path[i] as int][next[i] - 1] == path[i + 1]
}

/// How far the search has come.
spec fn reach(g: Seq<Seq<usize>>, path: Seq<usize>, next: Seq<usize>) -> Seq<usize> {
    path.push(target(g, path.last(), next.last() as int))
}

/// The nodes on the path are taken.
spec fn marks(taken: Seq<bool>, path: Seq<usize>) -> bool {
    forall|x: int| 0 <= x < taken.len() ==> (#[trigger] taken[x] <==> path.contains(x as usize))
}

proof fn lemma_gathered_same(
    g: Seq<Seq<usize>>,
    found: Seq<Seq<usize>>,
    a: Seq<usize>,
    b: Seq<usize>,
)
    requires
        gathered(g, found, a),
        forall|c: Seq<usize>| #[trigger] circuit(g, c) ==> (before(c, a) <==> before(c, b)),
    ensures
        gathered(g, found, b),
{
}

proof fn lemma_gathered_one(
    g: Seq<Seq<usize>>,
    found: Seq<Seq<usize>>,
    a: Seq<usize>,
    b: Seq<usize>,
)
    requires
        gathered(g, found, a),
        circuit(g, a),
        forall|c: Seq<usize>|
            #[trigger] circuit(g, c) ==> (before(c, b) <==> before(c, a) || c == a),
    ensures
        gathered(g, found.push(a), b),
{
    let all = found.push(a);
    assert forall|i: int| 0 <= i < all.len() implies circuit(g, #[trigger] all[i]) && before(
        all[i],
        b,
    ) by {
        if i < found.len() {
            assert(all[i] == found[i]);
        }
    }
    assert forall|c: Seq<usize>| #[trigger] circuit(g, c) && before(c, b) implies all.contains(
        c,
    ) by {
        if c == a {
            assert(all[found.len() as int] == a);
        } else {
            let i = found.index_of(c);
            assert(all[i] == c);
        }
    }
    assert forall|i: int, j: int| 0 <= i < j < all.len() implies before(
        #[trigger] all[i],
        #[trigger] all[j],
    ) by {
        assert(all[i] == found[i]);
        if j < found.len() {
            assert(all[j] == found[j]);
        }
    }
}

/// A path that an arc leads back from closes a circuit, the only one that takes this arc.
proof fn lemma_closes(g: Seq<Seq<usize>>, path: Seq<usize>, next: Seq<usize>, c: Seq<usize>)
    requires
        is_graph(g),
        on_way(g, path, next),
        next.last() < g[path.last() as int].len(),
        target(g, path.last(), next.last() as int) == path[0],
    ensures
        circuit(g, path.push(path[0])),
        circuit(g, c) && extends(c, path) && c[path.len() as int] == path[0] ==> c == path.push(
            path[0],
        ),
{
    let z = path.push(path[0]);
    assert forall|i: int| #![trigger z[i]] 0 <= i < z.len() - 1 implies arc(g, z[i], z[i + 1]) by {
        assert(z[i] == path[i]);
        let u = path[i];
        if i < path.len() - 1 {
            assert(z[i + 1] == path[i + 1]);
            assert(g[u as int][next[i] - 1] == path[i + 1]);
        } else {
            assert(g[u as int][next[i] as int] == path[0]);
        }
    }
    if circuit(g, c) && extends(c, path) && c[path.len() as int] == path[0] {
        assert(c[0] == path[0]);
        assert(c.len() == path.len() + 1);
        assert(c =~= z);
    }
}

/// No circuit goes on from a path by a node that is not free or from which no way leads back.
proof fn lemma_dead_end(
    g: Seq<Seq<usize>>,
    path: Seq<usize>,
    next: Seq<usize>,
    taken: Seq<bool>,
    v: usize,
    c: Seq<usize>,
)
    requires
        is_graph(g),
        on_way(g, path, next),
        taken.len() == g.len(),
        marks(taken, path),
        v < g.len(),
        v != path[0],
        !is_free(taken, path[0], v) || !exists|w: Seq<usize>|
            way_back(g, taken, path[0], v, w),
        circuit(g, c),
    ensures
        !(extends(c, path) && c[path.len() as int] == v),
{
    let n = path.len() as int;
    if extends(c, path) && c[n] == v {
        assert(c[0] == path[0]);
        assert(n < c.len() - 1);
        assert forall|i: int| n <= i < c.len() - 1 implies is_free(
            taken,
            path[0],
            #[trigger] c[i],
        ) by {
            lemma_nodes(g, c, i);
            if taken[c[i] as int] {
                let k = path.index_of(c[i]);
                assert(path[k] == c[i]);
                assert(c[k] == path[k]);
            }
        }
        assert(is_free(taken, path[0], c[n]));
        let w = c.skip(n);
        assert forall|i: int| #![trigger w[i]] 0 <= i < w.len() - 1 implies arc(
            g,
            w[i],
            w[i + 1],
        ) by {
            assert(w[i] == c[n + i]);
            assert(arc(g, c[n + i], c[n + i + 1]));
        }
        assert forall|i: int| 0 <= i < w.len() - 1 implies is_free(
            taken,
            path[0],
            #[trigger] w[i],
        ) by {
            assert(w[i] == c[n + i]);
        }
        assert(way_back(g, taken, path[0], v, w));
    }
}

/// What a node at some depth of the search can cost, given how much deeper it can go.
spec fn weight(n: nat, k: nat) -> nat
    decreases k,
{
    if k == 0 {
        1
    } else {
        (n + 1) * weight(n, (k - 1) as nat) + 1
    }
}

/// A bound on the steps that are left.
spec fn effort(n: nat, next: Seq<usize>) -> int
    decreases next.len(),
{
    if next.len() == 0 {
        0
    } else {
        effort(n, next.drop_last()) + (n + 1 - next.last()) * weight(
            n,
            (n + 1 - next.len()) as nat,
        )
    }
}

proof fn lemma_weight(n: nat, k: nat)
    ensures
        weight(n, k) >= 1,
    decreases k,
{
    if k > 0 {
        lemma_weight(n, (k - 1) as nat);
        let w = weight(n, (k - 1) as nat);
        assert((n + 1) * w >= 0) by (nonlinear_arith)
            requires
                n >= 0,
                w >= 0,
        ;
    }
}

proof fn lemma_effort(n: nat, next: Seq<usize>)
    requires
        forall|i: int| 0 <= i < next.len() ==> #[trigger] next[i] <= n,
    ensures
        effort(n, next) >= 0,
    decreases next.len(),
{
    if next.len() > 0 {
        lemma_effort(n, next.drop_last());
        let x = n + 1 - next.last();
        let w = weight(n, (n + 1 - next.len()) as nat);
        assert(next[next.len() - 1] <= n);
        assert(x * w >= 0) by (nonlinear_arith)
            requires
                x >= 0,
                w >= 0,
        ;
    }
}

/// Looking at an arc, looking at one and entering a node, and going back all leave fewer steps.
proof fn lemma_effort_falls(n: nat, next: Seq<usize>)
    requires
        0 < next.len() <= n <= usize::MAX,
        next.last() <= n,
    ensures
        effort(n, next.drop_last()) < effort(n, next),
        next.last() < n ==> effort(n, next.drop_last().push((next.last() + 1) as usize)) < effort(
            n,
            next,
        ),
        next.last() < n && next.len() < n ==> effort(
            n,
            next.drop_last().push((next.last() + 1) as usize).push(0),
        ) < effort(n, next),
{
    let front = next.drop_last();
    let k = (n - next.len()) as nat;
    let w = weight(n, k + 1);
    let x = n + 1 - next.last();
    lemma_weight(n, k + 1);
    assert(x * w >= 1) by (nonlinear_arith)
        requires
            x >= 1,
            w >= 1,
    ;
    assert(effort(n, next) == effort(n, front) + x * w);
    if next.last() < n {
        let a = front.push((next.last() + 1) as usize);
        assert(a.drop_last() =~= front);
        assert(effort(n, a) == effort(n, front) + (x - 1) * w);
        assert((x - 1) * w == x * w - w) by (nonlinear_arith);
        if next.len() < n {
            let b = a.push(0);
            assert(b.drop_last() =~= a);
            assert(effort(n, b) == effort(n, a) + (n + 1 - 0) * weight(n, k));
            assert(w == (n + 1) * weight(n, k) + 1);
        }
    }
}

/// A path without repetitions is no longer than there are nodes.
proof fn lemma_path_fits(path: Seq<usize>, n: nat)
    requires
        forall|i: int| 0 <= i < path.len() ==> #[trigger] path[i] < n,
        forall|i: int, j: int|
            0 <= i < j < path.len() ==> #[trigger] path[i] != #[trigger] path[j],
    ensures
        path.len() <= n,
{
    assert(path.no_duplicates());
    path.unique_seq_to_set();
    let nums = path.map_values(|x: usize| x as int);
    assert(nums.no_duplicates()) by {
        assert forall|i: int, j: int|
            0 <= i < nums.len() && 0 <= j < nums.len() && i != j implies nums[i] != nums[j] by {
            assert(path[i] != path[j]);
        }
    }
    nums.unique_seq_to_set();
    let all = vstd::set_lib::set_int_range(0, n as int);
    vstd::set_lib::lemma_int_range(0, n as int);
    assert(nums.to_set().subset_of(all)) by {
        assert forall|x: int| nums.to_set().contains(x) implies all.contains(x) by {
            let i = nums.index_of(x);
            assert(path[i] < n);
        }
    }
    vstd::set_lib::lemma_len_subset(nums.to_set(), all);
}

fn closed_path(path: &Vec<usize>) -> (r: Vec<usize>)
    requires
        path.len() > 0,
    ensures
        r@ == path@.push(path@[0]),
{
    let mut out: Vec<usize> = Vec::new();
    let mut i: usize = 0;
    while i < path.len()
        invariant
            i <= path.len(),
            out@ == path@.take(i as int),
        decreases path.len() - i,
    {
        out.push(path[i]);
        i += 1;
        assert(out@ =~= path@.take(i as int));
    }
    out.push(path[0]);
    assert(path@.take(path.len() as int) =~= path@);
    out
}

/// Adds the circuits that start at the root.
fn circuits_from(g: &Vec<Vec<usize>>, root: usize, found: &mut Vec<Vec<usize>>)
    requires
        is_graph(g.deep_view()),
        root < g.len(),
        gathered(g.deep_view(), old(found).deep_view(), seq![root]),
    ensures
        gathered(g.deep_view(), final(found).deep_view(), seq![(root + 1) as usize]),
{
    let ghost gr = g.deep_view();
    let n: usize = g.len();
    let mut path: Vec<usize> = Vec::new();
    path.push(root);
    let mut next: Vec<usize> = Vec::new();
    next.push(0);
    let mut taken: Vec<bool> = blank(n);
    taken.set(root, true);
    proof {
        assert(seq![root] =~= Seq::<usize>::empty().push(root));
        assert(path@ =~= seq![root]);
        assert forall|c: Seq<usize>| #[trigger] circuit(gr, c) implies (before(c, seq![root])
            <==> before(c, reach(gr, path@, next@))) by {
            lemma_first_arc(gr, Seq::<usize>::empty(), root, c);
        }
        lemma_gathered_same(gr, found.deep_view(), seq![root], reach(gr, path@, next@));
        assert(path@[0] == root);
        assert(marks(taken@, path@));
    }
    while path.len() > 0
        invariant
            gr == g.deep_view(),
            is_graph(gr),
            n == g.len(),
            root < n,
            taken.len() == n,
            path.len() == next.len(),
            path.len() > 0 ==> on_way(gr, path@, next@) && path@[0] == root && marks(
                taken@,
                path@,
            ) && gathered(gr, found.deep_view(), reach(gr, path@, next@)),
            path.len() == 0 ==> gathered(gr, found.deep_view(), seq![(root + 1) as usize]),
        decreases effort(n as nat, next@),
    {
        let ghost p0 = path@;
        let ghost n0 = next@;
        let ghost t0 = taken@;
        let ghost f0 = found.deep_view();
        let top: usize = path.len() - 1;
        let u: usize = path[top];
        let k: usize = next[top];
        assert(u == p0.last() && k == n0.last());
        assert(u < n);
        assert(g@[u as int].deep_view() == gr[u as int]);
        proof {
            lemma_degree(gr, u);
            lemma_path_fits(p0, n as nat);
            lemma_effort_falls(n as nat, n0);
        }
        if k < g[u].len() {
            let v: usize = g[u][k];
            assert(v == gr[u as int][k as int]);
            let ghost key = reach(gr, p0, n0);
            next.set(top, k + 1);
            assert(next@ =~= n0.drop_last().push((k + 1) as usize));
            let ghost key2 = reach(gr, p0, next@);
            assert(key2 == p0.push(target(gr, u, k + 1)));
            assert(on_way(gr, p0, next@)) by {
                assert forall|i: int| 0 <= i < p0.len() implies #[trigger] next@[i]
                    <= gr[p0[i] as int].len() by {
                    if i < top {
                        assert(next@[i] == n0[i]);
                    }
                }
                assert forall|i: int| #![trigger next@[i]] 0 <= i < p0.len() - 1 implies next@[i]
                    >= 1 && gr[p0[i] as int][next@[i] - 1] == p0[i + 1] by {
                    assert(next@[i] == n0[i]);
                }
            }
            if v == root {
                let closed = closed_path(&path);
                assert(closed.deep_view() =~= key);
                found.push(closed);
                proof {
                    assert(found.deep_view() =~= f0.push(key));
                    assert forall|c: Seq<usize>| #[trigger] circuit(gr, c) implies (before(c, key2)
                        <==> before(c, key) || c == key) by {
                        lemma_next_arc(gr, p0, k as int, c);
                        lemma_closes(gr, p0, n0, c);
                        if c == key {
                            assert(extends(c, p0));
                        }
                    }
                    lemma_closes(gr, p0, n0, key);
                    lemma_gathered_one(gr, f0, key, key2);
                }
            } else if v > root && !taken[v] && leads_back(g, &taken, root, v) {
                path.push(v);
                next.push(0);
                taken.set(v, true);
                proof {
                    assert forall|c: Seq<usize>| #[trigger] circuit(gr, c) implies (before(c, key)
                        <==> before(c, reach(gr, path@, next@))) by {
                        lemma_first_arc(gr, p0, v, c);
                    }
                    lemma_gathered_same(gr, f0, key, reach(gr, path@, next@));
                    lemma_entered(gr, p0, n0, taken@, t0, v);
                    assert(next@ =~= n0.drop_last().push((k + 1) as usize).push(0));
                    assert(path@ == p0.push(v));
                    lemma_path_fits(path@, n as nat);
                }
            } else {
                proof {
                    assert forall|c: Seq<usize>| #[trigger] circuit(gr, c) implies (before(c, key)
                        <==> before(c, key2)) by {
                        lemma_next_arc(gr, p0, k as int, c);
                        lemma_dead_end(gr, p0, n0, t0, v, c);
                    }
                    lemma_gathered_same(gr, f0, key, key2);
                }
            }
        } else {
            path.pop();
            next.pop();
            taken.set(u, false);
            proof {
                assert(path@ =~= p0.drop_last());
                assert(next@ =~= n0.drop_last());
                lemma_left(gr, p0, n0, t0, f0);
                assert(taken@ == t0.update(u as int, false));
            }
        }
        proof {
            if path.len() > 0 {
                assert forall|i: int| 0 <= i < next@.len() implies #[trigger] next@[i] <= n by {
                    lemma_degree(gr, path@[i]);
                    assert(next@[i] <= gr[path@[i] as int].len());
                }
            }
            lemma_effort(n as nat, next@);
        }
    }
}

proof fn lemma_degree(g: Seq<Seq<usize>>, u: usize)
    requires
        is_graph(g),
        u < g.len(),
    ensures
        g[u as int].len() <= g.len(),
{
    let list = g[u as int];
    assert forall|i: int, j: int| 0 <= i < j < list.len() implies #[trigger] list[i]
        != #[trigger] list[j] by {
        assert(g[u as int][i] < g[u as int][j]);
    }
    assert forall|i: int| 0 <= i < list.len() implies #[trigger] list[i] < g.len() by {
        assert(g[u as int][i] < g.len());
    }
    lemma_path_fits(list, g.len());
}

proof fn lemma_entered(
    g: Seq<Seq<usize>>,
    path: Seq<usize>,
    next: Seq<usize>,
    taken: Seq<bool>,
    before_it: Seq<bool>,
    v: usize,
)
    requires
        is_graph(g),
        on_way(g, path, next),
        before_it.len() == g.len(),
        marks(before_it, path),
        taken == before_it.update(v as int, true),
        next.last() < g[path.last() as int].len(),
        v == g[path.last() as int][next.last() as int],
        is_free(before_it, path[0], v),
    ensures
        on_way(g, path.push(v), next.drop_last().push((next.last() + 1) as usize).push(0)),
        marks(taken, path.push(v)),
{
    let p = path.push(v);
    let m = next.drop_last().push((next.last() + 1) as usize).push(0);
    let top = path.len() - 1;
    lemma_degree(g, path.last());
    assert forall|i: int, j: int| 0 <= i < j < p.len() implies #[trigger] p[i] != #[trigger] p[j] by {
        if j == path.len() {
            assert(path.contains(path[i]));
            assert(before_it[path[i] as int]);
        }
    }
    assert forall|i: int| 0 <= i < p.len() implies #[trigger] m[i] <= g[p[i] as int].len() by {
        if i < top {
            assert(m[i] == next[i]);
        }
    }
    assert forall|i: int| #![trigger m[i]] 0 <= i < p.len() - 1 implies m[i] >= 1
        && g[p[i] as int][m[i] - 1] == p[i + 1] by {
        if i < top {
            assert(m[i] == next[i]);
        }
    }
    assert forall|x: int| 0 <= x < taken.len() implies (#[trigger] taken[x] <==> p.contains(
        x as usize,
    )) by {
        assert(before_it[x] <==> path.contains(x as usize));
        assert(p[path.len() as int] == v);
        if path.contains(x as usize) {
            let i = path.index_of(x as usize);
            assert(p[i] == x as usize);
        }
        if p.contains(x as usize) && x as usize != v {
            let i = p.index_of(x as usize);
            assert(path[i] == x as usize);
        }
    }
}

proof fn lemma_left(
    g: Seq<Seq<usize>>,
    path: Seq<usize>,
    next: Seq<usize>,
    taken: Seq<bool>,
    found: Seq<Seq<usize>>,
)
    requires
        is_graph(g),
        on_way(g, path, next),
        next.last() == g[path.last() as int].len(),
        taken.len() == g.len(),
        marks(taken, path),
        gathered(g, found, reach(g, path, next)),
    ensures
        path.len() == 1 ==> gathered(g, found, seq![(path[0] + 1) as usize]),
        path.len() > 1 ==> {
            &&& on_way(g, path.drop_last(), next.drop_last())
            &&& marks(taken.update(path.last() as int, false), path.drop_last())
            &&& gathered(g, found, reach(g, path.drop_last(), next.drop_last()))
        },
{
    let u = path.last();
    let key = path.push(g.len() as usize);
    assert(reach(g, path, next) == key);
    if path.len() == 1 {
        let after = seq![(path[0] + 1) as usize];
        assert forall|c: Seq<usize>| #[trigger] circuit(g, c) implies (before(c, key) <==> before(
            c,
            after,
        )) by {
            lemma_last_arc(g, path, c);
            if before(c, after) {
                let d = choose|d: int| parts_at(c, after, d);
                if c[0] < path[0] {
                    assert(parts_at(c, path, 0));
                } else {
                    assert(extends(c, path));
                }
            }
            if before(c, path) {
                let d = choose|d: int| parts_at(c, path, d);
                assert(parts_at(c, after, 0));
            }
            if extends(c, path) {
                assert(c[0] == path[0]);
                assert(parts_at(c, after, 0));
            }
        }
        lemma_gathered_same(g, found, key, after);
    } else {
        let p = path.drop_last();
        let m = next.drop_last();
        let k = m.last() - 1;
        let after = reach(g, p, m);
        assert(path =~= p.push(u));
        assert(m.last() == next[path.len() - 2]);
        assert(p.last() == path[path.len() - 2]);
        assert(g[p.last() as int][k] == u);
        assert(target(g, p.last(), k) == u);
        assert forall|c: Seq<usize>| #[trigger] circuit(g, c) implies (before(c, key) <==> before(
            c,
            after,
        )) by {
            lemma_last_arc(g, path, c);
            lemma_next_arc(g, p, k, c);
            if extends(c, path) {
                assert forall|i: int| 0 <= i < p.len() implies #[trigger] c[i] == p[i] by {
                    assert(c[i] == path[i]);
                }
                assert(c[p.len() as int] == path[p.len() as int]);
            }
            if extends(c, p) && c[p.len() as int] == u {
                assert forall|i: int| 0 <= i < path.len() implies #[trigger] c[i] == path[i] by {
                    if i < p.len() {
                        assert(c[i] == p[i]);
                    }
                }
                assert(c[0] == path[0]);
                assert(path[0] < path[path.len() - 1]);
                assert(extends(c, path));
            }
        }
        lemma_gathered_same(g, found, key, after);
        let t = taken.update(u as int, false);
        assert forall|x: int| 0 <= x < t.len() implies (#[trigger] t[x] <==> p.contains(
            x as usize,
        )) by {
            assert(taken[x] <==> path.contains(x as usize));
            if x != u {
                if path.contains(x as usize) {
                    let i = path.index_of(x as usize);
                    assert(p[i] == x as usize);
                }
                if p.contains(x as usize) {
                    let i = p.index_of(x as usize);
                    assert(path[i] == x as usize);
                }
            } else if p.contains(x as usize) {
                let i = p.index_of(x as usize);
                assert(path[i] != path[path.len() - 1]);
            }
        }
        assert forall|i: int| #![trigger m[i]] 0 <= i < p.len() - 1 implies m[i] >= 1
            && g[p[i] as int][m[i] - 1] == p[i + 1] by {
            assert(m[i] == next[i]);
        }
        assert forall|i: int| 0 <= i < p.len() implies #[trigger] m[i] <= g[p[i] as int].len() by {
            assert(m[i] == next[i]);
        }
    }
}

/// Finds all circuits of a graph, in the order of a dictionary.
///
/// The search is iterative, and enters a node only where a circuit takes it.
pub fn find_circuits(g: &Vec<Vec<usize>>) -> (r: Vec<Vec<usize>>)
    requires
        is_graph(g.deep_view()),
    ensures
        all_circuits(g.deep_view(), r.deep_view()),
{
    let ghost gr = g.deep_view();
    let mut found: Vec<Vec<usize>> = Vec::new();
    let mut root: usize = 0;
    proof {
        assert(found.deep_view() =~= seq![]);
        assert forall|c: Seq<usize>| !before(c, seq![0usize]) by {
            if before(c, seq![0usize]) {
                let d = choose|d: int| parts_at(c, seq![0usize], d);
            }
        }
    }
    while root < g.len()
        invariant
            gr == g.deep_view(),
            is_graph(gr),
            root <= g.len(),
            gathered(gr, found.deep_view(), seq![root]),
        decreases g.len() - root,
    {
        circuits_from(g, root, &mut found);
        root += 1;
    }
    assert forall|c: Seq<usize>| #[trigger] circuit(gr, c) implies found.deep_view().contains(c) by {
        lemma_nodes(gr, c, 0);
        assert(parts_at(c, seq![root], 0));
    }
    found
}

} // verus!
