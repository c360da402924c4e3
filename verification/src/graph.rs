//! Depth-first search over a dependency graph whose nodes are numbered
//! `0..n`: cycle detection and post-order (dependencies first) ordering.

use vstd::prelude::*;

verus! {

/// There is an edge `u -> v`: `u` depends on `v`.
pub open spec fn edge(adj: Seq<Seq<usize>>, u: usize, v: usize) -> bool {
    u < adj.len() && adj[u as int].contains(v)
}

/// Every consecutive pair of `p` is an edge.
pub open spec fn is_path(adj: Seq<Seq<usize>>, p: Seq<usize>) -> bool {
    forall|k: int| 0 <= k < p.len() - 1 ==> #[trigger] edge(adj, p[k], p[k + 1])
}

/// `c` is a closed walk: a path whose last node has an edge back to the first.
pub open spec fn is_cycle(adj: Seq<Seq<usize>>, c: Seq<usize>) -> bool {
    c.len() > 0 && is_path(adj, c) && edge(adj, c.last(), c[0])
}

pub open spec fn has_cycle(adj: Seq<Seq<usize>>) -> bool {
    exists|c: Seq<usize>| is_cycle(adj, c)
}

/// Every edge ends at a node of the graph.
pub open spec fn graph_wf(adj: Seq<Seq<usize>>) -> bool {
    forall|u: int, k: int| 0 <= u < adj.len() && 0 <= k < adj[u].len() ==> #[trigger] adj[u][k] < adj.len()
}

pub open spec fn white_count(color: Seq<u8>) -> nat
    decreases color.len(),
{
    if color.len() == 0 {
        0
    } else {
        white_count(color.drop_last()) + if color.last() == 0 {
            1nat
        } else {
            0nat
        }
    }
}

pub proof fn lemma_white_count_mono(a: Seq<u8>, b: Seq<u8>)
    requires
        a.len() == b.len(),
        forall|i: int| 0 <= i < a.len() && a[i] != 0 ==> b[i] != 0,
    ensures
        white_count(b) <= white_count(a),
        (exists|i: int| 0 <= i < a.len() && a[i] == 0 && b[i] != 0) ==> white_count(b) < white_count(
            a,
        ),
    decreases a.len(),
{
    if a.len() > 0 {
        let a2 = a.drop_last();
        let b2 = b.drop_last();
        assert forall|i: int| 0 <= i < a2.len() && a2[i] != 0 implies b2[i] != 0 by {
            assert(a2[i] == a[i] && b2[i] == b[i]);
        }
        lemma_white_count_mono(a2, b2);
        if exists|i: int| 0 <= i < a.len() && a[i] == 0 && b[i] != 0 {
            let i = choose|i: int| 0 <= i < a.len() && a[i] == 0 && b[i] != 0;
            if i < a.len() - 1 {
                assert(a2[i] == 0 && b2[i] != 0);
            }
        }
    }
}

/// The search state: node colours (0 unvisited, 1 on the current path, 2
/// finished), each finished node's position in `order`, the current path and
/// the finished nodes in post-order.
pub open spec fn dfs_inv(
    adj: Seq<Seq<usize>>,
    color: Seq<u8>,
    pos: Seq<usize>,
    path: Seq<usize>,
    order: Seq<usize>,
    strict: bool,
) -> bool {
    let n = adj.len();
    &&& graph_wf(adj)
    &&& color.len() == n
    &&& pos.len() == n
    &&& forall|v: int| 0 <= v < n ==> #[trigger] color[v] <= 2
    &&& forall|i: int| 0 <= i < order.len() ==> #[trigger] order[i] < n && color[order[i] as int] == 2
        && pos[order[i] as int] == i
    &&& forall|v: int| 0 <= v < n && #[trigger] color[v] == 2 ==> pos[v] < order.len() && order[pos[v] as int]
        == v
    &&& forall|i: int| 0 <= i < path.len() ==> #[trigger] path[i] < n && color[path[i] as int] == 1
    &&& forall|v: int| 0 <= v < n && #[trigger] color[v] == 1 ==> path.contains(v as usize)
    &&& is_path(adj, path)
    &&& forall|u: int, k: int|
        0 <= u < n && color[u] == 2 && 0 <= k < adj[u].len() ==> color[#[trigger] adj[u][k] as int] != 0
    &&& forall|u: int, k: int|
        0 <= u < n && color[u] == 2 && 0 <= k < adj[u].len() ==> ((color[#[trigger] adj[u][k] as int]
            == 2 && pos[adj[u][k] as int] < pos[u]) || (!strict && has_cycle(adj)))
}

/// The nodes of `path` from index `j` on, closed by the edge `path.last() -> path[j]`.
pub proof fn lemma_path_suffix_cycle(adj: Seq<Seq<usize>>, path: Seq<usize>, j: int)
    requires
        is_path(adj, path),
        0 <= j < path.len(),
        edge(adj, path.last(), path[j]),
    ensures
        is_cycle(adj, path.subrange(j, path.len() as int)),
        has_cycle(adj),
{
    let c = path.subrange(j, path.len() as int);
    assert forall|k: int| 0 <= k < c.len() - 1 implies #[trigger] edge(adj, c[k], c[k + 1]) by {
        assert(c[k] == path[j + k] && c[k + 1] == path[j + k + 1]);
        assert(edge(adj, path[j + k], path[(j + k) + 1]));
    }
    assert(c.last() == path.last());
    assert(is_cycle(adj, c));
}

pub fn index_in(v: &Vec<usize>, x: usize) -> (r: Option<usize>)
    ensures
        match r {
            Some(i) => i < v@.len() && v@[i as int] == x,
            None => !v@.contains(x),
        },
{
    let mut i: usize = 0;
    while i < v.len()
        invariant
            i <= v@.len(),
            forall|k: int| 0 <= k < i ==> v@[k] != x,
        decreases v@.len() - i,
    {
        if v[i] == x {
            return Some(i);
        }
        i = i + 1;
    }
    None
}

fn copy_usizes(v: &Vec<usize>, a: usize, b: usize) -> (r: Vec<usize>)
    requires
        a <= b <= v@.len(),
    ensures
        r@ == v@.subrange(a as int, b as int),
{
    let mut r: Vec<usize> = Vec::new();
    let mut i = a;
    while i < b
        invariant
            a <= i <= b <= v@.len(),
            r@ == v@.subrange(a as int, i as int),
        decreases b - i,
    {
        r.push(v[i]);
        i = i + 1;
        proof {
            assert(r@ =~= v@.subrange(a as int, i as int));
        }
    }
    r
}

/// Visits `u` and everything reachable from it that is still unvisited,
/// appending finished nodes to `order`.
///
/// With `strict`, an edge back into the current path stops the search and the
/// cycle it closes is returned; otherwise such an edge is skipped.
pub fn visit(
    adj: &Vec<Vec<usize>>,
    u: usize,
    color: &mut Vec<u8>,
    pos: &mut Vec<usize>,
    path: &mut Vec<usize>,
    order: &mut Vec<usize>,
    strict: bool,
) -> (r: Option<Vec<usize>>)
    requires
        dfs_inv(adj.deep_view(), old(color)@, old(pos)@, old(path)@, old(order)@, strict),
        u < adj@.len(),
        old(color)@[u as int] == 0,
        old(path)@.len() > 0 ==> edge(adj.deep_view(), old(path)@.last(), u),
    ensures
        match r {
            Some(c) => strict && is_cycle(adj.deep_view(), c@),
            None => {
                &&& dfs_inv(adj.deep_view(), final(color)@, final(pos)@, final(path)@, final(order)@, strict)
                &&& final(path)@ == old(path)@
                &&& final(color)@[u as int] == 2
                &&& forall|v: int|
                    0 <= v < adj@.len() && old(color)@[v] != 0 ==> #[trigger] final(color)@[v]
                        == old(color)@[v]
                &&& final(order)@.len() >= old(order)@.len()
                &&& final(order)@.subrange(0, old(order)@.len() as int) == old(order)@
            },
        },
        final(color)@.len() == old(color)@.len(),
    decreases white_count(old(color)@),
{
    let ghost g = adj.deep_view();
    let ghost c0 = color@;
    let ghost path0 = path@;
    let ghost order0 = order@;
    color.set(u, 1);
    path.push(u);
    proof {
        lemma_white_count_mono(c0, color@);
        assert(c0[u as int] == 0 && color@[u as int] != 0);
        assert forall|k: int| 0 <= k < path@.len() - 1 implies #[trigger] edge(g, path@[k], path@[k + 1]) by {
            if k < path0.len() - 1 {
                assert(path@[k] == path0[k] && path@[k + 1] == path0[k + 1]);
                assert(edge(g, path0[k], path0[k + 1]));
            } else {
                assert(path@[k] == path0.last() && path@[k + 1] == u);
            }
        }
        assert forall|v: int| 0 <= v < g.len() && #[trigger] color@[v] == 1 implies path@.contains(v as usize) by {
            if v == u {
                assert(path@[path@.len() - 1] == u);
            } else {
                assert(c0[v] == 1);
                assert(path0.contains(v as usize));
                let j = choose|j: int| 0 <= j < path0.len() && path0[j] == v as usize;
                assert(path@[j] == v as usize);
            }
        }
        assert forall|u2: int, k: int|
            0 <= u2 < g.len() && color@[u2] == 2 && 0 <= k < g[u2].len() implies color@[#[trigger] g[u2][k] as int] != 0 by {
            assert(c0[u2] == 2);
        }
    }
    let ghost c1 = color@;
    let n_deps = adj[u].len();
    let mut k: usize = 0;
    while k < n_deps
        invariant
            g == adj.deep_view(),
            u < g.len(),
            n_deps == g[u as int].len(),
            k <= n_deps,
            dfs_inv(g, color@, pos@, path@, order@, strict),
            path@ == path0.push(u),
            c0 == old(color)@,
            color@[u as int] == 1,
            color@.len() == c0.len(),
            white_count(color@) < white_count(c0),
            forall|v: int| 0 <= v < g.len() && c0[v] != 0 ==> #[trigger] color@[v] == c0[v],
            forall|v: int| 0 <= v < g.len() && c1[v] != 0 ==> #[trigger] color@[v] != 0,
            order@.len() >= order0.len(),
            order@.subrange(0, order0.len() as int) == order0,
            forall|j: int| 0 <= j < k ==> color@[#[trigger] g[u as int][j] as int] != 0,
            forall|j: int|
                0 <= j < k ==> color@[#[trigger] g[u as int][j] as int] == 2 || (!strict && has_cycle(g)),
        decreases n_deps - k,
    {
        let v = adj[u][k];
        proof {
            assert(g[u as int][k as int] == v);
            assert(v < g.len());
            assert(g[u as int].contains(v));
        }
        let cv = color[v];
        if cv == 1 {
            let j = match index_in(path, v) {
                Some(j) => j,
                None => {
                    proof {
                        assert(false);
                    }
                    0
                },
            };
            proof {
                assert(path@.last() == u);
                assert(edge(g, path@.last(), path@[j as int]));
                lemma_path_suffix_cycle(g, path@, j as int);
            }
            if strict {
                let cyc = copy_usizes(path, j, path.len());
                proof {
                    assert(color@.len() == old(color)@.len());
                }
                return Some(cyc);
            }
        } else if cv == 0 {
            let ghost cb = color@;
            let ghost ob = order@;
            proof {
                assert(c0 == old(color)@);
                assert(white_count(color@) < white_count(old(color)@));
            }
            let res = visit(adj, v, color, pos, path, order, strict);
            match res {
                Some(cyc) => {
                    proof {
                        assert(color@.len() == old(color)@.len());
                    }
                    return Some(cyc);
                },
                None => {},
            }
            proof {
                lemma_white_count_mono(cb, color@);
                assert(order@.subrange(0, order0.len() as int) =~= ob.subrange(0, order0.len() as int));
            }
        }
        proof {
            assert(color@[v as int] != 0);
            assert(color@[v as int] == 2 || (!strict && has_cycle(g)));
        }
        k = k + 1;
    }
    // Finish `u`.
    let n_nodes = adj.len();
    let ghost c2 = color@;
    let ghost o2 = order@;
    let ghost p2 = pos@;
    let at = order.len();
    pos.set(u, at);
    order.push(u);
    color.set(u, 2);
    path.pop();
    proof {
        assert(path@ =~= path0);
        assert forall|i: int| 0 <= i < order@.len() implies #[trigger] order@[i] < g.len() && color@[order@[i] as int]
            == 2 && pos@[order@[i] as int] == i by {
            if i < o2.len() {
                assert(order@[i] == o2[i]);
                assert(o2[i] != u) by {
                    assert(c2[o2[i] as int] == 2);
                }
            }
        }
        assert forall|v: int| 0 <= v < g.len() && #[trigger] color@[v] == 1 implies path@.contains(
            v as usize,
        ) by {
            assert(v != u);
            assert(c2[v] == 1);
            assert(path0.push(u).contains(v as usize));
            let j = choose|j: int| 0 <= j < path0.len() + 1 && path0.push(u)[j] == v as usize;
            if j == path0.len() {
                assert(g.len() == n_nodes);
                assert(path0.push(u)[j] == u);
                assert(v == u as int);
            }
            assert(j < path0.len());
            assert(path0[j] == v as usize);
        }
        assert forall|i: int| 0 <= i < path@.len() implies #[trigger] path@[i] < g.len() && color@[path@[i] as int]
            == 1 by {
            assert(path@[i] == path0.push(u)[i]);
            assert(c2[path@[i] as int] == 1);
            if path@[i] == u {
                // `u` occurs only at the top of the old path.
                assert(c0[u as int] == 0);
                assert(c0[path0[i] as int] == 1);
            }
        }
        assert forall|u2: int, kk: int|
            0 <= u2 < g.len() && color@[u2] == 2 && 0 <= kk < g[u2].len() implies ((color@[#[trigger] g[u2][kk] as int]
            == 2 && pos@[g[u2][kk] as int] < pos@[u2]) || (!strict && has_cycle(g))) by {
            if u2 == u {
                let w = g[u2][kk];
                assert(c2[w as int] == 2 || (!strict && has_cycle(g)));
                if c2[w as int] == 2 {
                    assert(w != u);
                    assert(p2[w as int] < o2.len());
                }
            } else {
                assert(c2[u2] == 2);
                let w = g[u2][kk];
                if c2[w as int] == 2 {
                    assert(w != u);
                }
            }
        }
        assert forall|u2: int, kk: int|
            0 <= u2 < g.len() && color@[u2] == 2 && 0 <= kk < g[u2].len() implies color@[#[trigger] g[u2][kk] as int]
            != 0 by {
            if u2 != u {
                assert(c2[u2] == 2);
            }
        }
        assert(order@.subrange(0, order0.len() as int) =~= o2.subrange(0, order0.len() as int));
        assert forall|v: int| 0 <= v < g.len() && c0[v] != 0 implies #[trigger] color@[v] == c0[v] by {
            assert(v != u);
        }
    }
    None
}

/// Result of a search over every root.
pub struct Search {
    pub cycle: Option<Vec<usize>>,
    pub order: Vec<usize>,
}

/// Searches from each of the nodes `0..roots` in turn.
pub fn search(adj: &Vec<Vec<usize>>, roots: usize, strict: bool) -> (r: Search)
    requires
        graph_wf(adj.deep_view()),
        roots <= adj@.len(),
    ensures
        match r.cycle {
            Some(c) => strict && is_cycle(adj.deep_view(), c@),
            None => {
                &&& forall|i: int| 0 <= i < r.order@.len() ==> #[trigger] r.order@[i] < adj@.len()
                &&& r.order@.no_duplicates()
                &&& forall|v: usize| v < roots ==> r.order@.contains(v)
                &&& forall|i: int, k: int|
                    0 <= i < r.order@.len() && 0 <= k < adj.deep_view()[r.order@[i] as int].len()
                        ==> r.order@.contains(#[trigger] adj.deep_view()[r.order@[i] as int][k])
                &&& forall|i: int, j: int, k: int|
                    #![trigger r.order@[i], r.order@[j], adj.deep_view()[r.order@[i] as int][k]]
                    0 <= i < r.order@.len() && 0 <= j < r.order@.len() && 0 <= k < adj.deep_view()[r.order@[i] as int].len()
                        && r.order@[j] == adj.deep_view()[r.order@[i] as int][k] ==> j < i || (!strict && has_cycle(adj.deep_view()))
            },
        },
{
    let ghost g = adj.deep_view();
    let n = adj.len();
    let mut color: Vec<u8> = Vec::new();
    let mut pos: Vec<usize> = Vec::new();
    let mut i: usize = 0;
    while i < n
        invariant
            n == g.len(),
            i <= n,
            color@.len() == i,
            pos@.len() == i,
            forall|v: int| 0 <= v < i ==> #[trigger] color@[v] == 0,
        decreases n - i,
    {
        color.push(0);
        pos.push(0);
        i = i + 1;
    }
    let mut path: Vec<usize> = Vec::new();
    let mut order: Vec<usize> = Vec::new();
    proof {
        assert(is_path(g, path@));
    }
    let mut r: usize = 0;
    while r < roots
        invariant
            g == adj.deep_view(),
            roots <= g.len(),
            r <= roots,
            dfs_inv(g, color@, pos@, path@, order@, strict),
            path@.len() == 0,
            forall|v: int| 0 <= v < r ==> #[trigger] color@[v] == 2,
        decreases roots - r,
    {
        if color[r] == 0 {
            match visit(adj, r, &mut color, &mut pos, &mut path, &mut order, strict) {
                Some(c) => {
                    return Search { cycle: Some(c), order };
                },
                None => {},
            }
        } else {
            proof {
                if color@[r as int] == 1 {
                    assert(path@.contains(r));
                }
            }
        }
        r = r + 1;
    }
    proof {
        assert forall|v: int| 0 <= v < g.len() implies #[trigger] color@[v] != 1 by {
            if color@[v] == 1 {
                assert(path@.contains(v as usize));
            }
        }
        assert forall|i: int, j: int| 0 <= i < order@.len() && 0 <= j < order@.len() && i != j implies order@[i]
            != order@[j] by {
            assert(pos@[order@[i] as int] == i);
            assert(pos@[order@[j] as int] == j);
        }
        assert forall|v: usize| v < roots implies order@.contains(v) by {
            assert(color@[v as int] == 2);
            assert(order@[pos@[v as int] as int] == v);
        }
        assert forall|i: int, k: int|
            0 <= i < order@.len() && 0 <= k < g[order@[i] as int].len() implies order@.contains(
            #[trigger] g[order@[i] as int][k],
        ) by {
            let u2 = order@[i];
            let w = g[u2 as int][k];
            assert(color@[w as int] != 0);
            assert(color@[w as int] != 1);
            assert(order@[pos@[w as int] as int] == w);
        }
        assert forall|i: int, j: int, k: int|
            #![trigger order@[i], order@[j], g[order@[i] as int][k]]
            0 <= i < order@.len() && 0 <= j < order@.len() && 0 <= k < g[order@[i] as int].len()
                && order@[j] == g[order@[i] as int][k] implies j < i || (!strict && has_cycle(g)) by {
            let u2 = order@[i];
            let w = g[u2 as int][k];
            assert(pos@[u2 as int] == i);
            assert(pos@[w as int] == j);
        }
    }
    Search { cycle: None, order }
}

/// The order conditions a finished strict search guarantees: every node of
/// the graph occurs, the order is closed under edges, and every edge leads
/// to an earlier position.
pub open spec fn is_postorder(adj: Seq<Seq<usize>>, order: Seq<usize>) -> bool {
    &&& forall|v: usize| v < adj.len() ==> order.contains(v)
    &&& forall|i: int, k: int|
        0 <= i < order.len() && 0 <= k < adj[order[i] as int].len() ==> order.contains(
            #[trigger] adj[order[i] as int][k],
        )
    &&& forall|i: int, j: int, k: int|
        #![trigger order[i], order[j], adj[order[i] as int][k]]
        0 <= i < order.len() && 0 <= j < order.len() && 0 <= k < adj[order[i] as int].len()
            && order[j] == adj[order[i] as int][k] ==> j < i
}

/// Following a cycle from its first node, each step lands at a strictly
/// earlier position of a post-order.
proof fn lemma_cycle_descends(adj: Seq<Seq<usize>>, order: Seq<usize>, c: Seq<usize>, j0: int, k: int)
    requires
        is_postorder(adj, order),
        is_path(adj, c),
        0 <= k < c.len(),
        0 <= j0 < order.len(),
        order[j0] == c[0],
    ensures
        exists|j: int| 0 <= j < order.len() && order[j] == c[k] && j <= j0 - k,
    decreases k,
{
    if k > 0 {
        lemma_cycle_descends(adj, order, c, j0, k - 1);
        let jp = choose|j: int| 0 <= j < order.len() && order[j] == c[k - 1] && j <= j0 - (k - 1);
        assert(edge(adj, c[k - 1], c[(k - 1) + 1]));
        let u = c[k - 1];
        assert(adj[u as int].contains(c[k]));
        let kk = choose|kk: int| 0 <= kk < adj[u as int].len() && adj[u as int][kk] == c[k];
        assert(order[jp] == u);
        assert(order.contains(adj[order[jp] as int][kk]));
        let j = choose|j: int| 0 <= j < order.len() && order[j] == adj[order[jp] as int][kk];
        assert(order[j] == adj[order[jp] as int][kk]);
        assert(j < jp);
        assert(order[j] == c[k]);
    }
}

/// A post-order in which every edge leads to an earlier node leaves no room
/// for a cycle.
pub proof fn lemma_postorder_acyclic(adj: Seq<Seq<usize>>, order: Seq<usize>)
    requires
        is_postorder(adj, order),
    ensures
        !has_cycle(adj),
{
    if has_cycle(adj) {
        let c = choose|c: Seq<usize>| is_cycle(adj, c);
        let n = c.len();
        if n > 1 {
            assert(edge(adj, c[0], c[0int + 1]));
        } else {
            assert(edge(adj, c.last(), c[0]));
        }
        assert(c[0] < adj.len());
        assert(order.contains(c[0]));
        let j0 = choose|j: int| 0 <= j < order.len() && order[j] == c[0];
        lemma_cycle_descends(adj, order, c, j0, n - 1);
        let jl = choose|j: int| 0 <= j < order.len() && order[j] == c[n - 1] && j <= j0 - (n - 1);
        let u = c.last();
        assert(edge(adj, u, c[0]));
        let kk = choose|kk: int| 0 <= kk < adj[u as int].len() && adj[u as int][kk] == c[0];
        assert(order[jl] == u);
        assert(order[j0] == adj[order[jl] as int][kk]);
        assert(j0 < jl);
    }
}

// ---------------------------------------------------------------------------
// Cycles through one node
// ---------------------------------------------------------------------------

/// Every successor of a node of `order` is in `order`.
pub open spec fn closed_under_edges(adj: Seq<Seq<usize>>, order: Seq<usize>) -> bool {
    forall|j: int, k: int|
        0 <= j < order.len() && 0 <= k < adj[order[j] as int].len() ==> order.contains(#[trigger] adj[order[j] as int][k])
}

/// In a set closed under edges, a cycle that meets it at `c[p]` lies in it
/// from `p` on.
proof fn lemma_closed_forward(adj: Seq<Seq<usize>>, order: Seq<usize>, c: Seq<usize>, p: int, t: int)
    requires
        closed_under_edges(adj, order),
        is_cycle(adj, c),
        0 <= p <= t < c.len(),
        order.contains(c[p]),
    ensures
        order.contains(c[t]),
    decreases t - p,
{
    if t > p {
        lemma_closed_forward(adj, order, c, p, t - 1);
        let q = t - 1;
        assert(edge(adj, c[q], c[q + 1]));
        let j = choose|j: int| 0 <= j < order.len() && order[j] == c[t - 1];
        let ct = c[t - 1];
        let k = choose|k: int| 0 <= k < adj[ct as int].len() && #[trigger] adj[ct as int][k] == c[t];
        assert(order.contains(adj[order[j] as int][k]));
    }
}

/// A set closed under edges that holds `v` and no node with an edge to `v`
/// meets no cycle through `v`.
proof fn lemma_no_cycle_through(adj: Seq<Seq<usize>>, order: Seq<usize>, v: usize, c: Seq<usize>)
    requires
        closed_under_edges(adj, order),
        order.contains(v),
        forall|j: int| 0 <= j < order.len() ==> !adj[#[trigger] order[j] as int].contains(v),
        is_cycle(adj, c),
    ensures
        !c.contains(v),
{
    if c.contains(v) {
        let p = choose|p: int| 0 <= p < c.len() && c[p] == v;
        lemma_closed_forward(adj, order, c, p, c.len() - 1);
        let u = c.last();
        assert(edge(adj, u, c[0]));
        let j = choose|j: int| 0 <= j < order.len() && order[j] == u;
        if p == 0 {
            assert(adj[order[j] as int].contains(v));
        } else {
            // c[0] is in the set too, and so is everything up to c[p - 1].
            let k0 = choose|k: int| 0 <= k < adj[u as int].len() && #[trigger] adj[u as int][k] == c[0];
            assert(order.contains(adj[order[j] as int][k0]));
            lemma_closed_forward(adj, order, c, 0, p - 1);
            let q = p - 1;
            assert(edge(adj, c[q], c[q + 1]));
            let j2 = choose|j2: int| 0 <= j2 < order.len() && order[j2] == c[p - 1];
            assert(adj[order[j2] as int].contains(v));
        }
    }
}

/// A cycle through `v`, starting at `v`, if there is one: a breadth-first
/// search from `v` that stops when an edge leads back to it.
pub fn cycle_through(adj: &Vec<Vec<usize>>, v: usize) -> (r: Option<Vec<usize>>)
    requires
        graph_wf(adj.deep_view()),
        v < adj@.len(),
    ensures
        match r {
            Some(c) => is_cycle(adj.deep_view(), c@) && c@[0] == v,
            None => forall|c: Seq<usize>| is_cycle(adj.deep_view(), c) ==> !c.contains(v),
        },
{
    let ghost a = adj.deep_view();
    let n = adj.len();
    let mut color: Vec<u8> = Vec::new();
    let mut z: usize = 0;
    while z < n
        invariant
            z <= n,
            color@.len() == z,
            forall|w: int| 0 <= w < z ==> color@[w] == 0,
        decreases n - z,
    {
        color.push(0);
        z = z + 1;
    }
    color.set(v, 1);
    let mut order: Vec<usize> = Vec::new();
    let mut parent: Vec<usize> = Vec::new();
    order.push(v);
    parent.push(0);
    proof {
        assert forall|w: int| 0 <= w < n && color@[w] != 0 implies order@.contains(w as usize) by {
            assert(w == v as int);
            assert(order@[0] == v);
        }
    }
    let mut i: usize = 0;
    while i < order.len()
        invariant
            a == adj.deep_view(),
            n == a.len(),
            graph_wf(a),
            v < n,
            color@.len() == n,
            order@.len() == parent@.len(),
            order@.len() >= 1,
            order@[0] == v,
            i <= order@.len(),
            forall|j: int| 0 <= j < order@.len() ==> #[trigger] order@[j] < n && color@[order@[j] as int] != 0,
            forall|w: int| 0 <= w < n && color@[w] != 0 ==> order@.contains(w as usize),
            forall|j: int| 1 <= j < order@.len() ==> #[trigger] parent@[j] < j && edge(a, order@[parent@[j] as int], order@[j]),
            forall|j: int, k: int|
                0 <= j < i && 0 <= k < a[order@[j] as int].len() ==> color@[#[trigger] a[order@[j] as int][k] as int] != 0,
            forall|j: int| 0 <= j < i ==> !a[#[trigger] order@[j] as int].contains(v),
        decreases 2 * white_count(color@) + order@.len() - i,
    {
        let u = order[i];
        let ghost w0 = white_count(color@);
        let ghost len0 = order@.len();
        let succ = &adj[u];
        proof {
            assert(succ@ == a[u as int]);
        }
        let mut k: usize = 0;
        while k < succ.len()
            invariant
                a == adj.deep_view(),
                n == a.len(),
                graph_wf(a),
                v < n,
                u < n,
                succ@ == a[u as int],
                order@[i as int] == u,
                i < order@.len(),
                color@.len() == n,
                order@.len() == parent@.len(),
                order@.len() >= len0,
                order@[0] == v,
                k <= succ@.len(),
                forall|j: int| 0 <= j < order@.len() ==> #[trigger] order@[j] < n && color@[order@[j] as int] != 0,
                forall|w: int| 0 <= w < n && color@[w] != 0 ==> order@.contains(w as usize),
                forall|j: int|
                    1 <= j < order@.len() ==> #[trigger] parent@[j] < j && edge(a, order@[parent@[j] as int], order@[j]),
                forall|j: int, k2: int|
                    0 <= j < i && 0 <= k2 < a[order@[j] as int].len() ==> color@[#[trigger] a[order@[j] as int][k2] as int] != 0,
                forall|k2: int| 0 <= k2 < k ==> color@[#[trigger] succ@[k2] as int] != 0,
                forall|j: int| 0 <= j < i ==> !a[#[trigger] order@[j] as int].contains(v),
                forall|k2: int| 0 <= k2 < k ==> #[trigger] succ@[k2] != v,
                2 * white_count(color@) + order@.len() <= 2 * w0 + len0,
            decreases succ@.len() - k,
        {
            let w = succ[k];
            proof {
                assert(w < n);
            }
            if w == v {
                // Walk the parents back from `u` to `v`, then read the walk backwards.
                let mut back: Vec<usize> = Vec::new();
                let mut j: usize = i;
                back.push(order[j]);
                while j != 0
                    invariant
                        a == adj.deep_view(),
                        j < order@.len(),
                        order@.len() == parent@.len(),
                        back@.len() >= 1,
                        back@[0] == u,
                        back@.last() == order@[j as int],
                        forall|t: int| 0 <= t < back@.len() - 1 ==> #[trigger] edge(a, back@[t + 1], back@[t]),
                        forall|j2: int|
                            1 <= j2 < order@.len() ==> #[trigger] parent@[j2] < j2 && edge(
                                a,
                                order@[parent@[j2] as int],
                                order@[j2],
                            ),
                    decreases j,
                {
                    let ghost b0 = back@;
                    let pj = parent[j];
                    proof {
                        assert(parent@[j as int] < j && edge(a, order@[pj as int], order@[j as int]));
                    }
                    j = pj;
                    back.push(order[j]);
                    proof {
                        assert forall|t: int| 0 <= t < back@.len() - 1 implies #[trigger] edge(a, back@[t + 1], back@[t]) by {
                            if t < b0.len() - 1 {
                                assert(back@[t] == b0[t] && back@[t + 1] == b0[t + 1]);
                            } else {
                                assert(back@[t] == b0.last());
                            }
                        }
                    }
                }
                let mut c: Vec<usize> = Vec::new();
                let mut t: usize = back.len();
                while t > 0
                    invariant
                        t <= back@.len(),
                        c@.len() == back@.len() - t,
                        forall|q: int| 0 <= q < c@.len() ==> #[trigger] c@[q] == back@[back@.len() - 1 - q],
                    decreases t,
                {
                    t = t - 1;
                    c.push(back[t]);
                }
                proof {
                    let L = back@.len() as int;
                    assert(c@.len() == L);
                    assert(c@[0] == back@[L - 1]);
                    assert(c@[0] == v);
                    assert forall|q: int| 0 <= q < c@.len() - 1 implies #[trigger] edge(a, c@[q], c@[q + 1]) by {
                        assert(c@[q] == back@[L - 1 - q]);
                        assert(c@[q + 1] == back@[L - 1 - (q + 1)]);
                        assert(edge(a, back@[(L - 2 - q) + 1], back@[L - 2 - q]));
                    }
                    assert(c@.last() == back@[0]);
                    assert(succ@[k as int] == v);
                    assert(edge(a, u, v));
                }
                return Some(c);
            }
            if color[w] == 0 {
                let ghost c0 = color@;
                let ghost o0 = order@;
                color.set(w, 1);
                order.push(w);
                parent.push(i);
                proof {
                    lemma_white_count_mono(c0, color@);
                    assert(order@[order@.len() - 1] == w);
                    assert forall|w2: int| 0 <= w2 < n && color@[w2] != 0 implies order@.contains(w2 as usize) by {
                        if w2 != w {
                            assert(c0[w2] != 0);
                            assert(o0.contains(w2 as usize));
                            let j = choose|j: int| 0 <= j < o0.len() && o0[j] == w2 as usize;
                            assert(order@[j] == o0[j]);
                        } else {
                            assert(order@[order@.len() - 1] == w);
                        }
                    }
                    assert(edge(a, order@[i as int], w));
                }
            }
            k = k + 1;
        }
        proof {
            assert(succ@.len() == a[u as int].len());
            assert(!a[u as int].contains(v));
        }
        i = i + 1;
    }
    proof {
        assert forall|j: int, k: int|
            0 <= j < order@.len() && 0 <= k < a[order@[j] as int].len() implies order@.contains(
            #[trigger] a[order@[j] as int][k],
        ) by {
            let w = a[order@[j] as int][k];
            assert(w < n);
            assert(color@[w as int] != 0);
        }
        assert(order@[0] == v);
        assert forall|c: Seq<usize>| is_cycle(a, c) implies !c.contains(v) by {
            lemma_no_cycle_through(a, order@, v, c);
        }
    }
    None
}

} // verus!
