//! Dependency graphs over package names: cycle detection and install order.
//!
//! A graph is a list of `(package, dependencies)` entries with distinct
//! package names. Names that occur only as dependencies are nodes too.

use vstd::prelude::*;

use crate::error::{BallError, ErrorView};
use crate::graph::{
    cycle_through, edge, graph_wf, has_cycle, is_cycle, is_path, is_postorder, lemma_postorder_acyclic, search,
};
use crate::text::{concat, concat3, join, join_strings};

verus! {

/// No package has two entries.
pub open spec fn keys_distinct(g: Seq<(Seq<char>, Seq<Seq<char>>)>) -> bool {
    forall|i: int, j: int| 0 <= i < g.len() && 0 <= j < g.len() && i != j ==> #[trigger] g[i].0 != #[trigger] g[j].0
}

/// `a` has an entry that lists `b` among its dependencies.
pub open spec fn depends_on(g: Seq<(Seq<char>, Seq<Seq<char>>)>, a: Seq<char>, b: Seq<char>) -> bool {
    exists|i: int| 0 <= i < g.len() && #[trigger] g[i].0 == a && g[i].1.contains(b)
}

/// `x` is a package of the graph or a dependency of one.
pub open spec fn is_node(g: Seq<(Seq<char>, Seq<Seq<char>>)>, x: Seq<char>) -> bool {
    exists|i: int| 0 <= i < g.len() && (#[trigger] g[i].0 == x || g[i].1.contains(x))
}

/// `c` is a closed chain of dependencies: each name depends on the next and
/// the last on the first.
pub open spec fn is_dep_cycle(g: Seq<(Seq<char>, Seq<Seq<char>>)>, c: Seq<Seq<char>>) -> bool {
    &&& c.len() > 0
    &&& forall|k: int| 0 <= k < c.len() - 1 ==> #[trigger] depends_on(g, c[k], c[k + 1])
    &&& depends_on(g, c.last(), c[0])
}

pub open spec fn dep_cyclic(g: Seq<(Seq<char>, Seq<Seq<char>>)>) -> bool {
    exists|c: Seq<Seq<char>>| is_dep_cycle(g, c)
}

/// `o` lists every node of the graph exactly once.
pub open spec fn covers(g: Seq<(Seq<char>, Seq<Seq<char>>)>, o: Seq<Seq<char>>) -> bool {
    &&& o.no_duplicates()
    &&& forall|x: Seq<char>| o.contains(x) <==> is_node(g, x)
}

/// In `o` every dependency comes before the package that depends on it
/// (a package listing itself aside).
pub open spec fn respects_deps(g: Seq<(Seq<char>, Seq<Seq<char>>)>, o: Seq<Seq<char>>) -> bool {
    forall|i: int, j: int|
        0 <= i < o.len() && 0 <= j < o.len() && i != j && #[trigger] depends_on(g, o[i], o[j]) ==> j < i
}

/// The text of a cycle error: the cycle's names joined by arrows, closed by
/// its first name.
pub open spec fn cycle_message(c: Seq<Seq<char>>) -> Seq<char> {
    "cycle detected: "@ + join(c, " -> "@) + " -> "@ + c[0]
}

/// The text of an ordering error for the edge `node -> dep`.
pub open spec fn precede_message(dep: Seq<char>, node: Seq<char>) -> Seq<char> {
    "cycle detected: '"@ + dep + "' must precede '"@ + node + "'"@
}

// ---------------------------------------------------------------------------
// Numbering the nodes
// ---------------------------------------------------------------------------

/// `names` numbers the nodes of `g` (the entries first, in their order) and
/// `adj` is `g` over those numbers.
pub open spec fn indexed(
    g: Seq<(Seq<char>, Seq<Seq<char>>)>,
    names: Seq<Seq<char>>,
    adj: Seq<Seq<usize>>,
) -> bool {
    &&& names.len() == adj.len()
    &&& names.len() <= usize::MAX
    &&& names.no_duplicates()
    &&& g.len() <= names.len()
    &&& forall|i: int| 0 <= i < g.len() ==> #[trigger] names[i] == g[i].0
    &&& forall|v: int| 0 <= v < names.len() ==> is_node(g, #[trigger] names[v])
    &&& forall|x: Seq<char>| is_node(g, x) ==> names.contains(x)
    &&& graph_wf(adj)
    &&& forall|i: int| 0 <= i < g.len() ==> #[trigger] adj[i].len() == g[i].1.len()
    &&& forall|i: int, k: int|
        0 <= i < g.len() && 0 <= k < g[i].1.len() ==> names[#[trigger] adj[i][k] as int] == g[i].1[k]
    &&& forall|i: int| g.len() <= i < adj.len() ==> #[trigger] adj[i].len() == 0
}

/// The number of a name.
pub open spec fn number_of(names: Seq<Seq<char>>, x: Seq<char>) -> usize {
    choose|v: usize| (v as int) < names.len() && names[v as int] == x
}

pub open spec fn names_of(names: Seq<Seq<char>>, vs: Seq<usize>) -> Seq<Seq<char>> {
    Seq::new(vs.len(), |k: int| names[vs[k] as int])
}

/// An edge between numbers is a dependency between their names.
pub proof fn lemma_edge_names(
    g: Seq<(Seq<char>, Seq<Seq<char>>)>,
    names: Seq<Seq<char>>,
    adj: Seq<Seq<usize>>,
    u: usize,
    v: usize,
)
    requires
        keys_distinct(g),
        indexed(g, names, adj),
        u < adj.len(),
        v < adj.len(),
    ensures
        edge(adj, u, v) <==> depends_on(g, names[u as int], names[v as int]),
{
    if edge(adj, u, v) {
        assert(u < g.len()) by {
            if u >= g.len() {
                assert(adj[u as int].len() == 0);
            }
        }
        let k = choose|k: int| 0 <= k < adj[u as int].len() && adj[u as int][k] == v;
        assert(names[adj[u as int][k] as int] == g[u as int].1[k]);
        assert(g[u as int].0 == names[u as int]);
        assert(g[u as int].1.contains(names[v as int]));
    }
    if depends_on(g, names[u as int], names[v as int]) {
        let i = choose|i: int| 0 <= i < g.len() && #[trigger] g[i].0 == names[u as int] && g[i].1.contains(names[v as int]);
        assert(names[i] == g[i].0);
        assert(i == u);
        let k = choose|k: int| 0 <= k < g[i].1.len() && g[i].1[k] == names[v as int];
        let w = adj[i][k];
        assert(names[w as int] == g[i].1[k]);
        assert(w < adj.len());
        assert(w == v);
        assert(adj[u as int].contains(v));
    }
}

/// A cycle over numbers names a cycle of dependencies.
pub proof fn lemma_cycle_to_names(
    g: Seq<(Seq<char>, Seq<Seq<char>>)>,
    names: Seq<Seq<char>>,
    adj: Seq<Seq<usize>>,
    c: Seq<usize>,
)
    requires
        keys_distinct(g),
        indexed(g, names, adj),
        is_cycle(adj, c),
    ensures
        is_dep_cycle(g, names_of(names, c)),
{
    let nc = names_of(names, c);
    assert forall|k: int| 0 <= k < nc.len() - 1 implies #[trigger] depends_on(g, nc[k], nc[k + 1]) by {
        assert(edge(adj, c[k], c[k + 1]));
        lemma_edge_names(g, names, adj, c[k], c[k + 1]);
    }
    assert(edge(adj, c.last(), c[0]));
    lemma_edge_names(g, names, adj, c.last(), c[0]);
    assert(nc.last() == names[c.last() as int]);
}

/// A cycle of dependencies gives a cycle over numbers.
pub proof fn lemma_names_to_cycle(
    g: Seq<(Seq<char>, Seq<Seq<char>>)>,
    names: Seq<Seq<char>>,
    adj: Seq<Seq<usize>>,
    c: Seq<Seq<char>>,
)
    requires
        keys_distinct(g),
        indexed(g, names, adj),
        is_dep_cycle(g, c),
    ensures
        has_cycle(adj),
        exists|ic: Seq<usize>|
            is_cycle(adj, ic) && ic.len() == c.len() && forall|k: int|
                0 <= k < c.len() ==> (#[trigger] ic[k] as int) < names.len() && names[ic[k] as int] == c[k],
{
    // Every name of the cycle has an entry, so a number below `g.len()`.
    assert forall|k: int| #![trigger c[k]] 0 <= k < c.len() implies exists|v: usize|
        (v as int) < names.len() && #[trigger] names[v as int] == c[k] by {
        let succ = if k < c.len() - 1 {
            k + 1
        } else {
            0
        };
        if k < c.len() - 1 {
            assert(depends_on(g, c[k], c[k + 1]));
        } else {
            assert(depends_on(g, c.last(), c[0]));
        }
        let i = choose|i: int| 0 <= i < g.len() && #[trigger] g[i].0 == c[k] && g[i].1.contains(c[succ]);
        assert(names[i] == c[k]);
        assert(names[(i as usize) as int] == c[k]);
    }
    let ic = Seq::new(c.len(), |k: int| number_of(names, c[k]));
    assert forall|k: int| 0 <= k < c.len() implies (#[trigger] ic[k] as int) < names.len() && names[ic[k] as int]
        == c[k] by {
        assert(exists|v: usize| (v as int) < names.len() && #[trigger] names[v as int] == c[k]);
    }
    assert forall|k: int| 0 <= k < ic.len() - 1 implies #[trigger] edge(adj, ic[k], ic[k + 1]) by {
        assert(depends_on(g, c[k], c[k + 1]));
        lemma_edge_names(g, names, adj, ic[k], ic[k + 1]);
    }
    assert(depends_on(g, c.last(), c[0]));
    lemma_edge_names(g, names, adj, ic.last(), ic[0]);
    assert(is_cycle(adj, ic));
}

fn holds_name(set: &Vec<String>, name: &String) -> (r: bool)
    ensures
        r == set.deep_view().contains(name@),
{
    let mut i: usize = 0;
    while i < set.len()
        invariant
            i <= set@.len(),
            forall|j: int| 0 <= j < i ==> set.deep_view()[j] != name@,
        decreases set@.len() - i,
    {
        if set[i] == *name {
            proof {
                assert(set.deep_view()[i as int] == name@);
            }
            return true;
        }
        i = i + 1;
    }
    false
}

/// A cycle of dependencies through a package outside `kept`, if there is
/// one; none means every cycle is made of packages of `kept`.
pub fn cycle_outside(graph: &Vec<(String, Vec<String>)>, kept: &Vec<String>) -> (r: Option<Vec<String>>)
    requires
        keys_distinct(graph.deep_view()),
    ensures
        match r {
            Some(c) => is_dep_cycle(graph.deep_view(), c.deep_view()) && exists|k: int|
                0 <= k < c.deep_view().len() && !kept.deep_view().contains(#[trigger] c.deep_view()[k]),
            None => forall|c: Seq<Seq<char>>|
                is_dep_cycle(graph.deep_view(), c) ==> forall|k: int|
                    0 <= k < c.len() ==> kept.deep_view().contains(#[trigger] c[k]),
        },
{
    let ghost g = graph.deep_view();
    let ng = number_graph(graph);
    let ghost names = ng.names.deep_view();
    let ghost adj = ng.adj.deep_view();
    let ghost kv = kept.deep_view();
    let mut v: usize = 0;
    while v < ng.names.len()
        invariant
            g == graph.deep_view(),
            keys_distinct(g),
            names == ng.names.deep_view(),
            adj == ng.adj.deep_view(),
            kv == kept.deep_view(),
            indexed(g, names, adj),
            v <= names.len(),
            forall|v2: usize, c: Seq<usize>|
                #![trigger is_cycle(adj, c), c.contains(v2)]
                v2 < v && !kv.contains(names[v2 as int]) && is_cycle(adj, c) ==> !c.contains(v2),
        decreases names.len() - v,
    {
        proof {
            assert(names[v as int] == ng.names@[v as int]@);
        }
        if !holds_name(kept, &ng.names[v]) {
            match cycle_through(&ng.adj, v) {
                Some(c) => {
                    proof {
                        lemma_cycle_in_range(adj, c@);
                        lemma_cycle_to_names(g, names, adj, c@);
                    }
                    let out = names_at(&ng.names, &c);
                    proof {
                        assert(out.deep_view()[0] == names[c@[0] as int]);
                    }
                    return Some(out);
                },
                None => {},
            }
        }
        v = v + 1;
    }
    proof {
        assert forall|c: Seq<Seq<char>>| is_dep_cycle(g, c) implies forall|k: int|
            0 <= k < c.len() ==> kv.contains(#[trigger] c[k]) by {
            lemma_names_to_cycle(g, names, adj, c);
            let ic = choose|ic: Seq<usize>|
                is_cycle(adj, ic) && ic.len() == c.len() && forall|k: int|
                    0 <= k < c.len() ==> (#[trigger] ic[k] as int) < names.len() && names[ic[k] as int] == c[k];
            assert forall|k: int| 0 <= k < c.len() implies kv.contains(#[trigger] c[k]) by {
                let v2 = ic[k];
                assert((v2 as int) < names.len() && names[v2 as int] == c[k]);
                if !kv.contains(c[k]) {
                    assert(ic.contains(v2));
                }
            }
        }
    }
    None
}

/// The names of a search order that holds every number once list every node once.
pub proof fn lemma_order_covers(
    g: Seq<(Seq<char>, Seq<Seq<char>>)>,
    names: Seq<Seq<char>>,
    adj: Seq<Seq<usize>>,
    ord: Seq<usize>,
)
    requires
        indexed(g, names, adj),
        ord.no_duplicates(),
        forall|i: int| 0 <= i < ord.len() ==> #[trigger] ord[i] < adj.len(),
        forall|v: usize| v < adj.len() ==> ord.contains(v),
    ensures
        covers(g, names_of(names, ord)),
{
    let o = names_of(names, ord);
    assert forall|i: int, j: int| 0 <= i < o.len() && 0 <= j < o.len() && i != j implies o[i] != o[j] by {
        assert(ord[i] != ord[j]);
        assert(names[ord[i] as int] != names[ord[j] as int]);
    }
    assert forall|x: Seq<char>| o.contains(x) <==> is_node(g, x) by {
        if o.contains(x) {
            let i = choose|i: int| 0 <= i < o.len() && o[i] == x;
            assert(is_node(g, names[ord[i] as int]));
        }
        if is_node(g, x) {
            assert(names.contains(x));
            let v = choose|v: int| 0 <= v < names.len() && names[v] == x;
            assert(ord.contains(v as usize));
            let i = choose|i: int| 0 <= i < ord.len() && ord[i] == v as usize;
            assert(o[i] == x);
        }
    }
}

/// Names of a search order in which every edge leads backwards respect the
/// dependencies.
pub proof fn lemma_order_respects(
    g: Seq<(Seq<char>, Seq<Seq<char>>)>,
    names: Seq<Seq<char>>,
    adj: Seq<Seq<usize>>,
    ord: Seq<usize>,
)
    requires
        keys_distinct(g),
        indexed(g, names, adj),
        forall|i: int| 0 <= i < ord.len() ==> #[trigger] ord[i] < adj.len(),
        forall|i: int, j: int, k: int|
            #![trigger ord[i], ord[j], adj[ord[i] as int][k]]
            0 <= i < ord.len() && 0 <= j < ord.len() && 0 <= k < adj[ord[i] as int].len()
                && ord[j] == adj[ord[i] as int][k] ==> j < i,
    ensures
        respects_deps(g, names_of(names, ord)),
{
    let o = names_of(names, ord);
    assert forall|i: int, j: int|
        0 <= i < o.len() && 0 <= j < o.len() && i != j && #[trigger] depends_on(g, o[i], o[j]) implies j < i by {
        lemma_edge_names(g, names, adj, ord[i], ord[j]);
        assert(edge(adj, ord[i], ord[j]));
        let k = choose|k: int| 0 <= k < adj[ord[i] as int].len() && adj[ord[i] as int][k] == ord[j];
        assert(ord[j] == adj[ord[i] as int][k]);
    }
}

// ---------------------------------------------------------------------------
// Numbering, executable
// ---------------------------------------------------------------------------

/// Position of `x` in `names`, if it occurs.
fn position_of(names: &Vec<String>, x: &String) -> (r: Option<usize>)
    ensures
        match r {
            Some(i) => i < names@.len() && names.deep_view()[i as int] == x@,
            None => !names.deep_view().contains(x@),
        },
{
    let mut i: usize = 0;
    while i < names.len()
        invariant
            i <= names@.len(),
            forall|j: int| 0 <= j < i ==> names.deep_view()[j] != x@,
        decreases names@.len() - i,
    {
        if names[i] == *x {
            return Some(i);
        }
        i = i + 1;
    }
    None
}

/// The nodes of a graph, numbered, and the graph over those numbers.
pub struct NumberedGraph {
    pub names: Vec<String>,
    pub adj: Vec<Vec<usize>>,
}

pub fn number_graph(graph: &Vec<(String, Vec<String>)>) -> (r: NumberedGraph)
    requires
        keys_distinct(graph.deep_view()),
    ensures
        indexed(graph.deep_view(), r.names.deep_view(), r.adj.deep_view()),
{
    let ghost g = graph.deep_view();
    let m = graph.len();
    let mut names: Vec<String> = Vec::new();
    let mut i: usize = 0;
    while i < m
        invariant
            g == graph.deep_view(),
            m == g.len(),
            i <= m,
            names@.len() == i,
            forall|j: int| 0 <= j < i ==> #[trigger] names.deep_view()[j] == g[j].0,
        decreases m - i,
    {
        let ghost dv = names.deep_view();
        names.push(graph[i].0.clone());
        proof {
            assert(names.deep_view() =~= dv.push(g[i as int].0));
        }
        i = i + 1;
    }
    proof {
        assert forall|a: int, b: int| 0 <= a < names@.len() && 0 <= b < names@.len() && a != b implies names.deep_view()[a]
            != names.deep_view()[b] by {
            assert(names.deep_view()[a] == g[a].0);
            assert(names.deep_view()[b] == g[b].0);
        }
        assert forall|v: int| 0 <= v < names@.len() implies is_node(g, #[trigger] names.deep_view()[v]) by {
            assert(g[v].0 == names.deep_view()[v]);
        }
    }
    let mut adj: Vec<Vec<usize>> = Vec::new();
    i = 0;
    while i < m
        invariant
            g == graph.deep_view(),
            m == g.len(),
            keys_distinct(g),
            i <= m,
            adj@.len() == i,
            m <= names@.len(),
            forall|j: int| 0 <= j < m ==> #[trigger] names.deep_view()[j] == g[j].0,
            names.deep_view().no_duplicates(),
            forall|v: int| 0 <= v < names@.len() ==> is_node(g, #[trigger] names.deep_view()[v]),
            forall|j: int| 0 <= j < i ==> #[trigger] adj.deep_view()[j].len() == g[j].1.len(),
            forall|j: int, k: int|
                0 <= j < i && 0 <= k < g[j].1.len() ==> #[trigger] adj.deep_view()[j][k] < names@.len()
                    && names.deep_view()[adj.deep_view()[j][k] as int] == g[j].1[k],
        decreases m - i,
    {
        let deps = &graph[i].1;
        let ghost di = g[i as int].1;
        assert(deps.deep_view() == di);
        let mut row: Vec<usize> = Vec::new();
        let mut k: usize = 0;
        while k < deps.len()
            invariant
                g == graph.deep_view(),
                m == g.len(),
                i < m,
                di == g[i as int].1,
                deps.deep_view() == di,
                k <= di.len(),
                row@.len() == k,
                m <= names@.len(),
                forall|j: int| 0 <= j < m ==> #[trigger] names.deep_view()[j] == g[j].0,
                names.deep_view().no_duplicates(),
                forall|v: int| 0 <= v < names@.len() ==> is_node(g, #[trigger] names.deep_view()[v]),
                forall|k2: int| 0 <= k2 < k ==> #[trigger] row@[k2] < names@.len() && names.deep_view()[row@[k2] as int]
                    == di[k2],
                forall|j: int, k2: int|
                    0 <= j < i && 0 <= k2 < g[j].1.len() ==> #[trigger] adj.deep_view()[j][k2] < names@.len()
                        && names.deep_view()[adj.deep_view()[j][k2] as int] == g[j].1[k2],
            decreases di.len() - k,
        {
            assert(deps[k as int]@ == di[k as int]);
            match position_of(&names, &deps[k]) {
                Some(p) => {
                    row.push(p);
                },
                None => {
                    let ghost dv = names.deep_view();
                    names.push(deps[k].clone());
                    proof {
                        assert(names.deep_view() =~= dv.push(di[k as int]));
                        assert(is_node(g, di[k as int])) by {
                            assert(di[k as int] == g[i as int].1[k as int]);
                            assert(g[i as int].1.contains(di[k as int]));
                            assert(g[i as int].0 == g[i as int].0);
                        }
                        assert forall|a: int, b: int|
                            0 <= a < names@.len() && 0 <= b < names@.len() && a != b implies names.deep_view()[a]
                            != names.deep_view()[b] by {
                            if a < dv.len() && b < dv.len() {
                                assert(dv[a] != dv[b]);
                            } else if a < dv.len() {
                                assert(dv.contains(dv[a]));
                            } else {
                                assert(dv.contains(dv[b]));
                            }
                        }
                    }
                    row.push(names.len() - 1);
                },
            }
            k = k + 1;
        }
        let ghost av0 = adj.deep_view();
        let ghost rv = row.deep_view();
        proof {
            assert(rv =~= row@);
        }
        adj.push(row);
        proof {
            assert(adj.deep_view() =~= av0.push(rv));
            assert forall|j: int| 0 <= j < i + 1 implies #[trigger] adj.deep_view()[j].len() == g[j].1.len() by {
                if j == i {
                    assert(adj.deep_view()[j] == row@);
                }
            }
            assert forall|j: int, k2: int|
                0 <= j < i + 1 && 0 <= k2 < g[j].1.len() implies #[trigger] adj.deep_view()[j][k2] < names@.len()
                    && names.deep_view()[adj.deep_view()[j][k2] as int] == g[j].1[k2] by {
                if j == i {
                    assert(adj.deep_view()[j] == row@);
                    assert(row@[k2] < names@.len());
                }
            }
        }
        i = i + 1;
    }
    while adj.len() < names.len()
        invariant
            m <= adj@.len() <= names@.len(),
            forall|j: int| 0 <= j < m ==> #[trigger] adj.deep_view()[j].len() == g[j].1.len(),
            forall|j: int, k2: int|
                0 <= j < m && 0 <= k2 < g[j].1.len() ==> #[trigger] adj.deep_view()[j][k2] < names@.len()
                    && names.deep_view()[adj.deep_view()[j][k2] as int] == g[j].1[k2],
            forall|j: int| m <= j < adj@.len() ==> #[trigger] adj.deep_view()[j].len() == 0,
        decreases names@.len() - adj@.len(),
    {
        let ghost av0 = adj.deep_view();
        let empty: Vec<usize> = Vec::new();
        let ghost ev = empty.deep_view();
        proof {
            assert(ev =~= Seq::<usize>::empty());
        }
        adj.push(empty);
        proof {
            assert(adj.deep_view() =~= av0.push(ev));
        }
    }
    let ghost nv = names.deep_view();
    let ghost av = adj.deep_view();
    proof {
        assert forall|x: Seq<char>| is_node(g, x) implies nv.contains(x) by {
            let j = choose|j: int| 0 <= j < g.len() && (#[trigger] g[j].0 == x || g[j].1.contains(x));
            if g[j].0 == x {
                assert(nv[j] == x);
            } else {
                let k = choose|k: int| 0 <= k < g[j].1.len() && g[j].1[k] == x;
                assert(nv[av[j][k] as int] == g[j].1[k]);
            }
        }
        assert forall|u: int, k: int| 0 <= u < av.len() && 0 <= k < av[u].len() implies #[trigger] av[u][k] < av.len() by {
            if u >= m {
                assert(av[u].len() == 0);
            }
        }
    }
    NumberedGraph { names, adj }
}

/// The names carried by the numbers `vs`.
fn names_at(names: &Vec<String>, vs: &Vec<usize>) -> (r: Vec<String>)
    requires
        forall|k: int| 0 <= k < vs@.len() ==> #[trigger] vs@[k] < names@.len(),
    ensures
        r.deep_view() == names_of(names.deep_view(), vs@),
{
    let mut r: Vec<String> = Vec::new();
    let mut k: usize = 0;
    while k < vs.len()
        invariant
            k <= vs@.len(),
            forall|k2: int| 0 <= k2 < vs@.len() ==> #[trigger] vs@[k2] < names@.len(),
            r.deep_view() == names_of(names.deep_view(), vs@.subrange(0, k as int)),
        decreases vs@.len() - k,
    {
        let ghost rv = r.deep_view();
        r.push(names[vs[k]].clone());
        k = k + 1;
        proof {
            assert(r.deep_view() =~= rv.push(names.deep_view()[vs@[k - 1] as int]));
            assert(r.deep_view() =~= names_of(names.deep_view(), vs@.subrange(0, k as int)));
        }
    }
    proof {
        assert(vs@.subrange(0, vs@.len() as int) =~= vs@);
    }
    r
}

/// The nodes of a cycle over numbers are numbers of the graph.
proof fn lemma_cycle_in_range(adj: Seq<Seq<usize>>, c: Seq<usize>)
    requires
        is_cycle(adj, c),
    ensures
        forall|k: int| 0 <= k < c.len() ==> #[trigger] c[k] < adj.len(),
{
    assert forall|k: int| 0 <= k < c.len() implies #[trigger] c[k] < adj.len() by {
        if k < c.len() - 1 {
            assert(edge(adj, c[k], c[k + 1]));
        } else {
            assert(edge(adj, c.last(), c[0]));
        }
    }
}

/// Looks for a cycle of dependencies, searching from each entry in turn.
pub fn find_cycle(graph: &Vec<(String, Vec<String>)>) -> (r: Option<Vec<String>>)
    requires
        keys_distinct(graph.deep_view()),
    ensures
        match r {
            Some(c) => is_dep_cycle(graph.deep_view(), c.deep_view()),
            None => !dep_cyclic(graph.deep_view()),
        },
{
    let ghost g = graph.deep_view();
    let ng = number_graph(graph);
    let ghost names = ng.names.deep_view();
    let ghost adj = ng.adj.deep_view();
    let s = search(&ng.adj, ng.adj.len(), true);
    match s.cycle {
        Some(c) => {
            proof {
                lemma_cycle_in_range(adj, c@);
                lemma_cycle_to_names(g, names, adj, c@);
            }
            Some(names_at(&ng.names, &c))
        },
        None => {
            proof {
                assert(is_postorder(adj, s.order@));
                lemma_postorder_acyclic(adj, s.order@);
                if dep_cyclic(g) {
                    let c = choose|c: Seq<Seq<char>>| is_dep_cycle(g, c);
                    lemma_names_to_cycle(g, names, adj, c);
                }
            }
            None
        },
    }
}

/// Fails with the first cycle found, written as its names joined by arrows
/// and closed by its first name.
pub fn detect_cycles(graph: &Vec<(String, Vec<String>)>) -> (r: Result<(), BallError>)
    requires
        keys_distinct(graph.deep_view()),
    ensures
        r is Ok <==> !dep_cyclic(graph.deep_view()),
        match r {
            Ok(_) => true,
            Err(e) => exists|c: Seq<Seq<char>>|
                is_dep_cycle(graph.deep_view(), c) && e@ == ErrorView::DependencyCycle(cycle_message(c)),
        },
{
    match find_cycle(graph) {
        Some(cycle) => {
            let head = concat("cycle detected: ", join_strings(&cycle, " -> ").as_str());
            let msg = concat3(head.as_str(), " -> ", cycle[0].as_str());
            proof {
                assert(cycle[0]@ == cycle.deep_view()[0]);
                assert(msg@ == cycle_message(cycle.deep_view()));
            }
            Err(BallError::DependencyCycle(msg))
        },
        None => Ok(()),
    }
}

/// Every node once, dependencies first wherever the graph has no cycle.
pub fn best_effort_order(graph: &Vec<(String, Vec<String>)>) -> (r: Vec<String>)
    requires
        keys_distinct(graph.deep_view()),
    ensures
        covers(graph.deep_view(), r.deep_view()),
        !dep_cyclic(graph.deep_view()) ==> respects_deps(graph.deep_view(), r.deep_view()),
{
    let ghost g = graph.deep_view();
    let ng = number_graph(graph);
    let ghost names = ng.names.deep_view();
    let ghost adj = ng.adj.deep_view();
    let s = search(&ng.adj, ng.adj.len(), false);
    let order = s.order;
    proof {
        lemma_order_covers(g, names, adj, order@);
        if !dep_cyclic(g) {
            if has_cycle(adj) {
                let c = choose|c: Seq<usize>| is_cycle(adj, c);
                lemma_cycle_to_names(g, names, adj, c);
            }
            lemma_order_respects(g, names, adj, order@);
        }
    }
    names_at(&ng.names, &order)
}

/// Positions in `ord` of each number below `n`.
fn positions(ord: &Vec<usize>, n: usize) -> (r: Vec<usize>)
    requires
        ord@.no_duplicates(),
        forall|t: int| 0 <= t < ord@.len() ==> #[trigger] ord@[t] < n,
    ensures
        r@.len() == n,
        forall|t: int| 0 <= t < ord@.len() ==> #[trigger] r@[ord@[t] as int] == t,
{
    let mut r: Vec<usize> = Vec::new();
    let mut i: usize = 0;
    while i < n
        invariant
            i <= n,
            r@.len() == i,
        decreases n - i,
    {
        r.push(0);
        i = i + 1;
    }
    let mut t: usize = 0;
    while t < ord.len()
        invariant
            t <= ord@.len(),
            r@.len() == n,
            ord@.no_duplicates(),
            forall|t2: int| 0 <= t2 < ord@.len() ==> #[trigger] ord@[t2] < n,
            forall|t2: int| 0 <= t2 < t ==> #[trigger] r@[ord@[t2] as int] == t2,
        decreases ord@.len() - t,
    {
        r.set(ord[t], t);
        proof {
            assert forall|t2: int| 0 <= t2 < t implies #[trigger] r@[ord@[t2] as int] == t2 by {
                assert(ord@[t2] != ord@[t as int]);
            }
        }
        t = t + 1;
    }
    r
}

/// The install order: every node once, each dependency before the packages
/// that depend on it. An edge that the order cannot honour is reported as a
/// cycle between its two names.
pub fn topological_sort(graph: &Vec<(String, Vec<String>)>) -> (r: Result<Vec<String>, BallError>)
    requires
        keys_distinct(graph.deep_view()),
    ensures
        match r {
            Ok(o) => covers(graph.deep_view(), o.deep_view()) && respects_deps(graph.deep_view(), o.deep_view()),
            Err(e) => dep_cyclic(graph.deep_view()) && exists|a: Seq<char>, b: Seq<char>|
                a != b && depends_on(graph.deep_view(), a, b) && e@ == ErrorView::DependencyCycle(
                    precede_message(b, a),
                ),
        },
        !dep_cyclic(graph.deep_view()) ==> r is Ok,
{
    let ghost g = graph.deep_view();
    let ng = number_graph(graph);
    let ghost names = ng.names.deep_view();
    let ghost adj = ng.adj.deep_view();
    let n = ng.adj.len();
    let s = search(&ng.adj, n, false);
    let order = s.order;
    let pos = positions(&order, n);
    proof {
        lemma_order_covers(g, names, adj, order@);
        assert forall|v: int| 0 <= v < n implies (#[trigger] pos@[v] as int) < order@.len() && order@[pos@[v] as int] == v by {
            assert(order@.contains(v as usize));
            let t = choose|t: int| 0 <= t < order@.len() && order@[t] == v as usize;
            assert(pos@[order@[t] as int] == t);
        }
    }
    let m = graph.len();
    let mut i: usize = 0;
    while i < m
        invariant
            g == graph.deep_view(),
            m == g.len(),
            keys_distinct(g),
            indexed(g, names, adj),
            names == ng.names.deep_view(),
            adj == ng.adj.deep_view(),
            n == adj.len(),
            i <= m,
            pos@.len() == n,
            forall|v: int| 0 <= v < n ==> (#[trigger] pos@[v] as int) < order@.len() && order@[pos@[v] as int] == v,
            forall|t: int| 0 <= t < order@.len() ==> #[trigger] pos@[order@[t] as int] == t,
            forall|t: int| 0 <= t < order@.len() ==> #[trigger] order@[t] < n,
            forall|a: int, j: int, k: int|
                #![trigger order@[a], order@[j], adj[order@[a] as int][k]]
                0 <= a < order@.len() && 0 <= j < order@.len() && 0 <= k < adj[order@[a] as int].len()
                    && order@[j] == adj[order@[a] as int][k] ==> j < a || has_cycle(adj),
            forall|u: int, k: int| 0 <= u < i && 0 <= k < adj[u].len() ==> pos@[#[trigger] adj[u][k] as int] <= pos@[u],
        decreases m - i,
    {
        let row = &ng.adj[i];
        let mut k: usize = 0;
        while k < row.len()
            invariant
                g == graph.deep_view(),
                m == g.len(),
                keys_distinct(g),
                indexed(g, names, adj),
                names == ng.names.deep_view(),
                adj == ng.adj.deep_view(),
                n == adj.len(),
                i < m,
                row@ == adj[i as int],
                k <= row@.len(),
                pos@.len() == n,
                forall|v: int| 0 <= v < n ==> (#[trigger] pos@[v] as int) < order@.len() && order@[pos@[v] as int] == v,
                forall|t: int| 0 <= t < order@.len() ==> #[trigger] pos@[order@[t] as int] == t,
                forall|t: int| 0 <= t < order@.len() ==> #[trigger] order@[t] < n,
                forall|a: int, j: int, k2: int|
                    #![trigger order@[a], order@[j], adj[order@[a] as int][k2]]
                    0 <= a < order@.len() && 0 <= j < order@.len() && 0 <= k2 < adj[order@[a] as int].len()
                        && order@[j] == adj[order@[a] as int][k2] ==> j < a || has_cycle(adj),
                forall|u: int, k2: int|
                    0 <= u < i && 0 <= k2 < adj[u].len() ==> pos@[#[trigger] adj[u][k2] as int] <= pos@[u],
                forall|k2: int| 0 <= k2 < k ==> pos@[#[trigger] adj[i as int][k2] as int] <= pos@[i as int],
            decreases row@.len() - k,
        {
            let w = row[k];
            proof {
                assert(adj[i as int][k as int] == w);
                assert(w < n);
            }
            if pos[w] > pos[i] {
                let ghost a = names[i as int];
                let ghost b = names[w as int];
                let msg = concat3(
                    concat("cycle detected: '", ng.names[w].as_str()).as_str(),
                    "' must precede '",
                    concat(ng.names[i].as_str(), "'").as_str(),
                );
                proof {
                    assert(ng.names@[w as int]@ == b);
                    assert(ng.names@[i as int]@ == a);
                    assert(msg@ =~= precede_message(b, a));
                    let ui = pos@[i as int] as int;
                    let wj = pos@[w as int] as int;
                    assert(order@[ui] == i);
                    assert(order@[wj] == w);
                    assert(order@[wj] == adj[order@[ui] as int][k as int]);
                    assert(has_cycle(adj));
                    let c = choose|c: Seq<usize>| is_cycle(adj, c);
                    lemma_cycle_to_names(g, names, adj, c);
                    assert(edge(adj, i, w));
                    lemma_edge_names(g, names, adj, i, w);
                    assert(w != i);
                    assert(a != b);
                }
                return Err(BallError::DependencyCycle(msg));
            }
            k = k + 1;
        }
        i = i + 1;
    }
    proof {
        assert forall|a: int, j: int, k: int|
            #![trigger order@[a], order@[j], adj[order@[a] as int][k]]
            0 <= a < order@.len() && 0 <= j < order@.len() && 0 <= k < adj[order@[a] as int].len()
                && order@[j] == adj[order@[a] as int][k] && a != j implies j < a by {
            let u = order@[a];
            if u >= m {
                assert(adj[u as int].len() == 0);
            }
            assert(pos@[adj[u as int][k] as int] <= pos@[u as int]);
            assert(pos@[order@[j] as int] == j);
            assert(pos@[order@[a] as int] == a);
        }
        let o = names_of(names, order@);
        assert forall|a: int, j: int|
            0 <= a < o.len() && 0 <= j < o.len() && a != j && #[trigger] depends_on(g, o[a], o[j]) implies j < a by {
            lemma_edge_names(g, names, adj, order@[a], order@[j]);
            let k = choose|k: int| 0 <= k < adj[order@[a] as int].len() && adj[order@[a] as int][k] == order@[j];
            assert(order@[j] == adj[order@[a] as int][k]);
        }
    }
    Ok(names_at(&ng.names, &order))
}

} // verus!
