//! The dependency walk: starting from a root, every reachable dependency is
//! looked up in a registry, checked against the constraints placed on it,
//! and recorded, breadth first.

use vstd::prelude::*;

use crate::dep_graph::{
    best_effort_order, covers, cycle_message, cycle_outside, dep_cyclic, depends_on, find_cycle, is_dep_cycle, is_node,
    keys_distinct, respects_deps, topological_sort,
};
use crate::text::{concat, concat3, join, join_strings};
use crate::dep_solver::{
    declared_lines, deps_view, enforce_constraints, parse_dependencies, parse_version_flexible,
    spec_enforce_from, spec_parse_dependencies, spec_parse_version_flexible, violates, Constraint, ConstraintView, Dependency,
    DependencyView,
};
use crate::error::{BallError, ErrorView};
use crate::package::{Package, PackageView, SourceView};
use crate::registry::{answer_view, RegistryIndex};
use crate::versions::{opt_view, spec_req_matches};

verus! {

/// A package the walk accepted: the name it was asked for, what the registry
/// returned, the version text its constraints were checked against, and how
/// many constraints existed when it was accepted.
#[derive(Debug)]
pub struct ResolvedEntry {
    pub name: String,
    pub package: Package,
    pub enforced: String,
    pub stamp: usize,
}

/// A requirement accepts a version text (one that does not read as a version
/// is not checked).
pub open spec fn satisfies(req: Seq<char>, version: Seq<char>) -> bool {
    match spec_parse_version_flexible(version) {
        Some(v) => spec_req_matches(req, v),
        None => true,
    }
}

pub open spec fn names_distinct(rs: Seq<ResolvedEntry>) -> bool {
    forall|a: int, b: int| 0 <= a < rs.len() && 0 <= b < rs.len() && a != b ==> #[trigger] rs[a].name@ != #[trigger] rs[b].name@
}

/// Every required (non-optional) constraint on an accepted package accepts
/// it: those that existed when it was accepted accept the version it was
/// checked against then, later ones accept the registry's version.
pub open spec fn constraints_hold(rs: Seq<ResolvedEntry>, cs: Seq<Constraint>) -> bool {
    forall|e: int, i: int|
        0 <= e < rs.len() && 0 <= i < cs.len() && #[trigger] cs[i]@.target == #[trigger] rs[e].name@ && !cs[i]@.optional
            ==> (i < rs[e].stamp && satisfies(cs[i]@.req, rs[e].enforced@)) || satisfies(
            cs[i]@.req,
            rs[e].package@.version,
        )
}

pub open spec fn stamps_bounded(rs: Seq<ResolvedEntry>, n: nat) -> bool {
    forall|e: int| 0 <= e < rs.len() ==> #[trigger] rs[e].stamp <= n
}

/// An accepted package, as a value.
pub struct ResolvedView {
    pub name: Seq<char>,
    pub package: PackageView,
    pub enforced: Seq<char>,
    pub stamp: nat,
}

impl View for ResolvedEntry {
    type V = ResolvedView;

    open spec fn view(&self) -> ResolvedView {
        ResolvedView { name: self.name@, package: self.package@, enforced: self.enforced@, stamp: self.stamp as nat }
    }
}

/// The accepted packages, as values.
pub open spec fn rviews(rs: Seq<ResolvedEntry>) -> Seq<ResolvedView> {
    Seq::new(rs.len(), |i: int| rs[i]@)
}

/// The first accepted package named `name`, looking from the `i`-th on.
pub open spec fn find_from(rs: Seq<ResolvedView>, name: Seq<char>, i: int) -> Option<int>
    decreases rs.len() - i,
{
    if i < 0 || i >= rs.len() {
        None
    } else if rs[i].name == name {
        Some(i)
    } else {
        find_from(rs, name, i + 1)
    }
}

/// The version recorded for `name` in the first of the installed records
/// from the `i`-th on that names it.
pub open spec fn installed_from(inst: Seq<(Seq<char>, Seq<char>)>, name: Seq<char>, i: int) -> Option<Seq<char>>
    decreases inst.len() - i,
{
    if i < 0 || i >= inst.len() {
        None
    } else if inst[i].0 == name {
        Some(inst[i].1)
    } else {
        installed_from(inst, name, i + 1)
    }
}

/// `s` with `n` added at the end, unless it already holds it.
pub open spec fn set_add(s: Seq<Seq<char>>, n: Seq<char>) -> Seq<Seq<char>> {
    if s.contains(n) {
        s
    } else {
        s.push(n)
    }
}

/// The entry accepted under `name`, if any.
pub fn find_resolved(rs: &Vec<ResolvedEntry>, name: &String) -> (r: Option<usize>)
    ensures
        match r {
            Some(i) => i < rs@.len() && rs@[i as int].name@ == name@,
            None => forall|i: int| 0 <= i < rs@.len() ==> #[trigger] rs@[i].name@ != name@,
        },
        find_from(rviews(rs@), name@, 0) == match r {
            Some(i) => Some(i as int),
            None => None::<int>,
        },
{
    let ghost rv = rviews(rs@);
    let mut i: usize = 0;
    while i < rs.len()
        invariant
            i <= rs@.len(),
            rv == rviews(rs@),
            find_from(rv, name@, 0) == find_from(rv, name@, i as int),
            forall|j: int| 0 <= j < i ==> #[trigger] rs@[j].name@ != name@,
        decreases rs@.len() - i,
    {
        proof {
            assert(rv[i as int] == rs@[i as int]@);
        }
        if rs[i].name == *name {
            return Some(i);
        }
        i = i + 1;
    }
    None
}

/// The installed version recorded for `name` (the first record).
pub fn installed_version(installed: &Vec<(String, String)>, name: &String) -> (r: Option<String>)
    ensures
        match r {
            Some(v) => exists|i: int|
                0 <= i < installed@.len() && installed@[i].0@ == name@ && installed@[i].1@ == v@ && forall|j: int|
                    0 <= j < i ==> #[trigger] installed@[j].0@ != name@,
            None => forall|i: int| 0 <= i < installed@.len() ==> #[trigger] installed@[i].0@ != name@,
        },
        installed_from(installed.deep_view(), name@, 0) == match r {
            Some(v) => Some(v@),
            None => None::<Seq<char>>,
        },
{
    let ghost iv = installed.deep_view();
    let mut i: usize = 0;
    while i < installed.len()
        invariant
            i <= installed@.len(),
            iv == installed.deep_view(),
            installed_from(iv, name@, 0) == installed_from(iv, name@, i as int),
            forall|j: int| 0 <= j < i ==> #[trigger] installed@[j].0@ != name@,
        decreases installed@.len() - i,
    {
        proof {
            assert(iv[i as int] == (installed@[i as int].0@, installed@[i as int].1@));
        }
        if installed[i].0 == *name {
            return Some(installed[i].1.clone());
        }
        i = i + 1;
    }
    None
}

/// `name` is still waiting in the queue (from `head` on).
fn queued(queue: &Vec<String>, head: usize, name: &String) -> (r: bool)
    requires
        head <= queue@.len(),
    ensures
        r == exists|i: int| head <= i < queue@.len() && #[trigger] queue@[i]@ == name@,
{
    let mut i = head;
    while i < queue.len()
        invariant
            head <= i <= queue@.len(),
            forall|j: int| head <= j < i ==> #[trigger] queue@[j]@ != name@,
        decreases queue@.len() - i,
    {
        if queue[i] == *name {
            return true;
        }
        i = i + 1;
    }
    false
}

/// A missing dependency is tolerated when something depends on it and every
/// package that does is served by the system package manager.
pub open spec fn system_virtual(name: Seq<char>, rs: Seq<ResolvedView>, cs: Seq<ConstraintView>) -> bool {
    &&& exists|i: int| 0 <= i < cs.len() && #[trigger] cs[i].target == name
    &&& forall|i: int|
        0 <= i < cs.len() && #[trigger] cs[i].target == name ==> exists|e: int|
            0 <= e < rs.len() && #[trigger] rs[e].name == cs[i].from && rs[e].package.source is System
}

fn system_virtual_dep(name: &String, rs: &Vec<ResolvedEntry>, cs: &Vec<Constraint>) -> (r: bool)
    requires
        names_distinct(rs@),
    ensures
        r == system_virtual(name@, rviews(rs@), cviews(cs@)),
{
    let ghost rv = rviews(rs@);
    let ghost cv = cviews(cs@);
    let mut any = false;
    let mut i: usize = 0;
    while i < cs.len()
        invariant
            i <= cs@.len(),
            names_distinct(rs@),
            rv == rviews(rs@),
            cv == cviews(cs@),
            any == exists|j: int| 0 <= j < i && #[trigger] cv[j].target == name@,
            forall|j: int|
                0 <= j < i && #[trigger] cv[j].target == name@ ==> exists|e: int|
                    0 <= e < rv.len() && #[trigger] rv[e].name == cv[j].from && rv[e].package.source is System,
        decreases cs@.len() - i,
    {
        proof {
            assert(cv[i as int] == cs@[i as int]@);
        }
        if cs[i].target == *name {
            any = true;
            proof {
                assert(cv[i as int].target == name@);
            }
            match find_resolved(rs, &cs[i].from) {
                Some(e) => {
                    proof {
                        assert(rv[e as int] == rs@[e as int]@);
                    }
                    if !rs[e].package.source.is_system() {
                        proof {
                            assert forall|e2: int|
                                0 <= e2 < rv.len() && #[trigger] rv[e2].name == cv[i as int].from implies !(
                                rv[e2].package.source is System) by {
                                assert(rv[e2] == rs@[e2]@);
                                if e2 != e {
                                    assert(rs@[e2].name@ != rs@[e as int].name@);
                                }
                            }
                            assert(cv[i as int].target == name@);
                        }
                        return false;
                    }
                    proof {
                        assert(rv[e as int].name == cv[i as int].from);
                    }
                },
                None => {
                    proof {
                        assert forall|e2: int| 0 <= e2 < rv.len() implies #[trigger] rv[e2].name != cv[i as int].from by {
                            assert(rv[e2] == rs@[e2]@);
                        }
                        assert(cv[i as int].target == name@);
                    }
                    return false;
                },
            }
        }
        i = i + 1;
    }
    proof {
        assert(cv.len() == cs@.len());
    }
    any
}


/// The graph with the entry of `k` set to `d`: replaced where `k` has an
/// entry, added at the end otherwise.
pub open spec fn graph_put(
    g: Seq<(Seq<char>, Seq<Seq<char>>)>,
    k: Seq<char>,
    d: Seq<Seq<char>>,
) -> Seq<(Seq<char>, Seq<Seq<char>>)> {
    if exists|i: int| 0 <= i < g.len() && #[trigger] g[i].0 == k {
        g.update(choose|i: int| 0 <= i < g.len() && #[trigger] g[i].0 == k, (k, d))
    } else {
        g.push((k, d))
    }
}

/// Adds or replaces the entry of `key`.
fn graph_insert(graph: &mut Vec<(String, Vec<String>)>, key: String, deps: Vec<String>)
    requires
        keys_distinct(old(graph).deep_view()),
    ensures
        keys_distinct(final(graph).deep_view()),
        final(graph).deep_view() == graph_put(old(graph).deep_view(), key@, deps.deep_view()),
        exists|i: int|
            0 <= i < final(graph)@.len() && #[trigger] final(graph).deep_view()[i] == (key@, deps.deep_view()),
{
    let ghost g0 = graph.deep_view();
    let ghost entry = (key@, deps.deep_view());
    let mut i: usize = 0;
    while i < graph.len()
        invariant
            g0 == graph.deep_view(),
            g0 == old(graph).deep_view(),
            entry == (key@, deps.deep_view()),
            keys_distinct(g0),
            i <= graph@.len(),
            forall|j: int| 0 <= j < i ==> #[trigger] g0[j].0 != key@,
        decreases graph@.len() - i,
    {
        if graph[i].0 == key {
            let t = (key, deps);
            let ghost tv = t.deep_view();
            assert(tv.0 =~= entry.0 && tv.1 =~= entry.1);
            let ghost gv = graph@;
            graph.set(i, t);
            proof {
                assert(graph@ == gv.update(i as int, t));
                assert forall|j: int| 0 <= j < graph@.len() implies #[trigger] graph.deep_view()[j] == g0.update(
                    i as int,
                    entry,
                )[j] by {
                    if j != i {
                        assert(graph@[j] == gv[j]);
                    }
                }
                assert(graph.deep_view() =~= g0.update(i as int, entry));
                assert(g0[i as int].0 == key@);
                assert(graph.deep_view()[i as int] == entry);
                assert(exists|c: int| 0 <= c < g0.len() && #[trigger] g0[c].0 == key@);
                let c = choose|c: int| 0 <= c < g0.len() && #[trigger] g0[c].0 == key@;
                if c != i {
                    assert(g0[c].0 != g0[i as int].0);
                }
                assert(c == i);
                assert(graph_put(g0, entry.0, entry.1) == g0.update(i as int, entry));
                assert(graph.deep_view() == graph_put(g0, entry.0, entry.1));
            }
            return;
        }
        i = i + 1;
    }
    graph.push((key, deps));
    proof {
        assert(graph.deep_view() =~= g0.push(entry));
        assert(graph.deep_view()[g0.len() as int] == entry);
        assert(!(exists|c: int| 0 <= c < g0.len() && #[trigger] g0[c].0 == key@));
    }
}

/// Adds `name` unless it is already there.
fn insert_name(set: &mut Vec<String>, name: String)
    ensures
        final(set).deep_view() == set_add(old(set).deep_view(), name@),
        final(set).deep_view().contains(name@),
        forall|x: Seq<char>| old(set).deep_view().contains(x) ==> #[trigger] final(set).deep_view().contains(x),
{
    let ghost s0 = set.deep_view();
    let mut i: usize = 0;
    while i < set.len()
        invariant
            s0 == set.deep_view(),
            i <= set@.len(),
            forall|j: int| 0 <= j < i ==> s0[j] != name@,
        decreases set@.len() - i,
    {
        if set[i] == name {
            proof {
                assert(s0[i as int] == name@);
                assert(s0.contains(name@));
            }
            return;
        }
        i = i + 1;
    }
    set.push(name);
    proof {
        assert(!s0.contains(name@));
        assert(set.deep_view() =~= s0.push(name@));
        assert(set.deep_view()[s0.len() as int] == name@);
        assert forall|x: Seq<char>| s0.contains(x) implies #[trigger] set.deep_view().contains(x) by {
            let j = choose|j: int| 0 <= j < s0.len() && s0[j] == x;
            assert(set.deep_view()[j] == x);
        }
    }
}

/// Names of the required (not optional) dependencies, in order.
pub open spec fn required_names(ds: Seq<DependencyView>) -> Seq<Seq<char>>
    decreases ds.len(),
{
    if ds.len() == 0 {
        Seq::empty()
    } else if ds.last().optional {
        required_names(ds.drop_last())
    } else {
        required_names(ds.drop_last()).push(ds.last().name)
    }
}

/// The constraint each dependency of the package `from` places on its target.
pub open spec fn constraints_of(ds: Seq<DependencyView>, from: Seq<char>) -> Seq<ConstraintView> {
    Seq::new(
        ds.len(),
        |j: int| ConstraintView { target: ds[j].name, from, req: ds[j].constraint, optional: ds[j].optional },
    )
}

pub open spec fn cviews(cs: Seq<Constraint>) -> Seq<ConstraintView> {
    Seq::new(cs.len(), |i: int| cs[i]@)
}

/// Some accepted package has this name.
pub open spec fn has_name(rs: Seq<ResolvedEntry>, n: Seq<char>) -> bool {
    exists|e: int| 0 <= e < rs.len() && #[trigger] rs[e].name@ == n
}

/// A required name of a prefix is a required name of every longer prefix.
proof fn lemma_required_mono(ds: Seq<DependencyView>, a: int, b: int, n: Seq<char>)
    requires
        0 <= a <= b <= ds.len(),
        required_names(ds.subrange(0, a)).contains(n),
    ensures
        required_names(ds.subrange(0, b)).contains(n),
    decreases b - a,
{
    if a < b {
        let next = ds.subrange(0, a + 1);
        assert(next.drop_last() =~= ds.subrange(0, a));
        let pre = required_names(ds.subrange(0, a));
        let i = choose|i: int| 0 <= i < pre.len() && pre[i] == n;
        if !next.last().optional {
            assert(required_names(next) == pre.push(next.last().name));
            assert(required_names(next)[i] == n);
        }
        lemma_required_mono(ds, a + 1, b, n);
    }
}

/// The queue and the constraints once one dependency `d` of `from` is
/// recorded: its constraint is added; a required target already accepted is
/// checked against the constraints, one not accepted is queued unless it is
/// waiting from `head` on.
pub open spec fn enq_dep(
    q: Seq<Seq<char>>,
    cs: Seq<ConstraintView>,
    d: DependencyView,
    from: Seq<char>,
    head: int,
    rs: Seq<ResolvedView>,
) -> Result<(Seq<Seq<char>>, Seq<ConstraintView>), ErrorView> {
    let cs2 = cs.push(ConstraintView { target: d.name, from, req: d.constraint, optional: d.optional });
    if d.optional {
        Ok((q, cs2))
    } else {
        match find_from(rs, d.name, 0) {
            Some(idx) => match spec_parse_version_flexible(rs[idx].package.version) {
                Some(v) => match spec_enforce_from(cs2, d.name, v, 0) {
                    Ok(_) => Ok((q, cs2)),
                    Err(e) => Err(e),
                },
                None => Ok((q, cs2)),
            },
            None => if exists|i: int| head <= i < q.len() && q[i] == d.name {
                Ok((q, cs2))
            } else {
                Ok((q.push(d.name), cs2))
            },
        }
    }
}

/// The first `k` dependencies recorded in order; the first failure ends it.
pub open spec fn enq_fold(
    ds: Seq<DependencyView>,
    k: int,
    q: Seq<Seq<char>>,
    cs: Seq<ConstraintView>,
    from: Seq<char>,
    head: int,
    rs: Seq<ResolvedView>,
) -> Result<(Seq<Seq<char>>, Seq<ConstraintView>), ErrorView>
    decreases k,
{
    if k <= 0 {
        Ok((q, cs))
    } else {
        match enq_fold(ds, k - 1, q, cs, from, head, rs) {
            Ok(t) => enq_dep(t.0, t.1, ds[k - 1], from, head, rs),
            Err(e) => Err(e),
        }
    }
}

/// Once recording fails, it stays failed with that error.
proof fn lemma_enq_err(
    ds: Seq<DependencyView>,
    k: int,
    m: int,
    q: Seq<Seq<char>>,
    cs: Seq<ConstraintView>,
    from: Seq<char>,
    head: int,
    rs: Seq<ResolvedView>,
)
    requires
        0 <= k <= m,
        enq_fold(ds, k, q, cs, from, head, rs) is Err,
    ensures
        enq_fold(ds, m, q, cs, from, head, rs) == enq_fold(ds, k, q, cs, from, head, rs),
    decreases m - k,
{
    if k < m {
        lemma_enq_err(ds, k, m - 1, q, cs, from, head, rs);
    }
}

/// Queue, constraints, graph and system nodes once the package `p` is
/// recorded, or the error that stops it: the parse error of its dependency
/// list, or the conflict a dependency meets.
pub open spec fn spec_enqueue(
    p: PackageView,
    q: Seq<Seq<char>>,
    head: int,
    rs: Seq<ResolvedView>,
    cs: Seq<ConstraintView>,
    g: Seq<(Seq<char>, Seq<Seq<char>>)>,
    sys: Seq<Seq<char>>,
) -> Result<(Seq<Seq<char>>, Seq<ConstraintView>, Seq<(Seq<char>, Seq<Seq<char>>)>, Seq<Seq<char>>), ErrorView> {
    match spec_parse_dependencies(declared_lines(p)) {
        Err(e) => Err(e),
        Ok(ds) => match enq_fold(ds, ds.len() as int, q, cs, p.name, head, rs) {
            Err(e) => Err(e),
            Ok(t) => Ok(
                (
                    t.0,
                    t.1,
                    graph_put(g, p.name, required_names(ds)),
                    if p.source is System {
                        set_add(sys, p.name)
                    } else {
                        sys
                    },
                ),
            ),
        },
    }
}

/// Records a package's dependencies: its edges in the graph, its constraints
/// (each one checked at once against an already accepted target), and the
/// required names still to look up.
///
/// A dependency list that does not parse fails with its error, changing
/// nothing. Otherwise the package's graph entry lists its required
/// dependencies, a system package joins the system nodes, and every
/// dependency adds its constraint. A required name not yet accepted is
/// queued (unless already waiting from `head` on); one already accepted is
/// checked against the constraints, and a violation fails the call, which
/// cannot happen when no required name is accepted yet.
#[verifier::spinoff_prover]
#[verifier::rlimit(40)]
fn enqueue_deps(
    pkg: &Package,
    queue: &mut Vec<String>,
    head: usize,
    resolved: &Vec<ResolvedEntry>,
    constraints: &mut Vec<Constraint>,
    graph: &mut Vec<(String, Vec<String>)>,
    system_nodes: &mut Vec<String>,
) -> (r: Result<(), BallError>)
    requires
        head <= old(queue)@.len(),
        names_distinct(resolved@),
        constraints_hold(resolved@, old(constraints)@),
        stamps_bounded(resolved@, old(constraints)@.len() as nat),
        keys_distinct(old(graph).deep_view()),
    ensures
        head <= final(queue)@.len(),
        r is Ok ==> constraints_hold(resolved@, final(constraints)@),
        r is Ok ==> stamps_bounded(resolved@, final(constraints)@.len() as nat),
        r is Ok ==> keys_distinct(final(graph).deep_view()),
        old(queue)@.len() <= final(queue)@.len(),
        forall|i: int| 0 <= i < old(queue)@.len() ==> #[trigger] final(queue)@[i] == old(queue)@[i],
        match spec_enqueue(
            pkg@,
            old(queue).deep_view(),
            head as int,
            rviews(resolved@),
            cviews(old(constraints)@),
            old(graph).deep_view(),
            old(system_nodes).deep_view(),
        ) {
            Ok(t) => r is Ok && final(queue).deep_view() == t.0 && cviews(final(constraints)@) == t.1
                && final(graph).deep_view() == t.2 && final(system_nodes).deep_view() == t.3,
            Err(e) => r matches Err(x) && x@ == e,
        },
        match spec_parse_dependencies(declared_lines(pkg@)) {
            Err(e) => {
                &&& r matches Err(x) && x@ == e
                &&& final(queue)@ == old(queue)@
                &&& final(constraints)@ == old(constraints)@
                &&& final(graph)@ == old(graph)@
                &&& final(system_nodes)@ == old(system_nodes)@
            },
            Ok(ds) => {
                &&& final(graph).deep_view() == graph_put(old(graph).deep_view(), pkg@.name, required_names(ds))
                &&& (pkg@.source is System ==> final(system_nodes).deep_view().contains(pkg@.name))
                &&& forall|x: Seq<char>| #[trigger] old(system_nodes).deep_view().contains(x)
                    ==> final(system_nodes).deep_view().contains(x)
                &&& (r is Ok ==> cviews(final(constraints)@) == cviews(old(constraints)@) + constraints_of(
                    ds,
                    pkg@.name,
                ))
                &&& forall|i: int|
                    old(queue)@.len() <= i < final(queue)@.len() ==> required_names(ds).contains(
                        #[trigger] final(queue)@[i]@,
                    ) && !has_name(resolved@, final(queue)@[i]@)
                &&& (r is Ok ==> forall|n: Seq<char>|
                    #[trigger] required_names(ds).contains(n) && !has_name(resolved@, n) ==> exists|i: int|
                        head <= i < final(queue)@.len() && #[trigger] final(queue)@[i]@ == n)
                &&& (r matches Err(e) ==> e@ is VersionConflict && exists|n: Seq<char>|
                    #[trigger] required_names(ds).contains(n) && has_name(resolved@, n))
            },
        },
{
    let mut deps = match parse_dependencies(pkg) {
        Ok(d) => d,
        Err(e) => {
            return Err(e);
        },
    };
    let ghost dsv = deps_view(deps@);
    let ghost from = pkg@.name;
    let ghost q_start = queue@;
    let ghost c_start = constraints@;
    let ghost qd_start = queue.deep_view();
    let ghost rv = rviews(resolved@);
    let mut dep_names: Vec<String> = Vec::new();
    let mut k: usize = 0;
    while k < deps.len()
        invariant
            k <= deps@.len(),
            dsv == deps_view(deps@),
            spec_parse_dependencies(declared_lines(pkg@)) == Ok::<Seq<DependencyView>, ErrorView>(dsv),
            graph.deep_view() == old(graph).deep_view(),
            system_nodes.deep_view() == old(system_nodes).deep_view(),
            queue@ == old(queue)@,
            constraints@ == old(constraints)@,
            dep_names.deep_view() == required_names(dsv.subrange(0, k as int)),
        decreases deps@.len() - k,
    {
        let ghost before = dep_names.deep_view();
        proof {
            assert(dsv.subrange(0, k + 1).drop_last() =~= dsv.subrange(0, k as int));
            assert(dsv.subrange(0, k + 1).last() == deps@[k as int]@);
        }
        if !deps[k].optional {
            dep_names.push(deps[k].name.clone());
            proof {
                assert(dep_names.deep_view() =~= before.push(deps@[k as int]@.name));
            }
        }
        k = k + 1;
    }
    proof {
        assert(dsv.subrange(0, dsv.len() as int) =~= dsv);
    }
    graph_insert(graph, pkg.name.clone(), dep_names);
    let ghost g_after = graph.deep_view();
    if pkg.source.is_system() {
        insert_name(system_nodes, pkg.name.clone());
    }
    let ghost s_after = system_nodes.deep_view();
    assert(s_after == if pkg@.source is System {
        set_add(old(system_nodes).deep_view(), pkg@.name)
    } else {
        old(system_nodes).deep_view()
    });
    let ghost mut done: int = 0;
    proof {
        assert(dsv.subrange(0, 0) =~= Seq::<DependencyView>::empty());
        assert(deps_view(deps@) =~= dsv.subrange(0, dsv.len() as int));
        assert(cviews(constraints@) =~= cviews(c_start) + constraints_of(dsv.subrange(0, 0), from));
    }
    while deps.len() > 0
        invariant
            head <= queue@.len(),
            names_distinct(resolved@),
            constraints_hold(resolved@, constraints@),
            stamps_bounded(resolved@, constraints@.len() as nat),
            0 <= done <= dsv.len(),
            deps_view(deps@) == dsv.subrange(done, dsv.len() as int),
            from == pkg@.name,
            spec_parse_dependencies(declared_lines(pkg@)) == Ok::<Seq<DependencyView>, ErrorView>(dsv),
            q_start == old(queue)@,
            c_start == old(constraints)@,
            graph.deep_view() == g_after,
            g_after == graph_put(old(graph).deep_view(), pkg@.name, required_names(dsv)),
            system_nodes.deep_view() == s_after,
            pkg@.source is System ==> s_after.contains(pkg@.name),
            forall|x: Seq<char>| #[trigger] old(system_nodes).deep_view().contains(x) ==> s_after.contains(x),
            q_start.len() <= queue@.len(),
            forall|i: int| 0 <= i < q_start.len() ==> #[trigger] queue@[i] == q_start[i],
            cviews(constraints@) == cviews(c_start) + constraints_of(dsv.subrange(0, done), from),
            qd_start == old(queue).deep_view(),
            rv == rviews(resolved@),
            s_after == if pkg@.source is System {
                set_add(old(system_nodes).deep_view(), pkg@.name)
            } else {
                old(system_nodes).deep_view()
            },
            enq_fold(dsv, done, qd_start, cviews(c_start), from, head as int, rv) == Ok::<
                (Seq<Seq<char>>, Seq<ConstraintView>),
                ErrorView,
            >((queue.deep_view(), cviews(constraints@))),
            forall|i: int|
                q_start.len() <= i < queue@.len() ==> required_names(dsv.subrange(0, done)).contains(
                    #[trigger] queue@[i]@,
                ) && !has_name(resolved@, queue@[i]@),
            forall|n: Seq<char>|
                #[trigger] required_names(dsv.subrange(0, done)).contains(n) && !has_name(resolved@, n) ==> exists|
                    i: int,
                | head <= i < queue@.len() && #[trigger] queue@[i]@ == n,
        decreases deps@.len(),
    {
        let ghost d0 = deps@;
        let dep = deps.remove(0);
        let ghost dv = dep@;
        let ghost req_before = required_names(dsv.subrange(0, done));
        let ghost q_before = queue@;
        proof {
            assert(deps_view(d0).len() == d0.len());
            assert(deps@ == d0.remove(0));
            assert(dv == d0[0]@);
            assert(deps_view(d0)[0] == d0[0]@);
            assert(dsv.subrange(done, dsv.len() as int)[0] == dsv[done]);
            assert(dv == dsv[done]);
            assert forall|j: int| 0 <= j < deps@.len() implies #[trigger] deps_view(deps@)[j] == dsv.subrange(
                done + 1,
                dsv.len() as int,
            )[j] by {
                assert(deps@[j] == d0[j + 1]);
                assert(deps_view(d0)[j + 1] == d0[j + 1]@);
                assert(dsv.subrange(done, dsv.len() as int)[j + 1] == dsv[done + 1 + j]);
            }
            assert(deps_view(deps@) =~= dsv.subrange(done + 1, dsv.len() as int));
            let nxt = dsv.subrange(0, done + 1);
            assert(nxt.drop_last() =~= dsv.subrange(0, done));
            assert(nxt.last() == dv);
            assert forall|n: Seq<char>| #[trigger] req_before.contains(n) implies required_names(nxt).contains(n) by {
                lemma_required_mono(dsv, done, done + 1, n);
            }
            if !dv.optional {
                assert(required_names(nxt) == req_before.push(dv.name));
                assert(required_names(nxt)[req_before.len() as int] == dv.name);
            } else {
                assert(required_names(nxt) == req_before);
            }
        }
        let ghost qd_before = queue.deep_view();
        let Dependency { name, constraint, optional } = dep;
        let ghost c0 = constraints@;
        constraints.push(Constraint { target: name.clone(), from: pkg.name.clone(), req: constraint, optional });
        let ghost n0 = c0.len() as int;
        proof {
            assert(constraints@ == c0.push(constraints@[n0]));
            assert(cviews(constraints@) =~= cviews(c0).push(constraints@[n0]@));
            assert(constraints_of(dsv.subrange(0, done + 1), from) =~= constraints_of(dsv.subrange(0, done), from).push(
                constraints@[n0]@,
            ));
            assert forall|e: int, i: int|
                0 <= e < resolved@.len() && 0 <= i < n0 && #[trigger] constraints@[i]@.target == #[trigger] resolved@[e].name@
                    && !constraints@[i]@.optional implies (i < resolved@[e].stamp && satisfies(
                constraints@[i]@.req,
                resolved@[e].enforced@,
            )) || satisfies(constraints@[i]@.req, resolved@[e].package@.version) by {
                assert(constraints@[i] == c0[i]);
            }
        }
        let ghost step = enq_dep(qd_before, cviews(c0), dv, from, head as int, rv);
        proof {
            assert(cviews(constraints@) == cviews(c0).push(
                ConstraintView { target: dv.name, from, req: dv.constraint, optional: dv.optional },
            ));
            assert(enq_fold(dsv, done + 1, qd_start, cviews(c_start), from, head as int, rv) == step);
            assert forall|i: int| 0 <= i < q_before.len() implies #[trigger] qd_before[i] == q_before[i]@ by {}
        }
        if !optional {
            match find_resolved(resolved, &name) {
                Some(idx) => {
                    proof {
                        assert(has_name(resolved@, name@));
                        assert(required_names(dsv.subrange(0, done + 1)).contains(name@));
                        lemma_required_mono(dsv, done + 1, dsv.len() as int, name@);
                        assert(dsv.subrange(0, dsv.len() as int) =~= dsv);
                    }
                    proof {
                        assert(rv[idx as int] == resolved@[idx as int]@);
                    }
                    match parse_version_flexible(resolved[idx].package.version.as_str()) {
                        Some(v) => {
                            match enforce_constraints(name.as_str(), &v, constraints) {
                                Ok(()) => {
                                    proof {
                                        assert(!violates(constraints@[n0]@, name@, v@));
                                    }
                                },
                                Err(e) => {
                                    proof {
                                        assert forall|i: int|
                                            q_start.len() <= i < queue@.len() implies required_names(dsv).contains(
                                                #[trigger] queue@[i]@,
                                            ) by {
                                            lemma_required_mono(dsv, done, dsv.len() as int, queue@[i]@);
                                        }
                                        assert(required_names(dsv).contains(name@) && has_name(resolved@, name@));
                                        assert(e@ is VersionConflict);
                                        assert(step == Err::<(Seq<Seq<char>>, Seq<ConstraintView>), ErrorView>(e@));
                                        lemma_enq_err(
                                            dsv,
                                            done + 1,
                                            dsv.len() as int,
                                            qd_start,
                                            cviews(c_start),
                                            from,
                                            head as int,
                                            rv,
                                        );
                                    }
                                    return Err(e);
                                },
                            }
                        },
                        None => {},
                    }
                    proof {
                        assert forall|e: int, i: int|
                            0 <= e < resolved@.len() && 0 <= i < constraints@.len() && #[trigger] constraints@[i]@.target
                                == #[trigger] resolved@[e].name@ && !constraints@[i]@.optional implies (i
                            < resolved@[e].stamp && satisfies(constraints@[i]@.req, resolved@[e].enforced@))
                            || satisfies(constraints@[i]@.req, resolved@[e].package@.version) by {
                            if i == n0 {
                                if e != idx {
                                    assert(resolved@[e].name@ != resolved@[idx as int].name@);
                                }
                            }
                        }
                    }
                    proof {
                        assert(stamps_bounded(resolved@, constraints@.len() as nat));
                    }
                },
                None => {
                    proof {
                        if has_name(resolved@, name@) {
                            let e = choose|e: int| 0 <= e < resolved@.len() && #[trigger] resolved@[e].name@ == name@;
                            assert(resolved@[e].name@ != name@);
                        }
                    }
                    let already = queued(queue, head, &name);
                    proof {
                        if already {
                            let i = choose|i: int| head <= i < q_before.len() && #[trigger] q_before[i]@ == name@;
                            assert(qd_before[i] == name@);
                        }
                    }
                    if !already {
                        queue.push(name);
                        proof {
                            assert(queue.deep_view() =~= qd_before.push(dv.name));
                            assert(queue@ == q_before.push(queue@[q_before.len() as int]));
                            assert(queue@[q_before.len() as int]@ == dv.name);
                        }
                    }
                },
            }
        }
        proof {
            let nxt = dsv.subrange(0, done + 1);
            assert forall|i: int| 0 <= i < q_start.len() implies #[trigger] queue@[i] == q_start[i] by {
                assert(queue@[i] == q_before[i]);
            }
            assert forall|i: int|
                q_start.len() <= i < queue@.len() implies required_names(nxt).contains(
                    #[trigger] queue@[i]@,
                ) && !has_name(resolved@, queue@[i]@) by {
                if i < q_before.len() {
                    assert(queue@[i] == q_before[i]);
                    lemma_required_mono(dsv, done, done + 1, queue@[i]@);
                }
            }
            assert forall|n: Seq<char>|
                #[trigger] required_names(nxt).contains(n) && !has_name(resolved@, n) implies exists|i: int|
                    head <= i < queue@.len() && #[trigger] queue@[i]@ == n by {
                if req_before.contains(n) {
                    let i = choose|i: int| head <= i < q_before.len() && #[trigger] q_before[i]@ == n;
                    assert(queue@[i] == q_before[i]);
                } else {
                    assert(n == dv.name);
                    if queue@.len() > q_before.len() {
                        assert(queue@[q_before.len() as int]@ == n);
                    } else {
                        let i = choose|i: int| head <= i < q_before.len() && #[trigger] q_before[i]@ == n;
                        assert(queue@[i] == q_before[i]);
                    }
                }
            }
            assert(enq_fold(dsv, done + 1, qd_start, cviews(c_start), from, head as int, rv) == Ok::<
                (Seq<Seq<char>>, Seq<ConstraintView>),
                ErrorView,
            >((queue.deep_view(), cviews(constraints@))));
            done = done + 1;
        }
    }
    proof {
        assert(dsv.subrange(0, done) =~= dsv);
        assert(done == dsv.len());
        assert(enq_fold(dsv, dsv.len() as int, qd_start, cviews(c_start), from, head as int, rv) == Ok::<
            (Seq<Seq<char>>, Seq<ConstraintView>),
            ErrorView,
        >((queue.deep_view(), cviews(constraints@))));
    }
    Ok(())
}


/// A package whose dependency list parses and names no required dependency:
/// walking from it asks the registry nothing.
pub open spec fn no_required_deps(p: PackageView) -> bool {
    spec_parse_dependencies(declared_lines(p)) matches Ok(ds) && required_names(ds).len() == 0
}

/// What the walk ends with.
#[derive(Debug)]
pub struct Walk {
    pub resolved: Vec<ResolvedEntry>,
    pub constraints: Vec<Constraint>,
    pub graph: Vec<(String, Vec<String>)>,
    pub system_nodes: Vec<String>,
    pub unresolved: Vec<String>,
}

/// A walk, as a value.
pub struct WalkView {
    pub resolved: Seq<ResolvedView>,
    pub constraints: Seq<ConstraintView>,
    pub graph: Seq<(Seq<char>, Seq<Seq<char>>)>,
    pub system_nodes: Seq<Seq<char>>,
    pub unresolved: Seq<Seq<char>>,
}

impl View for Walk {
    type V = WalkView;

    open spec fn view(&self) -> WalkView {
        WalkView {
            resolved: rviews(self.resolved@),
            constraints: cviews(self.constraints@),
            graph: self.graph.deep_view(),
            system_nodes: self.system_nodes.deep_view(),
            unresolved: self.unresolved.deep_view(),
        }
    }
}

/// What every finished walk guarantees: each name accepted once, every
/// required constraint on an accepted package satisfied, and a graph with
/// one entry per package.
pub open spec fn walk_laws(w: &Walk) -> bool {
    &&& names_distinct(w.resolved@)
    &&& constraints_hold(w.resolved@, w.constraints@)
    &&& keys_distinct(w.graph.deep_view())
}

/// `walk_laws`, read on the values.
pub open spec fn walk_laws_v(w: WalkView) -> bool {
    &&& forall|a: int, b: int|
        0 <= a < w.resolved.len() && 0 <= b < w.resolved.len() && a != b ==> #[trigger] w.resolved[a].name
            != #[trigger] w.resolved[b].name
    &&& forall|e: int, i: int|
        0 <= e < w.resolved.len() && 0 <= i < w.constraints.len() && #[trigger] w.constraints[i].target
            == #[trigger] w.resolved[e].name && !w.constraints[i].optional ==> (i < w.resolved[e].stamp
            && satisfies(w.constraints[i].req, w.resolved[e].enforced)) || satisfies(
            w.constraints[i].req,
            w.resolved[e].package.version,
        )
    &&& keys_distinct(w.graph)
}

/// The laws of a walk carry over to its value.
proof fn lemma_walk_laws_v(w: &Walk)
    requires
        walk_laws(w),
    ensures
        walk_laws_v(w@),
{
    let v = w@;
    assert forall|a: int, b: int|
        0 <= a < v.resolved.len() && 0 <= b < v.resolved.len() && a != b implies #[trigger] v.resolved[a].name
        != #[trigger] v.resolved[b].name by {
        assert(v.resolved[a] == w.resolved@[a]@ && v.resolved[b] == w.resolved@[b]@);
    }
    assert forall|e: int, i: int|
        0 <= e < v.resolved.len() && 0 <= i < v.constraints.len() && #[trigger] v.constraints[i].target
            == #[trigger] v.resolved[e].name && !v.constraints[i].optional implies (i < v.resolved[e].stamp
        && satisfies(v.constraints[i].req, v.resolved[e].enforced)) || satisfies(
        v.constraints[i].req,
        v.resolved[e].package.version,
    ) by {
        assert(v.resolved[e] == w.resolved@[e]@ && v.constraints[i] == w.constraints@[i]@);
    }
}

/// Every accepted package that is not installed was checked against, and
/// recorded under, its registry version.
pub open spec fn enforced_law(rs: Seq<ResolvedView>, inst: Seq<(Seq<char>, Seq<char>)>) -> bool {
    forall|e: int|
        0 <= e < rs.len() && installed_from(inst, #[trigger] rs[e].name, 0) is None ==> rs[e].enforced
            == rs[e].package.version
}

/// Every accepted version meets every declared constraint: each required
/// constraint on an accepted package that is not installed accepts the
/// version the registry gave for it (an installed one is held to its
/// installed version for the constraints known when it was accepted).
pub proof fn law_accepted_versions_meet_constraints(w: WalkView, inst: Seq<(Seq<char>, Seq<char>)>)
    requires
        walk_laws_v(w),
        enforced_law(w.resolved, inst),
    ensures
        forall|e: int, i: int|
            0 <= e < w.resolved.len() && 0 <= i < w.constraints.len() && #[trigger] w.constraints[i].target
                == #[trigger] w.resolved[e].name && !w.constraints[i].optional && installed_from(
                inst,
                w.resolved[e].name,
                0,
            ) is None ==> satisfies(w.constraints[i].req, w.resolved[e].package.version),
{
}

/// A walk under way: what it has so far, the names it was asked to look at,
/// and how many of them it has looked at.
#[derive(Debug)]
pub struct WalkState {
    pub walk: Walk,
    pub queue: Vec<String>,
    pub head: usize,
}

/// A walk under way, as a value.
pub struct WalkStateView {
    pub walk: WalkView,
    pub queue: Seq<Seq<char>>,
    pub head: int,
}

impl View for WalkState {
    type V = WalkStateView;

    open spec fn view(&self) -> WalkStateView {
        WalkStateView { walk: self.walk@, queue: self.queue.deep_view(), head: self.head as int }
    }
}

/// What a walk under way keeps: the laws of a walk, stamps within the
/// constraints, and a position within the queue.
pub open spec fn state_laws(st: &WalkState) -> bool {
    &&& walk_laws(&st.walk)
    &&& stamps_bounded(st.walk.resolved@, st.walk.constraints@.len() as nat)
    &&& st.head <= st.queue@.len()
}


/// The check a name met again after it was accepted goes through: its
/// registry version against every constraint registered so far.
pub open spec fn recheck(w: WalkView, name: Seq<char>) -> Result<(), ErrorView> {
    match find_from(w.resolved, name, 0) {
        Some(idx) => match spec_parse_version_flexible(w.resolved[idx].package.version) {
            Some(v) => spec_enforce_from(w.constraints, name, v, 0),
            None => Ok(()),
        },
        None => Ok(()),
    }
}

/// The version a newly found package is checked and recorded under: the
/// installed one where there is one, else the registry's.
pub open spec fn enforced_version(
    cs: Seq<ConstraintView>,
    name: Seq<char>,
    installed: Option<Seq<char>>,
    offered: Seq<char>,
) -> Result<Seq<char>, ErrorView> {
    match installed {
        Some(iv) => match spec_parse_version_flexible(iv) {
            Some(v) => match spec_enforce_from(cs, name, v, 0) {
                Ok(_) => Ok(iv),
                Err(e) => Err(e),
            },
            None => Err(ErrorView::VersionConflict("invalid installed version '"@ + iv + "' for '"@ + name + "'"@)),
        },
        None => match spec_parse_version_flexible(offered) {
            Some(v) => match spec_enforce_from(cs, name, v, 0) {
                Ok(_) => Ok(offered),
                Err(e) => Err(e),
            },
            None => Err(
                ErrorView::PackageManagerError(
                    "unparseable version '"@ + offered + "' for '"@ + name
                        + "' (system package format not supported by semver)"@,
                ),
            ),
        },
    }
}

/// One look-up: the next queued name (not yet accepted) met with the
/// registry's `answer`. A name the registry does not know is reported
/// unresolved, unless it is a system virtual package; another error stops
/// the walk. A package found is checked, accepted and its dependencies
/// recorded.
pub open spec fn fetch_step(
    st: WalkStateView,
    answer: Result<PackageView, ErrorView>,
    inst: Seq<(Seq<char>, Seq<char>)>,
) -> Result<WalkStateView, ErrorView> {
    let name = st.queue[st.head];
    let w = st.walk;
    let head = st.head + 1;
    match answer {
        Err(e) => if e is PackageNotFound {
            Ok(
                WalkStateView {
                    walk: WalkView {
                        resolved: w.resolved,
                        constraints: w.constraints,
                        graph: w.graph,
                        system_nodes: w.system_nodes,
                        unresolved: if system_virtual(name, w.resolved, w.constraints) {
                            w.unresolved
                        } else {
                            w.unresolved.push(name)
                        },
                    },
                    queue: st.queue,
                    head,
                },
            )
        } else {
            Err(e)
        },
        Ok(p) => match enforced_version(w.constraints, name, installed_from(inst, name, 0), p.version) {
            Err(e) => Err(e),
            Ok(enforced) => {
                let rs = w.resolved.push(
                    ResolvedView { name, package: p, enforced, stamp: w.constraints.len() },
                );
                match spec_enqueue(p, st.queue, head, rs, w.constraints, w.graph, w.system_nodes) {
                    Err(e) => Err(e),
                    Ok(t) => Ok(
                        WalkStateView {
                            walk: WalkView {
                                resolved: rs,
                                constraints: t.1,
                                graph: t.2,
                                system_nodes: t.3,
                                unresolved: w.unresolved,
                            },
                            queue: t.0,
                            head,
                        },
                    ),
                }
            },
        },
    }
}

/// A name the registry does not know is not accepted, and it is reported
/// unresolved unless every package that depends on it (and at least one
/// does) is served by the system package manager.
pub proof fn law_missing_name_reported(st: WalkStateView, e: ErrorView, inst: Seq<(Seq<char>, Seq<char>)>)
    requires
        0 <= st.head < st.queue.len(),
        e is PackageNotFound,
    ensures
        fetch_step(st, Err(e), inst) matches Ok(next) && next.walk.resolved == st.walk.resolved && next.head
            == st.head + 1 && next.walk.unresolved == if system_virtual(
            st.queue[st.head],
            st.walk.resolved,
            st.walk.constraints,
        ) {
            st.walk.unresolved
        } else {
            st.walk.unresolved.push(st.queue[st.head])
        },
{
}

/// The walk from the state `st` on, when the registry gives `answers`, in
/// order, to the look-ups it makes: the finished walk, or the error that
/// stops it; nothing where the walk would not use up exactly these answers.
/// A queued name already accepted is checked again and asks nothing; any
/// other is looked up.
#[verifier::opaque]
pub open spec fn spec_run(
    st: WalkStateView,
    answers: Seq<Result<PackageView, ErrorView>>,
    inst: Seq<(Seq<char>, Seq<char>)>,
) -> Option<Result<WalkView, ErrorView>>
    decreases answers.len(), st.queue.len() - st.head,
{
    if st.head < 0 || st.head >= st.queue.len() {
        if answers.len() == 0 {
            Some(Ok(st.walk))
        } else {
            None
        }
    } else if find_from(st.walk.resolved, st.queue[st.head], 0) is Some {
        match recheck(st.walk, st.queue[st.head]) {
            Ok(_) => spec_run(WalkStateView { walk: st.walk, queue: st.queue, head: st.head + 1 }, answers, inst),
            Err(e) => if answers.len() == 0 {
                Some(Err(e))
            } else {
                None
            },
        }
    } else if answers.len() == 0 {
        None
    } else {
        match fetch_step(st, answers[0], inst) {
            Ok(next) => spec_run(next, answers.drop_first(), inst),
            Err(e) => if answers.len() == 1 {
                Some(Err(e))
            } else {
                None
            },
        }
    }
}

/// The names the walk from `st` asks the registry for, in order, when the
/// registry gives `answers`: the queued names not accepted yet, one per
/// answer, until the walk ends.
#[verifier::opaque]
pub open spec fn spec_asked_run(
    st: WalkStateView,
    answers: Seq<Result<PackageView, ErrorView>>,
    inst: Seq<(Seq<char>, Seq<char>)>,
) -> Seq<Seq<char>>
    decreases answers.len(), st.queue.len() - st.head,
{
    if st.head < 0 || st.head >= st.queue.len() {
        Seq::empty()
    } else if find_from(st.walk.resolved, st.queue[st.head], 0) is Some {
        match recheck(st.walk, st.queue[st.head]) {
            Ok(_) => spec_asked_run(
                WalkStateView { walk: st.walk, queue: st.queue, head: st.head + 1 },
                answers,
                inst,
            ),
            Err(_) => Seq::empty(),
        }
    } else if answers.len() == 0 {
        Seq::empty()
    } else {
        match fetch_step(st, answers[0], inst) {
            Ok(next) => seq![st.queue[st.head]] + spec_asked_run(next, answers.drop_first(), inst),
            Err(_) => seq![st.queue[st.head]],
        }
    }
}

/// Each answer is the registry's answer for the name asked alongside it.
pub open spec fn asked_of<R: RegistryIndex>(
    registry: &R,
    names: Seq<Seq<char>>,
    answers: Seq<Result<PackageView, ErrorView>>,
) -> bool {
    &&& names.len() == answers.len()
    &&& forall|k: int| 0 <= k < answers.len() ==> #[trigger] registry.answers(names[k], answers[k])
}

/// A queued name already accepted and checked again without error asks
/// nothing: the walk goes on from the next name.
proof fn lemma_run_recheck(st: WalkStateView, rest: Seq<Result<PackageView, ErrorView>>, inst: Seq<(Seq<char>, Seq<char>)>)
    requires
        0 <= st.head < st.queue.len(),
        find_from(st.walk.resolved, st.queue[st.head], 0) is Some,
        recheck(st.walk, st.queue[st.head]) is Ok,
    ensures
        spec_run(st, rest, inst) == spec_run(
            WalkStateView { walk: st.walk, queue: st.queue, head: st.head + 1 },
            rest,
            inst,
        ),
        spec_asked_run(st, rest, inst) == spec_asked_run(
            WalkStateView { walk: st.walk, queue: st.queue, head: st.head + 1 },
            rest,
            inst,
        ),
{
    reveal(spec_run);
    reveal(spec_asked_run);
}

/// A queued name already accepted that fails its check again ends the walk
/// with that error, having asked nothing more.
proof fn lemma_run_recheck_err(st: WalkStateView, inst: Seq<(Seq<char>, Seq<char>)>, e: ErrorView)
    requires
        0 <= st.head < st.queue.len(),
        find_from(st.walk.resolved, st.queue[st.head], 0) is Some,
        recheck(st.walk, st.queue[st.head]) == Err::<(), ErrorView>(e),
    ensures
        spec_run(st, Seq::empty(), inst) == Some(Err::<WalkView, ErrorView>(e)),
        spec_asked_run(st, Seq::empty(), inst) == Seq::<Seq<char>>::empty(),
{
    reveal(spec_run);
    reveal(spec_asked_run);
}

/// A look-up uses up one answer and goes on from the state it leads to.
proof fn lemma_run_fetch(
    st: WalkStateView,
    a: Result<PackageView, ErrorView>,
    next: WalkStateView,
    rest: Seq<Result<PackageView, ErrorView>>,
    inst: Seq<(Seq<char>, Seq<char>)>,
)
    requires
        0 <= st.head < st.queue.len(),
        find_from(st.walk.resolved, st.queue[st.head], 0) is None,
        fetch_step(st, a, inst) == Ok::<WalkStateView, ErrorView>(next),
    ensures
        spec_run(st, seq![a] + rest, inst) == spec_run(next, rest, inst),
        spec_asked_run(st, seq![a] + rest, inst) == seq![st.queue[st.head]] + spec_asked_run(next, rest, inst),
{
    reveal(spec_run);
    reveal(spec_asked_run);
    assert((seq![a] + rest)[0] == a);
    assert((seq![a] + rest).drop_first() =~= rest);
}

/// A look-up whose answer stops the walk ends it with that error.
proof fn lemma_run_fetch_err(
    st: WalkStateView,
    a: Result<PackageView, ErrorView>,
    inst: Seq<(Seq<char>, Seq<char>)>,
    e: ErrorView,
)
    requires
        0 <= st.head < st.queue.len(),
        find_from(st.walk.resolved, st.queue[st.head], 0) is None,
        fetch_step(st, a, inst) == Err::<WalkStateView, ErrorView>(e),
    ensures
        spec_run(st, seq![a], inst) == Some(Err::<WalkView, ErrorView>(e)),
        spec_asked_run(st, seq![a], inst) == seq![st.queue[st.head]],
{
    reveal(spec_run);
    reveal(spec_asked_run);
    assert(seq![a][0] == a);
}

/// With the queue used up, the walk is done.
proof fn lemma_run_done(st: WalkStateView, inst: Seq<(Seq<char>, Seq<char>)>)
    requires
        st.head >= st.queue.len(),
    ensures
        spec_run(st, Seq::empty(), inst) == Some(Ok::<WalkView, ErrorView>(st.walk)),
        spec_asked_run(st, Seq::empty(), inst) == Seq::<Seq<char>>::empty(),
{
    reveal(spec_run);
    reveal(spec_asked_run);
}

/// The `k`-th look-up asked for `name` and the registry answered it with
/// `package`.
pub open spec fn answered_at(
    asked: Seq<Seq<char>>,
    answers: Seq<Result<PackageView, ErrorView>>,
    k: int,
    name: Seq<char>,
    package: PackageView,
) -> bool {
    &&& 0 <= k < answers.len()
    &&& k < asked.len()
    &&& asked[k] =~= name
    &&& answers[k] == Ok::<PackageView, ErrorView>(package)
}

/// From `st` on, the walk keeps what it has accepted, and every package it
/// accepts is the registry's answer `Ok` for the name it asked, accepted
/// under that name.
pub open spec fn run_accepts_answers(
    st: WalkStateView,
    answers: Seq<Result<PackageView, ErrorView>>,
    inst: Seq<(Seq<char>, Seq<char>)>,
) -> bool {
    spec_run(st, answers, inst) matches Some(Ok(wv)) ==> {
        &&& st.walk.resolved.len() <= wv.resolved.len()
        &&& forall|e: int| 0 <= e < st.walk.resolved.len() ==> #[trigger] wv.resolved[e] == st.walk.resolved[e]
        &&& forall|e: int|
            #![trigger wv.resolved[e]]
            st.walk.resolved.len() <= e < wv.resolved.len() ==> exists|k: int|
                #[trigger] answered_at(spec_asked_run(st, answers, inst), answers, k, wv.resolved[e].name, wv.resolved[e].package)
    }
}

proof fn lemma_accepted_recheck(
    st: WalkStateView,
    answers: Seq<Result<PackageView, ErrorView>>,
    inst: Seq<(Seq<char>, Seq<char>)>,
)
    requires
        0 <= st.head < st.queue.len(),
        find_from(st.walk.resolved, st.queue[st.head], 0) is Some,
        recheck(st.walk, st.queue[st.head]) is Ok,
        run_accepts_answers(WalkStateView { walk: st.walk, queue: st.queue, head: st.head + 1 }, answers, inst),
    ensures
        run_accepts_answers(st, answers, inst),
{
    lemma_run_recheck(st, answers, inst);
}

#[verifier::spinoff_prover]
#[verifier::rlimit(40)]
proof fn lemma_accepted_fetch(
    st: WalkStateView,
    answers: Seq<Result<PackageView, ErrorView>>,
    inst: Seq<(Seq<char>, Seq<char>)>,
    next: WalkStateView,
)
    requires
        0 <= st.head < st.queue.len(),
        find_from(st.walk.resolved, st.queue[st.head], 0) is None,
        answers.len() > 0,
        fetch_step(st, answers[0], inst) == Ok::<WalkStateView, ErrorView>(next),
        run_accepts_answers(next, answers.drop_first(), inst),
    ensures
        run_accepts_answers(st, answers, inst),
{
    let rest = answers.drop_first();
    assert(answers =~= seq![answers[0]] + rest);
    lemma_run_fetch(st, answers[0], next, rest, inst);
    if spec_run(st, answers, inst) is Some && spec_run(st, answers, inst)->Some_0 is Ok {
        let wv = spec_run(st, answers, inst)->Some_0->Ok_0;
        let asked = spec_asked_run(st, answers, inst);
        let tail = spec_asked_run(next, rest, inst);
        assert(asked == seq![st.queue[st.head]] + tail);
        assert(spec_run(next, rest, inst) == Some(Ok::<WalkView, ErrorView>(wv)));
        let n0 = st.walk.resolved.len();
        assert(next.walk.resolved.len() == n0 || next.walk.resolved.len() == n0 + 1);
        assert forall|e: int| 0 <= e < n0 implies #[trigger] wv.resolved[e] == st.walk.resolved[e] by {
            assert(next.walk.resolved[e] == st.walk.resolved[e]);
        }
        assert forall|e: int|
            #![trigger wv.resolved[e]]
            n0 <= e < wv.resolved.len() implies exists|k: int|
                #[trigger] answered_at(asked, answers, k, wv.resolved[e].name, wv.resolved[e].package) by {
            if e < next.walk.resolved.len() {
                assert(e == n0);
                assert(next.walk.resolved[e].name == st.queue[st.head]);
                assert(next.walk.resolved[e].package == answers[0]->Ok_0);
                assert(wv.resolved[e] == next.walk.resolved[e]);
                assert(answered_at(asked, answers, 0, wv.resolved[e].name, wv.resolved[e].package));
            } else {
                let k2 = choose|k2: int| #[trigger] answered_at(tail, rest, k2, wv.resolved[e].name, wv.resolved[e].package);
                assert(asked[k2 + 1] == tail[k2]);
                assert(answers[k2 + 1] == rest[k2]);
                assert(answered_at(asked, answers, k2 + 1, wv.resolved[e].name, wv.resolved[e].package));
            }
        }
    }
}

proof fn lemma_run_accepted(
    st: WalkStateView,
    answers: Seq<Result<PackageView, ErrorView>>,
    inst: Seq<(Seq<char>, Seq<char>)>,
)
    ensures
        run_accepts_answers(st, answers, inst),
    decreases answers.len(), st.queue.len() - st.head,
{
    if st.head < 0 || st.head >= st.queue.len() {
        reveal(spec_run);
    } else if find_from(st.walk.resolved, st.queue[st.head], 0) is Some {
        if recheck(st.walk, st.queue[st.head]) is Ok {
            lemma_run_accepted(WalkStateView { walk: st.walk, queue: st.queue, head: st.head + 1 }, answers, inst);
            lemma_accepted_recheck(st, answers, inst);
        } else {
            reveal(spec_run);
        }
    } else if answers.len() > 0 {
        match fetch_step(st, answers[0], inst) {
            Ok(next) => {
                lemma_run_accepted(next, answers.drop_first(), inst);
                lemma_accepted_fetch(st, answers, inst, next);
            },
            Err(_) => {
                reveal(spec_run);
            },
        }
    } else {
        reveal(spec_run);
    }
}

/// Every package a finished walk accepted, but a pinned root, is the
/// registry's answer for the name it is accepted under: the name was asked
/// and the answer was that package. So a name for which the registry
/// answers only errors is never accepted.
pub proof fn law_accepted_were_answered(
    root_name: Seq<char>,
    pinned: Option<PackageView>,
    answers: Seq<Result<PackageView, ErrorView>>,
    inst: Seq<(Seq<char>, Seq<char>)>,
)
    ensures
        spec_walk(root_name, pinned, answers, inst) matches Some(Ok(wv)) ==> forall|e: int|
            #![trigger wv.resolved[e]]
            0 <= e < wv.resolved.len() && !(pinned is Some && e == 0) ==> exists|k: int|
                #[trigger] answered_at(spec_asked(root_name, pinned, answers, inst), answers, k, wv.resolved[e].name, wv.resolved[e].package),
{
    match initial_state(root_name, pinned) {
        Ok(s0) => {
            lemma_run_accepted(s0, answers, inst);
            assert(spec_asked(root_name, pinned, answers, inst) == spec_asked_run(s0, answers, inst));
            assert(s0.walk.resolved.len() == if pinned is Some { 1int } else { 0int });
        },
        Err(_) => {},
    }
}

/// Some accepted package is recorded under `d`.
pub open spec fn is_accepted(rs: Seq<ResolvedView>, d: Seq<char>) -> bool {
    exists|e: int| 0 <= e < rs.len() && #[trigger] rs[e].name == d
}

/// Every package that requires `d` (not as an option) is an accepted package
/// served by the system package manager.
pub open spec fn requirers_all_system(d: Seq<char>, rs: Seq<ResolvedView>, cs: Seq<ConstraintView>) -> bool {
    forall|i: int|
        0 <= i < cs.len() && #[trigger] cs[i].target == d && !cs[i].optional ==> exists|e: int|
            0 <= e < rs.len() && #[trigger] rs[e].name == cs[i].from && rs[e].package.source is System
}

/// A required name `d` is accounted for in `st`: accepted, still waiting in
/// the queue, reported unresolved, or required by system packages alone.
spec fn accounted(st: WalkStateView, d: Seq<char>) -> bool {
    ||| is_accepted(st.walk.resolved, d)
    ||| exists|j: int| st.head <= j < st.queue.len() && #[trigger] st.queue[j] == d
    ||| st.walk.unresolved.contains(d)
    ||| requirers_all_system(d, st.walk.resolved, st.walk.constraints)
}

/// Every required target of `st` is accounted for.
spec fn all_accounted(st: WalkStateView) -> bool {
    forall|i: int|
        #![trigger st.walk.constraints[i]]
        0 <= i < st.walk.constraints.len() && !st.walk.constraints[i].optional ==> accounted(
            st,
            st.walk.constraints[i].target,
        )
}

/// Every required target of a finished walk is accepted, reported
/// unresolved, or required by system packages alone.
pub open spec fn required_accounted(w: WalkView) -> bool {
    forall|i: int|
        #![trigger w.constraints[i]]
        0 <= i < w.constraints.len() && !w.constraints[i].optional ==> {
            ||| is_accepted(w.resolved, w.constraints[i].target)
            ||| w.unresolved.contains(w.constraints[i].target)
            ||| requirers_all_system(w.constraints[i].target, w.resolved, w.constraints)
        }
}

proof fn lemma_find_from_found(rs: Seq<ResolvedView>, name: Seq<char>, i: int)
    requires
        find_from(rs, name, i) is Some,
    ensures
        is_accepted(rs, name),
    decreases rs.len() - i,
{
    if 0 <= i < rs.len() && rs[i].name != name {
        lemma_find_from_found(rs, name, i + 1);
    } else {
        assert(rs[i].name == name);
    }
}

/// Recording dependencies keeps the queue and the constraints as they were,
/// adds one constraint per dependency, and leaves each new required target
/// accepted or waiting in the queue from `head` on.
proof fn lemma_enq_accounts(
    ds: Seq<DependencyView>,
    k: int,
    q: Seq<Seq<char>>,
    cs: Seq<ConstraintView>,
    from: Seq<char>,
    head: int,
    rs: Seq<ResolvedView>,
)
    requires
        0 <= k <= ds.len(),
        0 <= head <= q.len(),
        enq_fold(ds, k, q, cs, from, head, rs) is Ok,
    ensures
        ({
            let t = enq_fold(ds, k, q, cs, from, head, rs)->Ok_0;
            &&& q.len() <= t.0.len()
            &&& forall|j: int| 0 <= j < q.len() ==> #[trigger] t.0[j] == q[j]
            &&& t.1.len() == cs.len() + k
            &&& forall|i: int| 0 <= i < cs.len() ==> #[trigger] t.1[i] == cs[i]
            &&& forall|i: int|
                #![trigger t.1[i]]
                cs.len() <= i < t.1.len() && !t.1[i].optional ==> is_accepted(rs, t.1[i].target) || exists|j: int|
                    head <= j < t.0.len() && #[trigger] t.0[j] == t.1[i].target
        }),
    decreases k,
{
    if k > 0 {
        lemma_enq_accounts(ds, k - 1, q, cs, from, head, rs);
        let t0 = enq_fold(ds, k - 1, q, cs, from, head, rs)->Ok_0;
        let t = enq_fold(ds, k, q, cs, from, head, rs)->Ok_0;
        let d = ds[k - 1];
        assert(t.1 == t0.1.push(ConstraintView { target: d.name, from, req: d.constraint, optional: d.optional }));
        if !d.optional {
            match find_from(rs, d.name, 0) {
                Some(idx) => {
                    lemma_find_from_found(rs, d.name, 0);
                    assert(t.0 == t0.0);
                },
                None => {
                    if exists|i: int| head <= i < t0.0.len() && t0.0[i] == d.name {
                        assert(t.0 == t0.0);
                    } else {
                        assert(t.0 == t0.0.push(d.name));
                        assert(t.0[t0.0.len() as int] == d.name);
                    }
                },
            }
        } else {
            assert(t.0 == t0.0);
        }
        assert forall|i: int|
            #![trigger t.1[i]]
            cs.len() <= i < t.1.len() && !t.1[i].optional implies is_accepted(rs, t.1[i].target) || exists|j: int|
                head <= j < t.0.len() && #[trigger] t.0[j] == t.1[i].target by {
            if i < t0.1.len() {
                assert(t.1[i] == t0.1[i]);
                if !is_accepted(rs, t.1[i].target) {
                    let j = choose|j: int| head <= j < t0.0.len() && #[trigger] t0.0[j] == t0.1[i].target;
                    assert(t.0[j] == t0.0[j]);
                }
            }
        }
    }
}

/// A rechecked name is already accepted, so moving past it keeps every
/// required target accounted for.
proof fn lemma_recheck_accounts(st: WalkStateView)
    requires
        0 <= st.head < st.queue.len(),
        find_from(st.walk.resolved, st.queue[st.head], 0) is Some,
        all_accounted(st),
    ensures
        all_accounted(WalkStateView { walk: st.walk, queue: st.queue, head: st.head + 1 }),
{
    let st1 = WalkStateView { walk: st.walk, queue: st.queue, head: st.head + 1 };
    lemma_find_from_found(st.walk.resolved, st.queue[st.head], 0);
    assert forall|i: int|
        #![trigger st1.walk.constraints[i]]
        0 <= i < st1.walk.constraints.len() && !st1.walk.constraints[i].optional implies accounted(
            st1,
            st1.walk.constraints[i].target,
        ) by {
        let d = st.walk.constraints[i].target;
        assert(accounted(st, d));
        if !is_accepted(st.walk.resolved, d) && !st.walk.unresolved.contains(d) && !requirers_all_system(
            d,
            st.walk.resolved,
            st.walk.constraints,
        ) {
            let j = choose|j: int| st.head <= j < st.queue.len() && #[trigger] st.queue[j] == d;
            assert(j != st.head);
            assert(st1.queue[j] == d);
        }
    }
}

/// One look-up keeps every required target accounted for.
#[verifier::spinoff_prover]
#[verifier::rlimit(60)]
proof fn lemma_fetch_accounts(
    st: WalkStateView,
    a: Result<PackageView, ErrorView>,
    inst: Seq<(Seq<char>, Seq<char>)>,
    next: WalkStateView,
)
    requires
        0 <= st.head < st.queue.len(),
        all_accounted(st),
        fetch_step(st, a, inst) == Ok::<WalkStateView, ErrorView>(next),
    ensures
        all_accounted(next),
        next.head == st.head + 1,
{
    let name = st.queue[st.head];
    let w = st.walk;
    match a {
        Err(e) => {
            assert forall|i: int|
                #![trigger next.walk.constraints[i]]
                0 <= i < next.walk.constraints.len() && !next.walk.constraints[i].optional implies accounted(
                    next,
                    next.walk.constraints[i].target,
                ) by {
                let d = w.constraints[i].target;
                assert(accounted(st, d));
                if w.unresolved.contains(d) {
                    let u = choose|u: int| 0 <= u < w.unresolved.len() && w.unresolved[u] == d;
                    assert(next.walk.unresolved[u] == d);
                }
                if !is_accepted(w.resolved, d) && !w.unresolved.contains(d) && !requirers_all_system(
                    d,
                    w.resolved,
                    w.constraints,
                ) {
                    let j = choose|j: int| st.head <= j < st.queue.len() && #[trigger] st.queue[j] == d;
                    if j == st.head {
                        if system_virtual(name, w.resolved, w.constraints) {
                            assert(requirers_all_system(d, w.resolved, w.constraints));
                        } else {
                            assert(next.walk.unresolved[w.unresolved.len() as int] == d);
                        }
                    } else {
                        assert(next.queue[j] == d);
                    }
                }
            }
        },
        Ok(p) => {
            let enforced = enforced_version(w.constraints, name, installed_from(inst, name, 0), p.version)->Ok_0;
            let rs = w.resolved.push(ResolvedView { name, package: p, enforced, stamp: w.constraints.len() });
            let ds = spec_parse_dependencies(declared_lines(p))->Ok_0;
            lemma_enq_accounts(ds, ds.len() as int, st.queue, w.constraints, p.name, st.head + 1, rs);
            let t = enq_fold(ds, ds.len() as int, st.queue, w.constraints, p.name, st.head + 1, rs)->Ok_0;
            assert(next.walk.resolved == rs);
            assert(next.walk.constraints == t.1);
            assert(next.queue == t.0);
            assert(next.walk.unresolved == w.unresolved);
            assert(is_accepted(rs, name)) by {
                assert(rs[w.resolved.len() as int].name == name);
            }
            assert forall|i: int|
                #![trigger next.walk.constraints[i]]
                0 <= i < next.walk.constraints.len() && !next.walk.constraints[i].optional implies accounted(
                    next,
                    next.walk.constraints[i].target,
                ) by {
                let d = t.1[i].target;
                if i < w.constraints.len() {
                    assert(t.1[i] == w.constraints[i]);
                    assert(accounted(st, d));
                    if is_accepted(w.resolved, d) {
                        let e = choose|e: int| 0 <= e < w.resolved.len() && #[trigger] w.resolved[e].name == d;
                        assert(rs[e] == w.resolved[e]);
                    } else if exists|j: int| st.head <= j < st.queue.len() && #[trigger] st.queue[j] == d {
                        let j = choose|j: int| st.head <= j < st.queue.len() && #[trigger] st.queue[j] == d;
                        if j != st.head {
                            assert(t.0[j] == st.queue[j]);
                        }
                    } else if !w.unresolved.contains(d) {
                        assert(requirers_all_system(d, w.resolved, w.constraints));
                        if !(exists|i2: int|
                            #![trigger t.1[i2]]
                            w.constraints.len() <= i2 < t.1.len() && t.1[i2].target == d && !t.1[i2].optional) {
                            assert forall|i2: int|
                                0 <= i2 < t.1.len() && #[trigger] t.1[i2].target == d && !t.1[i2].optional implies exists|e: int|
                                    0 <= e < rs.len() && #[trigger] rs[e].name == t.1[i2].from && rs[e].package.source is System by {
                                assert(i2 < w.constraints.len());
                                assert(t.1[i2] == w.constraints[i2]);
                                let e = choose|e: int|
                                    0 <= e < w.resolved.len() && #[trigger] w.resolved[e].name == w.constraints[i2].from
                                        && w.resolved[e].package.source is System;
                                assert(rs[e] == w.resolved[e]);
                            }
                        } else {
                            let i2 = choose|i2: int|
                                #![trigger t.1[i2]]
                                w.constraints.len() <= i2 < t.1.len() && t.1[i2].target == d && !t.1[i2].optional;
                            assert(t.1[i2].target == d);
                        }
                    }
                }
            }
        },
    }
}

/// From a state with every required target accounted for, a finished walk
/// accounts for every required target without the queue.
proof fn lemma_run_accounts(
    st: WalkStateView,
    answers: Seq<Result<PackageView, ErrorView>>,
    inst: Seq<(Seq<char>, Seq<char>)>,
)
    requires
        0 <= st.head,
        all_accounted(st),
    ensures
        spec_run(st, answers, inst) matches Some(Ok(wv)) ==> required_accounted(wv),
    decreases answers.len(), st.queue.len() - st.head,
{
    if st.head >= st.queue.len() {
        reveal(spec_run);
        assert forall|i: int|
            #![trigger st.walk.constraints[i]]
            0 <= i < st.walk.constraints.len() && !st.walk.constraints[i].optional implies {
                ||| is_accepted(st.walk.resolved, st.walk.constraints[i].target)
                ||| st.walk.unresolved.contains(st.walk.constraints[i].target)
                ||| requirers_all_system(st.walk.constraints[i].target, st.walk.resolved, st.walk.constraints)
            } by {
            assert(accounted(st, st.walk.constraints[i].target));
        }
    } else if find_from(st.walk.resolved, st.queue[st.head], 0) is Some {
        if recheck(st.walk, st.queue[st.head]) is Ok {
            lemma_recheck_accounts(st);
            lemma_run_recheck(st, answers, inst);
            lemma_run_accounts(WalkStateView { walk: st.walk, queue: st.queue, head: st.head + 1 }, answers, inst);
        } else {
            reveal(spec_run);
        }
    } else if answers.len() > 0 {
        match fetch_step(st, answers[0], inst) {
            Ok(next) => {
                let rest = answers.drop_first();
                assert(answers =~= seq![answers[0]] + rest);
                lemma_fetch_accounts(st, answers[0], inst, next);
                lemma_run_fetch(st, answers[0], next, rest, inst);
                lemma_run_accounts(next, rest, inst);
            },
            Err(_) => {
                reveal(spec_run);
            },
        }
    } else {
        reveal(spec_run);
    }
}

/// Every dependency that an accepted package requires (not as an option)
/// ends a finished walk accepted, reported unresolved, or required by
/// accepted system packages alone. So a required name that is never
/// accepted, and that some package not served by the system requires, is
/// reported unresolved.
pub proof fn law_required_names_accounted(
    root_name: Seq<char>,
    pinned: Option<PackageView>,
    answers: Seq<Result<PackageView, ErrorView>>,
    inst: Seq<(Seq<char>, Seq<char>)>,
)
    ensures
        spec_walk(root_name, pinned, answers, inst) matches Some(Ok(wv)) ==> required_accounted(wv),
{
    match initial_state(root_name, pinned) {
        Ok(s0) => {
            match pinned {
                None => {},
                Some(p) => {
                    let rs = seq![ResolvedView { name: p.name, package: p, enforced: p.version, stamp: 0 }];
                    let ds = spec_parse_dependencies(declared_lines(p))->Ok_0;
                    lemma_enq_accounts(ds, ds.len() as int, Seq::empty(), Seq::empty(), p.name, 0, rs);
                    let t = enq_fold(ds, ds.len() as int, Seq::empty(), Seq::empty(), p.name, 0, rs)->Ok_0;
                    assert(s0.walk.constraints == t.1);
                    assert(s0.queue == t.0);
                    assert(s0.walk.resolved == rs);
                    assert forall|i: int|
                        #![trigger s0.walk.constraints[i]]
                        0 <= i < s0.walk.constraints.len() && !s0.walk.constraints[i].optional implies accounted(
                            s0,
                            s0.walk.constraints[i].target,
                        ) by {
                        assert(t.1[i] == s0.walk.constraints[i]);
                        if !is_accepted(rs, t.1[i].target) {
                            let j = choose|j: int| 0 <= j < t.0.len() && #[trigger] t.0[j] == t.1[i].target;
                            assert(s0.queue[j] == t.1[i].target);
                        }
                    }
                },
            }
            lemma_run_accounts(s0, answers, inst);
        },
        Err(_) => {},
    }
}

/// A required name that a finished walk never accepts, required by a
/// package that is not an accepted system package, is reported unresolved.
pub proof fn law_missing_required_reported(
    root_name: Seq<char>,
    pinned: Option<PackageView>,
    answers: Seq<Result<PackageView, ErrorView>>,
    inst: Seq<(Seq<char>, Seq<char>)>,
    i: int,
)
    ensures
        spec_walk(root_name, pinned, answers, inst) matches Some(Ok(wv)) ==> (0 <= i < wv.constraints.len()
            && !wv.constraints[i].optional && !is_accepted(wv.resolved, wv.constraints[i].target) && (forall|e: int|
            0 <= e < wv.resolved.len() && #[trigger] wv.resolved[e].name == wv.constraints[i].from
                ==> !(wv.resolved[e].package.source is System)) ==> wv.unresolved.contains(wv.constraints[i].target)),
{
    law_required_names_accounted(root_name, pinned, answers, inst);
}

/// A walk that has accepted nothing yet.
pub open spec fn empty_walk() -> WalkView {
    WalkView {
        resolved: Seq::empty(),
        constraints: Seq::empty(),
        graph: Seq::empty(),
        system_nodes: Seq::empty(),
        unresolved: Seq::empty(),
    }
}

/// Where a walk starts: from the name `root_name` waiting alone, or from a
/// pinned root already accepted (checked against nothing, recorded under
/// its version) with its dependencies recorded.
pub open spec fn initial_state(root_name: Seq<char>, pinned: Option<PackageView>) -> Result<WalkStateView, ErrorView> {
    match pinned {
        None => Ok(WalkStateView { walk: empty_walk(), queue: seq![root_name], head: 0 }),
        Some(p) => {
            let rs = seq![ResolvedView { name: p.name, package: p, enforced: p.version, stamp: 0 }];
            match spec_enqueue(p, Seq::empty(), 0, rs, Seq::empty(), Seq::empty(), Seq::empty()) {
                Err(e) => Err(e),
                Ok(t) => Ok(
                    WalkStateView {
                        walk: WalkView {
                            resolved: rs,
                            constraints: t.1,
                            graph: t.2,
                            system_nodes: t.3,
                            unresolved: Seq::empty(),
                        },
                        queue: t.0,
                        head: 0,
                    },
                ),
            }
        },
    }
}

/// The whole walk, as a function of the registry's answers.
pub open spec fn spec_walk(
    root_name: Seq<char>,
    pinned: Option<PackageView>,
    answers: Seq<Result<PackageView, ErrorView>>,
    inst: Seq<(Seq<char>, Seq<char>)>,
) -> Option<Result<WalkView, ErrorView>> {
    match initial_state(root_name, pinned) {
        Ok(s0) => spec_run(s0, answers, inst),
        Err(e) => if answers.len() == 0 {
            Some(Err(e))
        } else {
            None
        },
    }
}

/// The pinned root, as a value.
/// The names the whole walk asks the registry for, in order.
pub open spec fn spec_asked(
    root_name: Seq<char>,
    pinned: Option<PackageView>,
    answers: Seq<Result<PackageView, ErrorView>>,
    inst: Seq<(Seq<char>, Seq<char>)>,
) -> Seq<Seq<char>> {
    match initial_state(root_name, pinned) {
        Ok(s0) => spec_asked_run(s0, answers, inst),
        Err(_) => Seq::empty(),
    }
}

pub open spec fn pinned_view(p: Option<&Package>) -> Option<PackageView> {
    match p {
        Some(x) => Some(x@),
        None => None,
    }
}

/// A walk's outcome, as a value.
pub open spec fn walk_result_view(r: Result<Walk, BallError>) -> Result<WalkView, ErrorView> {
    match r {
        Ok(w) => Ok(w@),
        Err(e) => Err(e@),
    }
}

/// Takes the registry's answer `fetched` for the next queued name, one
/// not accepted yet, and goes on from there (see `fetch_step`).
pub fn walk_step(st: WalkState, fetched: Result<Package, BallError>, installed: &Vec<(String, String)>) -> (r:
    Result<WalkState, BallError>)
    requires
        state_laws(&st),
        enforced_law(st@.walk.resolved, installed.deep_view()),
        st.head < st.queue@.len(),
        find_from(st@.walk.resolved, st@.queue[st.head as int], 0) is None,
    ensures
        match fetch_step(st@, answer_view(fetched), installed.deep_view()) {
            Ok(next) => r matches Ok(t) && t@ == next && state_laws(&t) && enforced_law(
                next.walk.resolved,
                installed.deep_view(),
            ),
            Err(e) => r matches Err(x) && x@ == e,
        },
{
    let ghost s0 = st@;
    let WalkState { walk, mut queue, head } = st;
    let Walk { mut resolved, mut constraints, mut graph, mut system_nodes, mut unresolved } = walk;
    let name = queue[head].clone();
    let qlen = queue.len();
    let head = head + 1;
    proof {
        assert(s0.queue[head - 1] == name@);
        assert forall|i: int| 0 <= i < resolved@.len() implies #[trigger] resolved@[i].name@ != name@ by {
            assert(rviews(resolved@)[i] == resolved@[i]@);
            if resolved@[i].name@ == name@ {
                lemma_find_from_some(rviews(resolved@), name@, 0, i);
            }
        }
    }
    let inst = installed_version(installed, &name);
    let pkg = match fetched {
        Ok(p) => p,
        Err(BallError::PackageNotFound(m)) => {
            if !system_virtual_dep(&name, &resolved, &constraints) {
                unresolved.push(name);
                proof {
                    assert(unresolved.deep_view() =~= s0.walk.unresolved.push(name@));
                }
            }
            let next = WalkState { walk: Walk { resolved, constraints, graph, system_nodes, unresolved }, queue, head };
            return Ok(next);
        },
        Err(e) => {
            return Err(e);
        },
    };
    let enforced = match inst {
        Some(iv) => {
            match parse_version_flexible(iv.as_str()) {
                Some(v) => {
                    match enforce_constraints(name.as_str(), &v, &constraints) {
                        Ok(()) => {},
                        Err(e) => {
                            return Err(e);
                        },
                    }
                },
                None => {
                    let mut msg = String::from_str("invalid installed version '");
                    msg.append(iv.as_str());
                    msg.append("' for '");
                    msg.append(name.as_str());
                    msg.append("'");
                    return Err(BallError::VersionConflict(msg));
                },
            }
            iv
        },
        None => {
            match parse_version_flexible(pkg.version.as_str()) {
                Some(v) => {
                    match enforce_constraints(name.as_str(), &v, &constraints) {
                        Ok(()) => {},
                        Err(e) => {
                            return Err(e);
                        },
                    }
                },
                None => {
                    let mut msg = String::from_str("unparseable version '");
                    msg.append(pkg.version.as_str());
                    msg.append("' for '");
                    msg.append(name.as_str());
                    msg.append("' (system package format not supported by semver)");
                    return Err(BallError::PackageManagerError(msg));
                },
            }
            pkg.version.clone()
        },
    };
    let stamp = constraints.len();
    let ghost r0 = resolved@;
    resolved.push(ResolvedEntry { name, package: pkg, enforced, stamp });
    proof {
        let last = r0.len() as int;
        assert(resolved@ == r0.push(resolved@[last]));
        assert(rviews(resolved@) =~= rviews(r0).push(resolved@[last]@));
        assert forall|a: int, b: int|
            0 <= a < resolved@.len() && 0 <= b < resolved@.len() && a != b implies #[trigger] resolved@[a].name@
            != #[trigger] resolved@[b].name@ by {
            if a < last && b < last {
                assert(r0[a].name@ != r0[b].name@);
            }
        }
        assert forall|e: int, i: int|
            0 <= e < resolved@.len() && 0 <= i < constraints@.len() && #[trigger] constraints@[i]@.target
                == #[trigger] resolved@[e].name@ && !constraints@[i]@.optional implies (i < resolved@[e].stamp
            && satisfies(constraints@[i]@.req, resolved@[e].enforced@)) || satisfies(
            constraints@[i]@.req,
            resolved@[e].package@.version,
        ) by {
            if e < last {
                assert(resolved@[e] == r0[e]);
            } else {
                assert(!violates(
                    constraints@[i]@,
                    resolved@[e].name@,
                    spec_parse_version_flexible(resolved@[e].enforced@)->Some_0,
                ));
            }
        }
    }
    let last = resolved.len() - 1;
    match enqueue_deps(
        &resolved[last].package,
        &mut queue,
        head,
        &resolved,
        &mut constraints,
        &mut graph,
        &mut system_nodes,
    ) {
        Ok(()) => {},
        Err(e) => {
            return Err(e);
        },
    }
    Ok(WalkState { walk: Walk { resolved, constraints, graph, system_nodes, unresolved }, queue, head })
}

/// A name found at some index is found, at that index or before.
proof fn lemma_find_from_some(rs: Seq<ResolvedView>, name: Seq<char>, i: int, j: int)
    requires
        0 <= i <= j < rs.len(),
        rs[j].name == name,
    ensures
        find_from(rs, name, i) is Some,
    decreases j - i,
{
    if rs[i].name != name {
        lemma_find_from_some(rs, name, i + 1, j);
    }
}

/// Walks the dependencies of `root_name`, or of `pinned_root` (taken as it
/// is, under its own name, without a lookup) when one is given.
///
/// A name already accepted is checked again against the constraints
/// registered since. Otherwise the registry is asked, and `walk_step` goes
/// on with its answer: whatever the registry answers, the outcome is
/// `spec_walk` of the answers it gave.
///
/// Around a pinned root the registry is not asked before its dependency
/// list is read: a list that does not parse fails the walk, and one with no
/// required dependency ends it with the root alone.
#[verifier::spinoff_prover]
#[verifier::rlimit(40)]
pub fn walk<R: RegistryIndex>(
    root_name: &str,
    pinned_root: Option<&Package>,
    registry: &R,
    installed: &Vec<(String, String)>,
) -> (r: Result<Walk, BallError>)
    ensures
        r matches Ok(w) ==> walk_laws(&w),
        r matches Ok(w) ==> enforced_law(w@.resolved, installed.deep_view()),
        exists|answers: Seq<Result<PackageView, ErrorView>>|
            #[trigger] spec_walk(root_name@, pinned_view(pinned_root), answers, installed.deep_view()) == Some(
                walk_result_view(r),
            ) && asked_of(
                registry,
                spec_asked(root_name@, pinned_view(pinned_root), answers, installed.deep_view()),
                answers,
            ),
        match pinned_root {
            Some(root) => {
                &&& spec_parse_dependencies(declared_lines(root@)) is Err ==> (r matches Err(e)
                    && spec_parse_dependencies(declared_lines(root@)) == Err::<Seq<DependencyView>, ErrorView>(e@))
                &&& no_required_deps(root@) ==> (r matches Ok(w) && w.resolved@.len() == 1 && w.resolved@[0].name@
                    == root@.name && w.resolved@[0].package@ == root@ && w.unresolved@.len() == 0
                    && w.graph.deep_view() == seq![(root@.name, Seq::<Seq<char>>::empty())])
            },
            None => true,
        },
{
    let ghost inst = installed.deep_view();
    let ghost init = initial_state(root_name@, pinned_view(pinned_root));
    let mut resolved: Vec<ResolvedEntry> = Vec::new();
    let mut constraints: Vec<Constraint> = Vec::new();
    let mut graph: Vec<(String, Vec<String>)> = Vec::new();
    let mut system_nodes: Vec<String> = Vec::new();
    let unresolved: Vec<String> = Vec::new();
    let mut queue: Vec<String> = Vec::new();
    proof {
        assert(graph.deep_view() =~= Seq::<(Seq<char>, Seq<Seq<char>>)>::empty());
        assert(system_nodes.deep_view() =~= Seq::<Seq<char>>::empty());
        assert(queue.deep_view() =~= Seq::<Seq<char>>::empty());
        assert(unresolved.deep_view() =~= Seq::<Seq<char>>::empty());
        assert(cviews(constraints@) =~= Seq::<ConstraintView>::empty());
        assert(rviews(resolved@) =~= Seq::<ResolvedView>::empty());
    }
    match pinned_root {
        Some(root) => {
            resolved.push(
                ResolvedEntry {
                    name: root.name.clone(),
                    package: root.copy(),
                    enforced: root.version.clone(),
                    stamp: 0,
                },
            );
            proof {
                assert(resolved@[0].package@ == root@);
                assert(graph.deep_view().len() == 0);
                assert(rviews(resolved@) =~= seq![
                    ResolvedView { name: root@.name, package: root@, enforced: root@.version, stamp: 0 },
                ]);
            }
            match enqueue_deps(
                &resolved[0].package,
                &mut queue,
                0,
                &resolved,
                &mut constraints,
                &mut graph,
                &mut system_nodes,
            ) {
                Ok(()) => {},
                Err(e) => {
                    proof {
                        assert(spec_walk(root_name@, pinned_view(pinned_root), Seq::empty(), inst) == Some(
                            Err::<WalkView, ErrorView>(e@),
                        ));
                        assert(spec_asked(root_name@, pinned_view(pinned_root), Seq::empty(), inst)
                            =~= Seq::<Seq<char>>::empty());
                    }
                    return Err(e);
                },
            }
            proof {
                if no_required_deps(root@) {
                    let ds = spec_parse_dependencies(declared_lines(root@))->Ok_0;
                    assert(required_names(ds) =~= Seq::<Seq<char>>::empty());
                    if queue@.len() > 0 {
                        assert(required_names(ds).contains(queue@[0]@));
                    }
                    assert(!(exists|i: int| 0 <= i < 0 && #[trigger] Seq::<(Seq<char>, Seq<Seq<char>>)>::empty()[i].0
                        == root@.name));
                    assert(graph.deep_view() =~= seq![(root@.name, Seq::<Seq<char>>::empty())]);
                }
            }
        },
        None => {
            queue.push(String::from_str(root_name));
            proof {
                assert(queue.deep_view() =~= seq![root_name@]);
            }
        },
    }
    let mut st = WalkState { walk: Walk { resolved, constraints, graph, system_nodes, unresolved }, queue, head: 0 };
    let ghost s0 = st@;
    proof {
        assert(init == Ok::<WalkStateView, ErrorView>(s0));
    }
    let ghost settled = st.queue@.len() == 0;
    let ghost r_init = st.walk.resolved@;
    let ghost g_init = st.walk.graph.deep_view();
    let ghost mut answers: Seq<Result<PackageView, ErrorView>> = Seq::empty();
    let ghost mut asked: Seq<Seq<char>> = Seq::empty();
    proof {
        assert forall|rest: Seq<Result<PackageView, ErrorView>>| #[trigger]
            spec_run(st@, rest, inst) == spec_run(s0, answers + rest, inst) by {
            assert(answers + rest =~= rest);
        }
        assert forall|rest: Seq<Result<PackageView, ErrorView>>| #[trigger]
            spec_asked_run(st@, rest, inst) == spec_asked_run(st@, rest, inst) && spec_asked_run(
                s0,
                answers + rest,
                inst,
            ) == asked + spec_asked_run(st@, rest, inst) by {
            assert(answers + rest =~= rest);
            assert(asked + spec_asked_run(st@, rest, inst) =~= spec_asked_run(st@, rest, inst));
        }
    }
    while st.head < st.queue.len()
        invariant
            inst == installed.deep_view(),
            init == Ok::<WalkStateView, ErrorView>(s0),
            init == initial_state(root_name@, pinned_view(pinned_root)),
            settled ==> st.queue@.len() == 0 && st.walk.resolved@ == r_init && st.walk.unresolved@.len() == 0
                && st.walk.graph.deep_view() == g_init,
            match pinned_root {
                Some(root) => spec_parse_dependencies(declared_lines(root@)) is Ok && (no_required_deps(root@)
                    ==> settled),
                None => true,
            },
            state_laws(&st),
            enforced_law(st@.walk.resolved, inst),
            forall|rest: Seq<Result<PackageView, ErrorView>>| #[trigger]
                spec_run(st@, rest, inst) == spec_run(s0, answers + rest, inst),
            forall|rest: Seq<Result<PackageView, ErrorView>>| #[trigger]
                spec_asked_run(st@, rest, inst) == spec_asked_run(st@, rest, inst) && spec_asked_run(
                    s0,
                    answers + rest,
                    inst,
                ) == asked + spec_asked_run(st@, rest, inst),
            asked_of(registry, asked, answers),
        decreases usize::MAX - st.head,
    {
        let ghost before = st@;
        let name = st.queue[st.head].clone();
        proof {
            assert(before.queue[before.head] == name@);
        }
        match find_resolved(&st.walk.resolved, &name) {
            Some(idx) => {
                proof {
                    assert(before.walk.resolved[idx as int] == st.walk.resolved@[idx as int]@);
                }
                match parse_version_flexible(st.walk.resolved[idx].package.version.as_str()) {
                    Some(v) => {
                        match enforce_constraints(name.as_str(), &v, &st.walk.constraints) {
                            Ok(()) => {},
                            Err(e) => {
                                proof {
                                    assert(before.walk.constraints == cviews(st.walk.constraints@));
                                    assert(recheck(before.walk, name@) == Err::<(), ErrorView>(e@));
                                    lemma_run_recheck_err(before, inst, e@);
                                    assert(answers + Seq::<Result<PackageView, ErrorView>>::empty() =~= answers);
                                    assert(spec_run(s0, answers, inst) == Some(Err::<WalkView, ErrorView>(e@)));
                                    assert(spec_walk(root_name@, pinned_view(pinned_root), answers, inst) == Some(
                                        Err::<WalkView, ErrorView>(e@),
                                    ));
                                    assert(spec_asked_run(before, Seq::empty(), inst) == spec_asked_run(
                                        before,
                                        Seq::empty(),
                                        inst,
                                    ));
                                    assert(asked + Seq::<Seq<char>>::empty() =~= asked);
                                    assert(spec_asked(root_name@, pinned_view(pinned_root), answers, inst) == asked);
                                }
                                return Err(e);
                            },
                        }
                    },
                    None => {},
                }
                st.head = st.head + 1;
                proof {
                    assert forall|rest: Seq<Result<PackageView, ErrorView>>| #[trigger]
                        spec_run(st@, rest, inst) == spec_run(s0, answers + rest, inst) by {
                        lemma_run_recheck(before, rest, inst);
                        assert(st@ == WalkStateView { walk: before.walk, queue: before.queue, head: before.head + 1 });
                        assert(spec_run(before, rest, inst) == spec_run(s0, answers + rest, inst));
                    }
                    assert forall|rest: Seq<Result<PackageView, ErrorView>>| #[trigger]
                        spec_asked_run(st@, rest, inst) == spec_asked_run(st@, rest, inst) && spec_asked_run(
                            s0,
                            answers + rest,
                            inst,
                        ) == asked + spec_asked_run(st@, rest, inst) by {
                        lemma_run_recheck(before, rest, inst);
                        assert(st@ == WalkStateView { walk: before.walk, queue: before.queue, head: before.head + 1 });
                        assert(spec_asked_run(before, rest, inst) == spec_asked_run(before, rest, inst));
                    }
                }
                continue ;
            },
            None => {},
        }
        let fetched = registry.fetch_package(name.as_str());
        let ghost a = answer_view(fetched);
        let stepped = walk_step(st, fetched, installed);
        match stepped {
            Ok(next) => {
                st = next;
                proof {
                    assert forall|rest: Seq<Result<PackageView, ErrorView>>| #[trigger]
                        spec_run(st@, rest, inst) == spec_run(s0, answers.push(a) + rest, inst) by {
                        let r2 = seq![a] + rest;
                        lemma_run_fetch(before, a, st@, rest, inst);
                        assert(answers.push(a) + rest =~= answers + r2);
                        assert(spec_run(before, r2, inst) == spec_run(s0, answers + r2, inst));
                    }
                    assert forall|rest: Seq<Result<PackageView, ErrorView>>| #[trigger]
                        spec_asked_run(st@, rest, inst) == spec_asked_run(st@, rest, inst) && spec_asked_run(
                            s0,
                            answers.push(a) + rest,
                            inst,
                        ) == asked.push(name@) + spec_asked_run(st@, rest, inst) by {
                        let r2 = seq![a] + rest;
                        lemma_run_fetch(before, a, st@, rest, inst);
                        assert(answers.push(a) + rest =~= answers + r2);
                        assert(spec_asked_run(before, r2, inst) == spec_asked_run(before, r2, inst));
                        assert(asked + (seq![name@] + spec_asked_run(st@, rest, inst)) =~= asked.push(name@)
                            + spec_asked_run(st@, rest, inst));
                    }
                    assert forall|k: int| 0 <= k < answers.push(a).len() implies #[trigger] registry.answers(
                        asked.push(name@)[k],
                        answers.push(a)[k],
                    ) by {
                        if k < answers.len() {
                            assert(asked.push(name@)[k] == asked[k]);
                            assert(answers.push(a)[k] == answers[k]);
                            assert(registry.answers(asked[k], answers[k]));
                        }
                    }
                    answers = answers.push(a);
                    asked = asked.push(name@);
                }
            },
            Err(e) => {
                proof {
                    let r2 = seq![a];
                    lemma_run_fetch_err(before, a, inst, e@);
                    assert(answers + r2 =~= answers.push(a));
                    assert(spec_run(before, r2, inst) == spec_run(s0, answers + r2, inst));
                    assert(spec_walk(root_name@, pinned_view(pinned_root), answers + r2, inst) == Some(
                        Err::<WalkView, ErrorView>(e@),
                    ));
                    assert(spec_asked_run(before, r2, inst) == spec_asked_run(before, r2, inst));
                    assert(spec_asked(root_name@, pinned_view(pinned_root), answers + r2, inst) =~= asked.push(
                        name@,
                    ));
                    assert forall|k: int| 0 <= k < (answers + r2).len() implies #[trigger] registry.answers(
                        asked.push(name@)[k],
                        (answers + r2)[k],
                    ) by {
                        if k < answers.len() {
                            assert(asked.push(name@)[k] == asked[k]);
                            assert((answers + r2)[k] == answers[k]);
                            assert(registry.answers(asked[k], answers[k]));
                        }
                    }
                    assert(asked_of(
                        registry,
                        spec_asked(root_name@, pinned_view(pinned_root), answers + r2, inst),
                        answers + r2,
                    ));
                }
                return Err(e);
            },
        }
    }
    proof {
        lemma_run_done(st@, inst);
        assert(answers + Seq::<Result<PackageView, ErrorView>>::empty() =~= answers);
        assert(spec_walk(root_name@, pinned_view(pinned_root), answers, inst) == Some(
            Ok::<WalkView, ErrorView>(st.walk@),
        ));
        assert(spec_asked_run(st@, Seq::empty(), inst) == spec_asked_run(st@, Seq::empty(), inst));
        assert(asked + Seq::<Seq<char>>::empty() =~= asked);
        assert(spec_asked(root_name@, pinned_view(pinned_root), answers, inst) == asked);
    }
    Ok(st.walk)
}


/// The packages of a resolution, in install order, and the names no source
/// knew.
#[derive(Debug)]
pub struct ResolveResult {
    pub packages: Vec<Package>,
    pub unresolved: Vec<String>,
}

/// `perm` lists each of `0..n` exactly once.
pub open spec fn is_permutation(perm: Seq<int>, n: int) -> bool {
    &&& perm.no_duplicates()
    &&& forall|k: int| 0 <= k < perm.len() ==> 0 <= #[trigger] perm[k] < n
    &&& forall|i: int| 0 <= i < n ==> perm.contains(i)
}

/// A package of the first phase: its place follows the order's.
proof fn lemma_first_phase(
    rs: Seq<ResolvedEntry>,
    perm: Seq<int>,
    perm1: Seq<int>,
    ot: Seq<int>,
    ov: Seq<Seq<char>>,
    k: int,
    ta: int,
)
    requires
        names_distinct(rs),
        ov.no_duplicates(),
        perm.no_duplicates(),
        perm1.len() <= perm.len(),
        forall|k2: int| 0 <= k2 < perm1.len() ==> #[trigger] perm[k2] == perm1[k2],
        ot.len() == perm1.len(),
        forall|k2: int| 0 <= k2 < ot.len() ==> 0 <= #[trigger] ot[k2] < ov.len() && rs[perm1[k2]].name@ == ov[ot[k2]],
        forall|j: int, t2: int|
            0 <= j < rs.len() && 0 <= t2 < ov.len() && #[trigger] rs[j].name@ == #[trigger] ov[t2] ==> perm1.contains(j),
        0 <= k < perm.len(),
        0 <= perm[k] < rs.len(),
        0 <= ta < ov.len(),
        rs[perm[k]].name@ == ov[ta],
    ensures
        k < perm1.len(),
        ot[k] == ta,
{
    assert(perm1.contains(perm[k]));
    let k2 = choose|k2: int| 0 <= k2 < perm1.len() && perm1[k2] == perm[k];
    assert(perm[k2] == perm[k]);
    assert(k2 == k);
    assert(ov[ot[k]] == ov[ta]);
}

/// `packages` holds the accepted packages, each once, in the order `perm`.
pub open spec fn arranged(packages: Seq<Package>, rs: Seq<ResolvedView>, perm: Seq<int>) -> bool {
    &&& is_permutation(perm, rs.len() as int)
    &&& packages.len() == perm.len()
    &&& forall|k: int| 0 <= k < packages.len() ==> #[trigger] packages[k]@ == rs[perm[k]].package
}

/// A package comes after every accepted package it depends on.
pub open spec fn dependencies_first(g: Seq<(Seq<char>, Seq<Seq<char>>)>, rs: Seq<ResolvedView>, perm: Seq<int>) -> bool {
    forall|k1: int, k2: int|
        0 <= k1 < perm.len() && 0 <= k2 < perm.len() && rs[perm[k1]].name != rs[perm[k2]].name && depends_on(
            g,
            #[trigger] rs[perm[k1]].name,
            #[trigger] rs[perm[k2]].name,
        ) ==> k2 < k1
}

/// `packages` holds the accepted packages, each once, and, where the graph
/// has no cycle, each after every accepted package it depends on.
pub open spec fn install_ordered(
    packages: Seq<Package>,
    rs: Seq<ResolvedView>,
    g: Seq<(Seq<char>, Seq<Seq<char>>)>,
) -> bool {
    exists|perm: Seq<int>|
        #![trigger arranged(packages, rs, perm)]
        arranged(packages, rs, perm) && (!dep_cyclic(g) ==> dependencies_first(g, rs, perm))
}

/// What an ordered walk returns: the unresolved names as the walk found
/// them, the accepted packages in install order, and cycles only where
/// every cycle is made of system packages.
pub open spec fn plan_outcome(walk: WalkView, res: ResolveResult) -> bool {
    &&& res.unresolved.deep_view() == walk.unresolved
    &&& install_ordered(res.packages@, walk.resolved, walk.graph)
    &&& forall|c: Seq<Seq<char>>| is_dep_cycle(walk.graph, c) ==> all_system(c, walk.system_nodes)
}

/// What ordering a walk gives: its packages in install order (see
/// `plan_outcome`), or a cycle error, which comes only where some cycle
/// holds a package the system package manager does not serve.
pub open spec fn plan_result(walk: WalkView, r: Result<ResolveResult, BallError>) -> bool {
    match r {
        Ok(res) => plan_outcome(walk, res),
        Err(e) => e@ is DependencyCycle && exists|c: Seq<Seq<char>>|
            is_dep_cycle(walk.graph, c) && !all_system(c, walk.system_nodes),
    }
}

/// Every name of the cycle is served by the system package manager.
pub open spec fn all_system(c: Seq<Seq<char>>, system: Seq<Seq<char>>) -> bool {
    forall|k: int| 0 <= k < c.len() ==> system.contains(#[trigger] c[k])
}

fn contains_name(set: &Vec<String>, name: &String) -> (r: bool)
    ensures
        r == set.deep_view().contains(name@),
{
    let mut i: usize = 0;
    while i < set.len()
        invariant
            i <= set@.len(),
            forall|j: int| 0 <= j < i ==> set.deep_view()[j] != name@,
        decreases set@.len() - i,
    {
        if set[i] == *name {
            proof {
                assert(set.deep_view()[i as int] == name@);
            }
            return true;
        }
        i = i + 1;
    }
    false
}

/// Puts the accepted packages in install order.
///
/// A cycle is an error unless it is made of system packages only (the
/// native manager handles such mutual dependencies): the cycle found is
/// checked first, then every package outside the system ones is checked
/// for a cycle through it. With only system cycles the best-effort order is
/// used. Packages whose names the order does not cover
/// follow at the end.
pub fn plan(walk: Walk) -> (r: Result<ResolveResult, BallError>)
    requires
        walk_laws(&walk),
    ensures
        plan_result(walk@, r),
{
    let ghost wv = walk@;
    let ghost g = walk.graph.deep_view();
    let Walk { resolved, constraints, graph, system_nodes, unresolved } = walk;
    let ghost mut found: Seq<Seq<char>> = Seq::empty();
    let all_system_cycle = match find_cycle(&graph) {
        Some(cycle) => {
            proof {
                assert(dep_cyclic(g));
                found = cycle.deep_view();
            }
            let mut k: usize = 0;
            while k < cycle.len()
                invariant
                    k <= cycle@.len(),
                    g == walk.graph.deep_view(),
                    dep_cyclic(g),
                    found == cycle.deep_view(),
                    is_dep_cycle(g, found),
                    wv.system_nodes == system_nodes.deep_view(),
                    wv.graph == g,
                    wv == walk@,
                    forall|j: int| 0 <= j < k ==> system_nodes.deep_view().contains(#[trigger] cycle.deep_view()[j]),
                decreases cycle@.len() - k,
            {
                if !contains_name(&system_nodes, &cycle[k]) {
                    let head = concat("cycle detected: ", join_strings(&cycle, " -> ").as_str());
                    let msg = concat3(head.as_str(), " -> ", cycle[0].as_str());
                    let err = BallError::DependencyCycle(msg);
                    proof {
                        assert(!system_nodes.deep_view().contains(found[k as int]));
                        assert(!all_system(found, wv.system_nodes));
                        assert(is_dep_cycle(wv.graph, found));
                        assert(err@ is DependencyCycle);
                        assert(plan_result(wv, Err::<ResolveResult, BallError>(err)));
                    }
                    return Err(err);
                }
                k = k + 1;
            }
            proof {
                assert(all_system(cycle.deep_view(), system_nodes.deep_view()));
            }
            true
        },
        None => false,
    };
    if all_system_cycle {
        match cycle_outside(&graph, &system_nodes) {
            Some(cycle) => {
                let head = concat("cycle detected: ", join_strings(&cycle, " -> ").as_str());
                let msg = concat3(head.as_str(), " -> ", cycle[0].as_str());
                let err = BallError::DependencyCycle(msg);
                proof {
                    let k = choose|k: int|
                        0 <= k < cycle.deep_view().len() && !system_nodes.deep_view().contains(
                            #[trigger] cycle.deep_view()[k],
                        );
                    assert(!all_system(cycle.deep_view(), wv.system_nodes));
                    assert(plan_result(wv, Err::<ResolveResult, BallError>(err)));
                }
                return Err(err);
            },
            None => {},
        }
    }
    let order = if all_system_cycle {
        best_effort_order(&graph)
    } else {
        match topological_sort(&graph) {
            Ok(o) => o,
            Err(e) => {
                assert(g == walk.graph.deep_view());
                assert(dep_cyclic(g));
                assert(false);
                return Err(e);
            },
        }
    };
    let ghost ov = order.deep_view();
    let n = resolved.len();
    let mut taken: Vec<bool> = Vec::new();
    let mut i: usize = 0;
    while i < n
        invariant
            i <= n,
            n == resolved@.len(),
            taken@.len() == i,
            forall|j: int| 0 <= j < i ==> !#[trigger] taken@[j],
        decreases n - i,
    {
        taken.push(false);
        i = i + 1;
    }
    let mut packages: Vec<Package> = Vec::new();
    let ghost mut perm: Seq<int> = Seq::empty();
    let ghost mut ot: Seq<int> = Seq::empty();
    let mut t: usize = 0;
    while t < order.len()
        invariant
            g == graph.deep_view(),
            ov == order.deep_view(),
            n == resolved@.len(),
            names_distinct(resolved@),
            t <= ov.len(),
            taken@.len() == n,
            packages@.len() == perm.len(),
            perm.len() == ot.len(),
            perm.no_duplicates(),
            forall|k: int| 0 <= k < perm.len() ==> 0 <= #[trigger] perm[k] < n && taken@[perm[k]],
            forall|j: int| 0 <= j < n && #[trigger] taken@[j] ==> perm.contains(j),
            forall|k: int| 0 <= k < packages@.len() ==> #[trigger] packages@[k]@ == resolved@[perm[k]].package@,
            forall|k: int| 0 <= k < ot.len() ==> 0 <= #[trigger] ot[k] < t && resolved@[perm[k]].name@ == ov[ot[k]],
            forall|k1: int, k2: int| 0 <= k1 < k2 < ot.len() ==> #[trigger] ot[k1] < #[trigger] ot[k2],
            forall|j: int, t2: int|
                0 <= j < n && 0 <= t2 < t && #[trigger] resolved@[j].name@ == #[trigger] ov[t2] ==> taken@[j],
        decreases ov.len() - t,
    {
        match find_resolved(&resolved, &order[t]) {
            Some(idx) => {
                if !taken[idx] {
                    let ghost p0 = perm;
                    let ghost tk0 = taken@;
                    packages.push(resolved[idx].package.copy());
                    taken.set(idx, true);
                    proof {
                        perm = perm.push(idx as int);
                        ot = ot.push(t as int);
                        assert(perm[p0.len() as int] == idx as int);
                        assert forall|j: int| 0 <= j < n && #[trigger] taken@[j] implies perm.contains(j) by {
                            if j != idx {
                                assert(tk0[j]);
                                let k = choose|k: int| 0 <= k < p0.len() && p0[k] == j;
                                assert(perm[k] == j);
                            }
                        }
                    }
                }
                proof {
                    assert forall|j: int, t2: int|
                        0 <= j < n && 0 <= t2 < t + 1 && #[trigger] resolved@[j].name@ == #[trigger] ov[t2] implies taken@[j] by {
                        if t2 == t {
                            if j != idx {
                                assert(resolved@[j].name@ != resolved@[idx as int].name@);
                            }
                        }
                    }
                }
            },
            None => {},
        }
        t = t + 1;
    }
    let ghost perm1 = perm;
    proof {
        assert forall|j: int, t2: int|
            0 <= j < n && 0 <= t2 < ov.len() && #[trigger] resolved@[j].name@ == #[trigger] ov[t2] implies perm1.contains(j) by {
            assert(taken@[j]);
        }
    }
    let mut j: usize = 0;
    while j < n
        invariant
            n == resolved@.len(),
            j <= n,
            taken@.len() == n,
            packages@.len() == perm.len(),
            perm.no_duplicates(),
            perm1.len() <= perm.len(),
            forall|k: int| 0 <= k < perm1.len() ==> #[trigger] perm[k] == perm1[k],
            forall|k: int| 0 <= k < perm.len() ==> 0 <= #[trigger] perm[k] < n && taken@[perm[k]],
            forall|i2: int| 0 <= i2 < n && #[trigger] taken@[i2] ==> perm.contains(i2),
            forall|i2: int| 0 <= i2 < j ==> #[trigger] taken@[i2],
            forall|k: int| 0 <= k < packages@.len() ==> #[trigger] packages@[k]@ == resolved@[perm[k]].package@,
        decreases n - j,
    {
        if !taken[j] {
            let ghost p0 = perm;
            let ghost tk0 = taken@;
            packages.push(resolved[j].package.copy());
            taken.set(j, true);
            proof {
                perm = perm.push(j as int);
                assert(perm[p0.len() as int] == j as int);
                assert forall|i2: int| 0 <= i2 < n && #[trigger] taken@[i2] implies perm.contains(i2) by {
                    if i2 != j {
                        assert(tk0[i2]);
                        let k = choose|k: int| 0 <= k < p0.len() && p0[k] == i2;
                        assert(perm[k] == i2);
                    }
                }
            }
        }
        j = j + 1;
    }
    proof {
        // Every index was taken exactly once.
        assert forall|i2: int| 0 <= i2 < n implies perm.contains(i2) by {
            assert(taken@[i2]);
        }
        if !dep_cyclic(g) {
            assert(covers(g, ov) && respects_deps(g, ov));
            assert forall|k1: int, k2: int|
                0 <= k1 < perm.len() && 0 <= k2 < perm.len() && resolved@[perm[k1]].name@ != resolved@[perm[k2]].name@
                    && depends_on(g, #[trigger] resolved@[perm[k1]].name@, #[trigger] resolved@[perm[k2]].name@) implies k2
                < k1 by {
                let na = resolved@[perm[k1]].name@;
                let nb = resolved@[perm[k2]].name@;
                let i0 = choose|i0: int| 0 <= i0 < g.len() && #[trigger] g[i0].0 == na && g[i0].1.contains(nb);
                assert(is_node(g, na));
                assert(is_node(g, nb));
                assert(ov.contains(na));
                assert(ov.contains(nb));
                let ta = choose|ta: int| 0 <= ta < ov.len() && ov[ta] == na;
                let tb = choose|tb: int| 0 <= tb < ov.len() && ov[tb] == nb;
                assert(ta != tb);
                assert(tb < ta);
                lemma_first_phase(resolved@, perm, perm1, ot, ov, k1, ta);
                lemma_first_phase(resolved@, perm, perm1, ot, ov, k2, tb);
                if k1 <= k2 {
                    if k1 < k2 {
                        assert(ot[k1] < ot[k2]);
                    }
                }
            }
        }
    }
    proof {
        assert(unresolved.deep_view() == wv.unresolved);
        assert(system_nodes.deep_view() == wv.system_nodes);
        assert(g == wv.graph);
        let rv = wv.resolved;
        assert(rv == rviews(resolved@));
        assert forall|k: int| 0 <= k < packages@.len() implies #[trigger] packages@[k]@ == rv[perm[k]].package by {
            assert(rv[perm[k]] == resolved@[perm[k]]@);
        }
        assert(arranged(packages@, rv, perm));
        if !dep_cyclic(g) {
            assert forall|k1: int, k2: int|
                0 <= k1 < perm.len() && 0 <= k2 < perm.len() && rv[perm[k1]].name != rv[perm[k2]].name && depends_on(
                    g,
                    #[trigger] rv[perm[k1]].name,
                    #[trigger] rv[perm[k2]].name,
                ) implies k2 < k1 by {
                assert(rv[perm[k1]] == resolved@[perm[k1]]@);
                assert(rv[perm[k2]] == resolved@[perm[k2]]@);
            }
        }
        assert(install_ordered(packages@, rv, g));
    }
    let res = ResolveResult { packages, unresolved };
    assert(plan_outcome(wv, res));
    Ok(res)
}


/// How a resolution ends, given what the walk comes to: the walk's error,
/// or, from a walk that keeps its laws, its packages in install order or a
/// cycle error (see `plan_result`).
pub open spec fn resolution_of(
    w: Option<Result<WalkView, ErrorView>>,
    inst: Seq<(Seq<char>, Seq<char>)>,
    r: Result<ResolveResult, BallError>,
) -> bool {
    match w {
        Some(Ok(wv)) => walk_laws_v(wv) && enforced_law(wv.resolved, inst) && plan_result(wv, r),
        Some(Err(e)) => r matches Err(x) && x@ == e,
        None => false,
    }
}

/// What a resolution that succeeds gives, in one law: the accepted
/// packages, each once and under distinct names, in an order that puts
/// each after the packages it depends on when the graph has no cycle, every
/// cycle made of system packages, and every required constraint on an
/// accepted package that is not installed met by the version the registry
/// gave for it.
pub proof fn law_resolution(wv: WalkView, inst: Seq<(Seq<char>, Seq<char>)>, res: ResolveResult)
    requires
        resolution_of(Some(Ok::<WalkView, ErrorView>(wv)), inst, Ok::<ResolveResult, BallError>(res)),
    ensures
        res.unresolved.deep_view() == wv.unresolved,
        exists|perm: Seq<int>|
            #![trigger arranged(res.packages@, wv.resolved, perm)]
            arranged(res.packages@, wv.resolved, perm) && (!dep_cyclic(wv.graph) ==> dependencies_first(
                wv.graph,
                wv.resolved,
                perm,
            )),
        forall|a: int, b: int|
            0 <= a < wv.resolved.len() && 0 <= b < wv.resolved.len() && a != b ==> #[trigger] wv.resolved[a].name
                != #[trigger] wv.resolved[b].name,
        forall|c: Seq<Seq<char>>| is_dep_cycle(wv.graph, c) ==> all_system(c, wv.system_nodes),
        forall|e: int, i: int|
            0 <= e < wv.resolved.len() && 0 <= i < wv.constraints.len() && #[trigger] wv.constraints[i].target
                == #[trigger] wv.resolved[e].name && !wv.constraints[i].optional && installed_from(
                inst,
                wv.resolved[e].name,
                0,
            ) is None ==> satisfies(wv.constraints[i].req, wv.resolved[e].package.version),
{
    law_accepted_versions_meet_constraints(wv, inst);
}

/// A graph of one package that depends on nothing has no cycle.
proof fn lemma_single_node_acyclic(n: Seq<char>)
    ensures
        !dep_cyclic(seq![(n, Seq::<Seq<char>>::empty())]),
{
    let g = seq![(n, Seq::<Seq<char>>::empty())];
    assert forall|c: Seq<Seq<char>>| !is_dep_cycle(g, c) by {
        if is_dep_cycle(g, c) {
            assert(depends_on(g, c.last(), c[0]));
            let i = choose|i: int| 0 <= i < g.len() && #[trigger] g[i].0 == c.last() && g[i].1.contains(c[0]);
            assert(i == 0);
            assert(g[0].1.len() == 0);
        }
    }
}

/// A permutation of a single index is that index alone.
proof fn lemma_permutation_of_one(perm: Seq<int>)
    requires
        is_permutation(perm, 1),
    ensures
        perm.len() == 1,
        perm[0] == 0,
{
    assert(perm.contains(0));
    assert(perm[0] == 0);
    if perm.len() > 1 {
        assert(perm[1] == 0);
        assert(perm[0] != perm[1]);
    }
}

/// The walk and its ordering: for the answers the registry gave, the
/// outcome `resolution_of` the walk they lead to. Around a pinned root
/// whose dependency list fails to parse, that error; around one with no
/// required dependency, the root alone, without asking the registry
/// anything.
fn resolve_from<R: RegistryIndex>(
    root_name: &str,
    pinned_root: Option<&Package>,
    registry: &R,
    installed: &Vec<(String, String)>,
) -> (r: Result<ResolveResult, BallError>)
    ensures
        exists|answers: Seq<Result<PackageView, ErrorView>>|
            #[trigger] resolution_of(
                spec_walk(root_name@, pinned_view(pinned_root), answers, installed.deep_view()),
                installed.deep_view(),
                r,
            ) && asked_of(
                registry,
                spec_asked(root_name@, pinned_view(pinned_root), answers, installed.deep_view()),
                answers,
            ),
        match pinned_root {
            Some(root) => root_outcome(root@, r),
            None => true,
        },
{
    let wr = walk(root_name, pinned_root, registry, installed);
    let ghost answers = choose|a: Seq<Result<PackageView, ErrorView>>|
        #[trigger] spec_walk(root_name@, pinned_view(pinned_root), a, installed.deep_view()) == Some(
            walk_result_view(wr),
        ) && asked_of(registry, spec_asked(root_name@, pinned_view(pinned_root), a, installed.deep_view()), a);
    let w = match wr {
        Ok(w) => w,
        Err(e) => {
            proof {
                assert(resolution_of(
                    spec_walk(root_name@, pinned_view(pinned_root), answers, installed.deep_view()),
                    installed.deep_view(),
                    Err::<ResolveResult, BallError>(e),
                ));
            }
            return Err(e);
        },
    };
    let ghost wg = w;
    proof {
        lemma_walk_laws_v(&w);
        match pinned_root {
            Some(root) => {
                if no_required_deps(root@) {
                    lemma_single_node_acyclic(root@.name);
                }
            },
            None => {},
        }
    }
    let r = plan(w);
    proof {
        assert(resolution_of(
            spec_walk(root_name@, pinned_view(pinned_root), answers, installed.deep_view()),
            installed.deep_view(),
            r,
        ));
        if r is Ok {
            match pinned_root {
                Some(root) => {
                    if no_required_deps(root@) {
                        let res = r->Ok_0;
                        let wv = wg@;
                        assert(plan_outcome(wv, res));
                        let perm = choose|perm: Seq<int>|
                            #![trigger arranged(res.packages@, wv.resolved, perm)]
                            arranged(res.packages@, wv.resolved, perm) && (!dep_cyclic(wv.graph)
                                ==> dependencies_first(wv.graph, wv.resolved, perm));
                        lemma_permutation_of_one(perm);
                        assert(wv.resolved[0] == wg.resolved@[0]@);
                        assert(res.packages@[0]@ == wv.resolved[perm[0]].package);
                        assert(res.unresolved.deep_view().len() == res.unresolved@.len());
                    }
                },
                None => {},
            }
        }
    }
    r
}

/// What a resolution around the pinned `root` is known to give without the
/// registry: the parse error of its dependency list, or, when it has no
/// required dependency, the root alone with nothing unresolved.
pub open spec fn root_outcome(root: PackageView, r: Result<ResolveResult, BallError>) -> bool {
    &&& spec_parse_dependencies(declared_lines(root)) is Err ==> (r matches Err(e)
        && spec_parse_dependencies(declared_lines(root)) == Err::<Seq<DependencyView>, ErrorView>(e@))
    &&& no_required_deps(root) ==> (r matches Ok(res) && res.packages@.len() == 1 && res.packages@[0]@ == root
        && res.unresolved@.len() == 0)
}

/// Resolves the dependencies of the package `root_name`, looking every
/// package up in `registry`. `installed` lists the installed packages with
/// their versions.
pub fn resolve_deps<R: RegistryIndex>(root_name: &str, registry: &R, installed: &Vec<(String, String)>) -> (r:
    Result<ResolveResult, BallError>)
    ensures
        exists|answers: Seq<Result<PackageView, ErrorView>>|
            #[trigger] resolution_of(spec_walk(root_name@, None, answers, installed.deep_view()), installed.deep_view(), r)
                && asked_of(registry, spec_asked(root_name@, None, answers, installed.deep_view()), answers),
{
    resolve_from(root_name, None, registry, installed)
}

/// Resolves around an already fetched root (pinned with `--version` or
/// forced to one `--source`), which is not looked up again. A root whose
/// dependency list does not parse fails with that error; one without
/// required dependencies resolves to itself alone.
pub fn resolve_deps_with_root<R: RegistryIndex>(root: &Package, registry: &R, installed: &Vec<(String, String)>) -> (r:
    Result<ResolveResult, BallError>)
    ensures
        exists|answers: Seq<Result<PackageView, ErrorView>>|
            #[trigger] resolution_of(
                spec_walk(root.name@, Some(root@), answers, installed.deep_view()),
                installed.deep_view(),
                r,
            ) && asked_of(registry, spec_asked(root.name@, Some(root@), answers, installed.deep_view()), answers),
        root_outcome(root@, r),
{
    resolve_from(root.name.as_str(), Some(root), registry, installed)
}

} // verus!
