//! Recent commit history: a bounded walk over a loaded slice of the commit
//! graph, newest first, following all parents.

use vstd::prelude::*;

verus! {

/// One commit of a loaded slice of history: the positions of its parents in
/// the slice. Positions follow the graph's natural newest-first order, so a
/// parent always stands strictly after its children.
pub struct CommitNode {
    pub parents: Vec<usize>,
}

/// A slice of a repository's commit graph, newest first.
pub struct CommitGraph {
    pub nodes: Vec<CommitNode>,
}

/// Well-formed: every parent link points strictly further down the order and
/// stays inside the slice. With links only pointing one way the graph cannot
/// contain a cycle, so every walk is bounded.
pub open spec fn graph_wf(nodes: Seq<CommitNode>) -> bool {
    forall|i: int, j: int|
        0 <= i < nodes.len() && 0 <= j < nodes[i].parents@.len() ==> i < #[trigger] nodes[i].parents@[j]
            < nodes.len()
}

/// Decides whether a loaded slice is well-formed, so that a host that built
/// one can test it before asking for a walk.
pub fn check_graph(g: &CommitGraph) -> (r: bool)
    ensures
        r == graph_wf(g.nodes@),
{
    let n = g.nodes.len();
    let mut i: usize = 0;
    while i < n
        invariant
            i <= n,
            n == g.nodes@.len(),
            forall|x: int, y: int|
                0 <= x < i && 0 <= y < g.nodes@[x].parents@.len() ==> x
                    < #[trigger] g.nodes@[x].parents@[y] < n,
        decreases n - i,
    {
        let parents = &g.nodes[i].parents;
        let mut j: usize = 0;
        while j < parents.len()
            invariant
                i < n,
                j <= parents@.len(),
                n == g.nodes@.len(),
                parents == g.nodes@[i as int].parents,
                forall|y: int|
                    0 <= y < j ==> i < #[trigger] g.nodes@[i as int].parents@[y] < n,
            decreases parents@.len() - j,
        {
            let p = parents[j];
            if p <= i || p >= n {
                proof {
                    assert(g.nodes@[i as int].parents@[j as int] == p);
                }
                return false;
            }
            j += 1;
        }
        i += 1;
    }
    true
}

/// Commit `b` is commit `a` itself or one of its ancestors: reachable from
/// `a` over parent links.
pub open spec fn reachable(nodes: Seq<CommitNode>, a: int, b: int) -> bool
    decreases nodes.len() - a
        when 0 <= a < nodes.len() && graph_wf(nodes)
{
    a == b || exists|j: int|
        0 <= j < nodes[a].parents@.len() && reachable(
            nodes,
            #[trigger] nodes[a].parents@[j] as int,
            b,
        )
}

/// An ancestor never stands before the commit it is reached from: reachable
/// positions lie at or after the starting position.
pub proof fn lemma_reachable_ge(nodes: Seq<CommitNode>, a: int, b: int)
    requires
        graph_wf(nodes),
        0 <= a < nodes.len(),
        reachable(nodes, a, b),
    ensures
        a <= b < nodes.len(),
    decreases nodes.len() - a,
{
    if a != b {
        let j = choose|j: int|
            0 <= j < nodes[a].parents@.len() && reachable(nodes, nodes[a].parents@[j] as int, b);
        lemma_reachable_ge(nodes, nodes[a].parents@[j] as int, b);
    }
}

/// Reachability runs through: what is reachable from a reachable commit is
/// reachable from the start.
pub proof fn lemma_reachable_trans(nodes: Seq<CommitNode>, a: int, b: int, c: int)
    requires
        graph_wf(nodes),
        0 <= a < nodes.len(),
        reachable(nodes, a, b),
        reachable(nodes, b, c),
    ensures
        reachable(nodes, a, c),
    decreases nodes.len() - a,
{
    if a != b {
        let j = choose|j: int|
            0 <= j < nodes[a].parents@.len() && reachable(nodes, nodes[a].parents@[j] as int, b);
        lemma_reachable_ge(nodes, a, b);
        lemma_reachable_trans(nodes, nodes[a].parents@[j] as int, b, c);
    }
}

/// Some member of `frontier` reaches `b`.
pub open spec fn covered(nodes: Seq<CommitNode>, frontier: Seq<usize>, b: int) -> bool {
    exists|y: int| 0 <= y < frontier.len() && reachable(nodes, #[trigger] frontier[y] as int, b)
}

/// Finds the position of the smallest member of a non-empty list.
fn find_min(v: &Vec<usize>) -> (r: usize)
    requires
        v@.len() > 0,
    ensures
        r < v@.len(),
        forall|x: int| 0 <= x < v@.len() ==> v@[r as int] <= v@[x],
{
    let mut mi: usize = 0;
    let mut t: usize = 1;
    while t < v.len()
        invariant
            mi < t <= v@.len(),
            forall|x: int| 0 <= x < t ==> v@[mi as int] <= v@[x],
        decreases v@.len() - t,
    {
        if v[t] < v[mi] {
            mi = t;
        }
        t += 1;
    }
    mi
}

/// Is `x` a member of the list?
fn contains_val(v: &Vec<usize>, x: usize) -> (r: bool)
    ensures
        r == v@.contains(x),
{
    let mut t: usize = 0;
    while t < v.len()
        invariant
            t <= v@.len(),
            forall|y: int| 0 <= y < t ==> v@[y] != x,
        decreases v@.len() - t,
    {
        if v[t] == x {
            return true;
        }
        t += 1;
    }
    proof {
        assert(!v@.contains(x));
    }
    false
}

/// Walks recent history from `start`: at most `limit` commits, newest first
/// (positions strictly ascending, so no commit twice), every one of them
/// `start` itself or an ancestor of it — and none skipped: a reachable
/// commit missing from the result only when the result is full and the
/// commit is older than everything in it.
pub fn recent_commits(g: &CommitGraph, start: usize, limit: usize) -> (r: Vec<usize>)
    requires
        graph_wf(g.nodes@),
        start < g.nodes@.len(),
    ensures
        r@.len() <= limit,
        forall|x: int, y: int| 0 <= x < y < r@.len() ==> r@[x] < r@[y],
        forall|x: int| 0 <= x < r@.len() ==> reachable(g.nodes@, start as int, r@[x] as int),
        limit > 0 ==> r@.len() > 0 && r@[0] == start,
        forall|b: usize|
            b < g.nodes@.len() && reachable(g.nodes@, start as int, b as int) ==> r@.contains(b)
                || (r@.len() == limit && forall|x: int| 0 <= x < r@.len() ==> r@[x] < b),
{
    let ghost nodes = g.nodes@;
    let mut out: Vec<usize> = Vec::new();
    let mut frontier: Vec<usize> = Vec::new();
    frontier.push(start);
    proof {
        assert(frontier@ =~= seq![start]);
        assert(reachable(nodes, start as int, start as int));
        assert forall|b: int|
            0 <= b < nodes.len() && reachable(nodes, start as int, b) implies covered(
            nodes,
            frontier@,
            b,
        ) by {
            assert(frontier@[0] == start);
        }
    }
    while out.len() < limit && frontier.len() > 0
        invariant
            graph_wf(nodes),
            nodes == g.nodes@,
            start < nodes.len(),
            out@.len() <= limit,
            forall|x: int| 0 <= x < frontier@.len() ==> frontier@[x] < nodes.len(),
            frontier@.no_duplicates(),
            forall|x: int|
                0 <= x < frontier@.len() ==> reachable(nodes, start as int, frontier@[x] as int),
            forall|x: int| 0 <= x < out@.len() ==> reachable(nodes, start as int, out@[x] as int),
            forall|x: int, y: int| 0 <= x < y < out@.len() ==> out@[x] < out@[y],
            forall|x: int, y: int|
                0 <= x < out@.len() && 0 <= y < frontier@.len() ==> out@[x] < frontier@[y],
            forall|b: int|
                0 <= b < nodes.len() && reachable(nodes, start as int, b) ==> out@.contains(
                    b as usize,
                ) || covered(nodes, frontier@, b),
            out@.len() == 0 ==> frontier@ =~= seq![start],
            out@.len() > 0 ==> out@[0] == start,
        decreases limit - out@.len(),
    {
        let mi = find_min(&frontier);
        let m = frontier[mi];
        let ghost old_frontier = frontier@;
        let removed = frontier.remove(mi);
        proof {
            assert(removed == m);
            assert(frontier@ =~= old_frontier.remove(mi as int));
            assert forall|x: int| 0 <= x < frontier@.len() implies old_frontier.contains(
                frontier@[x],
            ) && frontier@[x] != m by {
                if x < mi {
                    assert(frontier@[x] == old_frontier[x]);
                    assert(old_frontier[x] != old_frontier[mi as int]);
                } else {
                    assert(frontier@[x] == old_frontier[x + 1]);
                    assert(old_frontier[x + 1] != old_frontier[mi as int]);
                }
            }
            assert(frontier@.no_duplicates()) by {
                assert forall|x: int, y: int|
                    0 <= x < y < frontier@.len() implies frontier@[x] != frontier@[y] by {
                    if x < mi {
                        if y < mi {
                        } else {
                            assert(frontier@[y] == old_frontier[y + 1]);
                        }
                    } else {
                        assert(frontier@[x] == old_frontier[x + 1]);
                        assert(frontier@[y] == old_frontier[y + 1]);
                    }
                }
            }
            // every remaining frontier member is strictly above m
            assert forall|x: int| 0 <= x < frontier@.len() implies m < frontier@[x] by {
                let v = frontier@[x];
                assert(old_frontier.contains(v));
                let w = choose|w: int| 0 <= w < old_frontier.len() && old_frontier[w] == v;
                assert(old_frontier[mi as int] <= old_frontier[w]);
            }
        }
        let ghost old_out = out@;
        out.push(m);
        proof {
            assert(out@ =~= old_out.push(m));
            assert(out@[0] == start) by {
                if old_out.len() == 0 {
                    assert(old_frontier =~= seq![start]);
                    assert(m == start);
                } else {
                    assert(out@[0] == old_out[0]);
                }
            }
            // coverage carries over: what the popped commit covered is now
            // either listed (m itself) or still reachable from m
            assert forall|b: int|
                0 <= b < nodes.len() && reachable(nodes, start as int, b) implies out@.contains(
                b as usize,
            ) || covered(nodes, frontier@, b) || (reachable(nodes, m as int, b) && b != m) by {
                if old_out.contains(b as usize) {
                    let w = choose|w: int| 0 <= w < old_out.len() && old_out[w] == b as usize;
                    assert(out@[w] == b as usize);
                } else if covered(nodes, old_frontier, b) {
                    let y = choose|y: int|
                        0 <= y < old_frontier.len() && reachable(
                            nodes,
                            old_frontier[y] as int,
                            b,
                        );
                    if y == mi {
                        if b == m as int {
                            assert(out@[out@.len() - 1] == b as usize);
                        }
                    } else {
                        let z: int = if y < mi { y } else { y - 1 };
                        assert(frontier@[z] == old_frontier[y]);
                        assert(covered(nodes, frontier@, b));
                    }
                }
            }
        }
        let parents = &g.nodes[m].parents;
        let mut pi: usize = 0;
        while pi < parents.len()
            invariant
                graph_wf(nodes),
                nodes == g.nodes@,
                start < nodes.len(),
                m < nodes.len(),
                parents == g.nodes@[m as int].parents,
                out@ == old_out.push(m),
                out@.len() <= limit,
                pi <= parents@.len(),
                reachable(nodes, start as int, m as int),
                forall|x: int| 0 <= x < frontier@.len() ==> frontier@[x] < nodes.len(),
                frontier@.no_duplicates(),
                forall|x: int|
                    0 <= x < frontier@.len() ==> reachable(nodes, start as int, frontier@[x] as int),
                forall|x: int| 0 <= x < out@.len() ==> reachable(nodes, start as int, out@[x] as int),
                forall|x: int, y: int| 0 <= x < y < out@.len() ==> out@[x] < out@[y],
                forall|x: int| 0 <= x < frontier@.len() ==> m < frontier@[x],
                forall|x: int, y: int|
                    0 <= x < out@.len() && 0 <= y < frontier@.len() ==> out@[x] < frontier@[y],
                forall|j: int| 0 <= j < pi ==> frontier@.contains(#[trigger] parents@[j]),
                forall|b: int|
                    0 <= b < nodes.len() && reachable(nodes, start as int, b) ==> out@.contains(
                        b as usize,
                    ) || covered(nodes, frontier@, b) || (reachable(nodes, m as int, b) && b != m),
                out@[0] == start,
            decreases parents@.len() - pi,
        {
            let p = parents[pi];
            let ghost pre = frontier@;
            proof {
                assert(m < p < nodes.len());
            }
            if !contains_val(&frontier, p) {
                frontier.push(p);
                proof {
                    assert(frontier@ =~= pre.push(p));
                    assert(frontier@.no_duplicates()) by {
                        assert(!pre.contains(p));
                    }
                    assert(reachable(nodes, start as int, p as int)) by {
                        assert(reachable(nodes, m as int, p as int)) by {
                            assert(nodes[m as int].parents@[pi as int] == p);
                            assert(reachable(nodes, p as int, p as int));
                        }
                        lemma_reachable_trans(nodes, start as int, m as int, p as int);
                    }
                    assert forall|x: int| 0 <= x < out@.len() implies out@[x] < p by {
                        assert(out@[out@.len() - 1] == m);
                        if x < out@.len() - 1 {
                            assert(out@[x] < out@[out@.len() - 1]);
                        }
                    }
                }
            }
            proof {
                assert(frontier@.contains(parents@[pi as int])) by {
                    if pre.contains(p) {
                        let w = choose|w: int| 0 <= w < pre.len() && pre[w] == p;
                        assert(frontier@[w] == p);
                    } else {
                        assert(frontier@[frontier@.len() - 1] == p);
                    }
                }
                assert forall|j: int| 0 <= j < pi implies frontier@.contains(
                    #[trigger] parents@[j],
                ) by {
                    let w = choose|w: int| 0 <= w < pre.len() && pre[w] == parents@[j];
                    assert(frontier@[w] == parents@[j]);
                }
                assert forall|b: int|
                    0 <= b < nodes.len() && reachable(nodes, start as int, b) && covered(
                        nodes,
                        pre,
                        b,
                    ) implies covered(nodes, frontier@, b) by {
                    let y = choose|y: int|
                        0 <= y < pre.len() && reachable(nodes, pre[y] as int, b);
                    assert(frontier@[y] == pre[y]);
                }
            }
            pi += 1;
        }
        proof {
            // a commit below m that was only covered through m is m itself:
            // anything else m reaches goes through one of m's parents, which
            // now all stand in the frontier.
            assert forall|b: int|
                0 <= b < nodes.len() && reachable(nodes, start as int, b) implies out@.contains(
                b as usize,
            ) || covered(nodes, frontier@, b) by {
                if !out@.contains(b as usize) && !covered(nodes, frontier@, b) {
                    assert(reachable(nodes, m as int, b) && b != m);
                    let j = choose|j: int|
                        0 <= j < nodes[m as int].parents@.len() && reachable(
                            nodes,
                            nodes[m as int].parents@[j] as int,
                            b,
                        );
                    let p = nodes[m as int].parents@[j];
                    assert(frontier@.contains(p));
                    let y = choose|y: int| 0 <= y < frontier@.len() && frontier@[y] == p;
                    assert(reachable(nodes, frontier@[y] as int, b));
                }
            }
        }
    }
    proof {
        if out@.len() < limit {
            // the frontier ran dry, so everything reachable has been listed
            assert(frontier@.len() == 0);
            assert forall|b: usize|
                b < nodes.len() && reachable(nodes, start as int, b as int) implies out@.contains(
                b,
            ) by {
                assert(!covered(nodes, frontier@, b as int));
            }
        } else {
            assert forall|b: usize|
                b < nodes.len() && reachable(nodes, start as int, b as int) && !out@.contains(b)
                    implies forall|x: int| 0 <= x < out@.len() ==> out@[x] < b by {
                assert(covered(nodes, frontier@, b as int));
                let y = choose|y: int|
                    0 <= y < frontier@.len() && reachable(nodes, frontier@[y] as int, b as int);
                lemma_reachable_ge(nodes, frontier@[y] as int, b as int);
                assert(forall|x: int| 0 <= x < out@.len() ==> out@[x] < frontier@[y]);
            }
        }
        if limit > 0 {
            assert(reachable(nodes, start as int, start as int));
            assert(out@.len() > 0) by {
                if out@.len() == 0 {
                    assert(out@.contains(start) || covered(nodes, frontier@, start as int));
                }
            }
        }
    }
    out
}

} // verus!
