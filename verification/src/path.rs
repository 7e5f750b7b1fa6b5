//! The path finder: breadth-first search from all workspace roots at once,
//! reconstructing a dependency path to a flagged package.

use vstd::prelude::*;
use crate::strings::str_eq;

verus! {

/// One resolved package as the path finder sees it.
#[derive(Debug)]
pub struct PathPackage {
    pub name: String,
    pub version: String,
    pub source: Option<String>,
}

/// The outcome of a path query: a name path from a root to the target,
/// or the target was never in the graph, or it is present but no root
/// reaches it.
#[derive(Debug)]
pub enum PathResult {
    Found(Vec<String>),
    NotFound,
    NoPath,
}

/// The adjacency used for path queries: one row of target positions per
/// package, and the root positions the search starts from.
#[derive(Debug)]
pub struct DependencyGraph {
    pub packages: Vec<PathPackage>,
    pub adjacency: Vec<Vec<usize>>,
    pub roots: Vec<usize>,
}

/// Package `i` carries the queried name and version.
pub open spec fn nv_match(g: DependencyGraph, i: int, nm: Seq<char>, ver: Seq<char>) -> bool {
    0 <= i < g.packages@.len() && g.packages@[i].name@ == nm && g.packages@[i].version@ == ver
}

/// Package `i`'s recorded source agrees with the hint, including both
/// being absent.
pub open spec fn src_match(g: DependencyGraph, i: int, src: Option<Seq<char>>) -> bool {
    match (g.packages@[i].source, src) {
        (Some(a), Some(b)) => a@ == b,
        (None, None) => true,
        _ => false,
    }
}

/// Package `i`'s recorded source is absent.
pub open spec fn src_absent(g: DependencyGraph, i: int) -> bool {
    g.packages@[i].source is None
}

/// `t` is an admissible lookup target for the query: it carries the name
/// and version, and it comes from the first stage that has any match —
/// exact source, then no recorded source, then any source.
pub open spec fn is_lookup_target(
    g: DependencyGraph,
    t: int,
    nm: Seq<char>,
    ver: Seq<char>,
    src: Option<Seq<char>>,
) -> bool {
    &&& nv_match(g, t, nm, ver)
    &&& {
        ||| src_match(g, t, src)
        ||| (src_absent(g, t) && forall|i: int| nv_match(g, i, nm, ver) ==> !src_match(g, i, src))
        ||| (forall|i: int|
            nv_match(g, i, nm, ver) ==> !src_match(g, i, src) && !src_absent(g, i))
    }
}

/// `t` is the one position the three-stage lookup settles on: the first
/// package (in list order) carrying the name and version within the first
/// stage that has any match — exact source agreement, then no recorded
/// source, then any source. At most one position satisfies this.
pub open spec fn is_selected_target(
    g: DependencyGraph,
    t: int,
    nm: Seq<char>,
    ver: Seq<char>,
    src: Option<Seq<char>>,
) -> bool {
    if exists|i: int| #[trigger] nv_match(g, i, nm, ver) && src_match(g, i, src) {
        nv_match(g, t, nm, ver) && src_match(g, t, src) && forall|j: int|
            0 <= j < t ==> !(#[trigger] nv_match(g, j, nm, ver) && src_match(g, j, src))
    } else if exists|i: int| #[trigger] nv_match(g, i, nm, ver) && src_absent(g, i) {
        nv_match(g, t, nm, ver) && src_absent(g, t) && forall|j: int|
            0 <= j < t ==> !(#[trigger] nv_match(g, j, nm, ver) && src_absent(g, j))
    } else {
        nv_match(g, t, nm, ver) && forall|j: int| 0 <= j < t ==> !nv_match(g, j, nm, ver)
    }
}

/// `idxs` walks the adjacency from some root to its last position.
pub open spec fn is_graph_path(g: DependencyGraph, idxs: Seq<usize>) -> bool {
    &&& idxs.len() >= 1
    &&& forall|m: int| 0 <= m < idxs.len() ==> #[trigger] idxs[m] < g.packages@.len()
    &&& g.roots@.contains(idxs[0])
    &&& forall|m: int|
        0 <= m < idxs.len() - 1 ==> g.adjacency@[idxs[m] as int]@.contains(#[trigger] idxs[m + 1])
}

/// Some root reaches position `v` along the adjacency.
pub open spec fn spec_reachable(g: DependencyGraph, v: usize) -> bool {
    exists|idxs: Seq<usize>| is_graph_path(g, idxs) && idxs.last() == v
}

/// One adjacency step preserves reachability.
proof fn lemma_reach_step(g: DependencyGraph, v: usize, w: usize)
    requires
        spec_reachable(g, v),
        w < g.packages@.len(),
        v < g.adjacency@.len(),
        g.adjacency@[v as int]@.contains(w),
    ensures
        spec_reachable(g, w),
{
    let idxs = choose|idxs: Seq<usize>| is_graph_path(g, idxs) && idxs.last() == v;
    let ext = idxs.push(w);
    assert(ext[0] == idxs[0]);
    assert forall|m: int| 0 <= m < ext.len() - 1 implies g.adjacency@[ext[m] as int]@.contains(
        #[trigger] ext[m + 1],
    ) by {
        if m < idxs.len() - 1 {
            assert(ext[m] == idxs[m]);
            assert(ext[m + 1] == idxs[m + 1]);
        } else {
            assert(ext[m] == v);
            assert(ext[m + 1] == w);
        }
    }
    assert(is_graph_path(g, ext) && ext.last() == w);
}

/// How many positions are marked.
pub open spec fn count_trues(s: Seq<bool>) -> nat
    decreases s.len(),
{
    if s.len() == 0 {
        0
    } else {
        count_trues(s.drop_last()) + if s.last() {
            1nat
        } else {
            0nat
        }
    }
}

pub proof fn lemma_count_trues_le(s: Seq<bool>)
    ensures
        count_trues(s) <= s.len(),
    decreases s.len(),
{
    if s.len() > 0 {
        lemma_count_trues_le(s.drop_last());
    }
}

pub proof fn lemma_count_trues_zero(s: Seq<bool>)
    requires
        forall|i: int| 0 <= i < s.len() ==> !s[i],
    ensures
        count_trues(s) == 0,
    decreases s.len(),
{
    if s.len() > 0 {
        lemma_count_trues_zero(s.drop_last());
    }
}

pub proof fn lemma_count_trues_update(s: Seq<bool>, i: int)
    requires
        0 <= i < s.len(),
        !s[i],
    ensures
        count_trues(s.update(i, true)) == count_trues(s) + 1,
    decreases s.len(),
{
    let u = s.update(i, true);
    if i == s.len() - 1 {
        assert(u.drop_last() =~= s.drop_last());
    } else {
        assert(u.drop_last() =~= s.drop_last().update(i, true));
        lemma_count_trues_update(s.drop_last(), i);
    }
}

/// A set of marks that contains every valid root and is closed under the
/// adjacency contains everything any root reaches.
proof fn lemma_closed_covers_reachable(g: DependencyGraph, visited: Seq<bool>, idxs: Seq<usize>)
    requires
        visited.len() == g.packages@.len(),
        g.adjacency@.len() == g.packages@.len(),
        is_graph_path(g, idxs),
        forall|r: int|
            #![trigger g.roots@[r]]
            0 <= r < g.roots@.len() && g.roots@[r] < g.packages@.len() ==> visited[g.roots@[
                r
            ] as int],
        forall|v: int, e: int|
            #![trigger g.adjacency@[v]@[e]]
            0 <= v < visited.len() && visited[v] && 0 <= e < g.adjacency@[v]@.len()
                && g.adjacency@[v]@[e] < g.packages@.len() ==> visited[g.adjacency@[v]@[
                e
            ] as int],
    ensures
        visited[idxs.last() as int],
    decreases idxs.len(),
{
    if idxs.len() == 1 {
        let r = choose|r: int| 0 <= r < g.roots@.len() && g.roots@[r] == idxs[0];
        assert(g.roots@[r] < g.packages@.len());
        assert(visited[g.roots@[r] as int]);
    } else {
        let front = idxs.drop_last();
        assert(is_graph_path(g, front)) by {
            assert forall|m: int| 0 <= m < front.len() - 1 implies g.adjacency@[
                front[m] as int
            ]@.contains(#[trigger] front[m + 1]) by {
                assert(front[m] == idxs[m]);
                assert(front[m + 1] == idxs[m + 1]);
            }
        }
        lemma_closed_covers_reachable(g, visited, front);
        let prev = idxs[idxs.len() - 2];
        let lastv = idxs.last();
        assert(front.last() == prev);
        assert(idxs[idxs.len() - 2 + 1] == lastv);
        assert(g.adjacency@[prev as int]@.contains(lastv));
        let e = choose|e: int|
            0 <= e < g.adjacency@[prev as int]@.len() && g.adjacency@[prev as int]@[e] == lastv;
        assert(visited[g.adjacency@[prev as int]@[e] as int]);
    }
}

/// The search state the breadth-first walk maintains: the queue lists
/// exactly the visited positions (each of which it holds somewhere), every
/// visited position is reachable from a root, each parent link records the
/// one step it was discovered by, and the recorded distances never
/// decrease along the queue.
pub open spec fn bfs_inv(
    g: DependencyGraph,
    visited: Seq<bool>,
    dist: Seq<usize>,
    parent: Seq<Option<usize>>,
    queue: Seq<usize>,
) -> bool {
    &&& g.wf()
    &&& visited.len() == g.packages@.len()
    &&& dist.len() == g.packages@.len()
    &&& parent.len() == g.packages@.len()
    &&& queue.len() == count_trues(visited)
    &&& forall|q: int| 0 <= q < queue.len() ==> #[trigger] queue[q] < g.packages@.len()
    &&& forall|q: int| #![trigger queue[q]] 0 <= q < queue.len() ==> visited[queue[q] as int]
    &&& forall|v: int|
        0 <= v < visited.len() && visited[v] ==> #[trigger] dist[v] < queue.len()
    &&& forall|v: int|
        0 <= v < visited.len() && #[trigger] visited[v] ==> exists|q: int|
            0 <= q < queue.len() && queue[q] == v as usize
    &&& queue_monotone(dist, queue)
    &&& forall|v: int|
        0 <= v < visited.len() && #[trigger] visited[v] ==> spec_reachable(g, v as usize)
    &&& forall|v: int|
        0 <= v < visited.len() && #[trigger] visited[v] && parent[v] is None ==> g.roots@.contains(
            v as usize,
        )
    &&& forall|v: int|
        0 <= v < parent.len() ==> ((#[trigger] parent[v]) matches Some(u) ==> u
            < visited.len() && visited[u as int] && visited[v] && g_has_edge(g, u, v as usize)
            && dist[v] == dist[u as int] + 1)
}

/// Recorded distances never decrease along the queue: positions are
/// discovered in distance order.
#[verifier::opaque]
pub open spec fn queue_monotone(dist: Seq<usize>, queue: Seq<usize>) -> bool {
    forall|q1: int, q2: int|
        #![trigger queue[q1], queue[q2]]
        0 <= q1 <= q2 < queue.len() ==> dist[queue[q1] as int] <= dist[queue[q2] as int]
}

/// Every queued position's distance is within one step of the queue
/// head's: the breadth-first frontier is at most one level deep.
pub open spec fn frontier_bound(dist: Seq<usize>, queue: Seq<usize>, head: int) -> bool {
    0 <= head < queue.len() ==> forall|q: int|
        #![trigger queue[q]]
        0 <= q < queue.len() ==> dist[queue[q] as int] <= dist[queue[head] as int] + 1
}

/// Every visited position still waiting on the queue's open suffix aside,
/// each visited position has all its listed dependencies visited, at most
/// one step further out.
#[verifier::opaque]
pub open spec fn bfs_closed_from(
    g: DependencyGraph,
    visited: Seq<bool>,
    dist: Seq<usize>,
    queue: Seq<usize>,
    head: int,
) -> bool {
    forall|v: int|
        0 <= v < visited.len() && visited[v] ==> (exists|q: int|
            head <= q < queue.len() && queue[q] == v as usize) || (forall|e: int|
            #![trigger g.adjacency@[v]@[e]]
            0 <= e < g.adjacency@[v]@.len() && g.adjacency@[v]@[e] < g.packages@.len()
                ==> visited[g.adjacency@[v]@[e] as int] && dist[g.adjacency@[v]@[e] as int]
                <= dist[v] + 1)
}

/// Every listed root is visited at distance zero.
pub open spec fn roots_seeded(g: DependencyGraph, visited: Seq<bool>, dist: Seq<usize>) -> bool {
    forall|r2: int|
        #![trigger g.roots@[r2]]
        0 <= r2 < g.roots@.len() && g.roots@[r2] < g.packages@.len() ==> visited[g.roots@[
            r2
        ] as int] && dist[g.roots@[r2] as int] == 0
}

/// In a breadth-first state popped at `head`, no graph path undercuts the
/// recorded distances: a visited position at path position `m` has
/// distance at most `m`, and a path can only reach an unvisited position
/// beyond the frontier's distance.
#[verifier::rlimit(100)]
proof fn lemma_bfs_min(
    g: DependencyGraph,
    visited: Seq<bool>,
    dist: Seq<usize>,
    parent: Seq<Option<usize>>,
    queue: Seq<usize>,
    head: int,
    p: Seq<usize>,
    m: int,
)
    requires
        bfs_inv(g, visited, dist, parent, queue),
        frontier_bound(dist, queue, head),
        bfs_closed_from(g, visited, dist, queue, head),
        roots_seeded(g, visited, dist),
        0 <= head < queue.len(),
        is_graph_path(g, p),
        0 <= m < p.len(),
    ensures
        visited[p[m] as int] ==> dist[p[m] as int] <= m,
        !visited[p[m] as int] ==> m >= dist[queue[head] as int] + 1,
    decreases m,
{
    reveal(queue_monotone);
    reveal(bfs_closed_from);
    if m == 0 {
        let r2 = choose|r2: int| 0 <= r2 < g.roots@.len() && g.roots@[r2] == p[0];
        assert(g.roots@[r2] < g.packages@.len());
        assert(visited[p[0] as int] && dist[p[0] as int] == 0);
    } else {
        lemma_bfs_min(g, visited, dist, parent, queue, head, p, m - 1);
        let prev = p[m - 1];
        let cur = p[m];
        assert(g.adjacency@[prev as int]@.contains(p[m - 1 + 1]));
        let e = choose|e: int|
            0 <= e < g.adjacency@[prev as int]@.len() && g.adjacency@[prev as int]@[e] == cur;
        if visited[prev as int] {
            assert(dist[prev as int] <= m - 1);
            if exists|q: int| head <= q < queue.len() && queue[q] == prev {
                // prev still waits on the frontier: its distance is at least
                // the head's, so anything beyond it lies past the frontier
                let q2 = choose|q: int| head <= q < queue.len() && queue[q] == prev;
                assert(dist[queue[head] as int] <= dist[queue[q2] as int]);
                if visited[cur as int] {
                    let qc = choose|qc: int| 0 <= qc < queue.len() && queue[qc] == cur;
                    assert(dist[queue[qc] as int] <= dist[queue[head] as int] + 1);
                    assert(dist[cur as int] <= dist[prev as int] + 1);
                } else {
                    assert(m - 1 >= dist[queue[head] as int]);
                }
            } else {
                // prev was fully processed: the edge to cur was relaxed
                assert(g.adjacency@[prev as int]@[e] < g.packages@.len());
                assert(visited[g.adjacency@[prev as int]@[e] as int] && dist[g.adjacency@[
                    prev as int
                ]@[e] as int] <= dist[prev as int] + 1);
            }
        } else {
            assert(m - 1 >= dist[queue[head] as int] + 1);
            if visited[cur as int] {
                let qc = choose|qc: int| 0 <= qc < queue.len() && queue[qc] == cur;
                assert(dist[queue[qc] as int] <= dist[queue[head] as int] + 1);
            }
        }
    }
}

impl DependencyGraph {
    /// Visits every not-yet-seen dependency of `node`, recording `node` as
    /// its parent and appending it to the queue.
    #[verifier::rlimit(100)]
    fn expand_node(
        &self,
        node: usize,
        target: usize,
        head: usize,
        visited: &mut Vec<bool>,
        dist: &mut Vec<usize>,
        parent: &mut Vec<Option<usize>>,
        queue: &mut Vec<usize>,
    )
        requires
            bfs_inv(*self, old(visited)@, old(dist)@, old(parent)@, old(queue)@),
            frontier_bound(old(dist)@, old(queue)@, head as int),
            head < old(queue)@.len(),
            old(queue)@[head as int] == node,
            node < self.packages@.len(),
            node != target,
            target < self.packages@.len(),
            old(visited)@[target as int] ==> exists|q: int|
                head < q < old(queue)@.len() && old(queue)@[q] == target,
        ensures
            bfs_inv(*self, final(visited)@, final(dist)@, final(parent)@, final(queue)@),
            frontier_bound(final(dist)@, final(queue)@, head as int),
            final(queue)@.len() >= old(queue)@.len(),
            forall|q: int| 0 <= q < old(queue)@.len() ==> final(queue)@[q] == old(queue)@[q],
            forall|v: int|
                0 <= v < old(visited)@.len() && old(visited)@[v] ==> final(visited)@[v],
            forall|v: int|
                0 <= v < old(dist)@.len() && old(visited)@[v]
                    ==> final(dist)@[v] == old(dist)@[v],
            forall|e: int|
                #![trigger self.adjacency@[node as int]@[e]]
                0 <= e < self.adjacency@[node as int]@.len() && self.adjacency@[node as int]@[e]
                    < self.packages@.len() ==> final(visited)@[self.adjacency@[node as int]@[
                    e
                ] as int] && final(dist)@[self.adjacency@[node as int]@[e] as int]
                    <= final(dist)@[node as int] + 1,
            forall|v: int|
                0 <= v < final(visited)@.len() && final(visited)@[v] && !old(visited)@[v]
                    ==> exists|q: int|
                    old(queue)@.len() <= q < final(queue)@.len() && final(queue)@[q] == v as usize,
            final(visited)@[target as int] ==> exists|q: int|
                head < q < final(queue)@.len() && final(queue)@[q] == target,
    {
        let n = self.packages.len();
        let ghost pre_visited = old(visited)@;
        let ghost pre_queue = old(queue)@;
        let ghost pre_dist = old(dist)@;
        proof {
            lemma_count_trues_le(pre_visited);
        }
        let row_len = self.adjacency[node].len();
        let mut di: usize = 0;
        while di < row_len
            invariant
                bfs_inv(*self, visited@, dist@, parent@, queue@),
                frontier_bound(dist@, queue@, head as int),
                n == self.packages@.len(),
                node < n,
                node != target,
                target < n,
                visited@[node as int],
                head < pre_queue.len(),
                pre_queue[head as int] == node,
                row_len == self.adjacency@[node as int]@.len(),
                di <= row_len,
                queue@.len() <= n,
                queue@.len() >= pre_queue.len(),
                forall|q: int| 0 <= q < pre_queue.len() ==> queue@[q] == pre_queue[q],
                forall|v: int| 0 <= v < n && pre_visited[v] ==> visited@[v],
                forall|v: int| 0 <= v < n && pre_visited[v] ==> dist@[v] == pre_dist[v],
                forall|e: int|
                    #![trigger self.adjacency@[node as int]@[e]]
                    0 <= e < di && self.adjacency@[node as int]@[e] < n ==> visited@[
                        self.adjacency@[node as int]@[e] as int
                    ] && dist@[self.adjacency@[node as int]@[e] as int] <= dist@[node as int]
                        + 1,
                forall|v: int|
                    0 <= v < n && visited@[v] && !pre_visited[v] ==> exists|q: int|
                        pre_queue.len() <= q < queue@.len() && queue@[q] == v as usize,
                visited@[target as int] ==> exists|q: int|
                    head < q < queue@.len() && queue@[q] == target,
            decreases row_len - di,
        {
            let dep = self.adjacency[node][di];
            if dep < n && !visited[dep] {
                let ghost old_visited = visited@;
                let ghost old_queue = queue@;
                let ghost old_dist = dist@;
                proof {
                    // an unvisited position sits nowhere in the queue
                    assert forall|q: int| 0 <= q < queue@.len() implies queue@[q] != dep by {
                        assert(old_visited[queue@[q] as int]);
                    }
                    assert(queue@[head as int] == node);
                }
                visited.set(dep, true);
                let d = dist[node] + 1;
                dist.set(dep, d);
                parent.set(dep, Some(node));
                queue.push(dep);
                proof {
                    lemma_count_trues_update(old_visited, dep as int);
                    lemma_count_trues_le(visited@);
                    assert(self.adjacency@[node as int]@[di as int] == dep);
                    assert(self.adjacency@[node as int]@.contains(dep)) by {
                        assert(self.adjacency@[node as int]@[di as int] == dep);
                    }
                    lemma_reach_step(*self, node, dep);
                    assert(dist@ == old_dist.update(dep as int, d));
                    assert forall|q: int| 0 <= q < old_queue.len() implies dist@[queue@[
                        q
                    ] as int] == old_dist[old_queue[q] as int] by {
                        assert(old_queue[q] != dep);
                    }
                    // the queue stays distance-monotone: the new last entry
                    // sits one past the head, above everything queued
                    assert forall|q: int| 0 <= q < old_queue.len() implies dist@[queue@[
                        q
                    ] as int] <= d by {
                        assert(old_dist[old_queue[q] as int] <= old_dist[old_queue[
                            head as int
                        ] as int] + 1);
                    }
                    assert(queue_monotone(dist@, queue@)) by {
                        reveal(queue_monotone);
                        assert forall|q1: int, q2: int|
                            #![trigger queue@[q1], queue@[q2]]
                            0 <= q1 <= q2 < queue@.len() implies dist@[queue@[q1] as int]
                            <= dist@[queue@[q2] as int] by {
                            if q2 < old_queue.len() {
                                assert(queue@[q1] == old_queue[q1]);
                                assert(queue@[q2] == old_queue[q2]);
                                assert(old_dist[old_queue[q1] as int] <= old_dist[old_queue[
                                    q2
                                ] as int]);
                            } else {
                                assert(queue@[q2] == dep);
                                if q1 < old_queue.len() {
                                    assert(dist@[queue@[q1] as int] <= d);
                                }
                            }
                        }
                    }
                    assert forall|q: int|
                        #![trigger queue@[q]]
                        0 <= q < queue@.len() implies dist@[queue@[q] as int] <= dist@[queue@[
                        head as int] as int] + 1 by {
                        if q < old_queue.len() {
                            assert(old_dist[old_queue[q] as int] <= old_dist[old_queue[
                                head as int
                            ] as int] + 1);
                            assert(queue@[q] == old_queue[q]);
                        } else {
                            assert(queue@[q] == dep);
                        }
                    }
                    assert forall|v: int|
                        0 <= v < n && visited@[v] && !pre_visited[v] implies exists|q: int|
                        pre_queue.len() <= q < queue@.len() && queue@[q] == v as usize by {
                        if old_visited[v] {
                            let q = choose|q: int|
                                pre_queue.len() <= q < old_queue.len() && old_queue[q]
                                    == v as usize;
                            assert(queue@[q] == v as usize);
                        } else {
                            assert(v == dep as int);
                            assert(queue@[queue@.len() - 1] == v as usize);
                        }
                    }
                    assert forall|v: int| 0 <= v < n && visited@[v] implies exists|q: int|
                        0 <= q < queue@.len() && queue@[q] == v as usize by {
                        if old_visited[v] {
                            let q = choose|q: int|
                                0 <= q < old_queue.len() && old_queue[q] == v as usize;
                            assert(queue@[q] == v as usize);
                        } else {
                            assert(v == dep as int);
                            assert(queue@[queue@.len() - 1] == v as usize);
                        }
                    }
                    if visited@[target as int] {
                        if old_visited[target as int] {
                            let q = choose|q: int|
                                head < q < old_queue.len() && old_queue[q] == target;
                            assert(queue@[q] == target);
                        } else {
                            assert(queue@[queue@.len() - 1] == target);
                        }
                    }
                }
            } else {
                proof {
                    if dep < n {
                        // the dependency was already visited: it sits in the
                        // queue, so its distance is within a step of the head
                        let q = choose|q: int| 0 <= q < queue@.len() && queue@[q] == dep;
                        assert(queue@[head as int] == node);
                        assert(dist@[dep as int] <= dist@[node as int] + 1);
                    }
                }
            }
            di += 1;
        }
    }

    /// The row list lines up with the package list.
    pub open spec fn wf(self) -> bool {
        self.adjacency@.len() == self.packages@.len()
    }

    /// Finds the queried package: exact (name, version, source) first, then
    /// (name, version) with no recorded source, then any (name, version).
    fn lookup_target(&self, name: &str, version: &str, source: Option<&str>) -> (r: Option<
        usize,
    >)
        ensures
            r is None <==> forall|i: int| !nv_match(*self, i, name@, version@),
            r matches Some(t) ==> is_lookup_target(
                *self,
                t as int,
                name@,
                version@,
                match source {
                    Some(s) => Some(s@),
                    None => None,
                },
            ),
            r matches Some(t) ==> is_selected_target(
                *self,
                t as int,
                name@,
                version@,
                match source {
                    Some(s) => Some(s@),
                    None => None,
                },
            ),
    {
        let ghost src_view: Option<Seq<char>> = match source {
            Some(s) => Some(s@),
            None => None,
        };
        let n = self.packages.len();
        let mut exact: Option<usize> = None;
        let mut no_source: Option<usize> = None;
        let mut any: Option<usize> = None;
        let mut i: usize = 0;
        while i < n
            invariant
                n == self.packages@.len(),
                i <= n,
                src_view == (match source {
                    Some(s) => Some(s@),
                    None => None,
                }),
                exact matches Some(t) ==> nv_match(*self, t as int, name@, version@) && src_match(
                    *self,
                    t as int,
                    src_view,
                ),
                no_source matches Some(t) ==> nv_match(*self, t as int, name@, version@)
                    && src_absent(*self, t as int),
                any matches Some(t) ==> nv_match(*self, t as int, name@, version@),
                exact matches Some(t) ==> forall|j: int|
                    0 <= j < t ==> !(#[trigger] nv_match(*self, j, name@, version@) && src_match(
                        *self,
                        j,
                        src_view,
                    )),
                no_source matches Some(t) ==> forall|j: int|
                    0 <= j < t ==> !(#[trigger] nv_match(*self, j, name@, version@) && src_absent(
                        *self,
                        j,
                    )),
                any matches Some(t) ==> forall|j: int|
                    0 <= j < t ==> !nv_match(*self, j, name@, version@),
                exact is None ==> forall|k: int|
                    0 <= k < i && nv_match(*self, k, name@, version@) ==> !src_match(
                        *self,
                        k,
                        src_view,
                    ),
                no_source is None ==> forall|k: int|
                    0 <= k < i && nv_match(*self, k, name@, version@) ==> !src_absent(*self, k),
                any is None ==> forall|k: int| 0 <= k < i ==> !nv_match(*self, k, name@, version@),
            decreases n - i,
        {
            let p = &self.packages[i];
            if str_eq(p.name.as_str(), name) && str_eq(p.version.as_str(), version) {
                if any.is_none() {
                    any = Some(i);
                }
                let src_ok = match (&p.source, source) {
                    (Some(a), Some(b)) => str_eq(a.as_str(), b),
                    (None, None) => true,
                    _ => false,
                };
                if src_ok && exact.is_none() {
                    exact = Some(i);
                }
                let absent = match &p.source {
                    Some(_) => false,
                    None => true,
                };
                if absent && no_source.is_none() {
                    no_source = Some(i);
                }
            }
            i += 1;
        }
        match exact {
            Some(t) => {
                proof {
                    assert(nv_match(*self, t as int, name@, version@) && src_match(
                        *self,
                        t as int,
                        src_view,
                    ));
                }
                Some(t)
            },
            None => match no_source {
                Some(t) => {
                    proof {
                        assert forall|k: int| nv_match(*self, k, name@, version@) implies !src_match(
                            *self,
                            k,
                            src_view,
                        ) by {}
                        assert(nv_match(*self, t as int, name@, version@) && src_absent(
                            *self,
                            t as int,
                        ));
                    }
                    Some(t)
                },
                None => match any {
                    Some(t) => {
                        proof {
                            assert forall|k: int|
                                nv_match(*self, k, name@, version@) implies !src_match(
                                *self,
                                k,
                                src_view,
                            ) && !src_absent(*self, k) by {}
                        }
                        Some(t)
                    },
                    None => None,
                },
            },
        }
    }

    /// Runs the breadth-first walk to exhaustion, or until it pops the
    /// target off the queue: reports whether the target was popped, and at
    /// which queue position.
    #[verifier::rlimit(100)]
    fn bfs_search(
        &self,
        target: usize,
        visited: &mut Vec<bool>,
        dist: &mut Vec<usize>,
        parent: &mut Vec<Option<usize>>,
        queue: &mut Vec<usize>,
    ) -> (r: (bool, usize))
        requires
            bfs_inv(*self, old(visited)@, old(dist)@, old(parent)@, old(queue)@),
            frontier_bound(old(dist)@, old(queue)@, 0),
            bfs_closed_from(*self, old(visited)@, old(dist)@, old(queue)@, 0),
            roots_seeded(*self, old(visited)@, old(dist)@),
            target < self.packages@.len(),
        ensures
            bfs_inv(*self, final(visited)@, final(dist)@, final(parent)@, final(queue)@),
            roots_seeded(*self, final(visited)@, final(dist)@),
            r.0 ==> {
                &&& r.1 < final(queue)@.len()
                &&& final(queue)@[r.1 as int] == target
                &&& final(visited)@[target as int]
                &&& frontier_bound(final(dist)@, final(queue)@, r.1 as int)
                &&& bfs_closed_from(
                    *self,
                    final(visited)@,
                    final(dist)@,
                    final(queue)@,
                    r.1 as int,
                )
            },
            !r.0 ==> !final(visited)@[target as int] && bfs_closed_from(
                *self,
                final(visited)@,
                final(dist)@,
                final(queue)@,
                final(queue)@.len() as int,
            ),
    {
        let n = self.packages.len();
        proof {
            lemma_count_trues_le(visited@);
        }
        let mut head: usize = 0;
        let mut found = false;
        while head < queue.len() && !found
            invariant
                bfs_inv(*self, visited@, dist@, parent@, queue@),
                frontier_bound(dist@, queue@, head as int),
                bfs_closed_from(*self, visited@, dist@, queue@, head as int),
                roots_seeded(*self, visited@, dist@),
                n == self.packages@.len(),
                target < n,
                head <= queue@.len(),
                queue@.len() <= n,
                !found ==> (visited@[target as int] ==> exists|q: int|
                    head <= q < queue@.len() && queue@[q] == target),
                found ==> head < queue@.len() && queue@[head as int] == target && visited@[
                    target as int
                ],
            decreases n - head + (if found {
                0int
            } else {
                1int
            }),
        {
            let node = queue[head];
            if node == target {
                found = true;
            } else {
                let ghost pre_visited = visited@;
                let ghost pre_queue = queue@;
                let ghost pre_dist = dist@;
                proof {
                    if visited@[target as int] {
                        let q = choose|q: int|
                            head <= q < queue@.len() && queue@[q] == target;
                        assert(q != head);
                    }
                }
                self.expand_node(node, target, head, visited, dist, parent, queue);
                proof {
                    lemma_count_trues_le(visited@);
                    assert(bfs_closed_from(*self, visited@, dist@, queue@, head + 1)) by {
                        reveal(bfs_closed_from);
                        assert forall|v: int| 0 <= v < n && visited@[v] implies (exists|q: int|
                            head + 1 <= q < queue@.len() && queue@[q] == v as usize) || (forall|
                            e: int,
                        |
                            #![trigger self.adjacency@[v]@[e]]
                            0 <= e < self.adjacency@[v]@.len() && self.adjacency@[v]@[e] < n
                                ==> visited@[self.adjacency@[v]@[e] as int] && dist@[
                                self.adjacency@[v]@[e] as int
                            ] <= dist@[v] + 1) by {
                            if v == node {
                            } else if pre_visited[v] {
                                if exists|q: int|
                                    head <= q < pre_queue.len() && pre_queue[q] == v as usize {
                                    let q = choose|q: int|
                                        head <= q < pre_queue.len() && pre_queue[q] == v as usize;
                                    assert(q != head);
                                    assert(queue@[q] == v as usize);
                                } else {
                                    assert(dist@[v] == pre_dist[v]);
                                    assert forall|e: int|
                                        #![trigger self.adjacency@[v]@[e]]
                                        0 <= e < self.adjacency@[v]@.len() && self.adjacency@[
                                            v
                                        ]@[e] < n implies visited@[self.adjacency@[v]@[e] as int]
                                        && dist@[self.adjacency@[v]@[e] as int] <= dist@[v]
                                        + 1 by {
                                        assert(pre_visited[self.adjacency@[v]@[e] as int]);
                                        assert(dist@[self.adjacency@[v]@[e] as int] == pre_dist[
                                            self.adjacency@[v]@[e] as int
                                        ]);
                                    }
                                }
                            } else {
                                let q = choose|q: int|
                                    pre_queue.len() <= q < queue@.len() && queue@[q] == v as usize;
                                assert(head + 1 <= q);
                            }
                        }
                    }
                    if head + 1 < queue@.len() {
                        assert forall|q: int|
                            #![trigger queue@[q]]
                            0 <= q < queue@.len() implies dist@[queue@[q] as int] <= dist@[queue@[
                            head + 1] as int] + 1 by {
                            assert(dist@[queue@[head as int] as int] <= dist@[queue@[head
                                + 1] as int]) by {
                                reveal(queue_monotone);
                            }
                        }
                    }
                    if visited@[target as int] {
                        let q = choose|q: int|
                            head < q < queue@.len() && queue@[q] == target;
                        assert(head + 1 <= q);
                    }
                }
                head += 1;
            }
        }
        proof {
            if !found {
                assert(head == queue@.len());
                if visited@[target as int] {
                    let q = choose|q: int| head <= q < queue@.len() && queue@[q] == target;
                    assert(false);
                }
            }
        }
        (found, head)
    }

    /// Searches breadth-first from every root at once and reconstructs the
    /// name path to the queried package: `NotFound` when no package carries
    /// the name and version, `NoPath` when one does but no root reaches it.
    /// A found path has the fewest edges among all routes from all roots
    /// (stated below); among equally short routes the search keeps the
    /// first-discovered predecessors — the roots in their given order,
    /// then each row's edges in order — a choice the contract leaves open.
    #[verifier::rlimit(100)]
    pub fn path_to(&self, name: &str, version: &str, source: Option<&str>) -> (r: PathResult)
        requires
            self.wf(),
        ensures
            r is NotFound <==> (forall|i: int| !nv_match(*self, i, name@, version@)),
            r matches PathResult::Found(p) ==> exists|idxs: Seq<usize>|
                is_graph_path(*self, idxs) && p@.len() == idxs.len() && (forall|m: int|
                    0 <= m < idxs.len() ==> p@[m]@ == self.packages@[#[trigger] idxs[m] as int].name@)
                    && is_lookup_target(
                    *self,
                    idxs.last() as int,
                    name@,
                    version@,
                    match source {
                        Some(s) => Some(s@),
                        None => None,
                    },
                ) && is_selected_target(
                    *self,
                    idxs.last() as int,
                    name@,
                    version@,
                    match source {
                        Some(s) => Some(s@),
                        None => None,
                    },
                ) && (forall|other: Seq<usize>|
                    is_graph_path(*self, other) && other.last() == idxs.last()
                        ==> idxs.len() <= #[trigger] other.len()),
            r is NoPath ==> exists|t: usize|
                is_lookup_target(
                    *self,
                    t as int,
                    name@,
                    version@,
                    match source {
                        Some(s) => Some(s@),
                        None => None,
                    },
                ) && !spec_reachable(*self, t),
            r is NoPath ==> forall|t2: int|
                is_selected_target(
                    *self,
                    t2,
                    name@,
                    version@,
                    match source {
                        Some(s) => Some(s@),
                        None => None,
                    },
                ) ==> !(#[trigger] spec_reachable(*self, t2 as usize)),
    {
        let n = self.packages.len();
        let target = match self.lookup_target(name, version, source) {
            Some(t) => t,
            None => {
                return PathResult::NotFound;
            },
        };

        let mut visited: Vec<bool> = vec![false; n];
        let mut dist: Vec<usize> = vec![0; n];
        let mut parent: Vec<Option<usize>> = vec![None; n];
        let mut queue: Vec<usize> = Vec::new();

        proof {
            lemma_count_trues_zero(visited@);
        }
        let mut ri: usize = 0;
        while ri < self.roots.len()
            invariant
                self.wf(),
                n == self.packages@.len(),
                visited@.len() == n,
                dist@.len() == n,
                parent@.len() == n,
                ri <= self.roots@.len(),
                queue@.len() == count_trues(visited@),
                forall|q: int| 0 <= q < queue@.len() ==> #[trigger] queue@[q] < n,
                forall|q: int| #![trigger queue@[q]] 0 <= q < queue@.len() ==> visited@[queue@[q] as int],
                forall|v: int| 0 <= v < n ==> #[trigger] dist@[v] == 0,
                forall|v: int| 0 <= v < n ==> #[trigger] parent@[v] is None,
                forall|v: int| 0 <= v < n && visited@[v] ==> #[trigger] dist@[v] < queue@.len(),
                forall|v: int|
                    0 <= v < n && visited@[v] ==> exists|q: int|
                        0 <= q < queue@.len() && queue@[q] == v as usize,
                forall|v: int|
                    0 <= v < n && #[trigger] visited@[v] ==> parent@[v] is None && spec_reachable(*self, v as usize) && self.roots@.contains(v as usize),
                forall|r2: int|
                    #![trigger self.roots@[r2]]
                    0 <= r2 < ri && self.roots@[r2] < n ==> visited@[self.roots@[r2] as int],
            decreases self.roots@.len() - ri,
        {
            let root = self.roots[ri];
            if root < n && !visited[root] {
                let ghost old_visited = visited@;
                let ghost old_queue = queue@;
                visited.set(root, true);
                queue.push(root);
                proof {
                    lemma_count_trues_update(old_visited, root as int);
                    let idxs: Seq<usize> = seq![root];
                    assert(idxs[0] == root);
                    assert(self.roots@.contains(root)) by {
                        assert(self.roots@[ri as int] == root);
                    }
                    assert(is_graph_path(*self, idxs) && idxs.last() == root);
                    assert(spec_reachable(*self, root));
                    assert forall|v: int| 0 <= v < n && visited@[v] implies exists|q: int|
                        0 <= q < queue@.len() && queue@[q] == v as usize by {
                        if old_visited[v] {
                            let q = choose|q: int|
                                0 <= q < old_queue.len() && old_queue[q] == v as usize;
                            assert(queue@[q] == v as usize);
                        } else {
                            assert(v == root as int);
                            assert(queue@[queue@.len() - 1] == v as usize);
                        }
                    }
                }
            }
            ri += 1;
        }
        proof {
            lemma_count_trues_le(visited@);
            assert(queue_monotone(dist@, queue@)) by {
                reveal(queue_monotone);
            }
            assert(bfs_closed_from(*self, visited@, dist@, queue@, 0)) by {
                reveal(bfs_closed_from);
            }
        }

        let (found, head) = self.bfs_search(target, &mut visited, &mut dist, &mut parent, &mut queue);

        if !found {
            proof {
                assert(!visited@[target as int]);
                if spec_reachable(*self, target) {
                    reveal(bfs_closed_from);
                    let idxs = choose|idxs: Seq<usize>|
                        is_graph_path(*self, idxs) && idxs.last() == target;
                    assert forall|v: int, e: int|
                        0 <= v < visited@.len() && visited@[v] && 0 <= e
                            < self.adjacency@[v]@.len() && self.adjacency@[v]@[e] < n implies visited@[
                        #[trigger] self.adjacency@[v]@[e] as int] by {
                        if exists|q: int|
                            queue@.len() <= q < queue@.len() && queue@[q] == v as usize {
                            assert(false);
                        }
                    }
                    lemma_closed_covers_reachable(*self, visited@, idxs);
                    assert(false);
                }
                // the lookup settles on one position, so any selected
                // target is this one, and it has just been shown unreachable
                let srcv: Option<Seq<char>> = match source {
                    Some(s) => Some(s@),
                    None => None,
                };
                assert forall|t2: int|
                    is_selected_target(*self, t2, name@, version@, srcv) implies !spec_reachable(
                    *self,
                    t2 as usize,
                ) by {
                    assert(is_selected_target(*self, target as int, name@, version@, srcv));
                    assert(t2 == target as int);
                }
            }
            return PathResult::NoPath;
        }

        // walk the recorded parents from the target back to its root
        let mut back: Vec<usize> = Vec::new();
        back.push(target);
        let mut cur: usize = target;
        while parent[cur].is_some()
            invariant
                self.wf(),
                n == self.packages@.len(),
                visited@.len() == n,
                dist@.len() == n,
                parent@.len() == n,
                cur < n,
                visited@[cur as int],
                back@.len() >= 1,
                dist@[cur as int] <= dist@[target as int],
                back@.len() == dist@[target as int] - dist@[cur as int] + 1,
                back@[back@.len() - 1] == cur,
                forall|m: int| 0 <= m < back@.len() ==> #[trigger] back@[m] < n,
                back@[0] == target,
                forall|m: int|
                    #![trigger back@[m]]
                    0 <= m < back@.len() - 1 ==> g_has_edge(*self, back@[m + 1], back@[m]),
                forall|v: int|
                    0 <= v < n && #[trigger] visited@[v] && parent@[v] is None
                        ==> self.roots@.contains(v as usize),
                forall|v: int|
                    0 <= v < n ==> ((#[trigger] parent@[v]) matches Some(u) ==> u < n && visited@[
                        u as int
                    ] && visited@[v] && g_has_edge(*self, u, v as usize) && dist@[v] == dist@[
                        u as int
                    ] + 1),
            decreases dist@[cur as int],
        {
            let prev = parent[cur].unwrap();
            back.push(prev);
            cur = prev;
        }

        // reverse into root-to-target order and map positions to names
        let mut names: Vec<String> = Vec::new();
        let mut m: usize = back.len();
        while m > 0
            invariant
                n == self.packages@.len(),
                m <= back@.len(),
                forall|k: int| 0 <= k < back@.len() ==> #[trigger] back@[k] < n,
                names@.len() == back@.len() - m,
                forall|k: int|
                    0 <= k < names@.len() ==> #[trigger] names@[k]@ == self.packages@[back@[
                        back@.len() - 1 - k
                    ] as int].name@,
            decreases m,
        {
            m -= 1;
            names.push(self.packages[back[m]].name.clone());
        }
        proof {
            let ghost idxs = Seq::new(back@.len(), |k: int| back@[back@.len() - 1 - k]);
            assert(idxs.last() == back@[0]);
            assert(back@[0] == target);
            assert(self.roots@.contains(back@[back@.len() - 1]));
            assert(idxs[0] == back@[back@.len() - 1]);
            assert forall|m2: int| 0 <= m2 < idxs.len() - 1 implies self.adjacency@[
                idxs[m2] as int
            ]@.contains(#[trigger] idxs[m2 + 1]) by {
                let a = back@.len() - 1 - m2;
                assert(g_has_edge(*self, back@[a], back@[a - 1]));
                assert(idxs[m2] == back@[a]);
                assert(idxs[m2 + 1] == back@[a - 1]);
            }
            assert(is_graph_path(*self, idxs));
            assert forall|m2: int| 0 <= m2 < idxs.len() implies names@[m2]@ == self.packages@[
                #[trigger] idxs[m2] as int
            ].name@ by {
                assert(names@[m2]@ == self.packages@[back@[back@.len() - 1 - m2] as int].name@);
            }
            // the walk ended at a root, which sits at distance zero, so the
            // path length equals the recorded distance plus one — and no
            // graph path to the target is shorter than that
            let root_end = back@[back@.len() - 1];
            let r2 = choose|r2: int| 0 <= r2 < self.roots@.len() && self.roots@[r2] == root_end;
            assert(self.roots@[r2] < n);
            assert(dist@[root_end as int] == 0);
            assert(back@.len() == dist@[target as int] + 1);
            assert forall|other: Seq<usize>|
                is_graph_path(*self, other) && other.last() == idxs.last() implies idxs.len()
                <= #[trigger] other.len() by {
                lemma_bfs_min(
                    *self,
                    visited@,
                    dist@,
                    parent@,
                    queue@,
                    head as int,
                    other,
                    other.len() - 1,
                );
                assert(other[other.len() - 1] == target);
                assert(dist@[target as int] <= other.len() - 1);
            }
        }
        PathResult::Found(names)
    }
}

/// Position `u`'s adjacency row lists `v`.
pub open spec fn g_has_edge(g: DependencyGraph, u: usize, v: usize) -> bool {
    u < g.adjacency@.len() && g.adjacency@[u as int]@.contains(v)
}

} // verus!
