//! The normalized dependency-graph model: packages, annotated adjacency,
//! the duplicate index, and graph inversion.

use vstd::prelude::*;

verus! {

/// A kind tag on a declared dependency edge.
#[derive(Debug, Clone, Copy, PartialEq, Eq, Structural)]
pub enum DepKind {
    Normal,
    Development,
    Build,
    Unknown,
}

/// One resolved package instance.
#[derive(Debug)]
pub struct Package {
    /// The package manager's opaque unique key for this instance.
    pub id: String,
    pub name: String,
    pub version: String,
    /// Feature names activated on this instance.
    pub features: Vec<String>,
}

/// One declared edge of a resolved node: the target's position in the
/// package list (out of range when the input is inconsistent), and the
/// kind tags declared for it.
#[derive(Debug)]
pub struct RawEdge {
    pub target: usize,
    pub kinds: Vec<DepKind>,
}

/// An adjacency edge annotated with summarized dev/build flags.
#[derive(Debug, Clone, Copy)]
pub struct Edge {
    pub target: usize,
    pub is_dev: bool,
    pub is_build: bool,
}

/// The raw deps of one resolved node, positioned at `node` in the package
/// list.
#[derive(Debug)]
pub struct ResolveNode {
    pub node: usize,
    pub deps: Vec<RawEdge>,
}

/// An edge survives `exclude dev` when at least one of its kind tags is
/// something other than a dev tag.
pub open spec fn spec_includes_non_dev(kinds: Seq<DepKind>) -> bool {
    exists|i: int| 0 <= i < kinds.len() && kinds[i] != DepKind::Development
}

/// Whether at least one kind tag of `dep` is not a dev tag.
pub fn includes_non_dev(dep: &RawEdge) -> (r: bool)
    ensures
        r == spec_includes_non_dev(dep.kinds@),
{
    let mut i: usize = 0;
    while i < dep.kinds.len()
        invariant
            i <= dep.kinds@.len(),
            forall|k: int| 0 <= k < i ==> dep.kinds@[k] == DepKind::Development,
        decreases dep.kinds@.len() - i,
    {
        if dep.kinds[i] != DepKind::Development {
            return true;
        }
        i += 1;
    }
    false
}

/// Whether some kind tag equals `kind`.
pub open spec fn spec_has_kind(kinds: Seq<DepKind>, kind: DepKind) -> bool {
    exists|i: int| 0 <= i < kinds.len() && kinds[i] == kind
}

fn has_kind(dep: &RawEdge, kind: DepKind) -> (r: bool)
    ensures
        r == spec_has_kind(dep.kinds@, kind),
{
    let mut i: usize = 0;
    while i < dep.kinds.len()
        invariant
            i <= dep.kinds@.len(),
            forall|k: int| 0 <= k < i ==> dep.kinds@[k] != kind,
        decreases dep.kinds@.len() - i,
    {
        if dep.kinds[i] == kind {
            return true;
        }
        i += 1;
    }
    false
}

/// The annotated edge a raw edge becomes.
pub open spec fn spec_edge_of(dep: RawEdge) -> Edge {
    Edge {
        target: dep.target,
        is_dev: spec_has_kind(dep.kinds@, DepKind::Development),
        is_build: spec_has_kind(dep.kinds@, DepKind::Build),
    }
}

/// The annotated edges a raw dep list becomes: edges whose every kind tag
/// is a dev tag are dropped when `no_dev` is set.
pub open spec fn spec_annotate(deps: Seq<RawEdge>, no_dev: bool) -> Seq<Edge>
    decreases deps.len(),
{
    if deps.len() == 0 {
        Seq::empty()
    } else {
        let rest = spec_annotate(deps.drop_last(), no_dev);
        if no_dev && !spec_includes_non_dev(deps.last().kinds@) {
            rest
        } else {
            rest.push(spec_edge_of(deps.last()))
        }
    }
}

fn annotate_deps(deps: &Vec<RawEdge>, no_dev: bool) -> (r: Vec<Edge>)
    ensures
        r@ == spec_annotate(deps@, no_dev),
{
    let mut out: Vec<Edge> = Vec::new();
    let mut i: usize = 0;
    while i < deps.len()
        invariant
            i <= deps@.len(),
            out@ == spec_annotate(deps@.take(i as int), no_dev),
        decreases deps@.len() - i,
    {
        proof {
            assert(deps@.take(i + 1).drop_last() =~= deps@.take(i as int));
            assert(deps@.take(i + 1).last() == deps@[i as int]);
        }
        if !(no_dev && !includes_non_dev(&deps[i])) {
            let is_dev = has_kind(&deps[i], DepKind::Development);
            let is_build = has_kind(&deps[i], DepKind::Build);
            out.push(Edge { target: deps[i].target, is_dev, is_build });
        }
        i += 1;
    }
    proof {
        assert(deps@.take(deps@.len() as int) =~= deps@);
    }
    out
}

/// The normalized graph: packages, one adjacency row per package, and the
/// global duplicate flag of each package.
#[derive(Debug)]
pub struct ResolvedGraph {
    pub packages: Vec<Package>,
    pub adjacency: Vec<Vec<Edge>>,
    pub duplicate: Vec<bool>,
}

/// Package `i` is a duplicate: some other instance shares its name at a
/// different version.
pub open spec fn spec_is_duplicate(packages: Seq<Package>, i: int) -> bool {
    exists|j: int|
        0 <= j < packages.len() && packages[j].name@ == packages[i].name@
            && packages[j].version@ != packages[i].version@
}

impl ResolvedGraph {
    /// The row and flag lists line up with the package list.
    pub open spec fn wf_lens(self) -> bool {
        self.adjacency@.len() == self.packages@.len() && self.duplicate@.len()
            == self.packages@.len()
    }

    /// Package keys are unique and nonempty.
    pub open spec fn wf_ids(self) -> bool {
        &&& forall|i: int| 0 <= i < self.packages@.len() ==> #[trigger] self.packages@[i].id@.len() > 0
        &&& forall|i: int, j: int|
            0 <= i < self.packages@.len() && 0 <= j < self.packages@.len() && i != j
                ==> self.packages@[i].id@ != self.packages@[j].id@
    }

    /// Every duplicate flag reflects the global duplicate index.
    pub open spec fn wf_dups(self) -> bool {
        forall|i: int|
            0 <= i < self.duplicate@.len() ==> #[trigger] self.duplicate@[i]
                == spec_is_duplicate(self.packages@, i)
    }

    pub open spec fn wf(self) -> bool {
        self.wf_lens() && self.wf_ids() && self.wf_dups()
    }

    /// Checks the graph's well-formedness at run time, so that a host that
    /// assembled inconsistent input (clashing or empty package keys) can be
    /// turned away before any traversal.
    pub fn validate(&self) -> (r: bool)
        requires
            self.wf_lens(),
            self.wf_dups(),
        ensures
            r == self.wf(),
    {
        let n = self.packages.len();
        let mut i: usize = 0;
        while i < n
            invariant
                n == self.packages@.len(),
                i <= n,
                self.wf_lens(),
                self.wf_dups(),
                forall|k: int| 0 <= k < i ==> #[trigger] self.packages@[k].id@.len() > 0,
                forall|a: int, b: int|
                    0 <= a < i && 0 <= b < i && a != b ==> self.packages@[a].id@
                        != self.packages@[b].id@,
            decreases n - i,
        {
            if self.packages[i].id.as_str().is_empty() {
                return false;
            }
            let mut j: usize = 0;
            while j < i
                invariant
                    n == self.packages@.len(),
                    i < n,
                    j <= i,
                    forall|b: int| 0 <= b < j ==> self.packages@[b].id@ != self.packages@[
                        i as int
                    ].id@,
                decreases i - j,
            {
                if self.packages[j].id.eq(&self.packages[i].id) {
                    return false;
                }
                j += 1;
            }
            i += 1;
        }
        true
    }

    /// Builds the normalized graph: one annotated adjacency row per package
    /// (empty for packages the resolve set does not list), and the duplicate
    /// flag of every package.
    pub fn build(packages: Vec<Package>, nodes: &Vec<ResolveNode>, no_dev: bool) -> (r:
        ResolvedGraph)
        requires
            forall|a: int, b: int|
                0 <= a < nodes@.len() && 0 <= b < nodes@.len() && a != b ==> nodes@[a].node
                    != nodes@[b].node,
        ensures
            r.packages == packages,
            r.wf_lens(),
            r.wf_dups(),
            forall|k: int|
                0 <= k < nodes@.len() && nodes@[k].node < packages@.len()
                    ==> r.adjacency@[nodes@[k].node as int]@ == spec_annotate(
                    nodes@[k].deps@,
                    no_dev,
                ),
            forall|i: int|
                0 <= i < packages@.len() && !(exists|k: int|
                    0 <= k < nodes@.len() && (#[trigger] nodes@[k]).node == i)
                    ==> (#[trigger] r.adjacency@[i])@.len() == 0,
    {
        let n = packages.len();
        let mut adjacency: Vec<Vec<Edge>> = Vec::new();
        let mut i: usize = 0;
        while i < n
            invariant
                i <= n,
                adjacency@.len() == i,
                forall|k: int| 0 <= k < i ==> #[trigger] adjacency@[k]@.len() == 0,
            decreases n - i,
        {
            adjacency.push(Vec::new());
            i += 1;
        }
        let mut k: usize = 0;
        while k < nodes.len()
            invariant
                adjacency@.len() == n,
                n == packages@.len(),
                k <= nodes@.len(),
                forall|a: int, b: int|
                    0 <= a < nodes@.len() && 0 <= b < nodes@.len() && a != b ==> nodes@[a].node
                        != nodes@[b].node,
                forall|m: int|
                    0 <= m < k && nodes@[m].node < n ==> adjacency@[nodes@[m].node as int]@
                        == spec_annotate(nodes@[m].deps@, no_dev),
                forall|i: int|
                    0 <= i < n && !(exists|m: int|
                        0 <= m < k && (#[trigger] nodes@[m]).node == i)
                        ==> (#[trigger] adjacency@[i])@.len() == 0,
            decreases nodes@.len() - k,
        {
            let idx = nodes[k].node;
            if idx < n {
                let row = annotate_deps(&nodes[k].deps, no_dev);
                adjacency.set(idx, row);
            }
            k += 1;
        }
        let duplicate = compute_duplicates(&packages);
        ResolvedGraph { packages, adjacency, duplicate }
    }
}

fn compute_duplicates(packages: &Vec<Package>) -> (r: Vec<bool>)
    ensures
        r@.len() == packages@.len(),
        forall|i: int|
            0 <= i < r@.len() ==> #[trigger] r@[i] == spec_is_duplicate(packages@, i),
{
    let n = packages.len();
    let mut out: Vec<bool> = Vec::new();
    let mut i: usize = 0;
    while i < n
        invariant
            n == packages@.len(),
            i <= n,
            out@.len() == i,
            forall|k: int| 0 <= k < i ==> #[trigger] out@[k] == spec_is_duplicate(packages@, k),
        decreases n - i,
    {
        let mut dup = false;
        let mut j: usize = 0;
        while j < n
            invariant
                n == packages@.len(),
                i < n,
                j <= n,
                dup ==> spec_is_duplicate(packages@, i as int),
                !dup ==> forall|m: int|
                    0 <= m < j ==> !(packages@[m].name@ == packages@[i as int].name@
                        && packages@[m].version@ != packages@[i as int].version@),
            decreases n - j,
        {
            if !dup && packages[j].name.eq(&packages[i].name) && !packages[j].version.eq(
                &packages[i].version,
            ) {
                dup = true;
            }
            j += 1;
        }
        out.push(dup);
        i += 1;
    }
    out
}

/// How often an edge from `f` to `t` with the given flags occurs in a row.
pub open spec fn count_row(row: Seq<Edge>, t: int, d: bool, b: bool) -> nat
    decreases row.len(),
{
    if row.len() == 0 {
        0
    } else {
        count_row(row.drop_last(), t, d, b) + if row.last().target == t && row.last().is_dev == d
            && row.last().is_build == b {
            1nat
        } else {
            0nat
        }
    }
}

/// How often the adjacency holds an edge from `f` to `t` with the flags.
pub open spec fn edge_count(adj: Seq<Seq<Edge>>, f: int, t: int, d: bool, b: bool) -> nat {
    if 0 <= f < adj.len() {
        count_row(adj[f], t, d, b)
    } else {
        0
    }
}

/// `inv` is the edge-for-edge inversion of `adj`: the same number of rows;
/// each edge from `f` to a listed target `t` appears in `inv` as one from
/// `t` to `f`, with its dev/build annotation kept; and every inverted edge
/// aims at a row of `adj`. An edge of `adj` whose target is not a row
/// (an inconsistent input) has no place in the inversion.
pub open spec fn is_inversion(adj: Seq<Seq<Edge>>, inv: Seq<Seq<Edge>>) -> bool {
    &&& inv.len() == adj.len()
    &&& forall|f: int, t: int, d: bool, b: bool|
        0 <= t < adj.len() ==> #[trigger] edge_count(inv, t, f, d, b) == edge_count(
            adj,
            f,
            t,
            d,
            b,
        )
    &&& forall|t: int, i: int|
        0 <= t < inv.len() && 0 <= i < inv[t].len() ==> #[trigger] inv[t][i].target < adj.len()
}

/// A row with no edge aimed at `t` counts no edge to `t`.
proof fn lemma_count_row_zero(row: Seq<Edge>, t: int, d: bool, b: bool)
    requires
        forall|i: int| 0 <= i < row.len() ==> row[i].target != t,
    ensures
        count_row(row, t, d, b) == 0,
    decreases row.len(),
{
    if row.len() > 0 {
        lemma_count_row_zero(row.drop_last(), t, d, b);
    }
}

/// The views of the rows.
pub open spec fn rows_view(v: Seq<Vec<Edge>>) -> Seq<Seq<Edge>> {
    v.map_values(|r: Vec<Edge>| r@)
}

/// Law: inverting an adjacency twice, edge for edge, reproduces the
/// original adjacency exactly — every edge from `f` to `t` occurs equally
/// often in both, with its dev/build annotation kept.
pub proof fn lemma_invert_twice(g: Seq<Seq<Edge>>, g1: Seq<Seq<Edge>>, g2: Seq<Seq<Edge>>)
    requires
        forall|f: int, i: int|
            0 <= f < g.len() && 0 <= i < g[f].len() ==> #[trigger] g[f][i].target < g.len(),
        is_inversion(g, g1),
        is_inversion(g1, g2),
    ensures
        g2.len() == g.len(),
        forall|f: int, t: int, d: bool, b: bool|
            #[trigger] edge_count(g2, f, t, d, b) == edge_count(g, f, t, d, b),
{
    assert forall|f: int, t: int, d: bool, b: bool| #[trigger] edge_count(g2, f, t, d, b)
        == edge_count(g, f, t, d, b) by {
        if 0 <= f < g.len() {
            if 0 <= t < g.len() {
                assert(edge_count(g2, f, t, d, b) == edge_count(g1, t, f, d, b));
                assert(edge_count(g1, t, f, d, b) == edge_count(g, f, t, d, b));
            } else {
                // neither side lists an edge aimed outside the rows
                assert forall|i: int| 0 <= i < g2[f].len() implies g2[f][i].target != t by {}
                lemma_count_row_zero(g2[f], t, d, b);
                assert forall|i: int| 0 <= i < g[f].len() implies g[f][i].target != t by {}
                lemma_count_row_zero(g[f], t, d, b);
            }
        }
    }
}

/// Reverses every forward edge while keeping its dev/build annotation.
pub fn invert_graph(adjacency: &Vec<Vec<Edge>>) -> (r: Vec<Vec<Edge>>)
    ensures
        is_inversion(rows_view(adjacency@), rows_view(r@)),
{
    let n = adjacency.len();
    let mut out: Vec<Vec<Edge>> = Vec::new();
    let mut t: usize = 0;
    while t < n
        invariant
            n == adjacency@.len(),
            t <= n,
            out@.len() == t,
            forall|t2: int, i: int|
                0 <= t2 < t && 0 <= i < out@[t2]@.len() ==> #[trigger] out@[t2]@[i].target < n,
            forall|t2: int, f2: int, d: bool, b: bool|
                0 <= t2 < t ==> #[trigger] count_row(out@[t2]@, f2, d, b) == edge_count(
                    rows_view(adjacency@),
                    f2,
                    t2,
                    d,
                    b,
                ),
        decreases n - t,
    {
        let mut row: Vec<Edge> = Vec::new();
        let mut f: usize = 0;
        while f < n
            invariant
                n == adjacency@.len(),
                t < n,
                f <= n,
                forall|i: int| 0 <= i < row@.len() ==> #[trigger] row@[i].target < n,
                forall|g2: int, d: bool, b: bool|
                    #[trigger] count_row(row@, g2, d, b) == (if 0 <= g2 < f {
                        count_row(adjacency@[g2]@, t as int, d, b)
                    } else {
                        0
                    }),
            decreases n - f,
        {
            let m = adjacency[f].len();
            let mut k: usize = 0;
            while k < m
                invariant
                    n == adjacency@.len(),
                    t < n,
                    f < n,
                    m == adjacency@[f as int]@.len(),
                    k <= m,
                    forall|i: int| 0 <= i < row@.len() ==> #[trigger] row@[i].target < n,
                    forall|g2: int, d: bool, b: bool|
                        #[trigger] count_row(row@, g2, d, b) == (if 0 <= g2 < f {
                            count_row(adjacency@[g2]@, t as int, d, b)
                        } else if g2 == f {
                            count_row(adjacency@[f as int]@.take(k as int), t as int, d, b)
                        } else {
                            0
                        }),
                decreases m - k,
            {
                let e = adjacency[f][k];
                proof {
                    assert(adjacency@[f as int]@.take(k + 1).drop_last() =~= adjacency@[
                        f as int
                    ]@.take(k as int));
                    assert(adjacency@[f as int]@.take(k + 1).last() == adjacency@[f as int]@[
                        k as int
                    ]);
                }
                if e.target == t {
                    let ghost old_row = row@;
                    row.push(Edge { target: f, is_dev: e.is_dev, is_build: e.is_build });
                    proof {
                        assert forall|g2: int, d: bool, b: bool| #[trigger] count_row(
                            row@,
                            g2,
                            d,
                            b,
                        ) == (if 0 <= g2 < f {
                            count_row(adjacency@[g2]@, t as int, d, b)
                        } else if g2 == f {
                            count_row(adjacency@[f as int]@.take(k + 1), t as int, d, b)
                        } else {
                            0
                        }) by {
                            assert(row@.drop_last() =~= old_row);
                            assert(count_row(row@.drop_last(), g2, d, b) == count_row(
                                old_row,
                                g2,
                                d,
                                b,
                            ));
                            assert(count_row(
                                adjacency@[f as int]@.take(k + 1).drop_last(),
                                t as int,
                                d,
                                b,
                            ) == count_row(adjacency@[f as int]@.take(k as int), t as int, d, b));
                        }
                    }
                } else {
                    proof {
                        assert forall|g2: int, d: bool, b: bool| #[trigger] count_row(
                            row@,
                            g2,
                            d,
                            b,
                        ) == (if 0 <= g2 < f {
                            count_row(adjacency@[g2]@, t as int, d, b)
                        } else if g2 == f {
                            count_row(adjacency@[f as int]@.take(k + 1), t as int, d, b)
                        } else {
                            0
                        }) by {}
                    }
                }
                k += 1;
            }
            proof {
                assert(adjacency@[f as int]@.take(m as int) =~= adjacency@[f as int]@);
            }
            f += 1;
        }
        out.push(row);
        t += 1;
    }
    proof {
        assert forall|f: int, t2: int, d: bool, b: bool|
            0 <= t2 < n implies #[trigger] edge_count(rows_view(out@), t2, f, d, b) == edge_count(
            rows_view(adjacency@),
            f,
            t2,
            d,
            b,
        ) by {
            assert(rows_view(out@)[t2] == out@[t2]@);
            if !(0 <= f < n) {
                assert(count_row(out@[t2]@, f, d, b) == 0);
            } else {
                assert(rows_view(adjacency@)[f] == adjacency@[f]@);
            }
        }
        assert forall|t2: int, i: int|
            0 <= t2 < rows_view(out@).len() && 0 <= i < rows_view(out@)[t2].len() implies #[trigger] rows_view(
            out@,
        )[t2][i].target < rows_view(adjacency@).len() by {
            assert(rows_view(out@)[t2] == out@[t2]@);
        }
    }
    out
}

} // verus!
