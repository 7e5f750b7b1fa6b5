//! The tree builder: bounded, cycle-safe recursive traversal producing a
//! display tree for a root set and view options.

use vstd::prelude::*;
use crate::error::{ErrorCode, UpkeepError};
use crate::graph::{Edge, ResolvedGraph};
use crate::strings::seq_lt;
use crate::strings::str_lt;

verus! {

/// Hard traversal ceiling, independent of the requested depth, so that
/// pathological graphs end in a reported error rather than an overflow.
pub const MAX_TREE_DEPTH: usize = 200;

/// View options for one tree request.
#[derive(Debug, Clone)]
pub struct TreeArgs {
    pub depth: Option<usize>,
    pub duplicates: bool,
    pub invert: Option<String>,
    pub features: bool,
    pub no_dev: bool,
}

/// One node of a built display tree. A synthetic root (virtual workspace,
/// or an ambiguous inverted target) carries an empty `package_id`.
#[derive(Debug)]
pub struct TreeNode {
    pub name: String,
    pub version: String,
    pub package_id: String,
    pub features: Vec<String>,
    pub dependencies: Vec<TreeNode>,
    pub is_dev: bool,
    pub is_build: bool,
    pub duplicate: bool,
}

impl TreeNode {
    /// Some node of this subtree carries the duplicate flag.
    pub open spec fn has_dup(self) -> bool
        decreases self,
    {
        self.duplicate || exists|i: int|
            0 <= i < self.dependencies@.len() && self.dependencies@[i].has_dup()
    }

    /// Every package key on a downward path from here is new: none is in
    /// `seen`, and none repeats below itself.
    pub open spec fn paths_avoid(self, seen: Set<Seq<char>>) -> bool
        decreases self,
    {
        &&& !seen.contains(self.package_id@)
        &&& forall|i: int|
            0 <= i < self.dependencies@.len() ==> self.dependencies@[i].paths_avoid(
                seen.insert(self.package_id@),
            )
    }

    /// Every package key in this subtree is nonempty.
    pub open spec fn keys_nonempty(self) -> bool
        decreases self,
    {
        self.package_id@.len() > 0 && forall|i: int|
            0 <= i < self.dependencies@.len() ==> self.dependencies@[i].keys_nonempty()
    }

    /// No child list goes deeper than `k` more levels below this node.
    pub open spec fn depth_bounded(self, k: int) -> bool
        decreases self,
    {
        if k <= 0 {
            self.dependencies@.len() == 0
        } else {
            forall|i: int|
                0 <= i < self.dependencies@.len() ==> self.dependencies@[i].depth_bounded(k - 1)
        }
    }

    /// The direct children are ordered by package name, never descending.
    pub open spec fn children_sorted(self) -> bool {
        forall|i: int, j: int|
            0 <= i < j < self.dependencies@.len() ==> !seq_lt(
                self.dependencies@[j].name@,
                self.dependencies@[i].name@,
            )
    }

    /// An empty tree node with a given name, used for synthetic roots such
    /// as the root of an inverted tree over several versions.
    pub fn empty(name: &str) -> (r: TreeNode)
        ensures
            r.name@ == name@,
            r.version@.len() == 0,
            r.package_id@.len() == 0,
            r.features@.len() == 0,
            r.dependencies@.len() == 0,
            !r.is_dev,
            !r.is_build,
            !r.duplicate,
    {
        TreeNode {
            name: name.to_owned(),
            version: String::new(),
            package_id: String::new(),
            features: Vec::new(),
            dependencies: Vec::new(),
            is_dev: false,
            is_build: false,
            duplicate: false,
        }
    }

    /// The synthetic root for a virtual workspace, which has no root
    /// package of its own; its children become the workspace members.
    pub fn virtual_root() -> (r: TreeNode)
        ensures
            r.name@ == "(workspace)"@,
            r.version@.len() == 0,
            r.package_id@.len() == 0,
            r.features@.len() == 0,
            r.dependencies@.len() == 0,
            !r.is_dev,
            !r.is_build,
            !r.duplicate,
    {
        TreeNode {
            name: "(workspace)".to_owned(),
            version: String::new(),
            package_id: String::new(),
            features: Vec::new(),
            dependencies: Vec::new(),
            is_dev: false,
            is_build: false,
            duplicate: false,
        }
    }
}

/// A downward-growing path never repeats a key, and grows only within a
/// larger forbidden set: adding a key that never occurs in the subtree
/// keeps the property. The empty key never occurs where all keys are
/// nonempty.
proof fn lemma_avoid_insert_empty(t: TreeNode, seen: Set<Seq<char>>)
    requires
        t.paths_avoid(seen),
        t.keys_nonempty(),
    ensures
        t.paths_avoid(seen.insert(Seq::empty())),
    decreases t,
{
    assert forall|i: int| 0 <= i < t.dependencies@.len() implies t.dependencies@[i].paths_avoid(
        seen.insert(Seq::empty()).insert(t.package_id@),
    ) by {
        lemma_avoid_insert_empty(t.dependencies@[i], seen.insert(t.package_id@));
        assert(seen.insert(t.package_id@).insert(Seq::empty()) =~= seen.insert(
            Seq::empty(),
        ).insert(t.package_id@));
    }
}

/// The name a child edge sorts under: the target's package name, or the
/// sentinel `"~"` (which sorts after ASCII names) when the target is not
/// in the package list.
pub open spec fn edge_name(g: ResolvedGraph, e: Edge) -> Seq<char> {
    if e.target < g.packages@.len() {
        g.packages@[e.target as int].name@
    } else {
        "~"@
    }
}

fn edge_name_exec<'a>(g: &'a ResolvedGraph, e: &Edge) -> (r: &'a str)
    ensures
        r@ == edge_name(*g, *e),
{
    if e.target < g.packages.len() {
        g.packages[e.target].name.as_str()
    } else {
        "~"
    }
}

/// The row's edges reordered by target package name, never descending;
/// the same edges, as often as before.
fn sorted_children(g: &ResolvedGraph, row: &Vec<Edge>) -> (r: Vec<Edge>)
    ensures
        r@.len() == row@.len(),
        r@.to_multiset() == row@.to_multiset(),
        forall|i: int, j: int|
            0 <= i < j < r@.len() ==> !seq_lt(edge_name(*g, r@[j]), edge_name(*g, r@[i])),
{
    broadcast use vstd::seq_lib::group_to_multiset_ensures;
    broadcast use vstd::multiset::group_multiset_axioms;

    let mut rem: Vec<Edge> = Vec::new();
    let mut i: usize = 0;
    while i < row.len()
        invariant
            i <= row@.len(),
            rem@ == row@.take(i as int),
        decreases row@.len() - i,
    {
        rem.push(row[i]);
        proof {
            assert(row@.take(i + 1) =~= row@.take(i as int).push(row@[i as int]));
        }
        i += 1;
    }
    proof {
        assert(row@.take(row@.len() as int) =~= row@);
    }
    let mut out: Vec<Edge> = Vec::new();
    proof {
        assert(out@ + rem@ =~= row@);
    }
    while rem.len() > 0
        invariant
            out@.len() + rem@.len() == row@.len(),
            (out@ + rem@).to_multiset() =~= row@.to_multiset(),
            forall|i2: int, j2: int|
                0 <= i2 < j2 < out@.len() ==> !seq_lt(
                    edge_name(*g, out@[j2]),
                    edge_name(*g, out@[i2]),
                ),
            forall|i2: int, k2: int|
                0 <= i2 < out@.len() && 0 <= k2 < rem@.len() ==> !seq_lt(
                    edge_name(*g, rem@[k2]),
                    edge_name(*g, out@[i2]),
                ),
        decreases rem@.len(),
    {
        let mut mi: usize = 0;
        let mut k: usize = 1;
        while k < rem.len()
            invariant
                mi < k <= rem@.len(),
                forall|k2: int|
                    0 <= k2 < k ==> !seq_lt(edge_name(*g, rem@[k2]), edge_name(*g, rem@[mi as int])),
            decreases rem@.len() - k,
        {
            if str_lt(edge_name_exec(g, &rem[k]), edge_name_exec(g, &rem[mi])) {
                proof {
                    assert forall|k2: int| 0 <= k2 < k implies !seq_lt(
                        edge_name(*g, rem@[k2]),
                        edge_name(*g, rem@[k as int]),
                    ) by {
                        if seq_lt(edge_name(*g, rem@[k2]), edge_name(*g, rem@[k as int])) {
                            crate::strings::lemma_seq_lt_trans(
                                edge_name(*g, rem@[k2]),
                                edge_name(*g, rem@[k as int]),
                                edge_name(*g, rem@[mi as int]),
                            );
                        }
                    }
                }
                mi = k;
            }
            k += 1;
        }
        let ghost old_rem = rem@;
        let ghost old_out = out@;
        let e = rem.remove(mi);
        out.push(e);
        proof {
            broadcast use vstd::seq_lib::group_to_multiset_ensures;
            broadcast use vstd::multiset::group_multiset_axioms;

            assert(old_rem.contains(old_rem[mi as int]));
            assert(old_rem.to_multiset().count(e) > 0);
            assert(rem@ == old_rem.remove(mi as int));
            assert(old_rem.remove(mi as int).to_multiset() =~= old_rem.to_multiset().remove(e));
            assert(out@ == old_out.push(e));
            assert(old_out.push(e).to_multiset() =~= old_out.to_multiset().insert(e));
            vstd::seq_lib::lemma_multiset_commutative(old_out, old_rem);
            vstd::seq_lib::lemma_multiset_commutative(out@, rem@);
            assert((out@ + rem@).to_multiset() =~= row@.to_multiset());
            assert forall|k2: int| 0 <= k2 < rem@.len() implies !seq_lt(
                edge_name(*g, rem@[k2]),
                edge_name(*g, e),
            ) by {
                if k2 < mi {
                    assert(rem@[k2] == old_rem[k2]);
                } else {
                    assert(rem@[k2] == old_rem[k2 + 1]);
                }
            }
        }
    }
    out
}

/// Every edge of the adjacency points into the package list.
pub open spec fn targets_valid(g: ResolvedGraph) -> bool {
    forall|f: int, i: int|
        0 <= f < g.adjacency@.len() && 0 <= i < g.adjacency@[f]@.len()
            ==> #[trigger] g.adjacency@[f]@[i].target < g.packages@.len()
}

/// The set of package keys whose position is marked in `path`.
pub open spec fn path_keys(g: ResolvedGraph, path: Seq<bool>) -> Set<Seq<char>> {
    Set::new(
        |k: Seq<char>|
            exists|i: int| 0 <= i < path.len() && path[i] && g.packages@[i].id@ == k,
    )
}

impl TreeNode {
    /// Children at every level are ordered by name.
    pub open spec fn sorted_rec(self) -> bool
        decreases self,
    {
        self.children_sorted() && forall|i: int|
            0 <= i < self.dependencies@.len() ==> self.dependencies@[i].sorted_rec()
    }

    /// The duplicates-only pruning held at every level: each retained
    /// subtree leads to at least one duplicate-flagged package, all the
    /// way down.
    pub open spec fn dup_view_ok(self) -> bool
        decreases self,
    {
        forall|i: int|
            0 <= i < self.dependencies@.len() ==> (#[trigger] self.dependencies@[i]).has_dup()
                && self.dependencies@[i].dup_view_ok()
    }
}

/// The fields a built node takes from its package and its reaching edge.
pub open spec fn node_fields(
    g: ResolvedGraph,
    t: TreeNode,
    idx: int,
    is_dev: bool,
    is_build: bool,
    with_features: bool,
) -> bool {
    &&& 0 <= idx < g.packages@.len()
    &&& t.name@ == g.packages@[idx].name@
    &&& t.version@ == g.packages@[idx].version@
    &&& t.package_id@ == g.packages@[idx].id@
    &&& t.is_dev == is_dev
    &&& t.is_build == is_build
    &&& t.duplicate == g.duplicate@[idx]
    &&& (!with_features ==> t.features@.len() == 0)
    &&& (with_features ==> t.features@.len() == g.packages@[idx].features@.len() && forall|i: int|
        0 <= i < t.features@.len() ==> t.features@[i]@ == g.packages@[idx].features@[i]@)
}

/// The subtree below a node at package position `idx` follows the graph:
/// every child corresponds to an edge of `idx`'s adjacency row aimed at a
/// listed package, carries that edge's dev/build annotation and that
/// package's fields (per `node_fields`), and its own subtree follows the
/// graph from there in turn.
pub open spec fn subtree_follows(
    g: ResolvedGraph,
    t: TreeNode,
    idx: int,
    with_features: bool,
) -> bool
    decreases t, 0int,
{
    forall|c: int|
        0 <= c < t.dependencies@.len() ==> child_edge_of(
            g,
            idx,
            #[trigger] t.dependencies@[c],
            with_features,
        )
}

/// The child node `c` corresponds to one edge of the adjacency row at
/// `parent_idx`: the edge aims at a listed package whose fields and
/// annotation `c` carries, and `c`'s own subtree follows the graph.
pub open spec fn child_edge_of(
    g: ResolvedGraph,
    parent_idx: int,
    c: TreeNode,
    with_features: bool,
) -> bool
    decreases c, 1int,
{
    exists|e: int|
        0 <= e < g.adjacency@[parent_idx]@.len() && (#[trigger] g.adjacency@[
            parent_idx
        ]@[e]).target < g.packages@.len() && node_fields(
            g,
            c,
            g.adjacency@[parent_idx]@[e].target as int,
            g.adjacency@[parent_idx]@[e].is_dev,
            g.adjacency@[parent_idx]@[e].is_build,
            with_features,
        ) && subtree_follows(
            g,
            c,
            g.adjacency@[parent_idx]@[e].target as int,
            with_features,
        )
}

/// In the plain (non-duplicates) view, the children of a node at `idx`
/// cover its adjacency row: every edge aims at a listed package, and that
/// package appears among the children unless it lay on the active path
/// (`base_path`, with `idx` itself active).
pub open spec fn children_cover_edges(
    g: ResolvedGraph,
    t: TreeNode,
    idx: int,
    base_path: Seq<bool>,
) -> bool {
    forall|e: int|
        0 <= e < g.adjacency@[idx]@.len() ==> {
            let tgt = (#[trigger] g.adjacency@[idx]@[e]).target;
            &&& tgt < g.packages@.len()
            &&& (base_path[tgt as int] || tgt == idx || exists|c: int|
                0 <= c < t.dependencies@.len() && (#[trigger] t.dependencies@[c]).package_id@
                    == g.packages@[tgt as int].id@)
        }
}

/// A key at an unmarked position is not among the marked keys.
proof fn lemma_key_not_in_path(g: ResolvedGraph, path: Seq<bool>, idx: int)
    requires
        g.wf(),
        path.len() == g.packages@.len(),
        0 <= idx < path.len(),
        !path[idx],
    ensures
        !path_keys(g, path).contains(g.packages@[idx].id@),
{
    if path_keys(g, path).contains(g.packages@[idx].id@) {
        let i = choose|i: int|
            0 <= i < path.len() && path[i] && g.packages@[i].id@ == g.packages@[idx].id@;
        assert(i != idx);
    }
}

/// Marking one more position adds exactly that package's key.
proof fn lemma_path_keys_update(g: ResolvedGraph, path: Seq<bool>, idx: int)
    requires
        path.len() == g.packages@.len(),
        0 <= idx < path.len(),
        !path[idx],
    ensures
        path_keys(g, path.update(idx, true)) == path_keys(g, path).insert(g.packages@[idx].id@),
{
    let upd = path.update(idx, true);
    assert forall|k: Seq<char>| path_keys(g, upd).contains(k) implies path_keys(
        g,
        path,
    ).insert(g.packages@[idx].id@).contains(k) by {
        let i = choose|i: int| 0 <= i < upd.len() && upd[i] && g.packages@[i].id@ == k;
        if i != idx {
            assert(path[i]);
        }
    }
    assert forall|k: Seq<char>| path_keys(g, path).insert(g.packages@[idx].id@).contains(
        k,
    ) implies path_keys(g, upd).contains(k) by {
        if k == g.packages@[idx].id@ {
            assert(upd[idx] && g.packages@[idx].id@ == k);
        } else {
            let i = choose|i: int| 0 <= i < path.len() && path[i] && g.packages@[i].id@ == k;
            assert(upd[i] && g.packages@[i].id@ == k);
        }
    }
    assert(path_keys(g, upd) =~= path_keys(g, path).insert(g.packages@[idx].id@));
}

/// Expands one package into a display node at `depth`, recursing into its
/// children: the heart of the tree builder. Cycle safety comes from the
/// `path` marks; diamond sharing from the `expanded` marks; `None` stands
/// for a subtree pruned by the duplicates-only view.
#[verifier::rlimit(60)]
fn build_node(
    g: &ResolvedGraph,
    args: &TreeArgs,
    idx: usize,
    depth: usize,
    is_dev: bool,
    is_build: bool,
    expanded: &mut Vec<bool>,
    path: &mut Vec<bool>,
) -> (r: Result<Option<TreeNode>, UpkeepError>)
    requires
        g.wf(),
        old(expanded)@.len() == g.packages@.len(),
        old(path)@.len() == g.packages@.len(),
        idx < g.packages@.len() ==> !old(path)@[idx as int],
        depth <= MAX_TREE_DEPTH + 1,
    ensures
        final(path)@ == old(path)@,
        final(expanded)@.len() == old(expanded)@.len(),
        forall|i: int|
            0 <= i < old(expanded)@.len() && old(expanded)@[i] ==> final(expanded)@[i],
        r matches Ok(Some(t)) ==> {
            &&& node_fields(*g, t, idx as int, is_dev, is_build, args.features)
            &&& subtree_follows(*g, t, idx as int, args.features)
            &&& t.paths_avoid(path_keys(*g, old(path)@))
            &&& t.keys_nonempty()
            &&& t.sorted_rec()
            &&& (args.duplicates && depth > 0 ==> t.has_dup())
            &&& (args.duplicates ==> t.dup_view_ok())
            &&& (args.depth matches Some(l) ==> t.depth_bounded(l - depth))
            &&& (old(expanded)@[idx as int] ==> t.dependencies@.len() == 0)
        },
        depth == 0 && r is Ok ==> r matches Ok(Some(_)),
        r matches Ok(o) && o is None ==> args.duplicates && depth > 0,
        r matches Err(e) ==> e.code == ErrorCode::InvalidData,
        depth > MAX_TREE_DEPTH ==> r is Err,
        idx >= g.packages@.len() ==> r is Err,
        r is Ok && idx < g.packages@.len() && (args.depth matches Some(l) ==> depth < l)
            ==> final(expanded)@[idx as int],
        !args.duplicates && r is Ok && r->Ok_0 is Some && idx < g.packages@.len() && !old(
            expanded,
        )@[idx as int] && (args.depth matches Some(l) ==> depth < l) ==> children_cover_edges(
            *g,
            r->Ok_0->Some_0,
            idx as int,
            old(path)@,
        ),
        idx < g.packages@.len() && targets_valid(*g) && depth <= MAX_TREE_DEPTH && (
        args.depth matches Some(l) && l <= MAX_TREE_DEPTH) ==> r is Ok,
        idx < g.packages@.len() && targets_valid(*g) && depth + g.packages@.len()
            <= MAX_TREE_DEPTH + 1 + crate::path::count_trues(old(path)@) ==> r is Ok,
    decreases MAX_TREE_DEPTH + 2 - depth,
{
    broadcast use vstd::seq_lib::group_to_multiset_ensures;

    if depth > MAX_TREE_DEPTH {
        proof {
            // With an unmarked position on hand, the active path cannot
            // account for every package, so the budgeted hypothesis puts
            // the depth at or below the ceiling: this branch is outside it.
            if idx < g.packages@.len() && depth + g.packages@.len() <= MAX_TREE_DEPTH + 1
                + crate::path::count_trues(old(path)@) {
                crate::path::lemma_count_trues_update(old(path)@, idx as int);
                crate::path::lemma_count_trues_le(old(path)@.update(idx as int, true));
                assert(false);
            }
        }
        let mut msg = String::new();
        msg.append("dependency tree exceeds maximum depth of ");
        let ceiling = crate::strings::usize_to_string(MAX_TREE_DEPTH);
        msg.append(ceiling.as_str());
        msg.append(" at package '");
        if idx < g.packages.len() {
            msg.append(g.packages[idx].name.as_str());
        } else {
            msg.append("<unknown>");
        }
        msg.append("'; possible circular dependency or extremely deep graph");
        return Err(UpkeepError::message(ErrorCode::InvalidData, msg));
    }
    let n = g.packages.len();
    if idx >= n {
        let mut msg = String::new();
        msg.append("package at position ");
        let pos = crate::strings::usize_to_string(idx);
        msg.append(pos.as_str());
        msg.append(" missing from metadata");
        return Err(UpkeepError::message(ErrorCode::InvalidData, msg));
    }
    let duplicate = g.duplicate[idx];
    let name = g.packages[idx].name.clone();
    let version = g.packages[idx].version.clone();
    let package_id = g.packages[idx].id.clone();
    let features = if args.features {
        crate::strings::clone_strings(&g.packages[idx].features)
    } else {
        Vec::new()
    };
    proof {
        lemma_key_not_in_path(*g, old(path)@, idx as int);
    }

    let depth_stop = match args.depth {
        Some(limit) => depth >= limit,
        None => false,
    };
    if depth_stop {
        if args.duplicates && !duplicate && depth > 0 {
            return Ok(None);
        }
        return Ok(
            Some(
                TreeNode {
                    name,
                    version,
                    package_id,
                    features,
                    dependencies: Vec::new(),
                    is_dev,
                    is_build,
                    duplicate,
                },
            ),
        );
    }
    if expanded[idx] {
        if args.duplicates && !duplicate && depth > 0 {
            return Ok(None);
        }
        return Ok(
            Some(
                TreeNode {
                    name,
                    version,
                    package_id,
                    features,
                    dependencies: Vec::new(),
                    is_dev,
                    is_build,
                    duplicate,
                },
            ),
        );
    }
    expanded.set(idx, true);
    path.set(idx, true);
    proof {
        lemma_path_keys_update(*g, old(path)@, idx as int);
    }
    let row = sorted_children(g, &g.adjacency[idx]);
    proof {
        assert forall|k: int| 0 <= k < row@.len() implies g.adjacency@[idx as int]@.contains(
            row@[k],
        ) by {
            assert(row@.contains(row@[k]));
            assert(row@.to_multiset().count(row@[k]) > 0);
            assert(g.adjacency@[idx as int]@.to_multiset().count(row@[k]) > 0);
        }
    }
    let ghost keys0 = path_keys(*g, old(path)@);
    let ghost id_idx = g.packages@[idx as int].id@;
    let mut deps: Vec<TreeNode> = Vec::new();
    let mut ci: usize = 0;
    let mut failed: Option<UpkeepError> = None;
    while ci < row.len() && failed.is_none()
        invariant
            g.wf(),
            n == g.packages@.len(),
            idx < n,
            old(path)@.len() == n,
            !old(path)@[idx as int],
            path@ == old(path)@.update(idx as int, true),
            expanded@.len() == n,
            forall|i: int| 0 <= i < n && old(expanded)@[i] ==> expanded@[i],
            expanded@[idx as int],
            keys0 == path_keys(*g, old(path)@),
            id_idx == g.packages@[idx as int].id@,
            path_keys(*g, path@) == keys0.insert(id_idx),
            ci <= row@.len(),
            forall|k: int|
                0 <= k < row@.len() ==> #[trigger] g.adjacency@[idx as int]@.contains(row@[k]),
            forall|i2: int, j2: int|
                0 <= i2 < j2 < row@.len() ==> !seq_lt(
                    edge_name(*g, row@[j2]),
                    edge_name(*g, row@[i2]),
                ),
            forall|a: int, b: int|
                0 <= a < b < deps@.len() ==> !seq_lt(deps@[b].name@, deps@[a].name@),
            forall|a: int, j: int|
                0 <= a < deps@.len() && ci <= j < row@.len() ==> !seq_lt(
                    edge_name(*g, row@[j]),
                    deps@[a].name@,
                ),
            forall|a: int|
                0 <= a < deps@.len() ==> {
                    &&& (#[trigger] deps@[a]).paths_avoid(keys0.insert(id_idx))
                    &&& deps@[a].keys_nonempty()
                    &&& deps@[a].sorted_rec()
                    &&& (args.duplicates ==> deps@[a].has_dup() && deps@[a].dup_view_ok())
                    &&& (args.depth matches Some(l) ==> deps@[a].depth_bounded(
                        l - depth - 1,
                    ))
                },
            forall|a: int|
                0 <= a < deps@.len() ==> child_edge_of(
                    *g,
                    idx as int,
                    #[trigger] deps@[a],
                    args.features,
                ),
            !args.duplicates && failed is None ==> forall|k: int|
                0 <= k < ci ==> {
                    let tgt = (#[trigger] row@[k]).target;
                    &&& tgt < n
                    &&& (old(path)@[tgt as int] || tgt == idx || exists|c2: int|
                        0 <= c2 < deps@.len() && (#[trigger] deps@[c2]).package_id@
                            == g.packages@[tgt as int].id@)
                },
            args.depth matches Some(l) ==> depth < l,
            depth <= MAX_TREE_DEPTH,
            failed matches Some(e) ==> e.code == ErrorCode::InvalidData,
            failed is Some ==> !(idx < n && targets_valid(*g) && depth <= MAX_TREE_DEPTH && (
            args.depth matches Some(l) && l <= MAX_TREE_DEPTH)),
            failed is Some ==> !(idx < n && targets_valid(*g) && depth + g.packages@.len()
                <= MAX_TREE_DEPTH + 1 + crate::path::count_trues(old(path)@)),
        decreases row@.len() - ci,
    {
        let e = row[ci];
        let skip = e.target < n && path[e.target];
        if !skip {
            let ghost deps0 = deps@;
            let child = build_node(g, args, e.target, depth + 1, e.is_dev, e.is_build, expanded, path);
            match child {
                Ok(Some(c)) => {
                    proof {
                        assert(c.name@ == edge_name(*g, row@[ci as int]));
                        assert(g.adjacency@[idx as int]@.contains(row@[ci as int]));
                    }
                    deps.push(c);
                    proof {
                        let k0 = choose|k0: int|
                            0 <= k0 < g.adjacency@[idx as int]@.len() && g.adjacency@[
                                idx as int
                            ]@[k0] == row@[ci as int];
                        assert(g.adjacency@[idx as int]@[k0] == e);
                        assert(deps@ == deps0.push(c));
                        assert(child_edge_of(*g, idx as int, c, args.features)) by {
                            assert(g.adjacency@[idx as int]@[k0].target == e.target);
                            assert(g.adjacency@[idx as int]@[k0].target < n && node_fields(
                                *g,
                                c,
                                g.adjacency@[idx as int]@[k0].target as int,
                                g.adjacency@[idx as int]@[k0].is_dev,
                                g.adjacency@[idx as int]@[k0].is_build,
                                args.features,
                            ) && subtree_follows(
                                *g,
                                c,
                                g.adjacency@[idx as int]@[k0].target as int,
                                args.features,
                            ));
                        }
                        assert forall|a: int| 0 <= a < deps@.len() implies child_edge_of(
                            *g,
                            idx as int,
                            #[trigger] deps@[a],
                            args.features,
                        ) by {
                            if a < deps0.len() {
                                assert(deps@[a] == deps0[a]);
                            } else {
                                assert(deps@[a] == c);
                            }
                        }
                        if !args.duplicates {
                            assert forall|k: int| 0 <= k < ci + 1 implies {
                                let tgt = (#[trigger] row@[k]).target;
                                &&& tgt < n
                                &&& (old(path)@[tgt as int] || tgt == idx || exists|c2: int|
                                    0 <= c2 < deps@.len() && (#[trigger] deps@[c2]).package_id@
                                        == g.packages@[tgt as int].id@)
                            } by {
                                if k == ci {
                                    assert(deps@[deps@.len() - 1].package_id@ == g.packages@[
                                        e.target as int
                                    ].id@);
                                } else {
                                    let tgt = row@[k].target;
                                    if !(old(path)@[tgt as int] || tgt == idx) {
                                        let c2 = choose|c2: int|
                                            0 <= c2 < deps0.len() && deps0[c2].package_id@
                                                == g.packages@[tgt as int].id@;
                                        assert(deps@[c2].package_id@ == g.packages@[
                                            tgt as int
                                        ].id@);
                                    }
                                }
                            }
                        }
                    }
                },
                Ok(None) => {
                    proof {
                        if !args.duplicates {
                            assert(false);
                        }
                    }
                },
                Err(err) => {
                    proof {
                        let hyp_limit = idx < n && targets_valid(*g) && depth <= MAX_TREE_DEPTH
                            && (args.depth matches Some(l) && l <= MAX_TREE_DEPTH);
                        let hyp_budget = idx < n && targets_valid(*g) && depth
                            + g.packages@.len() <= MAX_TREE_DEPTH + 1 + crate::path::count_trues(
                            old(path)@,
                        );
                        if hyp_limit || hyp_budget {
                            assert(g.adjacency@.len() == n);
                            assert(g.adjacency@[idx as int]@.contains(row@[ci as int]));
                            let k = choose|k: int|
                                0 <= k < g.adjacency@[idx as int]@.len() && g.adjacency@[
                                    idx as int
                                ]@[k] == row@[ci as int];
                            assert(g.adjacency@[idx as int]@[k].target < n);
                            if hyp_budget {
                                crate::path::lemma_count_trues_update(old(path)@, idx as int);
                            }
                            assert(false);
                        }
                    }
                    failed = Some(err);
                },
            }
        } else {
            proof {
                if !args.duplicates {
                    assert(path@[e.target as int]);
                    assert(old(path)@[e.target as int] || e.target == idx);
                }
            }
        }
        ci += 1;
    }
    path.set(idx, false);
    proof {
        assert(path@ =~= old(path)@);
    }
    match failed {
        Some(err) => {
            return Err(err);
        },
        None => {},
    }
    if args.duplicates && !duplicate && depth > 0 && deps.len() == 0 {
        return Ok(None);
    }
    let ghost deps_final = deps@;
    let node = TreeNode {
        name,
        version,
        package_id,
        features,
        dependencies: deps,
        is_dev,
        is_build,
        duplicate,
    };
    proof {
        broadcast use vstd::seq_lib::group_to_multiset_ensures;
        broadcast use vstd::multiset::group_multiset_axioms;

        if args.duplicates && depth > 0 && !node.duplicate {
            assert(node.dependencies@.len() > 0);
            assert(node.dependencies@[0].has_dup());
        }
        if !args.duplicates {
            assert(node.dependencies@ == deps_final);
            assert forall|e: int| 0 <= e < g.adjacency@[idx as int]@.len() implies {
                let tgt = (#[trigger] g.adjacency@[idx as int]@[e]).target;
                &&& tgt < n
                &&& (old(path)@[tgt as int] || tgt == idx || exists|c2: int|
                    0 <= c2 < node.dependencies@.len() && (#[trigger] node.dependencies@[
                        c2
                    ]).package_id@ == g.packages@[tgt as int].id@)
            } by {
                assert(g.adjacency@.len() == n);
                let edge = g.adjacency@[idx as int]@[e];
                assert(g.adjacency@[idx as int]@.contains(edge));
                assert(g.adjacency@[idx as int]@.to_multiset().count(edge) > 0);
                assert(row@.to_multiset().count(edge) > 0);
                assert(row@.contains(edge));
                let k = choose|k: int| 0 <= k < row@.len() && row@[k] == edge;
                assert(row@[k].target < n);
                let tgt = row@[k].target;
                if !(old(path)@[tgt as int] || tgt == idx) {
                    let c2 = choose|c2: int|
                        0 <= c2 < deps_final.len() && deps_final[c2].package_id@ == g.packages@[
                            tgt as int
                        ].id@;
                    assert(node.dependencies@[c2].package_id@ == g.packages@[tgt as int].id@);
                }
            }
            assert(children_cover_edges(*g, node, idx as int, old(path)@));
        }
    }
    Ok(Some(node))
}

/// A tree bounded within `k1` levels is bounded within any `k2 >= k1`.
proof fn lemma_depth_bounded_mono(t: TreeNode, k1: int, k2: int)
    requires
        t.depth_bounded(k1),
        k1 <= k2,
    ensures
        t.depth_bounded(k2),
    decreases t,
{
    if k2 > 0 {
        assert forall|i: int| 0 <= i < t.dependencies@.len() implies t.dependencies@[i].depth_bounded(
            k2 - 1,
        ) by {
            if k1 <= 0 {
            } else {
                lemma_depth_bounded_mono(t.dependencies@[i], k1 - 1, k2 - 1);
            }
        }
    }
}

/// `c` is the display node of some package, taken at the root level (no
/// dev/build annotation), with its subtree following the graph.
pub open spec fn rooted_child(g: ResolvedGraph, c: TreeNode, with_features: bool) -> bool {
    exists|i: int|
        0 <= i < g.packages@.len() && node_fields(g, c, i, false, false, with_features)
            && subtree_follows(g, c, i, with_features)
}

/// `c` is the display node of some package carrying `name`, taken at the
/// root level, with its subtree following the graph.
pub open spec fn named_child(
    g: ResolvedGraph,
    c: TreeNode,
    name: Seq<char>,
    with_features: bool,
) -> bool {
    exists|i: int|
        0 <= i < g.packages@.len() && g.packages@[i].name@ == name && node_fields(
            g,
            c,
            i,
            false,
            false,
            with_features,
        ) && subtree_follows(g, c, i, with_features)
}

/// How many packages of the list carry `name`: the match count that
/// decides the shape of an inverted tree.
pub open spec fn count_named(packages: Seq<crate::graph::Package>, name: Seq<char>) -> nat
    decreases packages.len(),
{
    if packages.len() == 0 {
        0
    } else {
        count_named(packages.drop_last(), name) + if packages.last().name@ == name {
            1nat
        } else {
            0nat
        }
    }
}

/// No marks at all: the marked-key set is empty.
proof fn lemma_path_keys_empty(g: ResolvedGraph, path: Seq<bool>)
    requires
        forall|i: int| 0 <= i < path.len() ==> !path[i],
    ensures
        path_keys(g, path) == Set::<Seq<char>>::empty(),
{
    assert(path_keys(g, path) =~= Set::<Seq<char>>::empty());
}

/// Builds the tree for an inverted view: the traversal starts from every
/// package carrying the requested name, on the adjacency of `g` (which the
/// caller has already inverted). One match roots the tree itself; several
/// matches hang under a synthetic `reverse:<name>` root; none is an error.
#[verifier::rlimit(100)]
fn build_inverted_root(
    g: &ResolvedGraph,
    name: &str,
    args: &TreeArgs,
    expanded: &mut Vec<bool>,
    path: &mut Vec<bool>,
) -> (r: Result<TreeNode, UpkeepError>)
    requires
        g.wf(),
        old(expanded)@.len() == g.packages@.len(),
        old(path)@.len() == g.packages@.len(),
        forall|i: int| 0 <= i < old(path)@.len() ==> !old(path)@[i],
    ensures
        r matches Ok(t) ==> {
            &&& t.paths_avoid(Set::empty())
            &&& (args.duplicates ==> forall|i: int|
                0 <= i < t.dependencies@.len() ==> t.dependencies@[i].has_dup()
                    && t.dependencies@[i].dup_view_ok())
            &&& (args.depth matches Some(l) ==> t.depth_bounded(l as int + 1))
            &&& forall|i: int|
                0 <= i < t.dependencies@.len() ==> (#[trigger] t.dependencies@[i]).sorted_rec()
                    && t.dependencies@[i].keys_nonempty()
        },
        r matches Ok(t) ==> {
            ||| named_child(*g, t, name@, args.features)
            ||| (t.name@ == "reverse:"@ + name@ && t.package_id@.len() == 0 && t.version@.len()
                == 0 && forall|c: int|
                0 <= c < t.dependencies@.len() ==> named_child(
                    *g,
                    #[trigger] t.dependencies@[c],
                    name@,
                    args.features,
                ))
        },
        r is Ok && count_named(g.packages@, name@) == 1 ==> named_child(
            *g,
            r->Ok_0,
            name@,
            args.features,
        ),
        r is Ok && count_named(g.packages@, name@) >= 2 ==> {
            let t = r->Ok_0;
            &&& t.name@ == "reverse:"@ + name@
            &&& t.package_id@.len() == 0
            &&& t.version@.len() == 0
            &&& (!args.duplicates ==> t.dependencies@.len() == count_named(g.packages@, name@)
                && forall|i: int|
                0 <= i < g.packages@.len() && (#[trigger] g.packages@[i]).name@ == name@
                    ==> exists|c: int|
                    0 <= c < t.dependencies@.len() && node_fields(
                        *g,
                        #[trigger] t.dependencies@[c],
                        i,
                        false,
                        false,
                        args.features,
                    ) && subtree_follows(*g, t.dependencies@[c], i, args.features))
        },
        (forall|i: int|
            0 <= i < g.packages@.len() ==> #[trigger] g.packages@[i].name@ != name@) ==> r is Err,
        targets_valid(*g) && (args.depth matches Some(l) && l <= MAX_TREE_DEPTH)
            && (exists|i: int|
            0 <= i < g.packages@.len() && #[trigger] g.packages@[i].name@ == name@) ==> r is Ok,
        targets_valid(*g) && g.packages@.len() <= MAX_TREE_DEPTH && (exists|i: int|
            0 <= i < g.packages@.len() && #[trigger] g.packages@[i].name@ == name@) ==> r is Ok,
        r matches Err(e) ==> e.code == ErrorCode::InvalidData,
{
    let n = g.packages.len();
    let mut matches: Vec<usize> = Vec::new();
    let mut i: usize = 0;
    while i < n
        invariant
            n == g.packages@.len(),
            i <= n,
            forall|k: int|
                0 <= k < matches@.len() ==> #[trigger] matches@[k] < n && g.packages@[
                    matches@[k] as int
                ].name@ == name@,
            matches@.len() == 0 ==> forall|k2: int|
                0 <= k2 < i ==> #[trigger] g.packages@[k2].name@ != name@,
            matches@.len() == count_named(g.packages@.take(i as int), name@),
            forall|k2: int|
                0 <= k2 < i && (#[trigger] g.packages@[k2]).name@ == name@ ==> exists|m: int|
                    0 <= m < matches@.len() && (#[trigger] matches@[m]) as int == k2,
        decreases n - i,
    {
        if crate::strings::str_eq(g.packages[i].name.as_str(), name) {
            let ghost ms0 = matches@;
            matches.push(i);
            proof {
                assert(matches@ == ms0.push(i));
                assert forall|k2: int|
                    0 <= k2 < i + 1 && (#[trigger] g.packages@[k2]).name@
                        == name@ implies exists|m: int|
                    0 <= m < matches@.len() && (#[trigger] matches@[m]) as int == k2 by {
                    if k2 == i {
                        assert(matches@[matches@.len() - 1] as int == k2);
                    } else {
                        let m = choose|m: int| 0 <= m < ms0.len() && (ms0[m]) as int == k2;
                        assert(matches@[m] as int == k2);
                    }
                }
            }
        }
        proof {
            assert(g.packages@.take(i as int + 1).drop_last() =~= g.packages@.take(i as int));
            assert(g.packages@.take(i as int + 1).last() == g.packages@[i as int]);
        }
        i += 1;
    }
    proof {
        assert(g.packages@.take(n as int) =~= g.packages@);
    }
    let ghost total = count_named(g.packages@, name@);

    if matches.len() == 0 {
        let mut msg = String::new();
        msg.append("no package named '");
        msg.append(name);
        msg.append("' found in metadata");
        return Err(UpkeepError::message(ErrorCode::InvalidData, msg));
    }

    proof {
        // one package provably carries the name from here on
        assert(g.packages@[matches@[0] as int].name@ == name@);
        lemma_path_keys_empty(*g, old(path)@);
        crate::path::lemma_count_trues_zero(old(path)@);
        assert(total == matches@.len());
    }

    if matches.len() == 1 {
        let target = matches[0];
        match build_node(g, args, target, 0, false, false, expanded, path)? {
            Some(t) => {
                proof {
                    if args.depth is Some {
                        lemma_depth_bounded_mono(
                            t,
                            args.depth->Some_0 as int,
                            args.depth->Some_0 as int + 1,
                        );
                    }
                    assert(g.packages@[target as int].name@ == name@ && node_fields(
                        *g,
                        t,
                        target as int,
                        false,
                        false,
                        args.features,
                    ) && subtree_follows(*g, t, target as int, args.features));
                    assert(named_child(*g, t, name@, args.features));
                }
                return Ok(t);
            },
            None => {
                // a build at depth zero always keeps its root, even in the
                // duplicates-only view, so this arm cannot fire; it mirrors
                // the interface's error for completeness
                let mut msg = String::new();
                msg.append("no dependencies to display for ");
                msg.append(name);
                return Err(UpkeepError::message(ErrorCode::InvalidData, msg));
            },
        }
    }

    let mut label = String::new();
    label.append("reverse:");
    label.append(name);
    proof {
        assert(label@ =~= "reverse:"@ + name@);
    }
    let mut root = TreeNode::empty(label.as_str());
    let ghost root0 = root;
    let mut k: usize = 0;
    while k < matches.len()
        invariant
            g.wf(),
            n == g.packages@.len(),
            expanded@.len() == n,
            path@.len() == n,
            forall|i2: int| 0 <= i2 < path@.len() ==> !path@[i2],
            path@ == old(path)@,
            k <= matches@.len(),
            forall|m: int|
                0 <= m < matches@.len() ==> #[trigger] matches@[m] < n && g.packages@[
                    matches@[m] as int
                ].name@ == name@,
            root.package_id@.len() == 0,
            root.version@.len() == 0,
            !root.duplicate,
            root.name@ == "reverse:"@ + name@,
            forall|a: int|
                0 <= a < root.dependencies@.len() ==> {
                    &&& (#[trigger] root.dependencies@[a]).paths_avoid(Set::empty())
                    &&& root.dependencies@[a].keys_nonempty()
                    &&& root.dependencies@[a].sorted_rec()
                    &&& (args.duplicates ==> root.dependencies@[a].has_dup()
                        && root.dependencies@[a].dup_view_ok())
                    &&& (args.depth matches Some(l) ==> root.dependencies@[a].depth_bounded(
                        l as int,
                    ))
                },
            forall|a: int|
                0 <= a < root.dependencies@.len() ==> named_child(
                    *g,
                    #[trigger] root.dependencies@[a],
                    name@,
                    args.features,
                ),
            !args.duplicates ==> root.dependencies@.len() == k,
            !args.duplicates ==> forall|m: int|
                0 <= m < k ==> node_fields(
                    *g,
                    #[trigger] root.dependencies@[m],
                    matches@[m] as int,
                    false,
                    false,
                    args.features,
                ) && subtree_follows(*g, root.dependencies@[m], matches@[m] as int, args.features),
        decreases matches@.len() - k,
    {
        let target = matches[k];
        match build_node(g, args, target, 1, false, false, expanded, path) {
            Ok(Some(child)) => {
                proof {
                    lemma_path_keys_empty(*g, path@);
                    if args.depth is Some {
                        lemma_depth_bounded_mono(
                            child,
                            args.depth->Some_0 as int - 1,
                            args.depth->Some_0 as int,
                        );
                    }
                }
                let ghost kids0 = root.dependencies@;
                root.dependencies.push(child);
                proof {
                    assert(root.dependencies@ == kids0.push(child));
                    assert(g.packages@[target as int].name@ == name@ && node_fields(
                        *g,
                        child,
                        target as int,
                        false,
                        false,
                        args.features,
                    ) && subtree_follows(*g, child, target as int, args.features));
                    assert(named_child(*g, child, name@, args.features));
                    assert forall|a: int| 0 <= a < root.dependencies@.len() implies named_child(
                        *g,
                        #[trigger] root.dependencies@[a],
                        name@,
                        args.features,
                    ) by {
                        if a < kids0.len() {
                            assert(root.dependencies@[a] == kids0[a]);
                        } else {
                            assert(root.dependencies@[a] == child);
                        }
                    }
                    if !args.duplicates {
                        assert forall|m: int| 0 <= m < k + 1 implies node_fields(
                            *g,
                            #[trigger] root.dependencies@[m],
                            matches@[m] as int,
                            false,
                            false,
                            args.features,
                        ) && subtree_follows(
                            *g,
                            root.dependencies@[m],
                            matches@[m] as int,
                            args.features,
                        ) by {
                            if m < kids0.len() {
                                assert(root.dependencies@[m] == kids0[m]);
                            } else {
                                assert(root.dependencies@[m] == child);
                                assert(matches@[m] == target);
                            }
                        }
                    }
                }
            },
            Ok(None) => {},
            Err(e) => {
                proof {
                    if targets_valid(*g) && ((args.depth matches Some(l) && l <= MAX_TREE_DEPTH)
                        || g.packages@.len() <= MAX_TREE_DEPTH) {
                        crate::path::lemma_count_trues_zero(path@);
                        assert(false);
                    }
                }
                return Err(e);
            },
        }
        k += 1;
    }
    proof {
        assert forall|a: int| 0 <= a < root.dependencies@.len() implies root.dependencies@[a].paths_avoid(
            Set::empty().insert(root.package_id@),
        ) by {
            lemma_avoid_insert_empty(root.dependencies@[a], Set::empty());
            assert(root.package_id@ == Seq::<char>::empty());
            assert(Set::empty().insert(Seq::<char>::empty()) =~= Set::<Seq<char>>::empty().insert(
                root.package_id@,
            ));
        }
        if args.depth is Some {
            let l = args.depth->Some_0;
            assert(root.depth_bounded(l as int + 1));
        }
        assert(total >= 2);
        if !args.duplicates {
            assert(root.dependencies@.len() == matches@.len());
            assert(root.dependencies@.len() == total);
            assert forall|i2: int|
                0 <= i2 < g.packages@.len() && (#[trigger] g.packages@[i2]).name@
                    == name@ implies exists|c: int|
                0 <= c < root.dependencies@.len() && node_fields(
                    *g,
                    #[trigger] root.dependencies@[c],
                    i2,
                    false,
                    false,
                    args.features,
                ) && subtree_follows(*g, root.dependencies@[c], i2, args.features) by {
                let m = choose|m: int| 0 <= m < matches@.len() && (matches@[m]) as int == i2;
                assert(node_fields(*g, root.dependencies@[m], i2, false, false, args.features));
                assert(subtree_follows(*g, root.dependencies@[m], i2, args.features));
            }
        }
    }
    Ok(root)
}

/// Builds the display tree for the graph's root set: with `invert` set,
/// from every package of that name on the (already inverted) adjacency;
/// otherwise from the real root package, or from a synthetic root over the
/// workspace members when no single root exists.
pub fn build_tree(
    g: &ResolvedGraph,
    root_package: Option<usize>,
    workspace_members: &Vec<usize>,
    args: &TreeArgs,
) -> (r: Result<TreeNode, UpkeepError>)
    requires
        g.wf(),
        root_package matches Some(rp) ==> rp < g.packages@.len(),
        forall|i: int|
            0 <= i < workspace_members@.len() ==> #[trigger] workspace_members@[i]
                < g.packages@.len(),
    ensures
        r matches Ok(t) ==> {
            &&& t.paths_avoid(Set::empty())
            &&& (args.duplicates ==> forall|i: int|
                0 <= i < t.dependencies@.len() ==> t.dependencies@[i].has_dup()
                    && t.dependencies@[i].dup_view_ok())
            &&& (args.depth matches Some(l) ==> t.depth_bounded(l as int + 1))
            &&& forall|c: int|
                0 <= c < t.dependencies@.len() ==> (#[trigger] t.dependencies@[c]).sorted_rec()
                    && t.dependencies@[c].keys_nonempty()
        },
        r matches Ok(t) ==> {
            ||| (t.package_id@.len() > 0 && rooted_child(*g, t, args.features))
            ||| (t.package_id@.len() == 0 && forall|c: int|
                0 <= c < t.dependencies@.len() ==> rooted_child(
                    *g,
                    #[trigger] t.dependencies@[c],
                    args.features,
                ))
        },
        args.invert is None && root_package is Some && r is Ok ==> {
            let rp = root_package->Some_0;
            let t = r->Ok_0;
            &&& node_fields(*g, t, rp as int, false, false, args.features)
            &&& subtree_follows(*g, t, rp as int, args.features)
            &&& t.sorted_rec()
            &&& t.keys_nonempty()
            &&& (args.depth matches Some(l) ==> t.depth_bounded(l as int))
        },
        args.invert is None && root_package is None && r is Ok ==> {
            let t = r->Ok_0;
            &&& t.package_id@.len() == 0
            &&& t.name@ == "(workspace)"@
            &&& t.dependencies@.len() > 0
            &&& (!args.duplicates ==> t.dependencies@.len() == workspace_members@.len()
                && forall|i: int|
                0 <= i < t.dependencies@.len() ==> node_fields(
                    *g,
                    #[trigger] t.dependencies@[i],
                    workspace_members@[i] as int,
                    false,
                    false,
                    args.features,
                ) && subtree_follows(
                    *g,
                    t.dependencies@[i],
                    workspace_members@[i] as int,
                    args.features,
                ))
        },
        args.invert is Some && r is Ok ==> {
            let nm = args.invert->Some_0;
            let t = r->Ok_0;
            ||| named_child(*g, t, nm@, args.features)
            ||| (t.name@ == "reverse:"@ + nm@ && t.package_id@.len() == 0 && forall|c: int|
                0 <= c < t.dependencies@.len() ==> named_child(
                    *g,
                    #[trigger] t.dependencies@[c],
                    nm@,
                    args.features,
                ))
        },
        args.invert is Some && r is Ok && count_named(g.packages@, args.invert->Some_0@) == 1
            ==> named_child(*g, r->Ok_0, args.invert->Some_0@, args.features),
        args.invert is Some && r is Ok && count_named(g.packages@, args.invert->Some_0@) >= 2
            ==> {
            let nm = args.invert->Some_0;
            let t = r->Ok_0;
            &&& t.name@ == "reverse:"@ + nm@
            &&& t.package_id@.len() == 0
            &&& t.version@.len() == 0
            &&& (!args.duplicates ==> t.dependencies@.len() == count_named(g.packages@, nm@)
                && forall|i: int|
                0 <= i < g.packages@.len() && (#[trigger] g.packages@[i]).name@ == nm@
                    ==> exists|c: int|
                    0 <= c < t.dependencies@.len() && node_fields(
                        *g,
                        #[trigger] t.dependencies@[c],
                        i,
                        false,
                        false,
                        args.features,
                    ) && subtree_follows(*g, t.dependencies@[c], i, args.features))
        },
        args.invert is None && root_package is None && workspace_members@.len() == 0 ==> r is Err,
        targets_valid(*g) && (args.depth matches Some(l) && l <= MAX_TREE_DEPTH)
            && args.invert is None && (root_package is Some || (workspace_members@.len() > 0
            && !args.duplicates)) ==> r is Ok,
        targets_valid(*g) && (args.depth matches Some(l) && l <= MAX_TREE_DEPTH) && (
        args.invert matches Some(nm) && exists|i: int|
            0 <= i < g.packages@.len() && #[trigger] g.packages@[i].name@ == nm@) ==> r is Ok,
        targets_valid(*g) && g.packages@.len() <= MAX_TREE_DEPTH && args.invert is None && (
        root_package is Some || (workspace_members@.len() > 0 && !args.duplicates)) ==> r is Ok,
        targets_valid(*g) && g.packages@.len() <= MAX_TREE_DEPTH && (
        args.invert matches Some(nm) && exists|i: int|
            0 <= i < g.packages@.len() && #[trigger] g.packages@[i].name@ == nm@) ==> r is Ok,
        r matches Err(e) ==> e.code == ErrorCode::InvalidData,
{
    let n = g.packages.len();
    let mut expanded: Vec<bool> = vec![false; n];
    let mut path: Vec<bool> = vec![false; n];
    proof {
        lemma_path_keys_empty(*g, path@);
        crate::path::lemma_count_trues_zero(path@);
    }

    match &args.invert {
        Some(target_name) => {
            return build_inverted_root(g, target_name.as_str(), args, &mut expanded, &mut path);
        },
        None => {},
    }

    match root_package {
        Some(rp) => {
            match build_node(g, args, rp, 0, false, false, &mut expanded, &mut path)? {
                Some(t) => {
                    proof {
                        if args.depth is Some {
                            lemma_depth_bounded_mono(
                                t,
                                args.depth->Some_0 as int,
                                args.depth->Some_0 as int + 1,
                            );
                        }
                        assert(g.packages@[rp as int].id@.len() > 0);
                        assert(node_fields(*g, t, rp as int, false, false, args.features)
                            && subtree_follows(*g, t, rp as int, args.features));
                        assert(rooted_child(*g, t, args.features));
                        assert forall|c: int|
                            0 <= c < t.dependencies@.len() implies (#[trigger] t.dependencies@[
                            c
                        ]).sorted_rec() && t.dependencies@[c].keys_nonempty() by {
                            assert(t.sorted_rec());
                            assert(t.keys_nonempty());
                        }
                    }
                    Ok(t)
                },
                None => Ok(TreeNode::empty("root")),
            }
        },
        None => {
            let mut root = TreeNode::virtual_root();
            let mut k: usize = 0;
            while k < workspace_members.len()
                invariant
                    g.wf(),
                    n == g.packages@.len(),
                    expanded@.len() == n,
                    path@.len() == n,
                    forall|i2: int| 0 <= i2 < path@.len() ==> !path@[i2],
                    k <= workspace_members@.len(),
                    forall|i: int|
                        0 <= i < workspace_members@.len() ==> #[trigger] workspace_members@[i] < n,
                    root.package_id@.len() == 0,
                    root.version@.len() == 0,
                    root.name@ == "(workspace)"@,
                    !root.duplicate,
                    root.dependencies@.len() <= k,
                    !args.duplicates ==> root.dependencies@.len() == k,
                    forall|a: int|
                        0 <= a < root.dependencies@.len() ==> {
                            &&& (#[trigger] root.dependencies@[a]).paths_avoid(Set::empty())
                            &&& root.dependencies@[a].keys_nonempty()
                            &&& root.dependencies@[a].sorted_rec()
                            &&& (args.duplicates ==> root.dependencies@[a].has_dup()
                                && root.dependencies@[a].dup_view_ok())
                            &&& (args.depth matches Some(l) ==> root.dependencies@[
                                a
                            ].depth_bounded(l as int))
                        },
                    forall|a: int|
                        0 <= a < root.dependencies@.len() ==> rooted_child(
                            *g,
                            #[trigger] root.dependencies@[a],
                            args.features,
                        ),
                    !args.duplicates ==> forall|a: int|
                        0 <= a < root.dependencies@.len() ==> node_fields(
                            *g,
                            #[trigger] root.dependencies@[a],
                            workspace_members@[a] as int,
                            false,
                            false,
                            args.features,
                        ) && subtree_follows(
                            *g,
                            root.dependencies@[a],
                            workspace_members@[a] as int,
                            args.features,
                        ),
                decreases workspace_members@.len() - k,
            {
                let member = workspace_members[k];
                match build_node(g, args, member, 1, false, false, &mut expanded, &mut path) {
                    Ok(Some(child)) => {
                        proof {
                            lemma_path_keys_empty(*g, path@);
                            if args.depth is Some {
                                lemma_depth_bounded_mono(
                                    child,
                                    args.depth->Some_0 as int - 1,
                                    args.depth->Some_0 as int,
                                );
                            }
                        }
                        let ghost kids0 = root.dependencies@;
                        root.dependencies.push(child);
                        proof {
                            assert(root.dependencies@ == kids0.push(child));
                            assert(node_fields(*g, child, member as int, false, false, args.features)
                                && subtree_follows(*g, child, member as int, args.features));
                            assert(rooted_child(*g, child, args.features));
                            assert forall|a: int|
                                0 <= a < root.dependencies@.len() implies rooted_child(
                                *g,
                                #[trigger] root.dependencies@[a],
                                args.features,
                            ) by {
                                if a < kids0.len() {
                                    assert(root.dependencies@[a] == kids0[a]);
                                } else {
                                    assert(root.dependencies@[a] == child);
                                }
                            }
                        }
                    },
                    Ok(None) => {
                        proof {
                            assert(args.duplicates);
                        }
                    },
                    Err(e) => {
                        proof {
                            if targets_valid(*g) && ((args.depth matches Some(l) && l
                                <= MAX_TREE_DEPTH) || g.packages@.len() <= MAX_TREE_DEPTH) {
                                crate::path::lemma_count_trues_zero(path@);
                                assert(false);
                            }
                        }
                        return Err(e);
                    },
                }
                k += 1;
            }
            if root.dependencies.len() == 0 {
                return Err(
                    UpkeepError::message(
                        ErrorCode::InvalidData,
                        "no packages found in workspace".to_owned(),
                    ),
                );
            }
            proof {
                assert forall|a: int|
                    0 <= a < root.dependencies@.len() implies root.dependencies@[a].paths_avoid(
                    Set::empty().insert(root.package_id@),
                ) by {
                    lemma_avoid_insert_empty(root.dependencies@[a], Set::empty());
                    assert(root.package_id@ == Seq::<char>::empty());
                    assert(Set::empty().insert(Seq::<char>::empty())
                        =~= Set::<Seq<char>>::empty().insert(root.package_id@));
                }
            }
            Ok(root)
        },
    }
}

} // verus!
