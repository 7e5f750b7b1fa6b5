//! The stats aggregator: one walk over a built tree computing summary
//! counts, always recomputed from the tree, never cached.

use vstd::prelude::*;
use crate::output::TreeStats;
use crate::strings::str_eq;
use crate::tree::TreeNode;

verus! {

/// `k` is the package key of some node of the subtree; synthetic nodes
/// (empty key) never count.
pub open spec fn has_key(t: TreeNode, k: Seq<char>) -> bool
    decreases t,
{
    (t.package_id@ == k && k.len() > 0) || exists|i: int|
        0 <= i < t.dependencies@.len() && has_key(t.dependencies@[i], k)
}

/// Some node of the subtree carries name `nm` at (nonempty) version `v`.
pub open spec fn has_name_version(t: TreeNode, nm: Seq<char>, v: Seq<char>) -> bool
    decreases t,
{
    (t.name@ == nm && t.version@ == v && v.len() > 0) || exists|i: int|
        0 <= i < t.dependencies@.len() && has_name_version(t.dependencies@[i], nm, v)
}

/// Some collected string reads `k`.
pub open spec fn contains_view(v: Seq<String>, k: Seq<char>) -> bool {
    exists|i: int| 0 <= i < v.len() && v[i]@ == k
}

/// No two collected strings read the same.
pub open spec fn views_distinct(v: Seq<String>) -> bool {
    forall|i: int, j: int| 0 <= i < j < v.len() ==> v[i]@ != v[j]@
}

/// The distinct package keys the rendered tree shows; synthetic nodes
/// (empty key) contribute nothing.
pub open spec fn tree_key_set(t: TreeNode) -> Set<Seq<char>> {
    Set::new(|k: Seq<char>| has_key(t, k))
}

/// The names the rendered tree shows at more than one distinct version.
pub open spec fn dup_name_set(t: TreeNode) -> Set<Seq<char>> {
    Set::new(
        |nm: Seq<char>|
            exists|v1: Seq<char>, v2: Seq<char>|
                has_name_version(t, nm, v1) && has_name_version(t, nm, v2) && v1 != v2,
    )
}

/// The direct children carry pairwise distinct, nonempty package keys.
pub open spec fn children_keys_distinct(t: TreeNode) -> bool {
    &&& forall|i: int|
        0 <= i < t.dependencies@.len() ==> (#[trigger] t.dependencies@[i]).package_id@.len() > 0
    &&& forall|i: int, j: int|
        0 <= i < t.dependencies@.len() && 0 <= j < t.dependencies@.len() && i != j
            ==> t.dependencies@[i].package_id@ != t.dependencies@[j].package_id@
}

/// Adds every package key of the subtree to `ids`, once each.
pub fn collect_ids(node: &TreeNode, ids: &mut Vec<String>)
    requires
        views_distinct(old(ids)@),
    ensures
        views_distinct(final(ids)@),
        final(ids)@.len() >= old(ids)@.len(),
        forall|k: Seq<char>|
            #![trigger contains_view(final(ids)@, k)]
            #![trigger contains_view(old(ids)@, k)]
            contains_view(final(ids)@, k) <==> contains_view(old(ids)@, k) || has_key(*node, k),
    decreases *node,
{
    let ghost entry_ids = ids@;
    let key = node.package_id.as_str();
    if !key.is_empty() {
        let mut found = false;
        let mut i: usize = 0;
        while i < ids.len()
            invariant
                i <= ids@.len(),
                ids@ == entry_ids,
                key@ == node.package_id@,
                found ==> contains_view(ids@, node.package_id@),
                !found ==> forall|j: int| 0 <= j < i ==> ids@[j]@ != node.package_id@,
            decreases ids@.len() - i,
        {
            if str_eq(ids[i].as_str(), key) {
                proof {
                    assert(contains_view(ids@, node.package_id@));
                }
                found = true;
            }
            i += 1;
        }
        if !found {
            ids.push(node.package_id.clone());
            proof {
                assert forall|k: Seq<char>| contains_view(ids@, k) <==> contains_view(
                    entry_ids,
                    k,
                ) || k == node.package_id@ by {
                    if contains_view(ids@, k) {
                        let m = choose|m: int| 0 <= m < ids@.len() && ids@[m]@ == k;
                        if m < entry_ids.len() {
                            assert(entry_ids[m]@ == k);
                        }
                    }
                    if contains_view(entry_ids, k) {
                        let m = choose|m: int| 0 <= m < entry_ids.len() && entry_ids[m]@ == k;
                        assert(ids@[m]@ == k);
                    }
                    if k == node.package_id@ {
                        assert(ids@[ids@.len() - 1]@ == k);
                    }
                }
            }
        }
    }
    let ghost mid_ids = ids@;
    proof {
        assert forall|k: Seq<char>| contains_view(mid_ids, k) <==> contains_view(entry_ids, k)
            || (node.package_id@ == k && k.len() > 0) by {
            if node.package_id@.len() > 0 && contains_view(entry_ids, k) {
                let m = choose|m: int| 0 <= m < entry_ids.len() && entry_ids[m]@ == k;
                if mid_ids.len() > entry_ids.len() {
                    assert(mid_ids[m]@ == k);
                }
            }
        }
    }
    let mut c: usize = 0;
    while c < node.dependencies.len()
        invariant
            c <= node.dependencies@.len(),
            views_distinct(ids@),
            ids@.len() >= mid_ids.len(),
            forall|k: Seq<char>|
                #![trigger contains_view(ids@, k)]
                #![trigger contains_view(mid_ids, k)]
                contains_view(ids@, k) <==> contains_view(mid_ids, k) || exists|i: int|
                    0 <= i < c && has_key(node.dependencies@[i], k),
        decreases node.dependencies@.len() - c,
    {
        let ghost prev = ids@;
        collect_ids(&node.dependencies[c], ids);
        proof {
            assert(ids@.len() >= prev.len());
            assert(forall|k: Seq<char>|
                contains_view(ids@, k) <==> contains_view(prev, k) || has_key(
                    node.dependencies@[c as int],
                    k,
                ));
            assert forall|k: Seq<char>| contains_view(ids@, k) <==> contains_view(mid_ids, k)
                || exists|i: int| 0 <= i < c + 1 && has_key(node.dependencies@[i], k) by {
                assert(contains_view(ids@, k) <==> contains_view(prev, k) || has_key(
                    node.dependencies@[c as int],
                    k,
                ));
                assert(contains_view(prev, k) <==> contains_view(mid_ids, k) || exists|i: int|
                    0 <= i < c && has_key(node.dependencies@[i], k));
                if exists|i: int| 0 <= i < c + 1 && has_key(node.dependencies@[i], k) {
                    let i = choose|i: int| 0 <= i < c + 1 && has_key(node.dependencies@[i], k);
                    if i < c {
                        assert(exists|i2: int|
                            0 <= i2 < c && has_key(node.dependencies@[i2], k));
                    } else {
                        assert(has_key(node.dependencies@[c as int], k));
                    }
                }
                if has_key(node.dependencies@[c as int], k) {
                    assert(exists|i2: int|
                        0 <= i2 < c + 1 && has_key(node.dependencies@[i2], k));
                }
                if exists|i: int| 0 <= i < c && has_key(node.dependencies@[i], k) {
                    let i = choose|i: int| 0 <= i < c && has_key(node.dependencies@[i], k);
                    assert(exists|i2: int|
                        0 <= i2 < c + 1 && has_key(node.dependencies@[i2], k));
                }
            }
        }
        c += 1;
    }
    proof {
        assert forall|k: Seq<char>| contains_view(ids@, k) <==> contains_view(entry_ids, k)
            || has_key(*node, k) by {
            if has_key(*node, k) && !(node.package_id@ == k && k.len() > 0) {
                let i = choose|i: int|
                    0 <= i < node.dependencies@.len() && has_key(node.dependencies@[i], k);
                assert(exists|i2: int|
                    0 <= i2 < node.dependencies@.len() && has_key(node.dependencies@[i2], k));
            }
        }
    }
}

/// The rendered-tree version map holds `v` under `nm`.
pub open spec fn map_has(mv: Seq<(String, Vec<String>)>, nm: Seq<char>, v: Seq<char>) -> bool {
    exists|i: int, j: int|
        0 <= i < mv.len() && mv[i].0@ == nm && 0 <= j < mv[i].1@.len() && mv[i].1@[j]@ == v
}

/// Entry names are pairwise distinct and each entry's versions are too.
pub open spec fn map_distinct(mv: Seq<(String, Vec<String>)>) -> bool {
    &&& forall|i: int, j: int| 0 <= i < j < mv.len() ==> mv[i].0@ != mv[j].0@
    &&& forall|i: int| 0 <= i < mv.len() ==> views_distinct((#[trigger] mv[i]).1@)
}

/// Records, for every node of the subtree with a nonempty version, that
/// version under the node's name, once each.
pub fn collect_versions(node: &TreeNode, versions: &mut Vec<(String, Vec<String>)>)
    requires
        map_distinct(old(versions)@),
    ensures
        map_distinct(final(versions)@),
        forall|nm: Seq<char>, v: Seq<char>|
            #![trigger map_has(final(versions)@, nm, v)]
            #![trigger map_has(old(versions)@, nm, v)]
            map_has(final(versions)@, nm, v) <==> map_has(old(versions)@, nm, v)
                || has_name_version(*node, nm, v),
    decreases *node,
{
    let ghost entry_mv = versions@;
    if !node.version.as_str().is_empty() {
        let mut at_opt: Option<usize> = None;
        let mut i: usize = 0;
        while i < versions.len()
            invariant
                i <= versions@.len(),
                versions@ == entry_mv,
                at_opt matches Some(a) ==> a < versions@.len() && versions@[a as int].0@
                    == node.name@,
                at_opt is None ==> forall|j: int| 0 <= j < i ==> versions@[j].0@ != node.name@,
            decreases versions@.len() - i,
        {
            if at_opt.is_none() && str_eq(versions[i].0.as_str(), node.name.as_str()) {
                at_opt = Some(i);
            }
            i += 1;
        }
        match at_opt {
            Some(at) => {
                let mut e = versions.remove(at);
                let ghost e0 = e;
                let mut seen = false;
                let mut j: usize = 0;
                while j < e.1.len()
                    invariant
                        j <= e.1@.len(),
                        e == e0,
                        seen ==> contains_view(e.1@, node.version@),
                        !seen ==> forall|m: int| 0 <= m < j ==> e.1@[m]@ != node.version@,
                    decreases e.1@.len() - j,
                {
                    if str_eq(e.1[j].as_str(), node.version.as_str()) {
                        seen = true;
                    }
                    j += 1;
                }
                if !seen {
                    e.1.push(node.version.clone());
                }
                versions.insert(at, e);
                proof {
                    assert(versions@ =~= entry_mv.update(at as int, e));
                    assert forall|nm: Seq<char>, v: Seq<char>| map_has(versions@, nm, v) <==>
                        map_has(entry_mv, nm, v) || (node.name@ == nm && node.version@ == v
                        && v.len() > 0) by {
                        if map_has(versions@, nm, v) {
                            let (i2, j2) = choose|i2: int, j2: int|
                                0 <= i2 < versions@.len() && versions@[i2].0@ == nm && 0 <= j2
                                    < versions@[i2].1@.len() && versions@[i2].1@[j2]@ == v;
                            if i2 != at {
                                assert(entry_mv[i2].0@ == nm && entry_mv[i2].1@[j2]@ == v);
                            } else {
                                if j2 < e0.1@.len() {
                                    assert(entry_mv[at as int].0@ == nm && entry_mv[
                                        at as int
                                    ].1@[j2]@ == v);
                                } else {
                                    assert(v == node.version@ && nm == node.name@);
                                }
                            }
                        }
                        if map_has(entry_mv, nm, v) {
                            let (i2, j2) = choose|i2: int, j2: int|
                                0 <= i2 < entry_mv.len() && entry_mv[i2].0@ == nm && 0 <= j2
                                    < entry_mv[i2].1@.len() && entry_mv[i2].1@[j2]@ == v;
                            if i2 != at {
                                assert(versions@[i2].0@ == nm && versions@[i2].1@[j2]@ == v);
                            } else {
                                assert(versions@[i2].0@ == nm && versions@[i2].1@[j2]@ == v);
                            }
                        }
                        if node.name@ == nm && node.version@ == v && v.len() > 0 {
                            if seen {
                                let m = choose|m: int|
                                    0 <= m < e0.1@.len() && e0.1@[m]@ == node.version@;
                                assert(versions@[at as int].0@ == nm && versions@[at as int].1@[m]@
                                    == v);
                            } else {
                                assert(versions@[at as int].0@ == nm && versions@[at as int].1@[
                                    e0.1@.len() as int
                                ]@ == v);
                            }
                        }
                    }
                    assert forall|i2: int, j2: int| 0 <= i2 < j2 < versions@.len() implies versions@[
                        i2
                    ].0@ != versions@[j2].0@ by {
                        assert(versions@[i2].0@ == entry_mv[i2].0@);
                        assert(versions@[j2].0@ == entry_mv[j2].0@);
                    }
                    assert forall|i2: int| 0 <= i2 < versions@.len() implies views_distinct(
                        (#[trigger] versions@[i2]).1@,
                    ) by {
                        if i2 != at {
                            assert(versions@[i2] == entry_mv[i2]);
                        } else {
                            if !seen {
                                assert forall|a: int, b: int|
                                    0 <= a < b < versions@[i2].1@.len() implies versions@[i2].1@[a]@
                                    != versions@[i2].1@[b]@ by {
                                    if b < e0.1@.len() {
                                        assert(e0.1@[a]@ != e0.1@[b]@);
                                    } else {
                                        assert(versions@[i2].1@[b]@ == node.version@);
                                        assert(e0.1@[a]@ != node.version@);
                                    }
                                }
                            }
                        }
                    }
                }
            },
            None => {
                let mut vs: Vec<String> = Vec::new();
                vs.push(node.version.clone());
                versions.push((node.name.clone(), vs));
                proof {
                    assert forall|nm: Seq<char>, v: Seq<char>| map_has(versions@, nm, v) <==>
                        map_has(entry_mv, nm, v) || (node.name@ == nm && node.version@ == v
                        && v.len() > 0) by {
                        if map_has(versions@, nm, v) {
                            let (i2, j2) = choose|i2: int, j2: int|
                                0 <= i2 < versions@.len() && versions@[i2].0@ == nm && 0 <= j2
                                    < versions@[i2].1@.len() && versions@[i2].1@[j2]@ == v;
                            if i2 < entry_mv.len() {
                                assert(entry_mv[i2].0@ == nm && entry_mv[i2].1@[j2]@ == v);
                            }
                        }
                        if map_has(entry_mv, nm, v) {
                            let (i2, j2) = choose|i2: int, j2: int|
                                0 <= i2 < entry_mv.len() && entry_mv[i2].0@ == nm && 0 <= j2
                                    < entry_mv[i2].1@.len() && entry_mv[i2].1@[j2]@ == v;
                            assert(versions@[i2].0@ == nm && versions@[i2].1@[j2]@ == v);
                        }
                        if node.name@ == nm && node.version@ == v && v.len() > 0 {
                            assert(versions@[versions@.len() - 1].0@ == nm && versions@[
                                versions@.len() - 1
                            ].1@[0]@ == v);
                        }
                    }
                    assert forall|i2: int, j2: int| 0 <= i2 < j2 < versions@.len() implies versions@[
                        i2
                    ].0@ != versions@[j2].0@ by {
                        if j2 < entry_mv.len() {
                            assert(entry_mv[i2].0@ != entry_mv[j2].0@);
                        } else {
                            assert(versions@[j2].0@ == node.name@);
                            assert(entry_mv[i2].0@ != node.name@);
                        }
                    }
                }
            },
        }
    }
    let ghost mid_mv = versions@;
    proof {
        if node.version@.len() == 0 {
            assert forall|nm: Seq<char>, v: Seq<char>| map_has(mid_mv, nm, v) <==> map_has(
                entry_mv,
                nm,
                v,
            ) || (node.name@ == nm && node.version@ == v && v.len() > 0) by {}
        }
    }
    let mut c: usize = 0;
    while c < node.dependencies.len()
        invariant
            c <= node.dependencies@.len(),
            map_distinct(versions@),
            forall|nm: Seq<char>, v: Seq<char>|
                #![trigger map_has(versions@, nm, v)]
                #![trigger map_has(mid_mv, nm, v)]
                map_has(versions@, nm, v) <==> map_has(mid_mv, nm, v) || exists|i: int|
                    0 <= i < c && has_name_version(node.dependencies@[i], nm, v),
        decreases node.dependencies@.len() - c,
    {
        let ghost prev = versions@;
        collect_versions(&node.dependencies[c], versions);
        proof {
            assert forall|nm: Seq<char>, v: Seq<char>| map_has(versions@, nm, v) <==> map_has(
                mid_mv,
                nm,
                v,
            ) || exists|i: int|
                0 <= i < c + 1 && has_name_version(node.dependencies@[i], nm, v) by {
                assert(map_has(versions@, nm, v) <==> map_has(prev, nm, v) || has_name_version(
                    node.dependencies@[c as int],
                    nm,
                    v,
                ));
                assert(map_has(prev, nm, v) <==> map_has(mid_mv, nm, v) || exists|i: int|
                    0 <= i < c && has_name_version(node.dependencies@[i], nm, v));
                if exists|i: int| 0 <= i < c + 1 && has_name_version(node.dependencies@[i], nm, v) {
                    let i = choose|i: int|
                        0 <= i < c + 1 && has_name_version(node.dependencies@[i], nm, v);
                    if i < c {
                        assert(exists|i2: int|
                            0 <= i2 < c && has_name_version(node.dependencies@[i2], nm, v));
                    } else {
                        assert(has_name_version(node.dependencies@[c as int], nm, v));
                    }
                }
                if has_name_version(node.dependencies@[c as int], nm, v) {
                    assert(exists|i2: int|
                        0 <= i2 < c + 1 && has_name_version(node.dependencies@[i2], nm, v));
                }
                if exists|i: int| 0 <= i < c && has_name_version(node.dependencies@[i], nm, v) {
                    let i = choose|i: int|
                        0 <= i < c && has_name_version(node.dependencies@[i], nm, v);
                    assert(exists|i2: int|
                        0 <= i2 < c + 1 && has_name_version(node.dependencies@[i2], nm, v));
                }
            }
        }
        c += 1;
    }
    proof {
        assert forall|nm: Seq<char>, v: Seq<char>| map_has(versions@, nm, v) <==> map_has(
            entry_mv,
            nm,
            v,
        ) || has_name_version(*node, nm, v) by {
            if has_name_version(*node, nm, v) && !(node.name@ == nm && node.version@ == v
                && v.len() > 0) {
                let i = choose|i: int|
                    0 <= i < node.dependencies@.len() && has_name_version(
                        node.dependencies@[i],
                        nm,
                        v,
                    );
                assert(exists|i2: int|
                    0 <= i2 < node.dependencies@.len() && has_name_version(
                        node.dependencies@[i2],
                        nm,
                        v,
                    ));
            }
        }
    }
}

/// How many entries hold more than one version.
pub open spec fn count_multi(mv: Seq<(String, Vec<String>)>) -> nat
    decreases mv.len(),
{
    if mv.len() == 0 {
        0
    } else {
        count_multi(mv.drop_last()) + if mv.last().1@.len() > 1 {
            1nat
        } else {
            0nat
        }
    }
}

/// An entry with several versions makes the count positive.
proof fn lemma_count_multi_pos(mv: Seq<(String, Vec<String>)>, i: int)
    requires
        0 <= i < mv.len(),
        mv[i].1@.len() > 1,
    ensures
        count_multi(mv) >= 1,
    decreases mv.len(),
{
    if i == mv.len() - 1 {
    } else {
        assert(mv.drop_last()[i] == mv[i]);
        lemma_count_multi_pos(mv.drop_last(), i);
    }
}

/// Computes the summary counts of a built tree: how many distinct package
/// keys it shows, the root's direct children, the transitive remainder
/// (saturating at zero), and how many names appear at several versions
/// within the rendered tree.
pub fn build_stats(root: &TreeNode) -> (r: TreeStats)
    ensures
        r.direct_deps == root.dependencies@.len(),
        r.transitive_deps == (if r.total_crates >= r.direct_deps + (if root.package_id@.len() > 0 {
            1int
        } else {
            0int
        }) {
            r.total_crates - r.direct_deps - (if root.package_id@.len() > 0 {
                1int
            } else {
                0int
            })
        } else {
            0int
        }),
        r.total_crates == tree_key_set(*root).len(),
        r.duplicate_crates == dup_name_set(*root).len(),
        children_keys_distinct(*root) ==> r.total_crates >= r.direct_deps,
        (exists|nm: Seq<char>, v1: Seq<char>, v2: Seq<char>|
            has_name_version(*root, nm, v1) && has_name_version(*root, nm, v2) && v1 != v2)
            ==> r.duplicate_crates >= 1,
{
    broadcast use vstd::seq_lib::seq_to_set_is_finite;
    broadcast use vstd::set::group_set_axioms;

    let mut ids: Vec<String> = Vec::new();
    collect_ids(root, &mut ids);
    let total_crates = ids.len();
    proof {
        broadcast use vstd::seq_lib::seq_to_set_is_finite;
        broadcast use vstd::set::group_set_axioms;

        let iv = ids@.map_values(|s: String| s@);
        assert(iv.no_duplicates()) by {
            assert forall|i: int, j: int|
                0 <= i < iv.len() && 0 <= j < iv.len() && i != j implies iv[i] != iv[j] by {
                assert(iv[i] == ids@[i]@);
                assert(iv[j] == ids@[j]@);
            }
        }
        iv.unique_seq_to_set();
        assert(iv.to_set() =~= tree_key_set(*root)) by {
            assert forall|k: Seq<char>| iv.to_set().contains(k) implies tree_key_set(
                *root,
            ).contains(k) by {
                let m = choose|m: int| 0 <= m < iv.len() && iv[m] == k;
                assert(ids@[m]@ == k);
                assert(contains_view(ids@, k));
            }
            assert forall|k: Seq<char>| tree_key_set(*root).contains(k) implies iv.to_set().contains(
                k,
            ) by {
                assert(has_key(*root, k));
                assert(contains_view(ids@, k));
                let m = choose|m: int| 0 <= m < ids@.len() && ids@[m]@ == k;
                assert(iv[m] == k);
                assert(iv.contains(k));
            }
        }
        assert(total_crates == tree_key_set(*root).len());
    }

    let mut versions: Vec<(String, Vec<String>)> = Vec::new();
    collect_versions(root, &mut versions);
    let mut duplicate_crates: usize = 0;
    let ghost mut dn: Seq<Seq<char>> = Seq::empty();
    let mut vi: usize = 0;
    while vi < versions.len()
        invariant
            vi <= versions@.len(),
            map_distinct(versions@),
            duplicate_crates == count_multi(versions@.take(vi as int)),
            duplicate_crates <= vi,
            dn.len() == duplicate_crates,
            dn.no_duplicates(),
            forall|j: int|
                0 <= j < dn.len() ==> exists|e: int|
                    0 <= e < vi && (#[trigger] versions@[e]).0@ == #[trigger] dn[j]
                        && versions@[e].1@.len() > 1,
            forall|e: int|
                0 <= e < vi && (#[trigger] versions@[e]).1@.len() > 1 ==> dn.contains(
                    versions@[e].0@,
                ),
        decreases versions@.len() - vi,
    {
        proof {
            assert(versions@.take(vi + 1).drop_last() =~= versions@.take(vi as int));
            assert(versions@.take(vi + 1).last() == versions@[vi as int]);
        }
        if versions[vi].1.len() > 1 {
            duplicate_crates += 1;
            proof {
                let ghost dn0 = dn;
                let nm = versions@[vi as int].0@;
                assert forall|j: int| 0 <= j < dn0.len() implies dn0[j] != nm by {
                    let e = choose|e: int|
                        0 <= e < vi && versions@[e].0@ == dn0[j] && versions@[e].1@.len() > 1;
                    assert(versions@[e].0@ != versions@[vi as int].0@);
                }
                dn = dn.push(nm);
                assert(dn.drop_last() =~= dn0);
                assert forall|e: int|
                    0 <= e < vi + 1 && (#[trigger] versions@[e]).1@.len() > 1 implies dn.contains(
                    versions@[e].0@,
                ) by {
                    if e < vi {
                        assert(dn0.contains(versions@[e].0@));
                        let j = choose|j: int| 0 <= j < dn0.len() && dn0[j] == versions@[e].0@;
                        assert(dn[j] == versions@[e].0@);
                    } else {
                        assert(dn[dn.len() - 1] == versions@[e].0@);
                    }
                }
            }
        }
        vi += 1;
    }
    proof {
        broadcast use vstd::seq_lib::seq_to_set_is_finite;
        broadcast use vstd::set::group_set_axioms;

        dn.unique_seq_to_set();
        assert(dn.to_set() =~= dup_name_set(*root)) by {
            assert forall|nm: Seq<char>| dn.to_set().contains(nm) implies dup_name_set(
                *root,
            ).contains(nm) by {
                let j = choose|j: int| 0 <= j < dn.len() && dn[j] == nm;
                let e = choose|e: int|
                    0 <= e < versions@.len() && versions@[e].0@ == nm && versions@[e].1@.len()
                        > 1;
                let v1 = versions@[e].1@[0]@;
                let v2 = versions@[e].1@[1]@;
                assert(views_distinct(versions@[e].1@));
                assert(v1 != v2);
                assert(map_has(versions@, nm, v1)) by {
                    assert(versions@[e].0@ == nm && versions@[e].1@[0]@ == v1);
                }
                assert(map_has(versions@, nm, v2)) by {
                    assert(versions@[e].0@ == nm && versions@[e].1@[1]@ == v2);
                }
                assert(has_name_version(*root, nm, v1));
                assert(has_name_version(*root, nm, v2));
            }
            assert forall|nm: Seq<char>| dup_name_set(*root).contains(nm) implies dn.to_set().contains(
                nm,
            ) by {
                let (v1, v2) = choose|v1: Seq<char>, v2: Seq<char>|
                    has_name_version(*root, nm, v1) && has_name_version(*root, nm, v2) && v1
                        != v2;
                assert(map_has(versions@, nm, v1));
                assert(map_has(versions@, nm, v2));
                let (i1, j1) = choose|i: int, j: int|
                    0 <= i < versions@.len() && versions@[i].0@ == nm && 0 <= j < versions@[
                        i
                    ].1@.len() && versions@[i].1@[j]@ == v1;
                let (i2, j2) = choose|i: int, j: int|
                    0 <= i < versions@.len() && versions@[i].0@ == nm && 0 <= j < versions@[
                        i
                    ].1@.len() && versions@[i].1@[j]@ == v2;
                if i1 != i2 {
                    assert(versions@[i1].0@ != versions@[i2].0@);
                    assert(false);
                }
                assert(versions@[i1].1@[j1]@ != versions@[i1].1@[j2]@);
                assert(versions@[i1].1@.len() > 1);
                assert(dn.contains(versions@[i1].0@));
            }
        }
        assert(duplicate_crates == dup_name_set(*root).len());
    }
    proof {
        assert(versions@.take(versions@.len() as int) =~= versions@);
        if exists|nm: Seq<char>, v1: Seq<char>, v2: Seq<char>|
            has_name_version(*root, nm, v1) && has_name_version(*root, nm, v2) && v1 != v2 {
            let (nm, v1, v2) = choose|nm: Seq<char>, v1: Seq<char>, v2: Seq<char>|
                has_name_version(*root, nm, v1) && has_name_version(*root, nm, v2) && v1 != v2;
            assert(map_has(versions@, nm, v1));
            assert(map_has(versions@, nm, v2));
            let (i1, j1) = choose|i: int, j: int|
                0 <= i < versions@.len() && versions@[i].0@ == nm && 0 <= j < versions@[i].1@.len()
                    && versions@[i].1@[j]@ == v1;
            let (i2, j2) = choose|i: int, j: int|
                0 <= i < versions@.len() && versions@[i].0@ == nm && 0 <= j < versions@[i].1@.len()
                    && versions@[i].1@[j]@ == v2;
            assert(versions@[i1].0@ == nm);
            assert(versions@[i2].0@ == nm);
            if i1 != i2 {
                assert(versions@[i1].0@ != versions@[i2].0@);
                assert(false);
            }
            assert(versions@[i1].1@[j1]@ != versions@[i1].1@[j2]@);
            assert(versions@[i1].1@.len() > 1);
            lemma_count_multi_pos(versions@, i1);
        }
    }

    let root_is_real = !root.package_id.as_str().is_empty();
    let direct_deps = root.dependencies.len();
    let mut transitive_deps: usize = if total_crates > direct_deps {
        total_crates - direct_deps
    } else {
        0
    };
    if root_is_real {
        transitive_deps = if transitive_deps > 0 {
            transitive_deps - 1
        } else {
            0
        };
    }

    proof {
        if children_keys_distinct(*root) {
            let deps = root.dependencies@;
            let cs = deps.map_values(|c: TreeNode| c.package_id@);
            assert(cs.no_duplicates()) by {
                assert forall|i: int, j: int| 0 <= i < cs.len() && 0 <= j < cs.len() && i != j
                    implies cs[i] != cs[j] by {
                    assert(cs[i] == deps[i].package_id@);
                    assert(cs[j] == deps[j].package_id@);
                }
            }
            cs.unique_seq_to_set();
            let iv = ids@.map_values(|s: String| s@);
            assert(iv.no_duplicates()) by {
                assert forall|i: int, j: int| 0 <= i < iv.len() && 0 <= j < iv.len() && i != j
                    implies iv[i] != iv[j] by {
                    assert(iv[i] == ids@[i]@);
                    assert(iv[j] == ids@[j]@);
                }
            }
            iv.unique_seq_to_set();
            assert forall|k: Seq<char>| cs.to_set().contains(k) implies iv.to_set().contains(
                k,
            ) by {
                let i = choose|i: int| 0 <= i < cs.len() && cs[i] == k;
                assert(deps[i].package_id@ == k && k.len() > 0);
                assert(has_key(deps[i], k));
                assert(has_key(*root, k));
                assert(contains_view(ids@, k));
                let m = choose|m: int| 0 <= m < ids@.len() && ids@[m]@ == k;
                assert(iv[m] == k);
                assert(iv.contains(k));
            }
            vstd::set_lib::lemma_len_subset(cs.to_set(), iv.to_set());
        }
    }

    TreeStats { total_crates, direct_deps, transitive_deps, duplicate_crates }
}

} // verus!
