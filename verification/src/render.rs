//! Text rendering of a built tree: one connector-prefixed line per node,
//! with a distinct connector for the last child at each level, and the
//! duplicate/dev/build annotations (and features, if requested).

use vstd::prelude::*;
use crate::strings::{joined_sep, str_views};
use crate::tree::TreeNode;

verus! {

/// The annotation texts a node's label carries, in order.
pub open spec fn spec_annotations(n: TreeNode, show_features: bool) -> Seq<Seq<char>> {
    (if n.duplicate {
        seq!["dup"@]
    } else {
        Seq::empty()
    }) + (if n.is_dev {
        seq!["dev"@]
    } else {
        Seq::empty()
    }) + (if n.is_build {
        seq!["build"@]
    } else {
        Seq::empty()
    }) + (if show_features && n.features@.len() > 0 {
        seq!["features: "@ + joined_sep(str_views(n.features@), ", "@)]
    } else {
        Seq::empty()
    })
}

/// A node's one-line label: its name, ` v` and the version when one is
/// recorded, and the bracketed annotation list when any annotation
/// applies.
pub open spec fn spec_label(n: TreeNode, show_features: bool) -> Seq<char> {
    let version_suffix = if n.version@.len() == 0 {
        Seq::<char>::empty()
    } else {
        " v"@ + n.version@
    };
    let annotations = spec_annotations(n, show_features);
    if annotations.len() == 0 {
        n.name@ + version_suffix
    } else {
        n.name@ + version_suffix + " ["@ + joined_sep(annotations, ", "@) + "]"@
    }
}

/// Joins the parts with `", "` separators.
fn join_comma(parts: &Vec<String>) -> (r: String)
    ensures
        r@ == joined_sep(str_views(parts@), ", "@),
{
    let ghost pv = str_views(parts@);
    let mut out = String::new();
    let mut k: usize = 0;
    while k < parts.len()
        invariant
            k <= parts@.len(),
            pv == str_views(parts@),
            k == 0 ==> out@ == Seq::<char>::empty(),
            k >= 1 ==> out@ == joined_sep(pv.take(k as int), ", "@),
        decreases parts@.len() - k,
    {
        if k > 0 {
            out.append(", ");
        }
        out.append(parts[k].as_str());
        proof {
            reveal_strlit(", ");
            assert(pv[k as int] == parts@[k as int]@);
            if k == 0 {
                assert(pv.take(1) =~= seq![pv[0]]);
                assert(joined_sep(seq![pv[0]], ", "@) == pv[0]);
                assert(out@ =~= joined_sep(pv.take(1), ", "@));
            } else {
                assert(pv.take(k + 1) =~= pv.take(k as int).push(pv[k as int]));
                crate::strings::lemma_joined_sep_push(pv.take(k as int), ", "@, pv[k as int]);
                assert(out@ =~= joined_sep(pv.take(k + 1), ", "@));
            }
        }
        k += 1;
    }
    proof {
        assert(pv.take(parts@.len() as int) =~= pv);
    }
    out
}

/// Renders a node's one-line label.
pub fn format_label(node: &TreeNode, show_features: bool) -> (r: String)
    ensures
        r@ == spec_label(*node, show_features),
{
    let mut annotations: Vec<String> = Vec::new();
    if node.duplicate {
        annotations.push("dup".to_owned());
    }
    if node.is_dev {
        annotations.push("dev".to_owned());
    }
    if node.is_build {
        annotations.push("build".to_owned());
    }
    if show_features && node.features.len() > 0 {
        let mut feature_text = String::new();
        feature_text.append("features: ");
        let joined = join_comma(&node.features);
        feature_text.append(joined.as_str());
        annotations.push(feature_text);
    }
    proof {
        assert(str_views(annotations@) =~= spec_annotations(*node, show_features));
    }

    let mut out = String::new();
    out.append(node.name.as_str());
    if node.version.as_str().unicode_len() > 0 {
        out.append(" v");
        out.append(node.version.as_str());
    }
    if annotations.len() > 0 {
        out.append(" [");
        let joined = join_comma(&annotations);
        out.append(joined.as_str());
        out.append("]");
    }
    proof {
        assert(out@ =~= spec_label(*node, show_features));
    }
    out
}

/// The rendered lines of the children of `t` from child `from` on, each
/// under `prefix`.
pub open spec fn spec_lines_from(
    t: TreeNode,
    from: int,
    prefix: Seq<char>,
    show_features: bool,
) -> Seq<Seq<char>>
    decreases t, t.dependencies@.len() - from,
{
    if from < 0 || from >= t.dependencies@.len() {
        Seq::empty()
    } else {
        spec_node_lines(
            t.dependencies@[from],
            prefix,
            from == t.dependencies@.len() - 1,
            show_features,
        ) + spec_lines_from(t, from + 1, prefix, show_features)
    }
}

/// The rendered lines of one node and its subtree: its own connector
/// line, then its children under a deepened prefix.
pub open spec fn spec_node_lines(
    n: TreeNode,
    prefix: Seq<char>,
    is_last: bool,
    show_features: bool,
) -> Seq<Seq<char>>
    decreases n, n.dependencies@.len() + 1,
{
    let connector = if is_last {
        "`-- "@
    } else {
        "|-- "@
    };
    let next_prefix = prefix + (if is_last {
        "    "@
    } else {
        "|   "@
    });
    seq![prefix + connector + spec_label(n, show_features)] + spec_lines_from(
        n,
        0,
        next_prefix,
        show_features,
    )
}

/// Renders one node and its subtree, appending one connector-prefixed
/// line per node.
pub fn render_node(
    node: &TreeNode,
    prefix: &str,
    is_last: bool,
    show_features: bool,
    lines: &mut Vec<String>,
)
    ensures
        str_views(final(lines)@) == str_views(old(lines)@) + spec_node_lines(
            *node,
            prefix@,
            is_last,
            show_features,
        ),
    decreases *node,
{
    let connector = if is_last {
        "`-- "
    } else {
        "|-- "
    };
    let mut line = String::new();
    line.append(prefix);
    line.append(connector);
    let label = format_label(node, show_features);
    line.append(label.as_str());
    let ghost own_line = line@;
    lines.push(line);

    let mut next_prefix = String::new();
    next_prefix.append(prefix);
    if is_last {
        next_prefix.append("    ");
    } else {
        next_prefix.append("|   ");
    }
    let ghost np = next_prefix@;

    let ghost after_own = str_views(lines@);
    proof {
        assert(after_own =~= str_views(old(lines)@).push(own_line));
    }

    let children_len = node.dependencies.len();
    let mut index: usize = 0;
    while index < children_len
        invariant
            children_len == node.dependencies@.len(),
            index <= children_len,
            np == next_prefix@,
            after_own == str_views(old(lines)@).push(own_line),
            own_line == prefix@ + (if is_last {
                "`-- "@
            } else {
                "|-- "@
            }) + spec_label(*node, show_features),
            np == prefix@ + (if is_last {
                "    "@
            } else {
                "|   "@
            }),
            str_views(lines@) + spec_lines_from(*node, index as int, np, show_features)
                == after_own + spec_lines_from(*node, 0, np, show_features),
        decreases children_len - index,
    {
        let child_last = index + 1 == children_len;
        let ghost pre_views = str_views(lines@);
        render_node(&node.dependencies[index], next_prefix.as_str(), child_last, show_features, lines);
        proof {
            assert(str_views(lines@) =~= pre_views + spec_node_lines(
                node.dependencies@[index as int],
                np,
                child_last,
                show_features,
            ));
            assert(spec_lines_from(*node, index as int, np, show_features) == spec_node_lines(
                node.dependencies@[index as int],
                np,
                child_last,
                show_features,
            ) + spec_lines_from(*node, index + 1, np, show_features));
            assert(str_views(lines@) + spec_lines_from(*node, index + 1, np, show_features)
                =~= after_own + spec_lines_from(*node, 0, np, show_features));
        }
        index += 1;
    }
    proof {
        assert(spec_lines_from(*node, children_len as int, np, show_features) =~= Seq::<
            Seq<char>,
        >::empty());
        assert(str_views(lines@) =~= str_views(old(lines)@) + spec_node_lines(
            *node,
            prefix@,
            is_last,
            show_features,
        ));
    }
}

/// The rendered lines of a whole tree: the root's bare label, then its
/// children with connectors.
pub open spec fn spec_tree_lines(root: TreeNode, show_features: bool) -> Seq<Seq<char>> {
    seq![spec_label(root, show_features)] + spec_lines_from(root, 0, Seq::empty(), show_features)
}

/// Renders a whole tree as text: one line per node, joined by newlines.
pub fn render_tree(root: &TreeNode, show_features: bool) -> (r: String)
    ensures
        r@ == joined_sep(spec_tree_lines(*root, show_features), "\n"@),
{
    let mut lines: Vec<String> = Vec::new();
    let label = format_label(root, show_features);
    lines.push(label);
    proof {
        assert(str_views(lines@) =~= seq![spec_label(*root, show_features)]);
    }

    let children_len = root.dependencies.len();
    let mut index: usize = 0;
    while index < children_len
        invariant
            children_len == root.dependencies@.len(),
            index <= children_len,
            str_views(lines@) + spec_lines_from(
                *root,
                index as int,
                Seq::<char>::empty(),
                show_features,
            ) == seq![spec_label(*root, show_features)] + spec_lines_from(
                *root,
                0,
                Seq::<char>::empty(),
                show_features,
            ),
        decreases children_len - index,
    {
        let is_last = index + 1 == children_len;
        let ghost pre_views = str_views(lines@);
        render_node(&root.dependencies[index], "", is_last, show_features, &mut lines);
        proof {
            reveal_strlit("");
            assert(""@ =~= Seq::<char>::empty());
            assert(str_views(lines@) =~= pre_views + spec_node_lines(
                root.dependencies@[index as int],
                Seq::<char>::empty(),
                is_last,
                show_features,
            ));
            assert(spec_lines_from(*root, index as int, Seq::<char>::empty(), show_features)
                == spec_node_lines(
                root.dependencies@[index as int],
                Seq::<char>::empty(),
                is_last,
                show_features,
            ) + spec_lines_from(*root, index + 1, Seq::<char>::empty(), show_features));
            assert(str_views(lines@) + spec_lines_from(
                *root,
                index + 1,
                Seq::<char>::empty(),
                show_features,
            ) =~= seq![spec_label(*root, show_features)] + spec_lines_from(
                *root,
                0,
                Seq::<char>::empty(),
                show_features,
            ));
        }
        index += 1;
    }
    proof {
        assert(spec_lines_from(*root, children_len as int, Seq::<char>::empty(), show_features)
            =~= Seq::<Seq<char>>::empty());
        assert(str_views(lines@) =~= spec_tree_lines(*root, show_features));
    }

    // join the lines with newlines
    let ghost lv = str_views(lines@);
    let mut out = String::new();
    let mut k: usize = 0;
    while k < lines.len()
        invariant
            k <= lines@.len(),
            lv == str_views(lines@),
            k == 0 ==> out@ == Seq::<char>::empty(),
            k >= 1 ==> out@ == joined_sep(lv.take(k as int), "\n"@),
        decreases lines@.len() - k,
    {
        if k > 0 {
            out.append("\n");
        }
        out.append(lines[k].as_str());
        proof {
            reveal_strlit("\n");
            assert(lv[k as int] == lines@[k as int]@);
            if k == 0 {
                assert(lv.take(1) =~= seq![lv[0]]);
                assert(joined_sep(seq![lv[0]], "\n"@) == lv[0]);
                assert(out@ =~= joined_sep(lv.take(1), "\n"@));
            } else {
                assert(lv.take(k + 1) =~= lv.take(k as int).push(lv[k as int]));
                crate::strings::lemma_joined_sep_push(lv.take(k as int), "\n"@, lv[k as int]);
                assert(out@ =~= joined_sep(lv.take(k + 1), "\n"@));
            }
        }
        k += 1;
    }
    proof {
        assert(lv.take(lines@.len() as int) =~= lv);
        if lines@.len() == 0 {
            assert(joined_sep(lv, "\n"@) =~= Seq::<char>::empty());
        }
    }
    out
}

} // verus!
