//! The project probe: what the workspace declares, which tool
//! configuration files are present, and which CI providers are set up.
//! The host checks the file system and hands in plain flags; the
//! assembly of the report is verified here.

use vstd::prelude::*;
use crate::output::DetectOutput;
use crate::strings::{clone_strings, seq_lt, sort_strings, str_eq, str_views};

verus! {

/// What the root package declares, as the host hands it in.
#[derive(Debug)]
pub struct RootPackageInfo {
    pub name: String,
    pub version: String,
    pub edition: String,
    pub msrv: Option<String>,
    pub dependency_count: usize,
    pub features: Vec<String>,
    pub targets: Vec<TargetInfo>,
}

/// One build target's kind tags.
#[derive(Debug)]
pub struct TargetInfo {
    pub kind: Vec<String>,
}

/// Which tool configuration files the workspace root holds.
#[derive(Debug)]
pub struct ToolingPresence {
    pub clippy_config: bool,
    pub rustfmt_config: bool,
    pub deny_config: bool,
    pub toolchain_file: bool,
}

/// Which CI providers are configured.
#[derive(Debug)]
pub struct CiPresence {
    pub github_workflows: bool,
    pub gitlab_config: bool,
    pub circleci_config: bool,
}

/// The tool names reported for the present configuration files, in the
/// reported order.
pub open spec fn spec_tooling(p: ToolingPresence) -> Seq<Seq<char>> {
    (if p.clippy_config {
        seq!["clippy"@]
    } else {
        Seq::empty()
    }) + (if p.rustfmt_config {
        seq!["rustfmt"@]
    } else {
        Seq::empty()
    }) + (if p.deny_config {
        seq!["cargo-deny"@]
    } else {
        Seq::empty()
    }) + (if p.toolchain_file {
        seq!["rust-toolchain"@]
    } else {
        Seq::empty()
    })
}

/// Names the tools whose configuration files are present.
pub fn detect_tooling(p: &ToolingPresence) -> (r: Vec<String>)
    ensures
        str_views(r@) == spec_tooling(*p),
{
    let mut tooling: Vec<String> = Vec::new();
    if p.clippy_config {
        tooling.push("clippy".to_owned());
    }
    if p.rustfmt_config {
        tooling.push("rustfmt".to_owned());
    }
    if p.deny_config {
        tooling.push("cargo-deny".to_owned());
    }
    if p.toolchain_file {
        tooling.push("rust-toolchain".to_owned());
    }
    proof {
        assert(str_views(tooling@) =~= spec_tooling(*p));
    }
    tooling
}

/// The CI provider names reported for the present configurations, in the
/// reported order.
pub open spec fn spec_ci(p: CiPresence) -> Seq<Seq<char>> {
    (if p.github_workflows {
        seq!["github-actions"@]
    } else {
        Seq::empty()
    }) + (if p.gitlab_config {
        seq!["gitlab-ci"@]
    } else {
        Seq::empty()
    }) + (if p.circleci_config {
        seq!["circleci"@]
    } else {
        Seq::empty()
    })
}

/// Names the CI providers that are configured.
pub fn detect_ci(p: &CiPresence) -> (r: Vec<String>)
    ensures
        str_views(r@) == spec_ci(*p),
{
    let mut ci: Vec<String> = Vec::new();
    if p.github_workflows {
        ci.push("github-actions".to_owned());
    }
    if p.gitlab_config {
        ci.push("gitlab-ci".to_owned());
    }
    if p.circleci_config {
        ci.push("circleci".to_owned());
    }
    proof {
        assert(str_views(ci@) =~= spec_ci(*p));
    }
    ci
}

/// Whether any of the given flags is set.
pub fn has_any(flags: &Vec<bool>) -> (r: bool)
    ensures
        r == exists|i: int| 0 <= i < flags@.len() && flags@[i],
{
    let mut i: usize = 0;
    while i < flags.len()
        invariant
            i <= flags@.len(),
            forall|k: int| 0 <= k < i ==> !flags@[k],
        decreases flags@.len() - i,
    {
        if flags[i] {
            return true;
        }
        i += 1;
    }
    false
}

/// Some target of the list carries this kind tag.
pub open spec fn has_kind_tag(targets: Seq<TargetInfo>, k: Seq<char>) -> bool {
    exists|t: int, j: int|
        0 <= t < targets.len() && 0 <= j < targets[t].kind@.len() && targets[t].kind@[j]@ == k
}

/// Some collected kind string reads `k`.
pub open spec fn kind_known(kinds: Seq<String>, k: Seq<char>) -> bool {
    exists|i: int| 0 <= i < kinds.len() && kinds[i]@ == k
}

/// Every kind tag of the first `t_end` targets was collected.
pub open spec fn kinds_covered(targets: Seq<TargetInfo>, t_end: int, kinds: Seq<String>) -> bool {
    forall|t2: int, j: int|
        0 <= t2 < t_end && 0 <= j < targets[t2].kind@.len() ==> kind_known(
            kinds,
            #[trigger] targets[t2].kind@[j]@,
        )
}

/// `out` summarizes the targets' kind tags: ordered by code point, each
/// drawn from some target, and every tag present.
pub open spec fn targets_summary(targets: Seq<TargetInfo>, out: Seq<String>) -> bool {
    &&& forall|i: int, j: int| 0 <= i < j < out.len() ==> !seq_lt(out[j]@, out[i]@)
    &&& forall|i: int| 0 <= i < out.len() ==> has_kind_tag(targets, #[trigger] out[i]@)
    &&& forall|k: Seq<char>|
        has_kind_tag(targets, k) ==> exists|i: int| 0 <= i < out.len() && out[i]@ == k
}

/// The distinct kind tags over all targets, ordered by code point.
pub fn collect_targets(targets: &Vec<TargetInfo>) -> (r: Vec<String>)
    ensures
        forall|i: int, j: int| 0 <= i < j < r@.len() ==> !seq_lt(r@[j]@, r@[i]@),
        forall|i: int| 0 <= i < r@.len() ==> has_kind_tag(targets@, #[trigger] r@[i]@),
        forall|k: Seq<char>| has_kind_tag(targets@, k) ==> exists|i: int|
            0 <= i < r@.len() && r@[i]@ == k,
{
    let mut kinds: Vec<String> = Vec::new();
    let mut t: usize = 0;
    while t < targets.len()
        invariant
            t <= targets@.len(),
            forall|i: int| 0 <= i < kinds@.len() ==> has_kind_tag(targets@, #[trigger] kinds@[i]@),
            kinds_covered(targets@, t as int, kinds@),
        decreases targets@.len() - t,
    {
        let target = &targets[t];
        let mut j: usize = 0;
        while j < target.kind.len()
            invariant
                t < targets@.len(),
                *target == targets@[t as int],
                j <= target.kind@.len(),
                forall|i: int|
                    0 <= i < kinds@.len() ==> has_kind_tag(targets@, #[trigger] kinds@[i]@),
                kinds_covered(targets@, t as int, kinds@),
                forall|j2: int|
                    0 <= j2 < j ==> kind_known(kinds@, #[trigger] targets@[t as int].kind@[j2]@),
            decreases target.kind@.len() - j,
        {
            let kind = &target.kind[j];
            let mut present = false;
            let mut i: usize = 0;
            while i < kinds.len()
                invariant
                    i <= kinds@.len(),
                    present ==> kind_known(kinds@, kind@),
                    !present ==> forall|m: int| 0 <= m < i ==> kinds@[m]@ != kind@,
                decreases kinds@.len() - i,
            {
                if str_eq(kinds[i].as_str(), kind.as_str()) {
                    proof {
                        assert(kinds@[i as int]@ == kind@);
                    }
                    present = true;
                }
                i += 1;
            }
            if !present {
                let ghost kinds0 = kinds@;
                kinds.push(kind.clone());
                proof {
                    assert(kinds@[kinds@.len() - 1]@ == kind@);
                    assert(kind@ == targets@[t as int].kind@[j as int]@);
                    assert(has_kind_tag(targets@, kind@));
                    assert forall|k2: Seq<char>| kind_known(kinds0, k2) implies kind_known(
                        kinds@,
                        k2,
                    ) by {
                        let i2 = choose|i2: int| 0 <= i2 < kinds0.len() && kinds0[i2]@ == k2;
                        assert(kinds@[i2]@ == k2);
                    }
                    assert(kind_known(kinds@, kind@));
                }
            }
            proof {
                assert(kind_known(kinds@, targets@[t as int].kind@[j as int]@));
            }
            j += 1;
        }
        proof {
            assert forall|t2: int, j2: int|
                0 <= t2 < t + 1 && 0 <= j2 < targets@[t2].kind@.len() implies kind_known(
                kinds@,
                #[trigger] targets@[t2].kind@[j2]@,
            ) by {}
        }
        t += 1;
    }
    let ghost collected = kinds@;
    let sorted = sort_strings(kinds);
    proof {
        broadcast use vstd::seq_lib::group_to_multiset_ensures;
        broadcast use vstd::multiset::group_multiset_axioms;

        assert forall|i: int| 0 <= i < sorted@.len() implies has_kind_tag(
            targets@,
            #[trigger] sorted@[i]@,
        ) by {
            assert(sorted@.contains(sorted@[i]));
            assert(sorted@.to_multiset().count(sorted@[i]) > 0);
            assert(collected.to_multiset().count(sorted@[i]) > 0);
            assert(collected.contains(sorted@[i]));
            let m = choose|m: int| 0 <= m < collected.len() && collected[m] == sorted@[i];
            assert(has_kind_tag(targets@, collected[m]@));
            assert(sorted@[i]@ == collected[m]@);
        }
        assert forall|k: Seq<char>| has_kind_tag(targets@, k) implies exists|i: int|
            0 <= i < sorted@.len() && sorted@[i]@ == k by {
            let (t2, j2) = choose|t2: int, j2: int|
                0 <= t2 < targets@.len() && 0 <= j2 < targets@[t2].kind@.len() && targets@[
                    t2
                ].kind@[j2]@ == k;
            assert(kind_known(collected, k));
            let m = choose|m: int| 0 <= m < collected.len() && collected[m]@ == k;
            assert(collected.contains(collected[m]));
            assert(collected.to_multiset().count(collected[m]) > 0);
            assert(sorted@.to_multiset().count(collected[m]) > 0);
            assert(sorted@.contains(collected[m]));
            let i = choose|i: int| 0 <= i < sorted@.len() && sorted@[i] == collected[m];
            assert(sorted@[i]@ == k);
        }
    }
    sorted
}

/// Assembles the probe report: the root package's declarations when one
/// exists, and the workspace flag — set when there is no single root, or
/// when the workspace has several members.
pub fn build_output(
    root_package: Option<&RootPackageInfo>,
    workspace_member_count: usize,
    members: Vec<String>,
    tooling: &ToolingPresence,
    ci: &CiPresence,
) -> (r: DetectOutput)
    ensures
        r.workspace == (root_package is None || workspace_member_count > 1),
        root_package matches Some(pkg) ==> {
            &&& r.package matches Some(p) && p@ == pkg.name@
            &&& r.version matches Some(v) && v@ == pkg.version@
            &&& r.edition matches Some(e) && e@ == pkg.edition@
            &&& (r.msrv is Some <==> pkg.msrv is Some)
            &&& r.dependencies == pkg.dependency_count
        },
        root_package matches Some(pkg) ==> r.msrv matches Some(m) ==> m@ == pkg.msrv->Some_0@,
        root_package matches Some(pkg) ==> r.features@.len() == pkg.features@.len() && (forall|
            i: int,
        |
            0 <= i < r.features@.len() ==> r.features@[i]@ == pkg.features@[i]@),
        root_package matches Some(pkg) ==> targets_summary(pkg.targets@, r.targets@),
        root_package is None ==> r.package is None && r.version is None && r.edition is None
            && r.msrv is None && r.dependencies == 0 && r.features@.len() == 0
            && r.targets@.len() == 0,
        r.members == members,
        str_views(r.tooling@) == spec_tooling(*tooling),
        str_views(r.ci@) == spec_ci(*ci),
{
    let is_workspace = root_package.is_none() || workspace_member_count > 1;
    let (package, version, edition, msrv, dependencies, features, targets) = match root_package {
        Some(pkg) => {
            let msrv = match &pkg.msrv {
                Some(m) => Some(m.clone()),
                None => None,
            };
            (
                Some(pkg.name.clone()),
                Some(pkg.version.clone()),
                Some(pkg.edition.clone()),
                msrv,
                pkg.dependency_count,
                clone_strings(&pkg.features),
                collect_targets(&pkg.targets),
            )
        },
        None => (None, None, None, None, 0, Vec::new(), Vec::new()),
    };
    proof {
        if root_package is Some {
            let pkg = root_package->Some_0;
            assert(features@.len() == pkg.features@.len());
            assert(forall|i: int| 0 <= i < features@.len() ==> features@[i]@ == pkg.features@[i]@);
            assert(targets_summary(pkg.targets@, targets@));
            assert(msrv is Some <==> pkg.msrv is Some);
            assert(msrv matches Some(m) ==> m@ == pkg.msrv->Some_0@);
        }
    }

    DetectOutput {
        edition,
        msrv,
        workspace: is_workspace,
        members,
        package,
        version,
        dependencies,
        features,
        targets,
        tooling: detect_tooling(tooling),
        ci: detect_ci(ci),
    }
}

} // verus!
