//! The outdated-dependency report: splitting declared dependencies into
//! registry and skipped ones, resolving current versions, comparing them
//! with the registry's latest, and attaching security findings.

use vstd::prelude::*;
use crate::error::{ErrorCode, UpkeepError};
use crate::graph::DepKind;
use crate::output::{DependencyType, OutdatedPackage, Severity, SkipReason, SkippedDependency,
    UpdateType};
use crate::strings::{starts_with_seq, str_eq, str_starts_with};
use crate::version::Version;

verus! {

/// One declared dependency of a workspace member, as the host hands it in.
#[derive(Debug)]
pub struct DependencyInfo {
    pub name: String,
    pub rename: Option<String>,
    pub req: String,
    pub kind: DepKind,
    pub optional: bool,
    pub source: Option<String>,
    pub target: Option<String>,
}

/// What the registry reported for one crate name.
#[derive(Debug)]
pub struct VersionInfo {
    pub name: String,
    pub latest: Option<String>,
    pub latest_stable: Option<String>,
}

/// A dependency comes from a registry when it has no recorded source
/// (the default registry) or one marked `registry+`.
pub open spec fn spec_is_registry(source: Option<Seq<char>>) -> bool {
    match source {
        None => true,
        Some(s) => starts_with_seq(s, "registry+"@),
    }
}

/// Whether a declared source points at a registry.
pub fn is_registry_source(source: Option<&String>) -> (r: bool)
    ensures
        r == spec_is_registry(
            match source {
                Some(s) => Some(s@),
                None => None,
            },
        ),
{
    match source {
        None => true,
        Some(s) => str_starts_with(s.as_str(), "registry+"),
    }
}

/// How a declared kind tag becomes a report dependency type: dev and build
/// keep their kind, everything else counts as normal.
pub open spec fn spec_convert_kind(kind: DepKind) -> DependencyType {
    match kind {
        DepKind::Development => DependencyType::Dev,
        DepKind::Build => DependencyType::Build,
        _ => DependencyType::Normal,
    }
}

/// Converts a declared kind tag to a report dependency type.
pub fn convert_dependency_kind(kind: DepKind) -> (r: DependencyType)
    ensures
        r == spec_convert_kind(kind),
{
    match kind {
        DepKind::Development => DependencyType::Dev,
        DepKind::Build => DependencyType::Build,
        _ => DependencyType::Normal,
    }
}

/// Which component a newer version changes: the first of major, minor,
/// patch that grew.
pub open spec fn spec_classify(current: Version, latest: Version) -> UpdateType {
    if latest.major > current.major {
        UpdateType::Major
    } else if latest.minor > current.minor {
        UpdateType::Minor
    } else {
        UpdateType::Patch
    }
}

/// Classifies an available update by the first version component that grew.
pub fn classify_update(current: &Version, latest: &Version) -> (r: UpdateType)
    ensures
        r == spec_classify(*current, *latest),
{
    if latest.major > current.major {
        UpdateType::Major
    } else if latest.minor > current.minor {
        UpdateType::Minor
    } else {
        UpdateType::Patch
    }
}

/// The first version recorded under `key` in the resolved-version list.
pub open spec fn spec_assoc_version(resolved: Seq<(String, Version)>, key: Seq<char>) -> Option<
    Version,
>
    decreases resolved.len(),
{
    if resolved.len() == 0 {
        None
    } else if resolved[0].0@ == key {
        Some(resolved[0].1)
    } else {
        spec_assoc_version(resolved.drop_first(), key)
    }
}

fn assoc_version<'a>(resolved: &'a Vec<(String, Version)>, key: &str) -> (r: Option<&'a Version>)
    ensures
        r is Some <==> spec_assoc_version(resolved@, key@) is Some,
        r matches Some(v) ==> spec_assoc_version(resolved@, key@) == Some(*v),
{
    proof {
        assert(resolved@.skip(0) =~= resolved@);
    }
    let mut i: usize = 0;
    while i < resolved.len()
        invariant
            i <= resolved@.len(),
            spec_assoc_version(resolved@, key@) == spec_assoc_version(
                resolved@.skip(i as int),
                key@,
            ),
        decreases resolved@.len() - i,
    {
        proof {
            assert(resolved@.skip(i as int)[0] == resolved@[i as int]);
            assert(resolved@.skip(i as int).drop_first() =~= resolved@.skip(i + 1));
        }
        let entry = &resolved[i];
        if str_eq(entry.0.as_str(), key) {
            return Some(&entry.1);
        }
        i += 1;
    }
    None
}

/// The resolved version a dependency currently has: looked up under its
/// alias first, then under its package name.
pub fn resolve_current_version<'a>(
    dep_key: &str,
    dep_name: &str,
    resolved_versions: &'a Vec<(String, Version)>,
) -> (r: Option<&'a Version>)
    ensures
        r is Some <==> spec_assoc_version(resolved_versions@, dep_key@) is Some
            || spec_assoc_version(resolved_versions@, dep_name@) is Some,
        r matches Some(v) ==> (match spec_assoc_version(resolved_versions@, dep_key@) {
            Some(byk) => *v == byk,
            None => spec_assoc_version(resolved_versions@, dep_name@) == Some(*v),
        }),
{
    match assoc_version(resolved_versions, dep_key) {
        Some(v) => Some(v),
        None => assoc_version(resolved_versions, dep_name),
    }
}

/// The first registry record under `name`.
pub open spec fn spec_assoc_info(latest: Seq<(String, VersionInfo)>, key: Seq<char>) -> Option<
    VersionInfo,
>
    decreases latest.len(),
{
    if latest.len() == 0 {
        None
    } else if latest[0].0@ == key {
        Some(latest[0].1)
    } else {
        spec_assoc_info(latest.drop_first(), key)
    }
}

/// The latest version the registry reported for a crate, if it reported
/// one at all.
pub fn get_latest_version(dep_name: &str, latest_versions: &Vec<(String, VersionInfo)>) -> (r:
    Option<String>)
    ensures
        r is Some <==> (spec_assoc_info(latest_versions@, dep_name@) matches Some(info)
            && info.latest is Some),
        r matches Some(s) ==> (spec_assoc_info(latest_versions@, dep_name@) matches Some(info)
            && info.latest matches Some(l) && s@ == l@),
{
    proof {
        assert(latest_versions@.skip(0) =~= latest_versions@);
    }
    let mut i: usize = 0;
    while i < latest_versions.len()
        invariant
            i <= latest_versions@.len(),
            spec_assoc_info(latest_versions@, dep_name@) == spec_assoc_info(
                latest_versions@.skip(i as int),
                dep_name@,
            ),
        decreases latest_versions@.len() - i,
    {
        proof {
            assert(latest_versions@.skip(i as int)[0] == latest_versions@[i as int]);
            assert(latest_versions@.skip(i as int).drop_first() =~= latest_versions@.skip(i + 1));
        }
        let entry = &latest_versions[i];
        if str_eq(entry.0.as_str(), dep_name) {
            return match &entry.1.latest {
                Some(l) => Some(l.clone()),
                None => None,
            };
        }
        i += 1;
    }
    None
}

/// The reason an unresolved dependency is skipped: optional ones were not
/// activated, target-specific ones do not apply, the rest miss resolve
/// data.
pub open spec fn spec_unresolved_reason(dep: DependencyInfo) -> SkipReason {
    if dep.optional {
        SkipReason::OptionalNotActivated
    } else if dep.target is Some {
        SkipReason::TargetSpecific
    } else {
        SkipReason::MissingResolve
    }
}

fn clone_opt(s: &Option<String>) -> (r: Option<String>)
    ensures
        r is Some <==> *s is Some,
        r matches Some(x) ==> x@ == s->Some_0@,
{
    match s {
        Some(x) => Some(x.clone()),
        None => None,
    }
}

/// Records a dependency whose resolved version is missing, with why.
pub fn skip_unresolved_dependency(
    dep: &DependencyInfo,
    dependency_type: DependencyType,
    skipped_packages: &mut Vec<SkippedDependency>,
)
    ensures
        final(skipped_packages)@.len() == old(skipped_packages)@.len() + 1,
        forall|k: int|
            0 <= k < old(skipped_packages)@.len() ==> final(skipped_packages)@[k] == old(
                skipped_packages,
            )@[k],
        ({
            let e = final(skipped_packages)@.last();
            &&& e.name@ == dep.name@
            &&& e.required@ == dep.req@
            &&& e.reason == spec_unresolved_reason(*dep)
            &&& e.dependency_type == dependency_type
        }),
{
    let reason = if dep.optional {
        SkipReason::OptionalNotActivated
    } else if dep.target.is_some() {
        SkipReason::TargetSpecific
    } else {
        SkipReason::MissingResolve
    };
    skipped_packages.push(
        SkippedDependency {
            name: dep.name.clone(),
            alias: clone_opt(&dep.rename),
            required: dep.req.clone(),
            reason,
            dependency_type,
            source: clone_opt(&dep.source),
            target: clone_opt(&dep.target),
        },
    );
}

/// Records a dependency the registry said nothing about: either its
/// record is missing, or the registry was unavailable altogether.
pub fn skip_missing_registry_info(
    dep: &DependencyInfo,
    dependency_type: DependencyType,
    registry_available: bool,
    skipped_packages: &mut Vec<SkippedDependency>,
)
    ensures
        final(skipped_packages)@.len() == old(skipped_packages)@.len() + 1,
        forall|k: int|
            0 <= k < old(skipped_packages)@.len() ==> final(skipped_packages)@[k] == old(
                skipped_packages,
            )@[k],
        ({
            let e = final(skipped_packages)@.last();
            &&& e.name@ == dep.name@
            &&& e.required@ == dep.req@
            &&& e.reason == (if registry_available {
                SkipReason::RegistryMetadataMissing
            } else {
                SkipReason::RegistryUnavailable
            })
            &&& e.dependency_type == dependency_type
        }),
{
    let reason = if registry_available {
        SkipReason::RegistryMetadataMissing
    } else {
        SkipReason::RegistryUnavailable
    };
    skipped_packages.push(
        SkippedDependency {
            name: dep.name.clone(),
            alias: clone_opt(&dep.rename),
            required: dep.req.clone(),
            reason,
            dependency_type,
            source: clone_opt(&dep.source),
            target: clone_opt(&dep.target),
        },
    );
}

/// One workspace member's declared dependencies.
#[derive(Debug)]
pub struct MemberPackage {
    pub dependencies: Vec<DependencyInfo>,
}

/// The (name, requirement) pair of a dependency was already taken.
pub open spec fn seen_pair(seen: Seq<(String, String)>, name: Seq<char>, req: Seq<char>) -> bool {
    exists|k: int| 0 <= k < seen.len() && seen[k].0@ == name && seen[k].1@ == req
}

fn pair_taken(seen: &Vec<(String, String)>, name: &str, req: &str) -> (r: bool)
    ensures
        r == seen_pair(seen@, name@, req@),
{
    let mut k: usize = 0;
    while k < seen.len()
        invariant
            k <= seen@.len(),
            forall|m: int| 0 <= m < k ==> !(seen@[m].0@ == name@ && seen@[m].1@ == req@),
        decreases seen@.len() - k,
    {
        let entry = &seen[k];
        if str_eq(entry.0.as_str(), name) && str_eq(entry.1.as_str(), req) {
            proof {
                assert(seen@[k as int].0@ == name@ && seen@[k as int].1@ == req@);
            }
            return true;
        }
        k += 1;
    }
    false
}

fn clone_dep(dep: &DependencyInfo) -> (r: DependencyInfo)
    ensures
        r.name@ == dep.name@,
        r.req@ == dep.req@,
        r.kind == dep.kind,
        r.optional == dep.optional,
        (r.rename is Some <==> dep.rename is Some),
        (r.source is Some <==> dep.source is Some),
        (r.target is Some <==> dep.target is Some),
        r.source matches Some(s) ==> s@ == dep.source->Some_0@,
{
    DependencyInfo {
        name: dep.name.clone(),
        rename: clone_opt(&dep.rename),
        req: dep.req.clone(),
        kind: dep.kind,
        optional: dep.optional,
        source: clone_opt(&dep.source),
        target: clone_opt(&dep.target),
    }
}

/// Splits the members' declared dependencies: registry dependencies go
/// into the report's work list, every other source is recorded as skipped
/// with reason `NonRegistry`; a (name, requirement) pair is taken at most
/// once across all members, whichever population it falls in.
pub fn partition_dependencies(members: &Vec<MemberPackage>) -> (r: (
    Vec<String>,
    Vec<SkippedDependency>,
    Vec<(DependencyInfo, DependencyType)>,
))
    ensures
        forall|k: int|
            0 <= k < r.2@.len() ==> spec_is_registry(
                match (#[trigger] r.2@[k]).0.source {
                    Some(s) => Some(s@),
                    None => None,
                },
            ) && r.2@[k].1 == spec_convert_kind(r.2@[k].0.kind),
        forall|k: int|
            0 <= k < r.1@.len() ==> (#[trigger] r.1@[k]).reason == SkipReason::NonRegistry,
        forall|a: int, b: int|
            0 <= a < b < r.2@.len() ==> !(r.2@[a].0.name@ == r.2@[b].0.name@ && r.2@[a].0.req@
                == r.2@[b].0.req@),
{
    let mut dependency_names: Vec<String> = Vec::new();
    let mut skipped_packages: Vec<SkippedDependency> = Vec::new();
    let mut dependencies: Vec<(DependencyInfo, DependencyType)> = Vec::new();
    let mut seen: Vec<(String, String)> = Vec::new();

    let mut m: usize = 0;
    while m < members.len()
        invariant
            m <= members@.len(),
            forall|k: int|
                0 <= k < dependencies@.len() ==> spec_is_registry(
                    match (#[trigger] dependencies@[k]).0.source {
                        Some(s) => Some(s@),
                        None => None,
                    },
                ) && dependencies@[k].1 == spec_convert_kind(dependencies@[k].0.kind),
            forall|k: int|
                0 <= k < skipped_packages@.len() ==> (#[trigger] skipped_packages@[k]).reason
                    == SkipReason::NonRegistry,
            forall|k: int|
                0 <= k < dependencies@.len() ==> seen_pair(
                    seen@,
                    (#[trigger] dependencies@[k]).0.name@,
                    dependencies@[k].0.req@,
                ),
            forall|a: int, b: int|
                0 <= a < b < dependencies@.len() ==> !(dependencies@[a].0.name@
                    == dependencies@[b].0.name@ && dependencies@[a].0.req@ == dependencies@[
                    b
                ].0.req@),
        decreases members@.len() - m,
    {
        let member = &members[m];
        let mut d: usize = 0;
        while d < member.dependencies.len()
            invariant
                d <= member.dependencies@.len(),
                forall|k: int|
                    0 <= k < dependencies@.len() ==> spec_is_registry(
                        match (#[trigger] dependencies@[k]).0.source {
                            Some(s) => Some(s@),
                            None => None,
                        },
                    ) && dependencies@[k].1 == spec_convert_kind(dependencies@[k].0.kind),
                forall|k: int|
                    0 <= k < skipped_packages@.len() ==> (#[trigger] skipped_packages@[k]).reason
                        == SkipReason::NonRegistry,
                forall|k: int|
                    0 <= k < dependencies@.len() ==> seen_pair(
                        seen@,
                        (#[trigger] dependencies@[k]).0.name@,
                        dependencies@[k].0.req@,
                    ),
                forall|a: int, b: int|
                    0 <= a < b < dependencies@.len() ==> !(dependencies@[a].0.name@
                        == dependencies@[b].0.name@ && dependencies@[a].0.req@ == dependencies@[
                        b
                    ].0.req@),
            decreases member.dependencies@.len() - d,
        {
            let dep = &member.dependencies[d];
            let dependency_type = convert_dependency_kind(dep.kind);
            let source_ref = match &dep.source {
                Some(s) => Some(s),
                None => None,
            };
            let ghost seen0 = seen@;
            if !is_registry_source(source_ref) {
                if !pair_taken(&seen, dep.name.as_str(), dep.req.as_str()) {
                    seen.push((dep.name.clone(), dep.req.clone()));
                    skipped_packages.push(
                        SkippedDependency {
                            name: dep.name.clone(),
                            alias: clone_opt(&dep.rename),
                            required: dep.req.clone(),
                            reason: SkipReason::NonRegistry,
                            dependency_type,
                            source: clone_opt(&dep.source),
                            target: clone_opt(&dep.target),
                        },
                    );
                    proof {
                        assert forall|k: int|
                            0 <= k < dependencies@.len() implies seen_pair(
                            seen@,
                            (#[trigger] dependencies@[k]).0.name@,
                            dependencies@[k].0.req@,
                        ) by {
                            let p = choose|p: int|
                                0 <= p < seen0.len() && seen0[p].0@ == dependencies@[k].0.name@
                                    && seen0[p].1@ == dependencies@[k].0.req@;
                            assert(seen@[p].0@ == dependencies@[k].0.name@ && seen@[p].1@
                                == dependencies@[k].0.req@);
                        }
                    }
                }
            } else {
                if !pair_taken(&seen, dep.name.as_str(), dep.req.as_str()) {
                    seen.push((dep.name.clone(), dep.req.clone()));
                    dependency_names.push(dep.name.clone());
                    let copy = clone_dep(dep);
                    proof {
                        assert(seen@[seen@.len() - 1].0@ == dep.name@ && seen@[seen@.len()
                            - 1].1@ == dep.req@);
                        assert forall|k: int|
                            0 <= k < dependencies@.len() implies seen_pair(
                            seen@,
                            (#[trigger] dependencies@[k]).0.name@,
                            dependencies@[k].0.req@,
                        ) by {
                            let p = choose|p: int|
                                0 <= p < seen0.len() && seen0[p].0@ == dependencies@[k].0.name@
                                    && seen0[p].1@ == dependencies@[k].0.req@;
                            assert(seen@[p].0@ == dependencies@[k].0.name@ && seen@[p].1@
                                == dependencies@[k].0.req@);
                        }
                    }
                    dependencies.push((copy, dependency_type));
                }
            }
            d += 1;
        }
        m += 1;
    }

    (dependency_names, skipped_packages, dependencies)
}

/// The key a dependency's resolved version is looked up under first: its
/// alias when renamed, else its package name.
pub open spec fn dep_key_of(d: DependencyInfo) -> Seq<char> {
    match d.rename {
        Some(alias) => alias@,
        None => d.name@,
    }
}

/// Dependency `j` derails the report: its resolved version is on record
/// and the registry names a latest version for it, but that version text
/// does not parse.
pub open spec fn bad_latest(
    deps: Seq<(DependencyInfo, DependencyType)>,
    resolved: Seq<(String, Version)>,
    latest: Seq<(String, VersionInfo)>,
    j: int,
) -> bool {
    &&& 0 <= j < deps.len()
    &&& (spec_assoc_version(resolved, dep_key_of(deps[j].0)) is Some || spec_assoc_version(
        resolved,
        deps[j].0.name@,
    ) is Some)
    &&& spec_assoc_info(latest, deps[j].0.name@) is Some
    &&& spec_assoc_info(latest, deps[j].0.name@)->Some_0.latest is Some
    &&& crate::version::sem_version_of(
        spec_assoc_info(latest, deps[j].0.name@)->Some_0.latest->Some_0@,
    ) is None
}

/// How many of the packages carry the given update type.
pub open spec fn count_updates(pkgs: Seq<OutdatedPackage>, u: UpdateType) -> nat
    decreases pkgs.len(),
{
    if pkgs.len() == 0 {
        0
    } else {
        count_updates(pkgs.drop_last(), u) + if pkgs.last().update_type == u {
            1nat
        } else {
            0nat
        }
    }
}

/// Walks the declared registry dependencies and reports the outdated
/// ones: each one with a resolved current version and a parseable newer
/// registry version becomes an `OutdatedPackage`, classified by the first
/// version component that grew; the counts count exactly those. A
/// dependency with no resolved version or no registry record is recorded
/// as skipped instead; a registry version that does not parse is the one
/// error.
pub fn process_dependencies(
    dependencies: &Vec<(DependencyInfo, DependencyType)>,
    resolved_versions: &Vec<(String, Version)>,
    latest_versions: &Vec<(String, VersionInfo)>,
    registry_available: bool,
    skipped_packages: &mut Vec<SkippedDependency>,
) -> (r: Result<(Vec<OutdatedPackage>, usize, usize, usize), UpkeepError>)
    ensures
        final(skipped_packages)@.len() >= old(skipped_packages)@.len(),
        forall|k: int|
            0 <= k < old(skipped_packages)@.len() ==> final(skipped_packages)@[k] == old(
                skipped_packages,
            )@[k],
        r matches Ok(out) ==> {
            &&& out.1 == count_updates(out.0@, UpdateType::Major)
            &&& out.2 == count_updates(out.0@, UpdateType::Minor)
            &&& out.3 == count_updates(out.0@, UpdateType::Patch)
            &&& out.1 + out.2 + out.3 == out.0@.len()
        },
        r is Err <==> exists|j: int|
            bad_latest(dependencies@, resolved_versions@, latest_versions@, j),
        r matches Err(e) ==> e.code == ErrorCode::InvalidData,
{
    let mut packages: Vec<OutdatedPackage> = Vec::new();
    let mut major: usize = 0;
    let mut minor: usize = 0;
    let mut patch: usize = 0;

    let mut i: usize = 0;
    while i < dependencies.len()
        invariant
            i <= dependencies@.len(),
            skipped_packages@.len() >= old(skipped_packages)@.len(),
            forall|k: int|
                0 <= k < old(skipped_packages)@.len() ==> skipped_packages@[k] == old(
                    skipped_packages,
                )@[k],
            packages@.len() <= i,
            major == count_updates(packages@, UpdateType::Major),
            minor == count_updates(packages@, UpdateType::Minor),
            patch == count_updates(packages@, UpdateType::Patch),
            major + minor + patch == packages@.len(),
            forall|j: int|
                0 <= j < i ==> !bad_latest(dependencies@, resolved_versions@, latest_versions@, j),
        decreases dependencies@.len() - i,
    {
        let (dep, dependency_type) = &dependencies[i];
        let dep_key = match &dep.rename {
            Some(alias) => alias.as_str(),
            None => dep.name.as_str(),
        };

        let current = match resolve_current_version(dep_key, dep.name.as_str(), resolved_versions) {
            Some(version) => version,
            None => {
                skip_unresolved_dependency(dep, *dependency_type, skipped_packages);
                i += 1;
                continue ;
            },
        };

        let latest = match get_latest_version(dep.name.as_str(), latest_versions) {
            Some(latest) => latest,
            None => {
                skip_missing_registry_info(
                    dep,
                    *dependency_type,
                    registry_available,
                    skipped_packages,
                );
                i += 1;
                continue ;
            },
        };

        let latest_version = match Version::parse(latest.as_str()) {
            Some(v) => v,
            None => {
                proof {
                    assert(bad_latest(
                        dependencies@,
                        resolved_versions@,
                        latest_versions@,
                        i as int,
                    ));
                }
                let mut msg = String::new();
                msg.append("failed to parse latest version for ");
                msg.append(dep.name.as_str());
                msg.append(": ");
                msg.append(latest.as_str());
                return Err(UpkeepError::message(ErrorCode::InvalidData, msg));
            },
        };

        if !current.lt(&latest_version) {
            i += 1;
            continue ;
        }

        let update_type = classify_update(current, &latest_version);
        match update_type {
            UpdateType::Major => {
                major += 1;
            },
            UpdateType::Minor => {
                minor += 1;
            },
            UpdateType::Patch => {
                patch += 1;
            },
        }

        let ghost before = packages@;
        packages.push(
            OutdatedPackage {
                name: dep.name.clone(),
                alias: clone_opt(&dep.rename),
                current: current.render(),
                latest,
                required: dep.req.clone(),
                update_type,
                dependency_type: *dependency_type,
            },
        );
        proof {
            assert(packages@.drop_last() =~= before);
        }
        i += 1;
    }

    Ok((packages, major, minor, patch))
}

/// The vulnerabilities listed across all report entries.
pub open spec fn sum_vulns(pkgs: Seq<crate::output::DepsSecurityPackage>) -> int
    decreases pkgs.len(),
{
    if pkgs.len() == 0 {
        0
    } else {
        sum_vulns(pkgs.drop_last()) + pkgs.last().vulnerabilities@.len()
    }
}

/// Matches audit findings to the direct dependencies: a dependency with a
/// resolved version collects every not-yet-claimed advisory on exactly
/// that package and version; each advisory is claimed at most once, so a
/// dependency listed twice does not double the findings. The summary
/// counts exactly the claimed advisories.
pub fn security_report(
    dependencies: &Vec<(DependencyInfo, DependencyType)>,
    resolved_versions: &Vec<(String, Version)>,
    audit: &crate::output::AuditOutput,
) -> (r: crate::output::DepsSecurityOutput)
    ensures
        r.summary.total == sum_vulns(r.packages@),
        r.summary.critical + r.summary.high + r.summary.moderate + r.summary.low
            == r.summary.total,
        forall|k: int|
            0 <= k < r.packages@.len() ==> (#[trigger] r.packages@[k]).vulnerabilities@.len() >= 1,
{
    let mut used: Vec<bool> = vec![false; audit.vulnerabilities.len()];
    let mut summary = crate::output::AuditSummary {
        critical: 0,
        high: 0,
        moderate: 0,
        low: 0,
        total: 0,
    };
    let mut packages: Vec<crate::output::DepsSecurityPackage> = Vec::new();
    proof {
        crate::path::lemma_count_trues_zero(used@);
    }

    let mut i: usize = 0;
    while i < dependencies.len()
        invariant
            i <= dependencies@.len(),
            used@.len() == audit.vulnerabilities@.len(),
            summary.total == sum_vulns(packages@),
            summary.total == crate::path::count_trues(used@),
            summary.critical + summary.high + summary.moderate + summary.low == summary.total,
            forall|k: int|
                0 <= k < packages@.len() ==> (#[trigger] packages@[k]).vulnerabilities@.len()
                    >= 1,
        decreases dependencies@.len() - i,
    {
        let (dep, dependency_type) = &dependencies[i];
        let dep_key = match &dep.rename {
            Some(alias) => alias.as_str(),
            None => dep.name.as_str(),
        };
        let current = match resolve_current_version(dep_key, dep.name.as_str(), resolved_versions) {
            Some(version) => version.render(),
            None => {
                i += 1;
                continue ;
            },
        };

        let mut vulns: Vec<crate::output::DepsSecurityVulnerability> = Vec::new();
        let mut v: usize = 0;
        while v < audit.vulnerabilities.len()
            invariant
                v <= audit.vulnerabilities@.len(),
                used@.len() == audit.vulnerabilities@.len(),
                vulns@.len() <= v,
                summary.total == sum_vulns(packages@) + vulns@.len(),
                summary.total == crate::path::count_trues(used@),
                summary.critical + summary.high + summary.moderate + summary.low
                    == summary.total,
                forall|k: int|
                    0 <= k < packages@.len() ==> (#[trigger] packages@[k]).vulnerabilities@.len()
                        >= 1,
            decreases audit.vulnerabilities@.len() - v,
        {
            let entry = &audit.vulnerabilities[v];
            if !used[v] && str_eq(entry.package.as_str(), dep.name.as_str()) && str_eq(
                entry.package_version.as_str(),
                current.as_str(),
            ) {
                let ghost used0 = used@;
                used.set(v, true);
                proof {
                    crate::path::lemma_count_trues_update(used0, v as int);
                    crate::path::lemma_count_trues_le(used@);
                }
                vulns.push(
                    crate::output::DepsSecurityVulnerability {
                        advisory_id: entry.id.clone(),
                        severity: entry.severity,
                        title: entry.title.clone(),
                        fix_available: entry.fix_available,
                    },
                );
                summary.total += 1;
                match entry.severity {
                    Severity::Critical => {
                        summary.critical += 1;
                    },
                    Severity::High => {
                        summary.high += 1;
                    },
                    Severity::Moderate => {
                        summary.moderate += 1;
                    },
                    Severity::Low => {
                        summary.low += 1;
                    },
                }
            }
            v += 1;
        }

        if vulns.len() > 0 {
            let ghost before = packages@;
            packages.push(
                crate::output::DepsSecurityPackage {
                    name: dep.name.clone(),
                    alias: clone_opt(&dep.rename),
                    current,
                    dependency_type: *dependency_type,
                    vulnerabilities: vulns,
                },
            );
            proof {
                assert(packages@.drop_last() =~= before);
            }
        }
        i += 1;
    }
    crate::output::DepsSecurityOutput { summary, packages }
}

} // verus!
