//! The vulnerability report: folding advisory severities, counting them,
//! and attributing each advisory a dependency path from the roots.

use vstd::prelude::*;
use crate::output::{AuditOutput, AuditSummary, Severity, Vulnerability};
use crate::path::{
    is_graph_path, is_lookup_target, is_selected_target, nv_match, spec_reachable,
    DependencyGraph, PathResult,
};

verus! {

/// The view of an optional source string.
pub open spec fn opt_view(o: Option<String>) -> Option<Seq<char>> {
    match o {
        Some(s) => Some(s@),
        None => None,
    }
}

/// The attribution a finding's `path` field carries: the names of a real
/// root-to-target walk of the adjacency, ending at an admissible lookup
/// target for the advisory's package, version and source hint. The bare
/// package name stands in only when the search cannot produce such a
/// walk: no package carries the name and version, or the position the
/// lookup settles on is unreachable from every root.
pub open spec fn attributed_path(
    g: DependencyGraph,
    path: Seq<String>,
    nm: Seq<char>,
    ver: Seq<char>,
    src: Option<Seq<char>>,
) -> bool {
    ||| (exists|idxs: Seq<usize>|
        is_graph_path(g, idxs) && path.len() == idxs.len() && (forall|m: int|
            0 <= m < idxs.len() ==> path[m]@ == g.packages@[#[trigger] idxs[m] as int].name@)
            && is_lookup_target(g, idxs.last() as int, nm, ver, src))
    ||| (path.len() == 1 && path[0]@ == nm && forall|t: int|
        is_selected_target(g, t, nm, ver, src) ==> !(#[trigger] spec_reachable(g, t as usize)))
}

/// An advisory database's severity level, as the host hands it over;
/// absent when the advisory carries no score.
#[derive(Debug, Clone, Copy, PartialEq, Eq, Structural)]
pub enum AdvisoryLevel {
    Critical,
    High,
    Medium,
    Low,
    NoScore,
}

/// One advisory record the host hands to the engine.
#[derive(Debug)]
pub struct AdvisoryRecord {
    pub id: String,
    pub package: String,
    pub version: String,
    pub source: Option<String>,
    pub severity: Option<AdvisoryLevel>,
    pub title: String,
    pub fix_available: bool,
}

/// How an advisory level folds to a report severity: a missing level
/// defaults to high, for safety; a scored-but-none level counts as low.
pub open spec fn spec_map_severity(level: Option<AdvisoryLevel>) -> Severity {
    match level {
        Some(AdvisoryLevel::Critical) => Severity::Critical,
        Some(AdvisoryLevel::High) => Severity::High,
        Some(AdvisoryLevel::Medium) => Severity::Moderate,
        Some(AdvisoryLevel::Low) => Severity::Low,
        Some(AdvisoryLevel::NoScore) => Severity::Low,
        None => Severity::High,
    }
}

/// Folds an advisory severity level to a report severity.
pub fn map_severity(severity: Option<AdvisoryLevel>) -> (r: Severity)
    ensures
        r == spec_map_severity(severity),
{
    match severity {
        Some(AdvisoryLevel::Critical) => Severity::Critical,
        Some(AdvisoryLevel::High) => Severity::High,
        Some(AdvisoryLevel::Medium) => Severity::Moderate,
        Some(AdvisoryLevel::Low) => Severity::Low,
        Some(AdvisoryLevel::NoScore) => Severity::Low,
        None => Severity::High,
    }
}

/// How many of the first `k` vulnerabilities carry severity `s`.
pub open spec fn count_severity(vulns: Seq<Vulnerability>, s: Severity) -> nat
    decreases vulns.len(),
{
    if vulns.len() == 0 {
        0
    } else {
        count_severity(vulns.drop_last(), s) + if vulns.last().severity == s {
            1nat
        } else {
            0nat
        }
    }
}

/// Counts the vulnerabilities by severity; the total is the list's length.
pub fn summarize(vulnerabilities: &Vec<Vulnerability>) -> (r: AuditSummary)
    ensures
        r.total == vulnerabilities@.len(),
        r.critical == count_severity(vulnerabilities@, Severity::Critical),
        r.high == count_severity(vulnerabilities@, Severity::High),
        r.moderate == count_severity(vulnerabilities@, Severity::Moderate),
        r.low == count_severity(vulnerabilities@, Severity::Low),
{
    let mut summary = AuditSummary {
        critical: 0,
        high: 0,
        moderate: 0,
        low: 0,
        total: vulnerabilities.len(),
    };
    let mut i: usize = 0;
    while i < vulnerabilities.len()
        invariant
            i <= vulnerabilities@.len(),
            summary.total == vulnerabilities@.len(),
            summary.critical == count_severity(
                vulnerabilities@.take(i as int),
                Severity::Critical,
            ),
            summary.high == count_severity(vulnerabilities@.take(i as int), Severity::High),
            summary.moderate == count_severity(
                vulnerabilities@.take(i as int),
                Severity::Moderate,
            ),
            summary.low == count_severity(vulnerabilities@.take(i as int), Severity::Low),
            summary.critical + summary.high + summary.moderate + summary.low <= i,
        decreases vulnerabilities@.len() - i,
    {
        proof {
            assert(vulnerabilities@.take(i + 1).drop_last() =~= vulnerabilities@.take(i as int));
            assert(vulnerabilities@.take(i + 1).last() == vulnerabilities@[i as int]);
        }
        match vulnerabilities[i].severity {
            Severity::Critical => {
                summary.critical += 1;
            },
            Severity::High => {
                summary.high += 1;
            },
            Severity::Moderate => {
                summary.moderate += 1;
            },
            Severity::Low => {
                summary.low += 1;
            },
        }
        i += 1;
    }
    proof {
        assert(vulnerabilities@.take(vulnerabilities@.len() as int) =~= vulnerabilities@);
    }
    summary
}

/// Builds the vulnerability report for a set of advisories: each one gets
/// the report severity of its level, and the dependency path from a
/// workspace root to its package; where no path is found, the path is the
/// bare package name, as the report still names the package.
pub fn audit_report(graph: &DependencyGraph, advisories: Vec<AdvisoryRecord>) -> (r: AuditOutput)
    requires
        graph.wf(),
    ensures
        r.vulnerabilities@.len() == advisories@.len(),
        forall|i: int|
            0 <= i < advisories@.len() ==> {
                let v = #[trigger] r.vulnerabilities@[i];
                &&& v.id@ == advisories@[i].id@
                &&& v.package@ == advisories@[i].package@
                &&& v.package_version@ == advisories@[i].version@
                &&& v.severity == spec_map_severity(advisories@[i].severity)
                &&& v.title@ == advisories@[i].title@
                &&& v.fix_available == advisories@[i].fix_available
                &&& v.path@.len() >= 1
                &&& attributed_path(
                    *graph,
                    v.path@,
                    advisories@[i].package@,
                    advisories@[i].version@,
                    opt_view(advisories@[i].source),
                )
            },
        r.summary.total == r.vulnerabilities@.len(),
        r.summary.critical == count_severity(r.vulnerabilities@, Severity::Critical),
        r.summary.high == count_severity(r.vulnerabilities@, Severity::High),
        r.summary.moderate == count_severity(r.vulnerabilities@, Severity::Moderate),
        r.summary.low == count_severity(r.vulnerabilities@, Severity::Low),
{
    let mut vulnerabilities: Vec<Vulnerability> = Vec::new();
    let mut i: usize = 0;
    while i < advisories.len()
        invariant
            graph.wf(),
            i <= advisories@.len(),
            vulnerabilities@.len() == i,
            forall|k: int|
                0 <= k < i ==> {
                    let v = #[trigger] vulnerabilities@[k];
                    &&& v.id@ == advisories@[k].id@
                    &&& v.package@ == advisories@[k].package@
                    &&& v.package_version@ == advisories@[k].version@
                    &&& v.severity == spec_map_severity(advisories@[k].severity)
                    &&& v.title@ == advisories@[k].title@
                    &&& v.fix_available == advisories@[k].fix_available
                    &&& v.path@.len() >= 1
                    &&& attributed_path(
                        *graph,
                        v.path@,
                        advisories@[k].package@,
                        advisories@[k].version@,
                        opt_view(advisories@[k].source),
                    )
                },
        decreases advisories@.len() - i,
    {
        let adv = &advisories[i];
        let source_ref = match &adv.source {
            Some(s) => Some(s.as_str()),
            None => None,
        };
        let path = match graph.path_to(adv.package.as_str(), adv.version.as_str(), source_ref) {
            PathResult::Found(p) => {
                proof {
                    let idxs = choose|idxs: Seq<usize>|
                        is_graph_path(*graph, idxs) && p@.len() == idxs.len() && (forall|m: int|
                            0 <= m < idxs.len() ==> p@[m]@ == graph.packages@[
                                #[trigger] idxs[m] as int
                            ].name@) && is_lookup_target(
                            *graph,
                            idxs.last() as int,
                            adv.package@,
                            adv.version@,
                            opt_view(adv.source),
                        ) && (forall|other: Seq<usize>|
                            is_graph_path(*graph, other) && other.last() == idxs.last()
                                ==> idxs.len() <= #[trigger] other.len());
                    assert(p@.len() == idxs.len() && idxs.len() >= 1);
                    assert(attributed_path(
                        *graph,
                        p@,
                        adv.package@,
                        adv.version@,
                        opt_view(adv.source),
                    ));
                }
                p
            },
            PathResult::NotFound => {
                let mut only = Vec::new();
                only.push(adv.package.clone());
                proof {
                    assert(only@[0]@ == adv.package@);
                    // no package carries the name and version at all, so no
                    // position is ever selected
                    assert forall|t: int|
                        is_selected_target(
                            *graph,
                            t,
                            adv.package@,
                            adv.version@,
                            opt_view(adv.source),
                        ) implies !(spec_reachable(*graph, t as usize)) by {
                        assert(!nv_match(*graph, t, adv.package@, adv.version@));
                        assert(false);
                    }
                }
                only
            },
            PathResult::NoPath => {
                let mut only = Vec::new();
                only.push(adv.package.clone());
                proof {
                    assert(only@[0]@ == adv.package@);
                    // the search showed the selected position unreachable
                    assert forall|t: int|
                        is_selected_target(
                            *graph,
                            t,
                            adv.package@,
                            adv.version@,
                            opt_view(adv.source),
                        ) implies !(spec_reachable(*graph, t as usize)) by {
                        assert(!spec_reachable(*graph, t as usize));
                    }
                }
                only
            },
        };
        vulnerabilities.push(
            Vulnerability {
                id: adv.id.clone(),
                package: adv.package.clone(),
                package_version: adv.version.clone(),
                severity: map_severity(adv.severity),
                title: adv.title.clone(),
                path,
                fix_available: adv.fix_available,
            },
        );
        i += 1;
    }
    let summary = summarize(&vulnerabilities);
    AuditOutput { vulnerabilities, summary }
}

} // verus!
