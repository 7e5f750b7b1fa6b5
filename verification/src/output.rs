//! Output types: the values the commands produce, and their text labels.

use vstd::prelude::*;
use crate::tree::TreeNode;

verus! {

/// What a project probe reports about the workspace.
#[derive(Debug)]
pub struct DetectOutput {
    pub edition: Option<String>,
    pub msrv: Option<String>,
    pub workspace: bool,
    pub members: Vec<String>,
    pub package: Option<String>,
    pub version: Option<String>,
    pub dependencies: usize,
    pub features: Vec<String>,
    pub targets: Vec<String>,
    pub tooling: Vec<String>,
    pub ci: Vec<String>,
}

/// The outdated-dependency report.
#[derive(Debug)]
pub struct DepsOutput {
    pub total: usize,
    pub outdated: usize,
    pub major: usize,
    pub minor: usize,
    pub patch: usize,
    pub packages: Vec<OutdatedPackage>,
    pub skipped: usize,
    pub skipped_packages: Vec<SkippedDependency>,
    pub warnings: Vec<String>,
    pub security: Option<DepsSecurityOutput>,
    pub workspace: bool,
    pub members: Vec<String>,
    pub skipped_members: Vec<String>,
}

/// Security findings folded into the dependency report.
#[derive(Debug)]
pub struct DepsSecurityOutput {
    pub summary: AuditSummary,
    pub packages: Vec<DepsSecurityPackage>,
}

/// One direct dependency with vulnerabilities on its resolved version.
#[derive(Debug)]
pub struct DepsSecurityPackage {
    pub name: String,
    pub alias: Option<String>,
    pub current: String,
    pub dependency_type: DependencyType,
    pub vulnerabilities: Vec<DepsSecurityVulnerability>,
}

/// One advisory attached to a dependency.
#[derive(Debug)]
pub struct DepsSecurityVulnerability {
    pub advisory_id: String,
    pub severity: Severity,
    pub title: String,
    pub fix_available: bool,
}

/// The unused-dependency report.
#[derive(Debug)]
pub struct UnusedOutput {
    pub unused: Vec<UnusedDep>,
    pub possibly_unused: Vec<String>,
}

/// The unsafe-code report.
#[derive(Debug)]
pub struct UnsafeOutput {
    pub summary: UnsafeSummary,
    pub packages: Vec<UnsafePackage>,
}

/// The vulnerability report.
#[derive(Debug)]
pub struct AuditOutput {
    pub vulnerabilities: Vec<Vulnerability>,
    pub summary: AuditSummary,
}

/// A built display tree with its summary counts.
#[derive(Debug)]
pub struct TreeOutput {
    pub root: TreeNode,
    pub stats: TreeStats,
}

/// Summary counts over a built tree, always recomputed, never cached.
#[derive(Debug, PartialEq, Eq, Structural)]
pub struct TreeStats {
    pub total_crates: usize,
    pub direct_deps: usize,
    pub transitive_deps: usize,
    pub duplicate_crates: usize,
}

/// Vulnerability counts by severity.
#[derive(Debug, PartialEq, Eq, Structural)]
pub struct AuditSummary {
    pub critical: usize,
    pub high: usize,
    pub moderate: usize,
    pub low: usize,
    pub total: usize,
}

/// Unsafe-use counts summed over all packages.
#[derive(Debug, PartialEq, Eq, Structural)]
pub struct UnsafeSummary {
    pub packages: usize,
    pub unsafe_functions: usize,
    pub unsafe_impls: usize,
    pub unsafe_traits: usize,
    pub unsafe_blocks: usize,
    pub unsafe_expressions: usize,
    pub total_unsafe: usize,
}

/// One lint finding.
#[derive(Debug)]
pub struct ClippyIssue {
    pub lint: String,
    pub level: String,
    pub message: String,
    pub file: Option<String>,
    pub line: Option<u32>,
}

/// One dependency with a newer version on the registry.
#[derive(Debug)]
pub struct OutdatedPackage {
    pub name: String,
    pub alias: Option<String>,
    pub current: String,
    pub latest: String,
    pub required: String,
    pub update_type: UpdateType,
    pub dependency_type: DependencyType,
}

/// One dependency reported as unused.
#[derive(Debug)]
pub struct UnusedDep {
    pub name: String,
    pub dependency_type: DependencyType,
    pub confidence: Confidence,
}

/// Unsafe-use counts of one package.
#[derive(Debug)]
pub struct UnsafePackage {
    pub name: String,
    pub version: String,
    pub package_id: Option<String>,
    pub unsafe_functions: usize,
    pub unsafe_impls: usize,
    pub unsafe_traits: usize,
    pub unsafe_blocks: usize,
    pub unsafe_expressions: usize,
    pub total_unsafe: usize,
}

/// One dependency the report left out, and why.
#[derive(Debug)]
pub struct SkippedDependency {
    pub name: String,
    pub alias: Option<String>,
    pub required: String,
    pub reason: SkipReason,
    pub dependency_type: DependencyType,
    pub source: Option<String>,
    pub target: Option<String>,
}

/// One advisory and the dependency path that reaches its package.
#[derive(Debug)]
pub struct Vulnerability {
    pub id: String,
    pub package: String,
    pub package_version: String,
    pub severity: Severity,
    pub title: String,
    pub path: Vec<String>,
    pub fix_available: bool,
}

/// Advisory severity, folded to four levels.
#[derive(Debug, Clone, Copy, PartialEq, Eq, Structural)]
pub enum Severity {
    Critical,
    High,
    Moderate,
    Low,
}

/// Which version component a newer release changes.
#[derive(Debug, Clone, Copy, PartialEq, Eq, Structural)]
pub enum UpdateType {
    Major,
    Minor,
    Patch,
}

/// The declared kind of a dependency.
#[derive(Debug, Clone, Copy, PartialEq, Eq, Structural)]
pub enum DependencyType {
    Normal,
    Dev,
    Build,
}

/// Why a dependency was left out of the report.
#[derive(Debug, Clone, Copy, PartialEq, Eq, Structural)]
pub enum SkipReason {
    NonRegistry,
    MissingResolve,
    OptionalNotActivated,
    TargetSpecific,
    RegistryMetadataMissing,
    RegistryUnavailable,
}

/// A letter grade over the quality score.
#[derive(Debug, Clone, Copy, PartialEq, Eq, Structural)]
pub enum Grade {
    A,
    B,
    C,
    D,
    F,
}

/// How reliable a detection is: parsed from structured output, from plain
/// text, or from a heuristic fallback.
#[derive(Debug, Clone, Copy, PartialEq, Eq, Structural)]
pub enum Confidence {
    High,
    Medium,
    Low,
}

impl Severity {
    /// The lowercase label of this severity.
    pub open spec fn spec_label(self) -> Seq<char> {
        match self {
            Severity::Critical => "critical"@,
            Severity::High => "high"@,
            Severity::Moderate => "moderate"@,
            Severity::Low => "low"@,
        }
    }

    /// Lowercase label, as shown in text and JSON output.
    pub fn label(&self) -> (r: &'static str)
        ensures
            r@ == self.spec_label(),
    {
        match self {
            Severity::Critical => "critical",
            Severity::High => "high",
            Severity::Moderate => "moderate",
            Severity::Low => "low",
        }
    }
}

impl UpdateType {
    /// The lowercase label of this update type.
    pub open spec fn spec_label(self) -> Seq<char> {
        match self {
            UpdateType::Major => "major"@,
            UpdateType::Minor => "minor"@,
            UpdateType::Patch => "patch"@,
        }
    }

    /// Lowercase label, as shown in text and JSON output.
    pub fn label(&self) -> (r: &'static str)
        ensures
            r@ == self.spec_label(),
    {
        match self {
            UpdateType::Major => "major",
            UpdateType::Minor => "minor",
            UpdateType::Patch => "patch",
        }
    }
}

impl DependencyType {
    /// The lowercase label of this dependency kind.
    pub open spec fn spec_label(self) -> Seq<char> {
        match self {
            DependencyType::Normal => "normal"@,
            DependencyType::Dev => "dev"@,
            DependencyType::Build => "build"@,
        }
    }

    /// Lowercase label, as shown in text and JSON output.
    pub fn label(&self) -> (r: &'static str)
        ensures
            r@ == self.spec_label(),
    {
        match self {
            DependencyType::Normal => "normal",
            DependencyType::Dev => "dev",
            DependencyType::Build => "build",
        }
    }
}

impl SkipReason {
    /// The snake_case label of this reason.
    pub open spec fn spec_label(self) -> Seq<char> {
        match self {
            SkipReason::NonRegistry => "non_registry"@,
            SkipReason::MissingResolve => "missing_resolve"@,
            SkipReason::OptionalNotActivated => "optional_not_activated"@,
            SkipReason::TargetSpecific => "target_specific"@,
            SkipReason::RegistryMetadataMissing => "registry_metadata_missing"@,
            SkipReason::RegistryUnavailable => "registry_unavailable"@,
        }
    }

    /// Snake_case label, as shown in text and JSON output.
    pub fn label(&self) -> (r: &'static str)
        ensures
            r@ == self.spec_label(),
    {
        match self {
            SkipReason::NonRegistry => "non_registry",
            SkipReason::MissingResolve => "missing_resolve",
            SkipReason::OptionalNotActivated => "optional_not_activated",
            SkipReason::TargetSpecific => "target_specific",
            SkipReason::RegistryMetadataMissing => "registry_metadata_missing",
            SkipReason::RegistryUnavailable => "registry_unavailable",
        }
    }
}

impl Grade {
    /// The letter of this grade.
    pub open spec fn spec_label(self) -> Seq<char> {
        match self {
            Grade::A => "A"@,
            Grade::B => "B"@,
            Grade::C => "C"@,
            Grade::D => "D"@,
            Grade::F => "F"@,
        }
    }

    /// The letter, as shown in text and JSON output.
    pub fn label(&self) -> (r: &'static str)
        ensures
            r@ == self.spec_label(),
    {
        match self {
            Grade::A => "A",
            Grade::B => "B",
            Grade::C => "C",
            Grade::D => "D",
            Grade::F => "F",
        }
    }
}

impl Confidence {
    /// The lowercase label of this confidence level.
    pub open spec fn spec_label(self) -> Seq<char> {
        match self {
            Confidence::High => "high"@,
            Confidence::Medium => "medium"@,
            Confidence::Low => "low"@,
        }
    }

    /// Lowercase label, as shown in text and JSON output.
    pub fn label(&self) -> (r: &'static str)
        ensures
            r@ == self.spec_label(),
    {
        match self {
            Confidence::High => "high",
            Confidence::Medium => "medium",
            Confidence::Low => "low",
        }
    }
}

/// The text a missing value renders as.
pub open spec fn opt_or_unknown(value: Option<String>) -> Seq<char> {
    match value {
        Some(v) => v@,
        None => "unknown"@,
    }
}

fn append_opt_or_unknown(out: &mut String, value: &Option<String>)
    ensures
        final(out)@ == old(out)@ + opt_or_unknown(*value),
{
    match value {
        Some(v) => out.append(v.as_str()),
        None => out.append("unknown"),
    }
}

/// The text a name list renders as: the names joined by commas, or `none`.
pub open spec fn joined_or_none(values: Seq<String>) -> Seq<char> {
    if values.len() == 0 {
        "none"@
    } else {
        crate::strings::joined_sep(crate::strings::str_views(values), ", "@)
    }
}

fn append_joined_or_none(out: &mut String, values: &Vec<String>)
    ensures
        final(out)@ == old(out)@ + joined_or_none(values@),
{
    if values.len() == 0 {
        out.append("none");
        return ;
    }
    let ghost base = out@;
    let ghost pv = crate::strings::str_views(values@);
    let mut i: usize = 0;
    while i < values.len()
        invariant
            1 <= values@.len(),
            i <= values@.len(),
            pv == crate::strings::str_views(values@),
            i == 0 ==> out@ == base,
            i >= 1 ==> out@ == base + crate::strings::joined_sep(pv.take(i as int), ", "@),
        decreases values@.len() - i,
    {
        if i > 0 {
            out.append(", ");
        }
        out.append(values[i].as_str());
        proof {
            reveal_strlit(", ");
            assert(pv[i as int] == values@[i as int]@);
            if i == 0 {
                assert(pv.take(1) =~= seq![pv[0]]);
                assert(crate::strings::joined_sep(seq![pv[0]], ", "@) == pv[0]);
                assert(out@ =~= base + crate::strings::joined_sep(pv.take(1), ", "@));
            } else {
                assert(pv.take(i + 1) =~= pv.take(i as int).push(pv[i as int]));
                crate::strings::lemma_joined_sep_push(pv.take(i as int), ", "@, pv[i as int]);
                assert(out@ =~= base + crate::strings::joined_sep(pv.take(i + 1), ", "@));
            }
        }
        i += 1;
    }
    proof {
        assert(pv.take(values@.len() as int) =~= pv);
    }
}

fn append_count(out: &mut String, label: &str, n: usize)
    ensures
        final(out)@ == old(out)@ + label@ + crate::strings::dec_of(n as int) + "\n"@,
{
    out.append(label);
    let text = crate::strings::usize_to_string(n);
    out.append(text.as_str());
    out.append("\n");
}

/// The text a flag renders as.
pub open spec fn bool_text(b: bool) -> Seq<char> {
    if b {
        "true"@
    } else {
        "false"@
    }
}

fn append_bool(out: &mut String, label: &str, b: bool)
    ensures
        final(out)@ == old(out)@ + label@ + bool_text(b) + "\n"@,
{
    out.append(label);
    if b {
        out.append("true");
    } else {
        out.append("false");
    }
    out.append("\n");
}

impl DetectOutput {
    /// The report's exact text: one labeled line per field, with
    /// `unknown`/`none` standing in for missing values and empty lists.
    pub open spec fn spec_render(self) -> Seq<char> {
        "Package: "@ + opt_or_unknown(self.package) + "\n"@ + "Version: "@ + opt_or_unknown(
            self.version,
        ) + "\n"@ + "Edition: "@ + opt_or_unknown(self.edition) + "\n"@ + "MSRV: "@
            + opt_or_unknown(self.msrv) + "\n"@ + "Workspace: "@ + bool_text(self.workspace)
            + "\n"@ + "Members: "@ + joined_or_none(self.members@) + "\n"@ + "Dependencies: "@
            + crate::strings::dec_of(self.dependencies as int) + "\n"@ + "Features: "@
            + joined_or_none(self.features@) + "\n"@ + "Targets: "@ + joined_or_none(
            self.targets@,
        ) + "\n"@ + "Tooling: "@ + joined_or_none(self.tooling@) + "\n"@ + "CI: "@
            + joined_or_none(self.ci@) + "\n"@
    }

    /// The report as labeled text lines, with `unknown`/`none` standing
    /// in for missing values and empty lists.
    pub fn render(&self) -> (r: String)
        ensures
            r@ == self.spec_render(),
    {
        let mut out = String::new();
        out.append("Package: ");
        append_opt_or_unknown(&mut out, &self.package);
        out.append("\n");
        out.append("Version: ");
        append_opt_or_unknown(&mut out, &self.version);
        out.append("\n");
        out.append("Edition: ");
        append_opt_or_unknown(&mut out, &self.edition);
        out.append("\n");
        out.append("MSRV: ");
        append_opt_or_unknown(&mut out, &self.msrv);
        out.append("\n");
        append_bool(&mut out, "Workspace: ", self.workspace);
        out.append("Members: ");
        append_joined_or_none(&mut out, &self.members);
        out.append("\n");
        append_count(&mut out, "Dependencies: ", self.dependencies);
        out.append("Features: ");
        append_joined_or_none(&mut out, &self.features);
        out.append("\n");
        out.append("Targets: ");
        append_joined_or_none(&mut out, &self.targets);
        out.append("\n");
        out.append("Tooling: ");
        append_joined_or_none(&mut out, &self.tooling);
        out.append("\n");
        out.append("CI: ");
        append_joined_or_none(&mut out, &self.ci);
        out.append("\n");
        proof {
            assert(out@ =~= self.spec_render());
        }
        out
    }
}

fn append_display_name(out: &mut String, name: &String, alias: &Option<String>)
{
    match alias {
        Some(alias) => {
            out.append(alias.as_str());
            out.append(" (");
            out.append(name.as_str());
            out.append(")");
        },
        None => out.append(name.as_str()),
    }
}

impl DepsOutput {
    /// The report as labeled text: the counts, any warnings, the security
    /// findings when present, the workspace summary, and the outdated and
    /// skipped dependency lists.
    pub fn render(&self) -> (r: String)
    {
        let mut out = String::new();
        append_count(&mut out, "Total: ", self.total);
        append_count(&mut out, "Outdated: ", self.outdated);
        append_count(&mut out, "Major: ", self.major);
        append_count(&mut out, "Minor: ", self.minor);
        append_count(&mut out, "Patch: ", self.patch);
        append_count(&mut out, "Skipped: ", self.skipped);
        if self.warnings.len() > 0 {
            out.append("Warnings: ");
            let mut w: usize = 0;
            while w < self.warnings.len()
                decreases self.warnings@.len() - w,
            {
                if w > 0 {
                    out.append("; ");
                }
                out.append(self.warnings[w].as_str());
                w += 1;
            }
            out.append("\n");
        }
        match &self.security {
            Some(security) => {
                out.append("Security: ");
                let total = crate::strings::usize_to_string(security.summary.total);
                out.append(total.as_str());
                out.append(" vulnerabilities (critical ");
                let c = crate::strings::usize_to_string(security.summary.critical);
                out.append(c.as_str());
                out.append(", high ");
                let h = crate::strings::usize_to_string(security.summary.high);
                out.append(h.as_str());
                out.append(", moderate ");
                let m = crate::strings::usize_to_string(security.summary.moderate);
                out.append(m.as_str());
                out.append(", low ");
                let l = crate::strings::usize_to_string(security.summary.low);
                out.append(l.as_str());
                out.append(")\n");
                if security.packages.len() == 0 {
                    out.append("Vulnerable dependencies: none\n");
                } else {
                    out.append("Vulnerable dependencies:\n");
                    let mut p: usize = 0;
                    while p < security.packages.len()
                        decreases security.packages@.len() - p,
                    {
                        let package = &security.packages[p];
                        let mut v: usize = 0;
                        while v < package.vulnerabilities.len()
                            decreases package.vulnerabilities@.len() - v,
                        {
                            let vulnerability = &package.vulnerabilities[v];
                            out.append("- ");
                            append_display_name(&mut out, &package.name, &package.alias);
                            out.append(" (");
                            out.append(package.dependency_type.label());
                            out.append(") current ");
                            out.append(package.current.as_str());
                            out.append(": ");
                            out.append(vulnerability.advisory_id.as_str());
                            out.append(" (");
                            out.append(vulnerability.severity.label());
                            out.append(", ");
                            if vulnerability.fix_available {
                                out.append("fix available");
                            } else {
                                out.append("no fix");
                            }
                            out.append(")\n");
                            v += 1;
                        }
                        p += 1;
                    }
                }
            },
            None => {},
        }
        append_bool(&mut out, "Workspace: ", self.workspace);
        if self.workspace {
            out.append("Members: ");
            append_joined_or_none(&mut out, &self.members);
            out.append("\n");
            if self.skipped_members.len() > 0 {
                out.append("Skipped members: ");
                append_joined_or_none(&mut out, &self.skipped_members);
                out.append("\n");
            }
        }
        if self.packages.len() == 0 {
            out.append("Outdated packages: none\n");
        } else {
            out.append("Outdated packages:\n");
            let mut p: usize = 0;
            while p < self.packages.len()
                decreases self.packages@.len() - p,
            {
                let package = &self.packages[p];
                out.append("- ");
                append_display_name(&mut out, &package.name, &package.alias);
                out.append(" (");
                out.append(package.dependency_type.label());
                out.append(") current ");
                out.append(package.current.as_str());
                out.append(" latest ");
                out.append(package.latest.as_str());
                out.append(" required ");
                out.append(package.required.as_str());
                out.append("\n");
                p += 1;
            }
        }
        if self.skipped_packages.len() > 0 {
            out.append("Skipped dependencies:\n");
            let mut p: usize = 0;
            while p < self.skipped_packages.len()
                decreases self.skipped_packages@.len() - p,
            {
                let skipped = &self.skipped_packages[p];
                out.append("- ");
                append_display_name(&mut out, &skipped.name, &skipped.alias);
                out.append(" (");
                out.append(skipped.reason.label());
                out.append(", type ");
                out.append(skipped.dependency_type.label());
                out.append(", required ");
                out.append(skipped.required.as_str());
                out.append(", source ");
                match &skipped.source {
                    Some(s) => out.append(s.as_str()),
                    None => out.append("unknown"),
                }
                out.append(", target ");
                match &skipped.target {
                    Some(t) => out.append(t.as_str()),
                    None => out.append("none"),
                }
                out.append(")\n");
                p += 1;
            }
        }
        out
    }
}

impl UnusedOutput {
    /// The report as labeled text: the counts, then the detail lists,
    /// with `none` standing in for an empty list.
    pub fn render(&self) -> (r: String)
    {
        let mut out = String::new();
        append_count(&mut out, "Unused: ", self.unused.len());
        append_count(&mut out, "Possibly unused: ", self.possibly_unused.len());
        if self.unused.len() == 0 {
            out.append("Unused details: none\n");
        } else {
            out.append("Unused details:\n");
            let mut i: usize = 0;
            while i < self.unused.len()
                decreases self.unused@.len() - i,
            {
                let dependency = &self.unused[i];
                out.append("- ");
                out.append(dependency.name.as_str());
                out.append(" (");
                out.append(dependency.dependency_type.label());
                out.append(", confidence ");
                out.append(dependency.confidence.label());
                out.append(")\n");
                i += 1;
            }
        }
        if self.possibly_unused.len() == 0 {
            out.append("Possibly unused details: none\n");
        } else {
            out.append("Possibly unused details:\n");
            let mut i: usize = 0;
            while i < self.possibly_unused.len()
                decreases self.possibly_unused@.len() - i,
            {
                out.append("- ");
                out.append(self.possibly_unused[i].as_str());
                out.append("\n");
                i += 1;
            }
        }
        out
    }
}

impl UnsafeOutput {
    /// The report as labeled text: the summary counts and the per-package
    /// details, with `none` standing in for an empty list.
    pub fn render(&self) -> (r: String)
    {
        let mut out = String::new();
        append_count(&mut out, "Packages: ", self.summary.packages);
        append_count(&mut out, "Total unsafe: ", self.summary.total_unsafe);
        append_count(&mut out, "Unsafe functions: ", self.summary.unsafe_functions);
        append_count(&mut out, "Unsafe impls: ", self.summary.unsafe_impls);
        append_count(&mut out, "Unsafe traits: ", self.summary.unsafe_traits);
        append_count(&mut out, "Unsafe blocks: ", self.summary.unsafe_blocks);
        append_count(&mut out, "Unsafe expressions: ", self.summary.unsafe_expressions);
        if self.packages.len() == 0 {
            out.append("Details: none\n");
            return out;
        }
        out.append("Details:\n");
        let mut i: usize = 0;
        while i < self.packages.len()
            decreases self.packages@.len() - i,
        {
            let package = &self.packages[i];
            out.append("- ");
            out.append(package.name.as_str());
            out.append(" ");
            out.append(package.version.as_str());
            out.append(": unsafe ");
            let total = crate::strings::usize_to_string(package.total_unsafe);
            out.append(total.as_str());
            out.append(" (fn ");
            let f = crate::strings::usize_to_string(package.unsafe_functions);
            out.append(f.as_str());
            out.append(", impls ");
            let im = crate::strings::usize_to_string(package.unsafe_impls);
            out.append(im.as_str());
            out.append(", traits ");
            let t = crate::strings::usize_to_string(package.unsafe_traits);
            out.append(t.as_str());
            out.append(", blocks ");
            let b = crate::strings::usize_to_string(package.unsafe_blocks);
            out.append(b.as_str());
            out.append(", exprs ");
            let e = crate::strings::usize_to_string(package.unsafe_expressions);
            out.append(e.as_str());
            out.append(")\n");
            i += 1;
        }
        out
    }
}

fn append_padded(out: &mut String, text: &str, width: usize)
{
    out.append(text);
    let mut have = text.unicode_len();
    while have < width
        decreases width - have,
    {
        out.append(" ");
        have += 1;
    }
}

fn max_len(a: usize, b: usize) -> (r: usize)
    ensures
        r == (if a >= b {
            a
        } else {
            b
        }),
{
    if a >= b {
        a
    } else {
        b
    }
}

impl AuditOutput {
    /// The report as labeled text: the summary counts, then a column-
    /// aligned detail table, with `none` standing in for an empty list.
    pub fn render(&self) -> (r: String)
    {
        let mut out = String::new();
        append_count(&mut out, "Vulnerabilities: ", self.summary.total);
        append_count(&mut out, "Critical: ", self.summary.critical);
        append_count(&mut out, "High: ", self.summary.high);
        append_count(&mut out, "Moderate: ", self.summary.moderate);
        append_count(&mut out, "Low: ", self.summary.low);
        if self.vulnerabilities.len() == 0 {
            out.append("Details: none\n");
            return out;
        }

        let mut id_width: usize = 2;
        let mut package_width: usize = 7;
        let mut version_width: usize = 7;
        let mut severity_width: usize = 8;
        let mut i: usize = 0;
        while i < self.vulnerabilities.len()
            decreases self.vulnerabilities@.len() - i,
        {
            let vulnerability = &self.vulnerabilities[i];
            id_width = max_len(id_width, vulnerability.id.as_str().unicode_len());
            package_width = max_len(package_width, vulnerability.package.as_str().unicode_len());
            version_width = max_len(
                version_width,
                vulnerability.package_version.as_str().unicode_len(),
            );
            severity_width = max_len(
                severity_width,
                vulnerability.severity.label().unicode_len(),
            );
            i += 1;
        }

        out.append("Details:\n");
        append_padded(&mut out, "id", id_width);
        out.append("  ");
        append_padded(&mut out, "package", package_width);
        out.append("  ");
        append_padded(&mut out, "version", version_width);
        out.append("  ");
        append_padded(&mut out, "severity", severity_width);
        out.append("\n");
        let mut i: usize = 0;
        while i < self.vulnerabilities.len()
            decreases self.vulnerabilities@.len() - i,
        {
            let vulnerability = &self.vulnerabilities[i];
            append_padded(&mut out, vulnerability.id.as_str(), id_width);
            out.append("  ");
            append_padded(&mut out, vulnerability.package.as_str(), package_width);
            out.append("  ");
            append_padded(&mut out, vulnerability.package_version.as_str(), version_width);
            out.append("  ");
            append_padded(&mut out, vulnerability.severity.label(), severity_width);
            out.append("\n");
            i += 1;
        }
        out
    }
}

} // verus!
