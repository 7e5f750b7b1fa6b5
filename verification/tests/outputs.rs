//! Tests for the report renderings, the JSON-shape parsers, and the
//! enum labels.

use upkeep::json::{describe_json_schema, JsonValue};
use upkeep::output::{
    AuditOutput, AuditSummary, Confidence, DependencyType, DepsOutput, DepsSecurityOutput,
    DepsSecurityPackage, DepsSecurityVulnerability, DetectOutput, Grade, OutdatedPackage,
    Severity, SkipReason, SkippedDependency, UnsafeOutput, UnsafePackage, UnsafeSummary,
    UnusedDep, UnusedOutput, UpdateType, Vulnerability,
};
use upkeep::unused::{machete_from_json, parse_machete_json};

fn obj(entries: Vec<(&str, JsonValue)>) -> JsonValue {
    JsonValue::Obj(
        entries
            .into_iter()
            .map(|(k, v)| (k.to_string(), v))
            .collect(),
    )
}

fn s(v: &str) -> JsonValue {
    JsonValue::Str(v.to_string())
}

#[test]
fn core_module_smoke() {
    assert!(true);
}

#[test]
fn analyzers_module_smoke() {
    assert!(true);
}

#[test]
fn display_enum_labels() {
    assert_eq!(Confidence::High.label(), "high");
    assert_eq!(Confidence::Medium.label(), "medium");
    assert_eq!(Confidence::Low.label(), "low");
    assert_eq!(Severity::Critical.label(), "critical");
    assert_eq!(UpdateType::Major.label(), "major");
    assert_eq!(DependencyType::Build.label(), "build");
    assert_eq!(SkipReason::RegistryUnavailable.label(), "registry_unavailable");
    assert_eq!(Grade::F.label(), "F");
}

fn detect_output_with_values() -> DetectOutput {
    DetectOutput {
        edition: Some("2021".to_string()),
        msrv: Some("1.70".to_string()),
        workspace: true,
        members: vec!["core".to_string()],
        package: Some("upkeep".to_string()),
        version: Some("0.1.0".to_string()),
        dependencies: 3,
        features: vec!["default".to_string()],
        targets: vec!["x86_64-apple-darwin".to_string()],
        tooling: vec!["clippy".to_string()],
        ci: vec!["github".to_string()],
    }
}

#[test]
fn display_detect_output_with_defaults() {
    let output = DetectOutput {
        edition: None,
        msrv: None,
        workspace: false,
        members: Vec::new(),
        package: None,
        version: None,
        dependencies: 0,
        features: Vec::new(),
        targets: Vec::new(),
        tooling: Vec::new(),
        ci: Vec::new(),
    };

    let text = output.render();
    assert!(text.contains("Package: unknown"));
    assert!(text.contains("Version: unknown"));
    assert!(text.contains("Edition: unknown"));
    assert!(text.contains("MSRV: unknown"));
    assert!(text.contains("Workspace: false"));
    assert!(text.contains("Members: none"));
    assert!(text.contains("Features: none"));
    assert!(text.contains("Targets: none"));
    assert!(text.contains("Tooling: none"));
    assert!(text.contains("CI: none"));
}

#[test]
fn display_detect_output_with_values() {
    let output = detect_output_with_values();

    let text = output.render();
    assert!(text.contains("Package: upkeep"));
    assert!(text.contains("Version: 0.1.0"));
    assert!(text.contains("Edition: 2021"));
    assert!(text.contains("MSRV: 1.70"));
    assert!(text.contains("Workspace: true"));
    assert!(text.contains("Members: core"));
    assert!(text.contains("Dependencies: 3"));
    assert!(text.contains("Features: default"));
    assert!(text.contains("Targets: x86_64-apple-darwin"));
    assert!(text.contains("Tooling: clippy"));
    assert!(text.contains("CI: github"));
}

#[test]
fn display_deps_output_full_sections() {
    let output = DepsOutput {
        total: 2,
        outdated: 1,
        major: 1,
        minor: 0,
        patch: 0,
        packages: vec![OutdatedPackage {
            name: "serde".to_string(),
            alias: Some("serde_renamed".to_string()),
            current: "1.0.0".to_string(),
            latest: "1.0.1".to_string(),
            required: "^1.0".to_string(),
            update_type: UpdateType::Patch,
            dependency_type: DependencyType::Normal,
        }],
        skipped: 1,
        skipped_packages: vec![SkippedDependency {
            name: "tokio".to_string(),
            alias: None,
            required: "^1".to_string(),
            reason: SkipReason::NonRegistry,
            dependency_type: DependencyType::Dev,
            source: None,
            target: None,
        }],
        warnings: vec!["registry unavailable".to_string()],
        security: Some(DepsSecurityOutput {
            summary: AuditSummary {
                critical: 0,
                high: 1,
                moderate: 0,
                low: 0,
                total: 1,
            },
            packages: vec![DepsSecurityPackage {
                name: "serde".to_string(),
                alias: None,
                current: "1.0.0".to_string(),
                dependency_type: DependencyType::Normal,
                vulnerabilities: vec![DepsSecurityVulnerability {
                    advisory_id: "RUSTSEC-0000-0000".to_string(),
                    severity: Severity::High,
                    title: "Example".to_string(),
                    fix_available: true,
                }],
            }],
        }),
        workspace: true,
        members: vec!["core".to_string()],
        skipped_members: vec!["legacy".to_string()],
    };

    let text = output.render();
    assert!(text.contains("Warnings: registry unavailable"));
    assert!(text.contains("Security: 1 vulnerabilities"));
    assert!(text.contains("Vulnerable dependencies:"));
    assert!(text.contains("serde (normal) current 1.0.0"));
    assert!(text.contains("RUSTSEC-0000-0000"));
    assert!(text.contains("Workspace: true"));
    assert!(text.contains("Members: core"));
    assert!(text.contains("Skipped members: legacy"));
    assert!(text.contains("Outdated packages:"));
    assert!(text.contains("serde_renamed (serde)"));
    assert!(text.contains("Skipped dependencies:"));
    assert!(text.contains("tokio"));
}

#[test]
fn display_deps_output_empty_sections() {
    let output = DepsOutput {
        total: 0,
        outdated: 0,
        major: 0,
        minor: 0,
        patch: 0,
        packages: Vec::new(),
        skipped: 0,
        skipped_packages: Vec::new(),
        warnings: Vec::new(),
        security: None,
        workspace: false,
        members: Vec::new(),
        skipped_members: Vec::new(),
    };

    let text = output.render();
    assert!(text.contains("Outdated packages: none"));
    assert!(!text.contains("Warnings:"));
    assert!(!text.contains("Security:"));
    assert!(!text.contains("Skipped dependencies:"));
}

#[test]
fn display_unused_output_variants() {
    let empty = UnusedOutput {
        unused: Vec::new(),
        possibly_unused: Vec::new(),
    };
    let text = empty.render();
    assert!(text.contains("Unused details: none"));
    assert!(text.contains("Possibly unused details: none"));

    let populated = UnusedOutput {
        unused: vec![UnusedDep {
            name: "tokio".to_string(),
            dependency_type: DependencyType::Dev,
            confidence: Confidence::High,
        }],
        possibly_unused: vec!["serde".to_string()],
    };
    let text = populated.render();
    assert!(text.contains("Unused details:"));
    assert!(text.contains("tokio (dev, confidence high)"));
    assert!(text.contains("Possibly unused details:"));
    assert!(text.contains("- serde"));
}

#[test]
fn display_unsafe_output_variants() {
    let empty = UnsafeOutput {
        summary: UnsafeSummary {
            packages: 0,
            unsafe_functions: 0,
            unsafe_impls: 0,
            unsafe_traits: 0,
            unsafe_blocks: 0,
            unsafe_expressions: 0,
            total_unsafe: 0,
        },
        packages: Vec::new(),
    };
    let text = empty.render();
    assert!(text.contains("Details: none"));

    let populated = UnsafeOutput {
        summary: UnsafeSummary {
            packages: 1,
            unsafe_functions: 1,
            unsafe_impls: 0,
            unsafe_traits: 0,
            unsafe_blocks: 1,
            unsafe_expressions: 0,
            total_unsafe: 2,
        },
        packages: vec![UnsafePackage {
            name: "ffi".to_string(),
            version: "0.1.0".to_string(),
            package_id: None,
            unsafe_functions: 1,
            unsafe_impls: 0,
            unsafe_traits: 0,
            unsafe_blocks: 1,
            unsafe_expressions: 0,
            total_unsafe: 2,
        }],
    };
    let text = populated.render();
    assert!(text.contains("Details:"));
    assert!(text.contains("ffi 0.1.0: unsafe 2"));
}

#[test]
fn display_audit_output_variants() {
    let empty = AuditOutput {
        vulnerabilities: Vec::new(),
        summary: AuditSummary {
            critical: 0,
            high: 0,
            moderate: 0,
            low: 0,
            total: 0,
        },
    };
    let text = empty.render();
    assert!(text.contains("Details: none"));

    let populated = AuditOutput {
        vulnerabilities: vec![Vulnerability {
            id: "RUSTSEC-0000-0000".to_string(),
            package: "serde".to_string(),
            package_version: "1.0.0".to_string(),
            severity: Severity::High,
            title: "Example".to_string(),
            path: vec!["root".to_string()],
            fix_available: false,
        }],
        summary: AuditSummary {
            critical: 0,
            high: 1,
            moderate: 0,
            low: 0,
            total: 1,
        },
    };
    let text = populated.render();
    assert!(text.contains("Details:"));
    assert!(text.contains("id"));
    assert!(text.contains("RUSTSEC-0000-0000"));
}

#[test]
fn parse_machete_output_handles_null() {
    let (unused, possibly_unused) = machete_from_json(&JsonValue::Null).expect("parse");
    assert!(unused.is_empty());
    assert!(possibly_unused.is_empty());
}

#[test]
fn parse_machete_output_handles_array_schema() {
    let value = JsonValue::Arr(vec![
        s("serde"),
        obj(vec![
            ("name", s("tokio")),
            ("kind", s("dev")),
            ("confidence", s("low")),
        ]),
    ]);
    let (unused, possibly_unused) = machete_from_json(&value).expect("parse");
    assert!(possibly_unused.is_empty());
    assert_eq!(unused.len(), 2);
    assert_eq!(unused[0].name, "serde");
    assert_eq!(unused[0].dependency_type, DependencyType::Normal);
    assert_eq!(unused[0].confidence, Confidence::High);
    assert_eq!(unused[1].name, "tokio");
    assert_eq!(unused[1].dependency_type, DependencyType::Dev);
    assert_eq!(unused[1].confidence, Confidence::Low);
}

#[test]
fn parse_machete_output_handles_manifest_schema() {
    let value = obj(vec![(
        "manifests",
        JsonValue::Arr(vec![obj(vec![
            ("unused_dependencies", JsonValue::Arr(vec![s("serde")])),
            (
                "unused_dev_dependencies",
                JsonValue::Arr(vec![obj(vec![
                    ("name", s("tokio")),
                    ("kind", s("dev")),
                    ("confidence", s("medium")),
                ])]),
            ),
            (
                "unused_build_dependencies",
                JsonValue::Arr(vec![obj(vec![("name", s("cc")), ("kind", s("build"))])]),
            ),
            ("possibly_unused", JsonValue::Arr(vec![s("rand")])),
        ])]),
    )]);
    let (unused, possibly_unused) = machete_from_json(&value).expect("parse");
    assert_eq!(possibly_unused, vec!["rand".to_string()]);
    assert_eq!(unused.len(), 3);
    assert_eq!(unused[0].name, "serde");
    assert_eq!(unused[0].dependency_type, DependencyType::Normal);
    assert_eq!(unused[1].name, "tokio");
    assert_eq!(unused[1].dependency_type, DependencyType::Dev);
    assert_eq!(unused[1].confidence, Confidence::Medium);
    assert_eq!(unused[2].name, "cc");
    assert_eq!(unused[2].dependency_type, DependencyType::Build);
}

#[test]
fn parse_machete_output_handles_unused_section_schema() {
    let value = obj(vec![(
        "unused",
        obj(vec![
            ("dependencies", JsonValue::Arr(vec![s("serde")])),
            (
                "dev_dependencies",
                JsonValue::Arr(vec![obj(vec![("name", s("tokio"))])]),
            ),
            (
                "build_dependencies",
                JsonValue::Arr(vec![obj(vec![("name", s("cc"))])]),
            ),
        ]),
    )]);
    let (unused, possibly_unused) = machete_from_json(&value).expect("parse");
    assert!(possibly_unused.is_empty());
    assert_eq!(unused.len(), 3);
    assert_eq!(unused[0].name, "serde");
    assert_eq!(unused[0].dependency_type, DependencyType::Normal);
    assert_eq!(unused[1].name, "tokio");
    assert_eq!(unused[1].dependency_type, DependencyType::Dev);
    assert_eq!(unused[2].name, "cc");
    assert_eq!(unused[2].dependency_type, DependencyType::Build);
}

#[test]
fn parse_machete_output_rejects_unknown_schema() {
    let value = obj(vec![("unexpected", JsonValue::Bool(true))]);
    assert!(parse_machete_json(&value).is_none());
    let err = machete_from_json(&value).unwrap_err();
    assert_eq!(err.code(), upkeep::error::ErrorCode::InvalidData);
    assert!(err.msg.contains("cargo machete JSON schema is not recognized"));
}

#[test]
fn parse_geiger_output_supports_packages_schema() {
    let stats = obj(vec![
        ("functions", obj(vec![("unsafe", JsonValue::Num(Some(1)))])),
        ("impls", obj(vec![("unsafe", JsonValue::Num(Some(2)))])),
        ("traits", obj(vec![("unsafe", JsonValue::Num(Some(0)))])),
        ("blocks", obj(vec![("unsafe", JsonValue::Num(Some(3)))])),
        ("exprs", obj(vec![("unsafe", JsonValue::Num(Some(4)))])),
    ]);
    let value = obj(vec![(
        "packages",
        JsonValue::Arr(vec![obj(vec![
            ("name", s("foo")),
            ("version", s("1.0.0")),
            ("stats", stats),
        ])]),
    )]);
    let output = upkeep::geiger::parse_geiger_output(&value).expect("parse");
    assert_eq!(output.summary.total_unsafe, 10);
    assert_eq!(output.packages[0].name, "foo");
}

#[test]
fn parse_geiger_output_supports_crate_stats_schema() {
    let value = obj(vec![(
        "crate_stats",
        JsonValue::Arr(vec![obj(vec![
            ("id", s("bar 0.2.0 (path+file://...)")),
            (
                "geiger",
                obj(vec![
                    ("impls", obj(vec![("unsafe", JsonValue::Num(Some(1)))])),
                    ("blocks", obj(vec![("unsafe", JsonValue::Num(Some(2)))])),
                ]),
            ),
        ])]),
    )]);
    let output = upkeep::geiger::parse_geiger_output(&value).expect("parse");
    assert_eq!(output.packages[0].name, "bar");
    assert_eq!(output.packages[0].version, "0.2.0");
    assert_eq!(output.summary.total_unsafe, 3);
}

#[test]
fn parse_geiger_output_supports_top_level_array_schema() {
    let value = JsonValue::Arr(vec![obj(vec![
        (
            "package",
            obj(vec![("name", s("baz")), ("version", s("0.3.0"))]),
        ),
        (
            "counts",
            obj(vec![(
                "unsafe",
                obj(vec![
                    ("functions", JsonValue::Num(Some(2))),
                    ("impls", JsonValue::Num(Some(1))),
                    ("traits", JsonValue::Num(Some(0))),
                    ("blocks", JsonValue::Num(Some(0))),
                    ("expressions", JsonValue::Num(Some(1))),
                ]),
            )]),
        ),
    ])]);
    let output = upkeep::geiger::parse_geiger_output(&value).expect("parse");
    assert_eq!(output.packages[0].name, "baz");
    assert_eq!(output.packages[0].version, "0.3.0");
    assert_eq!(output.summary.total_unsafe, 4);
}

#[test]
fn parse_geiger_output_rejects_missing_identifiers() {
    let value = obj(vec![(
        "packages",
        JsonValue::Arr(vec![obj(vec![("stats", obj(vec![]))])]),
    )]);
    let err = upkeep::geiger::parse_geiger_output(&value).unwrap_err();
    assert_eq!(err.code(), upkeep::error::ErrorCode::InvalidData);
    assert!(err.msg.contains("cargo geiger"));
}

#[test]
fn describe_null() {
    assert_eq!(describe_json_schema(&JsonValue::Null), "null");
}

#[test]
fn describe_boolean() {
    assert_eq!(describe_json_schema(&JsonValue::Bool(true)), "boolean");
    assert_eq!(describe_json_schema(&JsonValue::Bool(false)), "boolean");
}

#[test]
fn describe_number() {
    assert_eq!(describe_json_schema(&JsonValue::Num(Some(42))), "number");
    assert_eq!(describe_json_schema(&JsonValue::Num(None)), "number");
}

#[test]
fn describe_string() {
    assert_eq!(describe_json_schema(&s("hello")), "string");
}

#[test]
fn describe_array() {
    assert_eq!(describe_json_schema(&JsonValue::Arr(vec![])), "array(len=0)");
    assert_eq!(
        describe_json_schema(&JsonValue::Arr(vec![
            JsonValue::Null,
            JsonValue::Null,
            JsonValue::Null
        ])),
        "array(len=3)"
    );
}

#[test]
fn describe_object() {
    assert_eq!(describe_json_schema(&obj(vec![])), "object(keys=[])");
    assert_eq!(
        describe_json_schema(&obj(vec![("b", JsonValue::Null), ("a", JsonValue::Null)])),
        "object(keys=[a, b])"
    );
}
