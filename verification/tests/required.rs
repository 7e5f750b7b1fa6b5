//! Unit tests for the classifiers, parsers and helpers of the library.

use upkeep::audit::{map_severity, summarize, AdvisoryLevel};
use upkeep::clippy::is_clippy_missing;
use upkeep::deps::{
    classify_update, get_latest_version, is_registry_source, resolve_current_version, VersionInfo,
};
use upkeep::error::ErrorCode;
use upkeep::output::{Confidence, DependencyType, Severity, UpdateType, Vulnerability};
use upkeep::toolcheck::{
    handle_tool_output, is_missing_subcommand, is_unknown_flag, ExternalToolConfig, ToolOutput,
};
use upkeep::unused::parse_machete_text;
use upkeep::version::Version;

fn vuln_with(severity: Severity) -> Vulnerability {
    Vulnerability {
        id: "RUSTSEC-0000-0000".to_string(),
        package: "pkg".to_string(),
        package_version: "1.0.0".to_string(),
        severity,
        title: "Example".to_string(),
        path: vec!["pkg".to_string()],
        fix_available: false,
    }
}

#[test]
fn map_severity_handles_all_levels() {
    assert!(matches!(
        map_severity(Some(AdvisoryLevel::Critical)),
        Severity::Critical
    ));
    assert!(matches!(
        map_severity(Some(AdvisoryLevel::High)),
        Severity::High
    ));
    assert!(matches!(
        map_severity(Some(AdvisoryLevel::Medium)),
        Severity::Moderate
    ));
    assert!(matches!(map_severity(Some(AdvisoryLevel::Low)), Severity::Low));
    assert!(matches!(
        map_severity(Some(AdvisoryLevel::NoScore)),
        Severity::Low
    ));
    assert!(matches!(map_severity(None), Severity::High));
}

#[test]
fn summarize_counts_and_totals() {
    let vulnerabilities = vec![
        vuln_with(Severity::Critical),
        vuln_with(Severity::High),
        vuln_with(Severity::Moderate),
        vuln_with(Severity::Low),
        vuln_with(Severity::Low),
    ];

    let summary = summarize(&vulnerabilities);
    assert_eq!(summary.critical, 1);
    assert_eq!(summary.high, 1);
    assert_eq!(summary.moderate, 1);
    assert_eq!(summary.low, 2);
    assert_eq!(summary.total, 5);
}

#[test]
fn classify_update_detects_major_minor_patch() {
    let current = Version::new(1, 2, 3);
    let major = Version::new(2, 0, 0);
    let minor = Version::new(1, 3, 0);
    let patch = Version::new(1, 2, 4);

    assert!(matches!(classify_update(&current, &major), UpdateType::Major));
    assert!(matches!(classify_update(&current, &minor), UpdateType::Minor));
    assert!(matches!(classify_update(&current, &patch), UpdateType::Patch));
}

#[test]
fn resolve_current_version_prefers_alias_key() {
    let versions = vec![
        ("alias".to_string(), Version::new(2, 0, 0)),
        ("name".to_string(), Version::new(1, 0, 0)),
    ];

    let resolved = resolve_current_version("alias", "name", &versions).expect("resolved");
    assert_eq!(resolved.major, 2);
    assert_eq!(resolved.minor, 0);
    assert_eq!(resolved.patch, 0);
}

#[test]
fn resolve_current_version_falls_back_to_name() {
    let versions = vec![("name".to_string(), Version::new(1, 4, 2))];

    let resolved = resolve_current_version("alias", "name", &versions).expect("resolved");
    assert_eq!(resolved.major, 1);
    assert_eq!(resolved.minor, 4);
    assert_eq!(resolved.patch, 2);
}

#[test]
fn get_latest_version_returns_latest_when_present() {
    let versions = vec![(
        "serde".to_string(),
        VersionInfo {
            name: "serde".to_string(),
            latest: Some("1.0.200".to_string()),
            latest_stable: None,
        },
    )];

    let latest = get_latest_version("serde", &versions);
    assert_eq!(latest.as_deref(), Some("1.0.200"));
}

#[test]
fn is_registry_source_handles_registry_and_non_registry() {
    let registry = Some("registry+https://example.com".to_string());
    let git = Some("git+https://example.com/repo.git".to_string());

    assert!(is_registry_source(None));
    assert!(is_registry_source(registry.as_ref()));
    assert!(!is_registry_source(git.as_ref()));
}

#[test]
fn semver_parsing_and_comparison_handles_prerelease() {
    let stable = Version::parse("1.2.3").expect("parse stable");
    let prerelease = Version::parse("1.2.3-beta.1").expect("parse prerelease");
    let next_patch = Version::parse("1.2.4-beta.1").expect("parse next prerelease");

    assert!(prerelease.lt(&stable));
    assert!(stable.lt(&next_patch));
}

#[test]
fn classify_update_handles_prerelease_versions() {
    let current = Version::parse("1.2.3").expect("parse current");
    let prerelease_patch = Version::parse("1.2.4-beta.1").expect("parse prerelease");

    assert!(matches!(
        classify_update(&current, &prerelease_patch),
        UpdateType::Patch
    ));
}

#[test]
fn clippy_missing_detection() {
    assert!(is_clippy_missing("clippy is not installed"));
    assert!(is_clippy_missing("no such subcommand: clippy"));
    assert!(is_clippy_missing("component 'clippy' is missing"));
    assert!(is_clippy_missing("rustup component add clippy"));
    assert!(!is_clippy_missing("some other error"));
}

#[test]
fn test_is_missing_subcommand() {
    assert!(is_missing_subcommand(
        "error: no such subcommand: `geiger`",
        "geiger"
    ));
    assert!(is_missing_subcommand(
        "error: Unknown subcommand 'machete'",
        "machete"
    ));
    assert!(is_missing_subcommand(
        "error: NO SUCH SUBCOMMAND: `GEIGER`",
        "geiger"
    ));

    assert!(!is_missing_subcommand("some other error", "geiger"));
    assert!(!is_missing_subcommand("no such subcommand: `other`", "geiger"));
    assert!(!is_missing_subcommand("geiger is not installed", "geiger"));
    assert!(!is_missing_subcommand("", "geiger"));
}

#[test]
fn test_is_unknown_flag() {
    assert!(is_unknown_flag(
        "error: unexpected argument '--output-format'",
        "--output-format"
    ));
    assert!(is_unknown_flag(
        "error: Found argument '--json' which wasn't expected",
        "--json"
    ));
    assert!(is_unknown_flag("error: UNEXPECTED ARGUMENT '--JSON'", "--json"));

    assert!(!is_unknown_flag("some other error", "--json"));
    assert!(!is_unknown_flag("unexpected argument '--other'", "--json"));
    assert!(!is_unknown_flag("--json is not recognized", "--json"));
    assert!(!is_unknown_flag("", "--json"));
}

#[test]
fn test_is_missing_subcommand_with_multiline_stderr() {
    let stderr = r#"error: no such subcommand: `geiger`

        Did you mean `generate`?

        View all installed commands with `cargo --list`"#;
    assert!(is_missing_subcommand(stderr, "geiger"));
}

#[test]
fn test_is_unknown_flag_with_multiline_stderr() {
    let stderr = r#"error: Found argument '--output-format' which wasn't expected, or isn't valid in this context

        USAGE:
            cargo machete [OPTIONS]

        For more information try --help"#;
    assert!(is_unknown_flag(stderr, "--output-format"));
}

fn machete_config() -> ExternalToolConfig {
    ExternalToolConfig {
        tool_name: "machete".to_string(),
        install_hint: "cargo install cargo-machete".to_string(),
    }
}

fn output_with(success: bool, stdout: &str, stderr: &str) -> ToolOutput {
    ToolOutput {
        success,
        stdout: stdout.to_string(),
        stderr: stderr.to_string(),
    }
}

#[test]
fn handle_tool_output_success_returns_ok() {
    let config = machete_config();
    let output = output_with(true, "{\"unused\":[]}", "");
    let result = handle_tool_output(output, &config, false).unwrap();
    assert!(!result.stdout.is_empty());
}

#[test]
fn handle_tool_output_missing_tool_returns_missing_tool_error() {
    let config = ExternalToolConfig {
        tool_name: "geiger".to_string(),
        install_hint: "cargo install cargo-geiger".to_string(),
    };
    let stderr = "error: no such subcommand: `geiger`";
    let missing = is_missing_subcommand(stderr, "geiger");
    let output = output_with(false, "", stderr);
    let err = handle_tool_output(output, &config, missing).unwrap_err();

    assert_eq!(err.code(), ErrorCode::MissingTool);
    assert!(err.msg.contains("cargo-geiger is not installed"));
}

#[test]
fn handle_tool_output_nonzero_with_stdout_is_ok() {
    let config = machete_config();
    let output = output_with(false, "{\"unused\":[]}", "warning");
    let result = handle_tool_output(output, &config, false).unwrap();
    assert!(!result.stdout.is_empty());
}

#[test]
fn handle_tool_output_empty_stderr_returns_error() {
    let config = machete_config();
    let output = output_with(false, "", "");
    let err = handle_tool_output(output, &config, false).unwrap_err();
    assert_eq!(err.code(), ErrorCode::ExternalCommand);
    assert!(err.msg.contains("cargo machete failed with no stderr output"));
}

#[test]
fn handle_tool_output_stderr_message_bubbles_up() {
    let config = machete_config();
    let output = output_with(false, "", "boom");
    let err = handle_tool_output(output, &config, false).unwrap_err();
    assert_eq!(err.code(), ErrorCode::ExternalCommand);
    assert!(err.msg.contains("cargo machete failed: boom"));
}

#[test]
fn parse_machete_text_parses_sections() {
    let text = "Unused dependencies:\n- serde\nUnused dev-dependencies:\n* tokio\nUnused build-dependencies:\ncc\nPossibly unused dependencies:\n- rand\n";
    let (unused, possibly_unused) = parse_machete_text(text);
    assert_eq!(unused.len(), 3);
    assert_eq!(unused[0].name, "serde");
    assert_eq!(unused[0].dependency_type, DependencyType::Normal);
    assert_eq!(unused[0].confidence, Confidence::Medium);
    assert_eq!(unused[1].name, "tokio");
    assert_eq!(unused[1].dependency_type, DependencyType::Dev);
    assert_eq!(unused[2].name, "cc");
    assert_eq!(unused[2].dependency_type, DependencyType::Build);
    assert_eq!(possibly_unused, vec!["rand".to_string()]);
}
