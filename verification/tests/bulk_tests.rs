use verpoll::bulk::{merge_results, resolve_outcome, FetchedPackage, PackageProbe, RunError};
use verpoll::codec::encode_all;
use verpoll::package::{Package, PackageConfig, PackageVersions, VersionChannel, PPM_FULL};
use verpoll::probe::{CmdError, FetchError};

fn package(name: &str) -> Package {
    Package {
        name: String::from(name),
        config: PackageConfig {
            upstream: String::from(""),
            chance: PPM_FULL,
            channels: vec![],
        },
    }
}

fn vc(channel: &str, version: &str) -> VersionChannel {
    VersionChannel { channel: String::from(channel), version: String::from(version) }
}

fn fetched(name: &str, version: &str, skipped: bool, failed: bool) -> FetchedPackage {
    FetchedPackage {
        package: package(name),
        versions: vec![vc("release", version)],
        skipped,
        failed,
    }
}

#[test]
fn fresh_outcome_keeps_probed_versions() {
    let r = resolve_outcome(package("a"), PackageProbe::Fetched(vec![vc("release", "1.0")]), None)
        .unwrap();
    assert!(!r.skipped && !r.failed);
    assert_eq!(r.versions[0].version, "1.0");
}

#[test]
fn skip_substitutes_fallback() {
    let fb = vec![vc("release", "0.9")];
    let r = resolve_outcome(package("a"), PackageProbe::Skipped, Some(fb)).unwrap();
    assert!(r.skipped && !r.failed);
    assert_eq!(r.versions[0].version, "0.9");
}

#[test]
fn failure_substitutes_fallback() {
    let fb = vec![vc("release", "0.9")];
    let outcome = PackageProbe::Failed(FetchError::Command(CmdError::NonzeroStatus));
    let r = resolve_outcome(package("a"), outcome, Some(fb)).unwrap();
    assert!(!r.skipped && r.failed);
    assert_eq!(r.versions[0].version, "0.9");
}

#[test]
fn missing_fallback_is_a_run_error() {
    let r = resolve_outcome(package("a"), PackageProbe::Skipped, None);
    assert_eq!(r.unwrap_err(), RunError::MissingFallback);
    let outcome = PackageProbe::Failed(FetchError::Mismatch);
    let r = resolve_outcome(package("a"), outcome, None);
    assert_eq!(r.unwrap_err(), RunError::MissingFallback);
}

#[test]
fn one_failing_package_leaves_the_others_intact() {
    let results = vec![
        fetched("beta", "1.0", false, false),
        fetched("alpha", "2.0", false, true),
        fetched("gamma", "3.0", false, false),
    ];
    let (merged, report) = merge_results(results);
    assert_eq!(report.total, 3);
    assert_eq!(report.checked, 2);
    assert_eq!(report.failed, 1);
    assert_eq!(report.skipped, 0);
    assert_eq!(report.skipped + report.failed + report.checked, report.total);
    let names: Vec<&str> = merged.iter().map(|f| f.package.name.as_str()).collect();
    assert_eq!(names, vec!["alpha", "beta", "gamma"]);
    assert_eq!(merged[1].versions[0].version, "1.0");
}

#[test]
fn report_counts_skips_and_failures() {
    let results = vec![
        fetched("a", "1", true, false),
        fetched("b", "2", false, true),
        fetched("c", "3", true, false),
        fetched("d", "4", false, false),
    ];
    let (_, report) = merge_results(results);
    assert_eq!(report.total, 4);
    assert_eq!(report.skipped, 2);
    assert_eq!(report.failed, 1);
    assert_eq!(report.checked, 1);
    assert_eq!(report.skipped + report.failed + report.checked, report.total);
}

#[test]
fn merged_output_is_independent_of_arrival_order() {
    let one = vec![
        fetched("pear", "1.0", false, false),
        fetched("apple", "2.0", true, false),
        fetched("quince", "3.0", false, true),
    ];
    let other = vec![
        fetched("quince", "3.0", false, true),
        fetched("pear", "1.0", false, false),
        fetched("apple", "2.0", true, false),
    ];
    let (m1, r1) = merge_results(one);
    let (m2, r2) = merge_results(other);
    assert_eq!(r1, r2);
    let manifest = |m: &Vec<FetchedPackage>| {
        let all: Vec<PackageVersions> = m
            .iter()
            .map(|f| PackageVersions {
                package: f.package.name.clone(),
                versions: f.versions.clone(),
            })
            .collect();
        encode_all(&all)
    };
    assert_eq!(manifest(&m1), manifest(&m2));
}
