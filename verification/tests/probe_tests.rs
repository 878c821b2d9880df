use verpoll::package::{Package, PackageChannel, PackageConfig, PPM_FULL};
use verpoll::probe::{
    classify_output, sample_probe, should_probe, ChannelCursor, CmdError, FetchError,
};

fn package(name: &str, upstream: &str) -> Package {
    Package {
        name: String::from(name),
        config: PackageConfig {
            upstream: String::from(upstream),
            chance: PPM_FULL,
            channels: vec![],
        },
    }
}

fn channel(fetch: &str, expected: Option<&str>) -> PackageChannel {
    PackageChannel {
        name: String::from("release"),
        enabled: true,
        upstream: None,
        fetch: String::from(fetch),
        expected: expected.map(String::from),
    }
}

#[test]
fn stderr_output_is_always_a_failure() {
    let r = classify_output(String::from("1.2.3\n"), "oops", 0);
    assert_eq!(r.unwrap_err(), CmdError::OutputInStderr);
}

#[test]
fn nonzero_status_is_a_failure() {
    let r = classify_output(String::from("1.2.3\n"), "", 7);
    assert_eq!(r.unwrap_err(), CmdError::NonzeroStatus);
}

#[test]
fn blank_stdout_is_a_failure() {
    let r = classify_output(String::from("  \n\t \n"), "", 0);
    assert_eq!(r.unwrap_err(), CmdError::EmptyStdout);
}

#[test]
fn clean_output_passes_through() {
    let r = classify_output(String::from("diag\n1.2.3\n"), "", 0);
    assert_eq!(r.unwrap(), "diag\n1.2.3\n");
}

#[test]
fn failure_kinds_are_checked_in_order() {
    let r = classify_output(String::from("   "), "err", 5);
    assert_eq!(r.unwrap_err(), CmdError::OutputInStderr);
    let r = classify_output(String::from("   "), "", 5);
    assert_eq!(r.unwrap_err(), CmdError::NonzeroStatus);
}

#[test]
fn probe_command_carries_name_upstream_and_shortform() {
    let p = package("mytool", "owner/repo");
    let ch = channel("echo 1.0", None);
    let cmd = ch.probe_command(&p);
    assert_eq!(
        cmd,
        vec![
            String::from("env"),
            String::from("name=mytool"),
            String::from("upstream=https://github.com/owner/repo.git"),
            String::from("shortform=owner/repo"),
            String::from("bash"),
            String::from("-c"),
            String::from(". sh/lib.env && echo 1.0"),
        ]
    );
}

#[test]
fn probe_command_keeps_other_locators_unchanged() {
    let p = package("t", "https://git.example.org/r.git");
    let ch = channel("gr", None);
    let cmd = ch.probe_command(&p);
    assert_eq!(cmd[2], "upstream=https://git.example.org/r.git");
    assert_eq!(cmd[3], "shortform=https://git.example.org/r.git");
}

#[test]
fn process_output_normalizes_without_pattern() {
    let p = package("mytool", "");
    let ch = channel("x", None);
    assert_eq!(ch.process_output(&p, "V1.2.3\n").unwrap(), "1.2.3");
}

#[test]
fn process_output_validates_against_pattern() {
    let p = package("mytool", "");
    let ch = channel("x", Some("^[0-9]+(\\.[0-9]+)*$"));
    assert_eq!(ch.process_output(&p, "V1.2.3\n").unwrap(), "1.2.3");
}

#[test]
fn process_output_rejects_mismatch() {
    let p = package("mytool", "");
    let ch = channel("x", Some("^[0-9]+(\\.[0-9]+)*$"));
    assert_eq!(ch.process_output(&p, "not-a-version\n").unwrap_err(), FetchError::Mismatch);
}

#[test]
fn process_output_rejects_invalid_pattern() {
    let p = package("mytool", "");
    let ch = channel("x", Some("(unclosed"));
    assert_eq!(ch.process_output(&p, "1.2.3\n").unwrap_err(), FetchError::InvalidExpected);
}

#[test]
fn zero_chance_with_fallback_always_skips() {
    for draw in [1, 2, 500000, PPM_FULL] {
        assert!(!should_probe(0, false, true, draw));
    }
    for _ in 0..100 {
        assert!(!sample_probe(0, false, true));
    }
}

#[test]
fn full_chance_always_probes() {
    for draw in [1, 500000, PPM_FULL] {
        assert!(should_probe(PPM_FULL, false, true, draw));
    }
    for _ in 0..100 {
        assert!(sample_probe(PPM_FULL, false, true));
    }
}

#[test]
fn missing_fallback_guarantees_a_probe() {
    for draw in [1, PPM_FULL] {
        assert!(should_probe(0, false, false, draw));
    }
    for _ in 0..100 {
        assert!(sample_probe(0, false, false));
        assert!(sample_probe(0, true, true));
    }
}

fn multi_channel_package() -> Package {
    let mk = |name: &str, enabled: bool| PackageChannel {
        name: String::from(name),
        enabled,
        upstream: None,
        fetch: String::from("x"),
        expected: None,
    };
    Package {
        name: String::from("pkg"),
        config: PackageConfig {
            upstream: String::from(""),
            chance: PPM_FULL,
            channels: vec![mk("release", true), mk("beta", false), mk("commit", true)],
        },
    }
}

#[test]
fn cursor_walks_enabled_channels_in_order() {
    let p = multi_channel_package();
    let mut cursor = ChannelCursor::new(&p);
    let first = cursor.next_channel(&p).expect("release is pending");
    assert_eq!(first.name, "release");
    cursor.record(&p, String::from("V1.0\n"), "", 0).unwrap();
    let second = cursor.next_channel(&p).expect("commit is pending");
    assert_eq!(second.name, "commit");
    cursor.record(&p, String::from("abc\n"), "", 0).unwrap();
    assert!(cursor.next_channel(&p).is_none());
    let versions = cursor.finish(&p);
    let entries: Vec<(&str, &str)> =
        versions.iter().map(|v| (v.channel.as_str(), v.version.as_str())).collect();
    assert_eq!(entries, vec![("release", "1.0"), ("commit", "abc")]);
}

#[test]
fn cursor_failure_leaves_state_unchanged() {
    let p = multi_channel_package();
    let mut cursor = ChannelCursor::new(&p);
    let e = cursor.record(&p, String::from("1.0\n"), "boom", 0).unwrap_err();
    assert_eq!(e, FetchError::Command(CmdError::OutputInStderr));
    let pending = cursor.next_channel(&p).expect("release is still pending");
    assert_eq!(pending.name, "release");
    cursor.record(&p, String::from("1.0\n"), "", 0).unwrap();
    cursor.record(&p, String::from("abc\n"), "", 0).unwrap();
    assert_eq!(cursor.finish(&p).len(), 2);
}

#[test]
fn cursor_reports_validation_failures() {
    let mut p = multi_channel_package();
    p.config.channels[0].expected = Some(String::from("^[0-9]+$"));
    let mut cursor = ChannelCursor::new(&p);
    let e = cursor.record(&p, String::from("not a number\n"), "", 0).unwrap_err();
    assert_eq!(e, FetchError::Mismatch);
}

#[test]
fn cursor_on_all_disabled_package_finishes_empty() {
    let mut p = multi_channel_package();
    for ch in &mut p.config.channels {
        ch.enabled = false;
    }
    let cursor = ChannelCursor::new(&p);
    assert!(cursor.next_channel(&p).is_none());
    assert!(cursor.finish(&p).is_empty());
}
