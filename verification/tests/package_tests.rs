use verpoll::args::Args;
use verpoll::package::{Package, PackageChannel, PackageConfig, VersionChannel, PPM_FULL};

fn channel(name: &str, enabled: bool, fetch: &str) -> PackageChannel {
    PackageChannel {
        name: String::from(name),
        enabled,
        upstream: None,
        fetch: String::from(fetch),
        expected: None,
    }
}

fn package(upstream: &str, channels: Vec<PackageChannel>) -> Package {
    Package {
        name: String::from("pkg"),
        config: PackageConfig { upstream: String::from(upstream), chance: PPM_FULL, channels },
    }
}

fn assert_configs_equal(a: &PackageConfig, b: &PackageConfig) {
    assert_eq!(a.upstream, b.upstream);
    assert_eq!(a.chance, b.chance);
    assert_eq!(a.channels.len(), b.channels.len());
    for (ca, cb) in a.channels.iter().zip(b.channels.iter()) {
        assert_eq!(ca.name, cb.name);
        assert_eq!(ca.enabled, cb.enabled);
        assert_eq!(ca.upstream, cb.upstream);
        assert_eq!(ca.fetch, cb.fetch);
        assert_eq!(ca.expected, cb.expected);
    }
}

#[test]
fn default_config_has_three_channels() {
    let c = PackageConfig::default();
    assert_eq!(c.upstream, "");
    assert_eq!(c.chance, PPM_FULL);
    let names: Vec<&str> = c.channels.iter().map(|ch| ch.name.as_str()).collect();
    assert_eq!(names, vec!["release", "unstable", "commit"]);
    assert_eq!(c.channels[0].expected.as_deref(), Some("^[0-9]+(\\.[0-9]+)*$"));
    assert_eq!(
        c.channels[1].expected.as_deref(),
        Some("^[0-9]+(\\.[0-9]+)*-?(rc|alpha|beta|a|b|pre|dev)?[0-9]*$")
    );
    assert_eq!(c.channels[2].expected.as_deref(), Some("^[0-9a-f]{40}$"));
    for ch in &c.channels {
        assert!(ch.enabled);
        assert_eq!(ch.fetch, "");
    }
}

#[test]
fn default_channel_is_enabled_and_empty() {
    let ch = PackageChannel::default();
    assert_eq!(ch.name, "");
    assert!(ch.enabled);
    assert_eq!(ch.upstream, None);
    assert_eq!(ch.fetch, "");
    assert_eq!(ch.expected, None);
}

#[test]
fn set_defaults_fills_fetch_from_github_upstream() {
    let mut p = package("owner/repo", PackageConfig::default().channels);
    p.set_defaults();
    assert_eq!(p.config.channels[0].fetch, "ghr | tolower | vtrim | fsl");
    assert_eq!(p.config.channels[1].fetch, "gr | tolower | vtrim | fsl | vsort");
    assert_eq!(p.config.channels[2].fetch, "githead");
    assert!(p.config.channels[2].enabled);
}

#[test]
fn set_defaults_keeps_explicit_fetch() {
    let mut p = package("owner/repo", vec![channel("release", true, "my custom probe")]);
    p.set_defaults();
    assert_eq!(p.config.channels[0].fetch, "my custom probe");
    assert_eq!(p.config.channels[0].expected.as_deref(), Some("^[0-9]+(\\.[0-9]+)*$"));
}

#[test]
fn set_defaults_skips_disabled_channels() {
    let mut p = package("owner/repo", vec![channel("release", false, "")]);
    p.set_defaults();
    assert_eq!(p.config.channels[0].fetch, "");
    assert_eq!(p.config.channels[0].expected, None);
}

#[test]
fn commit_channel_disabled_for_arch_upstream() {
    let mut p = package("https://archlinux.org/packages/foo", PackageConfig::default().channels);
    p.set_defaults();
    assert!(!p.config.channels[2].enabled);
}

#[test]
fn commit_channel_disabled_for_curl_upstream() {
    let mut p = package("https://x.example/?C=M;O=D", vec![channel("commit", true, "")]);
    p.set_defaults();
    assert!(!p.config.channels[0].enabled);
}

#[test]
fn commit_channel_disabled_for_empty_upstream() {
    let mut p = package("", vec![channel("commit", true, "")]);
    p.set_defaults();
    assert!(!p.config.channels[0].enabled);
}

#[test]
fn commit_channel_with_channel_override_uses_it() {
    let mut ch = channel("commit", true, "");
    ch.upstream = Some(String::from("owner/repo"));
    let mut p = package("https://archlinux.org/packages/foo", vec![ch]);
    p.set_defaults();
    assert!(p.config.channels[0].enabled);
    assert_eq!(p.config.channels[0].fetch, "githead");
}

#[test]
fn set_defaults_is_idempotent() {
    for upstream in ["", "owner/repo", "https://archlinux.org/x", "https://git.example.org/r"] {
        let mut once = package(upstream, PackageConfig::default().channels);
        once.set_defaults();
        let mut twice = package(upstream, PackageConfig::default().channels);
        twice.set_defaults();
        twice.set_defaults();
        assert_configs_equal(&once.config, &twice.config);
    }
}

#[test]
fn get_channel_finds_first_by_name() {
    let p = package("", vec![channel("release", true, "a"), channel("commit", true, "b")]);
    assert_eq!(p.get_channel("commit").unwrap().fetch, "b");
    assert!(p.get_channel("missing").is_none());
}

#[test]
fn fallback_requires_known_channels() {
    let p = package("", vec![channel("release", true, "a")]);
    let good = vec![VersionChannel {
        channel: String::from("release"),
        version: String::from("1.0"),
    }];
    let bad = vec![VersionChannel {
        channel: String::from("unstable"),
        version: String::from("1.0"),
    }];
    assert!(p.has_fallback_versions(Some(&good)));
    assert!(!p.has_fallback_versions(Some(&bad)));
    assert!(!p.has_fallback_versions(None));
    let empty: Vec<VersionChannel> = vec![];
    assert!(p.has_fallback_versions(Some(&empty)));
}

#[test]
fn args_default_checks_everything() {
    let a = Args::default();
    assert!(a.packages.is_empty());
    assert!(!a.pretend);
    assert!(!a.guarantee);
}
