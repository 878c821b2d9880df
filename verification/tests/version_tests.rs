use verpoll::package::{Package, PackageConfig};
use verpoll::shortform::{get_longform, get_shortform, is_shortform};
use verpoll::strutil::basename;
use verpoll::version::{normalize, Version};

#[test]
fn normalize_strips_leading_v() {
    assert_eq!(normalize("V1.2.3\n", "mytool"), "1.2.3");
}

#[test]
fn normalize_strips_name_prefix_and_separator() {
    assert_eq!(normalize("mytool-2.0\n", "mytool"), "2.0");
}

#[test]
fn normalize_strips_name_prefix_and_underscore() {
    assert_eq!(normalize("foo_3\n", "foo"), "3");
}

#[test]
fn normalize_takes_last_nonempty_line() {
    assert_eq!(normalize("fetching...\nwarning\n1.4.7\n\n", "pkg"), "1.4.7");
}

#[test]
fn normalize_lowercases() {
    assert_eq!(normalize("1.0-RC1\n", "pkg"), "1.0-rc1");
}

#[test]
fn normalize_trims_whitespace_and_cr() {
    assert_eq!(normalize("  2.5.1 \r\n", "pkg"), "2.5.1");
}

#[test]
fn normalize_accepts_unterminated_final_line() {
    assert_eq!(normalize("3.1", "pkg"), "3.1");
    assert_eq!(normalize("4.0\r", "pkg"), "4.0");
}

#[test]
fn normalize_keeps_cr_of_unterminated_final_segment() {
    // a lone carriage return without a line feed is a line of its own,
    // and trims to nothing
    assert_eq!(normalize("1.0\n\r", "pkg"), "");
}

#[test]
fn normalize_uses_basename_of_package_name() {
    assert_eq!(normalize("tool-9.9\n", "group/tool"), "9.9");
}

#[test]
fn version_trim_fills_fmt_and_keeps_raw() {
    let package = Package { name: String::from("mytool"), config: PackageConfig::default() };
    let mut v = Version::new(String::from("V1.2.3\n"));
    assert_eq!(v.raw, "V1.2.3\n");
    assert_eq!(v.fmt, "");
    v.trim(&package);
    assert_eq!(v.raw, "V1.2.3\n");
    assert_eq!(v.fmt, "1.2.3");
}

#[test]
fn basename_takes_last_segment() {
    assert_eq!(basename("a/b/c"), "c");
    assert_eq!(basename("plain"), "plain");
    assert_eq!(basename("trailing/"), "");
}

#[test]
fn shortform_detection_counts_segments() {
    assert!(is_shortform("owner/repo"));
    assert!(!is_shortform("owner"));
    assert!(!is_shortform("a/b/c"));
    assert!(is_shortform("/"));
}

#[test]
fn longform_expands_shortform() {
    assert_eq!(get_longform("owner/repo"), "https://github.com/owner/repo.git");
    assert_eq!(get_longform("https://example.org/x"), "https://example.org/x");
}

#[test]
fn shortform_from_github_url() {
    assert_eq!(get_shortform("https://github.com/owner/repo.git"), "owner/repo");
    assert_eq!(get_shortform("https://github.com/owner/repo"), "owner/repo");
    assert_eq!(get_shortform("https://example.org/owner/repo"), "https://example.org/owner/repo");
    assert_eq!(get_shortform("upstream=https://github.com/owner/repo.git"), "owner/repo");
}
