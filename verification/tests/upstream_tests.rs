use verpoll::upstream::UpstreamType;

#[test]
fn classify_shortform_is_github() {
    assert!(matches!(UpstreamType::from_str("owner/repo"), UpstreamType::GitHub));
}

#[test]
fn classify_empty_is_empty() {
    assert!(matches!(UpstreamType::from_str(""), UpstreamType::Empty));
}

#[test]
fn classify_github_url_is_github() {
    assert!(matches!(
        UpstreamType::from_str("https://github.com/owner/repo"),
        UpstreamType::GitHub
    ));
}

#[test]
fn classify_distfile_page_is_curl() {
    assert!(matches!(
        UpstreamType::from_str("https://ftp.example.org/dir/?C=M;O=D"),
        UpstreamType::Curl
    ));
}

#[test]
fn classify_arch_marker_is_arch() {
    assert!(matches!(
        UpstreamType::from_str("https://archlinux.org/packages/foo"),
        UpstreamType::Arch
    ));
}

#[test]
fn classify_other_nonempty_is_git() {
    assert!(matches!(
        UpstreamType::from_str("https://git.example.org/foo.git"),
        UpstreamType::Git
    ));
}

#[test]
fn classify_is_deterministic() {
    for locator in ["", "owner/repo", "https://archlinux.org/x", "anything else"] {
        let first = UpstreamType::from_str(locator);
        for _ in 0..10 {
            assert_eq!(UpstreamType::from_str(locator), first);
        }
    }
}

#[test]
fn default_fetch_release_per_kind() {
    assert_eq!(UpstreamType::Arch.default_fetch_release(), "archver");
    assert_eq!(UpstreamType::Curl.default_fetch_release(), "ca | vsort");
    assert_eq!(UpstreamType::Empty.default_fetch_release(), "");
    assert_eq!(
        UpstreamType::Git.default_fetch_release(),
        "gr | vfs | tolower | vtrim | fsl | vsort"
    );
    assert_eq!(UpstreamType::GitHub.default_fetch_release(), "ghr | tolower | vtrim | fsl");
}

#[test]
fn default_fetch_unstable_per_kind() {
    assert_eq!(UpstreamType::Arch.default_fetch_unstable(), "archver");
    assert_eq!(UpstreamType::Curl.default_fetch_unstable(), "ca | vsort");
    assert_eq!(UpstreamType::Empty.default_fetch_unstable(), "");
    assert_eq!(
        UpstreamType::Git.default_fetch_unstable(),
        "gr | tolower | vtrim | fsl | vsort"
    );
    assert_eq!(
        UpstreamType::GitHub.default_fetch_unstable(),
        "gr | tolower | vtrim | fsl | vsort"
    );
}

#[test]
fn default_fetch_commit_per_kind() {
    assert_eq!(UpstreamType::Arch.default_fetch_commit(), "");
    assert_eq!(UpstreamType::Curl.default_fetch_commit(), "");
    assert_eq!(UpstreamType::Empty.default_fetch_commit(), "");
    assert_eq!(UpstreamType::Git.default_fetch_commit(), "githead");
    assert_eq!(UpstreamType::GitHub.default_fetch_commit(), "githead");
}
