//! Classification of upstream locator strings into a closed set of upstream
//! kinds, each with a default probe expression per channel role.

use vstd::prelude::*;

use crate::strutil::{contains_seq, contains_str, count_ch, count_char, has_prefix, is_prefix_of};

verus! {

/// The closed set of upstream kinds a locator can classify as.
#[derive(Clone, Copy, PartialEq, Eq, Structural, Debug)]
pub enum UpstreamType {
    Arch,
    Curl,
    Empty,
    Git,
    GitHub,
}

/// Classification of a locator, in priority order: an Arch-repository
/// marker wins, then the pair of directory-listing query markers, then a
/// GitHub web prefix or a two-segment `owner/repo` shortform, then the
/// empty locator; everything else is taken to be a generic git remote.
pub open spec fn classify_spec(l: Seq<char>) -> UpstreamType {
    if contains_seq(l, "archlinux.org"@) {
        UpstreamType::Arch
    } else if contains_seq(l, "C=M"@) && contains_seq(l, "O=D"@) {
        UpstreamType::Curl
    } else if is_prefix_of("https://github.com/"@, l) || count_ch(l, '/') == 1 {
        UpstreamType::GitHub
    } else if l.len() == 0 {
        UpstreamType::Empty
    } else {
        UpstreamType::Git
    }
}

/// Classification is a pure total function of the locator: every locator
/// yields exactly one of the five kinds, and equal locators always yield
/// the same kind.
pub proof fn lemma_classify_pure_total(l1: Seq<char>, l2: Seq<char>)
    ensures
        classify_spec(l1) == UpstreamType::Arch || classify_spec(l1) == UpstreamType::Curl
            || classify_spec(l1) == UpstreamType::Empty || classify_spec(l1) == UpstreamType::Git
            || classify_spec(l1) == UpstreamType::GitHub,
        l1 == l2 ==> classify_spec(l1) == classify_spec(l2),
{
}

/// The default probe expression for a release channel of this kind.
pub open spec fn default_fetch_release_spec(t: UpstreamType) -> Seq<char> {
    match t {
        UpstreamType::Arch => "archver"@,
        UpstreamType::Curl => "ca | vsort"@,
        UpstreamType::Empty => Seq::<char>::empty(),
        UpstreamType::Git => "gr | vfs | tolower | vtrim | fsl | vsort"@,
        UpstreamType::GitHub => "ghr | tolower | vtrim | fsl"@,
    }
}

/// The default probe expression for an unstable channel of this kind.
pub open spec fn default_fetch_unstable_spec(t: UpstreamType) -> Seq<char> {
    match t {
        UpstreamType::Arch => "archver"@,
        UpstreamType::Curl => "ca | vsort"@,
        UpstreamType::Empty => Seq::<char>::empty(),
        UpstreamType::Git => "gr | tolower | vtrim | fsl | vsort"@,
        UpstreamType::GitHub => "gr | tolower | vtrim | fsl | vsort"@,
    }
}

/// The default probe expression for a commit channel of this kind; Arch,
/// Curl and Empty upstreams have no commit concept.
pub open spec fn default_fetch_commit_spec(t: UpstreamType) -> Seq<char> {
    match t {
        UpstreamType::Arch => Seq::<char>::empty(),
        UpstreamType::Curl => Seq::<char>::empty(),
        UpstreamType::Empty => Seq::<char>::empty(),
        UpstreamType::Git => "githead"@,
        UpstreamType::GitHub => "githead"@,
    }
}

impl UpstreamType {
    /// Classifies a locator string.
    pub fn from_str(s: &str) -> (t: Self)
        ensures
            t == classify_spec(s@),
    {
        if contains_str(s, "archlinux.org") {
            Self::Arch
        } else if contains_str(s, "C=M") && contains_str(s, "O=D") {
            Self::Curl
        } else if has_prefix(s, "https://github.com/") || count_char(s, '/') == 1 {
            Self::GitHub
        } else if s.unicode_len() == 0 {
            Self::Empty
        } else {
            Self::Git
        }
    }

    pub fn default_fetch_release(&self) -> (r: String)
        ensures
            r@ == default_fetch_release_spec(*self),
    {
        match self {
            Self::Arch => "archver".to_owned(),
            Self::Curl => "ca | vsort".to_owned(),
            Self::Empty => String::new(),
            Self::Git => "gr | vfs | tolower | vtrim | fsl | vsort".to_owned(),
            Self::GitHub => "ghr | tolower | vtrim | fsl".to_owned(),
        }
    }

    pub fn default_fetch_unstable(&self) -> (r: String)
        ensures
            r@ == default_fetch_unstable_spec(*self),
    {
        match self {
            Self::Arch => "archver".to_owned(),
            Self::Curl => "ca | vsort".to_owned(),
            Self::Empty => String::new(),
            Self::Git => "gr | tolower | vtrim | fsl | vsort".to_owned(),
            Self::GitHub => "gr | tolower | vtrim | fsl | vsort".to_owned(),
        }
    }

    pub fn default_fetch_commit(&self) -> (r: String)
        ensures
            r@ == default_fetch_commit_spec(*self),
    {
        match self {
            Self::Arch => String::new(),
            Self::Curl => String::new(),
            Self::Empty => String::new(),
            Self::Git => "githead".to_owned(),
            Self::GitHub => "githead".to_owned(),
        }
    }
}

} // verus!
