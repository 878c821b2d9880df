//! The package configuration model: a package's identity, its per-channel
//! settings, and the defaulting of probe expressions from the classified
//! upstream kind.

use vstd::prelude::*;

use crate::strutil::str_eq;
use crate::upstream::{
    classify_spec, default_fetch_commit_spec, default_fetch_release_spec,
    default_fetch_unstable_spec, UpstreamType,
};

verus! {

/// Sampling probabilities are stored in parts per million.
pub const PPM_FULL: u32 = 1000000;

/// A named unit of work within a package.
#[derive(Debug, Clone)]
pub struct PackageChannel {
    pub name: String,
    pub enabled: bool,
    pub upstream: Option<String>,
    pub fetch: String,
    pub expected: Option<String>,
}

/// The validated, defaulted configuration of one package.
#[derive(Debug, Clone)]
pub struct PackageConfig {
    pub upstream: String,
    /// Probability that the package is probed on a given run, in parts per
    /// million of certainty.
    pub chance: u32,
    pub channels: Vec<PackageChannel>,
}

/// A tracked package: a unique name owning one configuration.
#[derive(Debug, Clone)]
pub struct Package {
    pub name: String,
    pub config: PackageConfig,
}

/// The immutable result of probing one channel.
#[derive(Debug, Clone)]
pub struct VersionChannel {
    pub channel: String,
    pub version: String,
}

/// One package's channel results, as assembled into the combined manifest.
#[derive(Debug, Clone)]
pub struct PackageVersions {
    pub package: String,
    pub versions: Vec<VersionChannel>,
}

/// Mathematical model of a channel.
#[verifier::ext_equal]
pub struct ChannelV {
    pub name: Seq<char>,
    pub enabled: bool,
    pub upstream: Option<Seq<char>>,
    pub fetch: Seq<char>,
    pub expected: Option<Seq<char>>,
}

/// Mathematical model of a package configuration.
#[verifier::ext_equal]
pub struct ConfigV {
    pub upstream: Seq<char>,
    pub chance: u32,
    pub channels: Seq<ChannelV>,
}

/// Mathematical model of a package.
#[verifier::ext_equal]
pub struct PackageV {
    pub name: Seq<char>,
    pub config: ConfigV,
}

/// Mathematical model of a channel result.
#[verifier::ext_equal]
pub struct VersionChannelV {
    pub channel: Seq<char>,
    pub version: Seq<char>,
}

/// Mathematical model of one package's channel results.
#[verifier::ext_equal]
pub struct PackageVersionsV {
    pub package: Seq<char>,
    pub versions: Seq<VersionChannelV>,
}

impl View for PackageChannel {
    type V = ChannelV;

    open spec fn view(&self) -> ChannelV {
        ChannelV {
            name: self.name@,
            enabled: self.enabled,
            upstream: match self.upstream {
                Option::Some(u) => Option::Some(u@),
                Option::None => Option::None,
            },
            fetch: self.fetch@,
            expected: match self.expected {
                Option::Some(e) => Option::Some(e@),
                Option::None => Option::None,
            },
        }
    }
}

impl View for PackageConfig {
    type V = ConfigV;

    open spec fn view(&self) -> ConfigV {
        ConfigV {
            upstream: self.upstream@,
            chance: self.chance,
            channels: self.channels@.map_values(|c: PackageChannel| c@),
        }
    }
}

impl View for Package {
    type V = PackageV;

    open spec fn view(&self) -> PackageV {
        PackageV { name: self.name@, config: self.config@ }
    }
}

impl View for VersionChannel {
    type V = VersionChannelV;

    open spec fn view(&self) -> VersionChannelV {
        VersionChannelV { channel: self.channel@, version: self.version@ }
    }
}

impl View for PackageVersions {
    type V = PackageVersionsV;

    open spec fn view(&self) -> PackageVersionsV {
        PackageVersionsV {
            package: self.package@,
            versions: self.versions@.map_values(|v: VersionChannel| v@),
        }
    }
}

/// The default validation pattern for a release channel.
pub open spec fn release_expected_re() -> Seq<char> {
    "^[0-9]+(\\.[0-9]+)*$"@
}

/// The default validation pattern for an unstable channel.
pub open spec fn unstable_expected_re() -> Seq<char> {
    "^[0-9]+(\\.[0-9]+)*-?(rc|alpha|beta|a|b|pre|dev)?[0-9]*$"@
}

/// The default validation pattern for a commit channel.
pub open spec fn commit_expected_re() -> Seq<char> {
    "^[0-9a-f]{40}$"@
}

/// The channel value that an absent descriptor entry denotes.
pub open spec fn default_channel_v() -> ChannelV {
    ChannelV {
        name: Seq::<char>::empty(),
        enabled: true,
        upstream: Option::None,
        fetch: Seq::<char>::empty(),
        expected: Option::None,
    }
}

/// The configuration value that an absent descriptor denotes: an empty
/// upstream, certain probing, and the three built-in channels.
pub open spec fn default_config_v() -> ConfigV {
    ConfigV {
        upstream: Seq::<char>::empty(),
        chance: PPM_FULL,
        channels: seq![
            ChannelV {
                name: "release"@,
                enabled: true,
                upstream: Option::None,
                fetch: Seq::<char>::empty(),
                expected: Option::Some(release_expected_re()),
            },
            ChannelV {
                name: "unstable"@,
                enabled: true,
                upstream: Option::None,
                fetch: Seq::<char>::empty(),
                expected: Option::Some(unstable_expected_re()),
            },
            ChannelV {
                name: "commit"@,
                enabled: true,
                upstream: Option::None,
                fetch: Seq::<char>::empty(),
                expected: Option::Some(commit_expected_re()),
            },
        ],
    }
}

impl Default for PackageChannel {
    fn default() -> (d: Self)
        ensures
            d@ == default_channel_v(),
    {
        let d = PackageChannel {
            name: String::new(),
            enabled: true,
            upstream: None,
            fetch: String::new(),
            expected: None,
        };
        proof {
            assert(d@ =~~= default_channel_v());
        }
        d
    }
}

impl Default for PackageConfig {
    fn default() -> (d: Self)
        ensures
            d@ == default_config_v(),
    {
        let channels = vec![
            PackageChannel {
                name: "release".to_owned(),
                enabled: true,
                upstream: None,
                fetch: String::new(),
                expected: Some("^[0-9]+(\\.[0-9]+)*$".to_owned()),
            },
            PackageChannel {
                name: "unstable".to_owned(),
                enabled: true,
                upstream: None,
                fetch: String::new(),
                expected: Some(
                    "^[0-9]+(\\.[0-9]+)*-?(rc|alpha|beta|a|b|pre|dev)?[0-9]*$".to_owned(),
                ),
            },
            PackageChannel {
                name: "commit".to_owned(),
                enabled: true,
                upstream: None,
                fetch: String::new(),
                expected: Some("^[0-9a-f]{40}$".to_owned()),
            },
        ];
        let d = PackageConfig { upstream: String::new(), chance: PPM_FULL, channels };
        proof {
            assert(d@ =~~= default_config_v());
        }
        d
    }
}

impl Package {
    /// The first channel with the given name, when one exists.
    pub fn get_channel(&self, name: &str) -> (r: Option<&PackageChannel>)
        ensures
            match r {
                Option::Some(c) => {
                    &&& 0 <= find_channel_idx(self@.config.channels, name@)
                    &&& c@ == self@.config.channels[find_channel_idx(self@.config.channels, name@)]
                },
                Option::None => find_channel_idx(self@.config.channels, name@) == -1,
            },
    {
        let n = self.config.channels.len();
        let mut i: usize = 0;
        while i < n
            invariant
                i <= n,
                n == self.config.channels@.len(),
                forall|j: int| 0 <= j < i ==> self@.config.channels[j].name != name@,
            decreases n - i,
        {
            if str_eq(self.config.channels[i].name.as_str(), name) {
                proof {
                    assert(self@.config.channels[i as int] == self.config.channels@[i as int]@);
                    lemma_find_channel_idx_at(self@.config.channels, name@, i as int);
                }
                return Some(&self.config.channels[i]);
            }
            proof {
                assert(self@.config.channels[i as int] == self.config.channels@[i as int]@);
            }
            i = i + 1;
        }
        proof {
            lemma_find_channel_idx_none(self@.config.channels, name@);
        }
        None
    }
}

/// Every channel a result set records is a known channel of the
/// configuration.
pub open spec fn known_channels(p: PackageV, vs: Seq<VersionChannelV>) -> bool {
    forall|i: int|
        0 <= i < vs.len() ==> #[trigger] find_channel_idx(p.config.channels, vs[i].channel) >= 0
}

/// A stored result set can serve as fallback when it exists and every
/// channel it records is still a known channel of the configuration.
pub open spec fn fallback_usable(p: PackageV, stored: Option<Seq<VersionChannelV>>) -> bool {
    match stored {
        Option::None => false,
        Option::Some(vs) => known_channels(p, vs),
    }
}

impl Package {
    /// Whether a previously persisted result set, as read back from disk,
    /// can serve as this package's fallback.
    pub fn has_fallback_versions(&self, stored: Option<&Vec<VersionChannel>>) -> (b: bool)
        ensures
            b == fallback_usable(
                self@,
                match stored {
                    Option::Some(v) => Option::Some(v@.map_values(|x: VersionChannel| x@)),
                    Option::None => Option::None,
                },
            ),
    {
        let vs = match stored {
            Some(v) => v,
            None => {
                return false;
            },
        };
        let ghost vsv = vs@.map_values(|x: VersionChannel| x@);
        let n = vs.len();
        let mut i: usize = 0;
        while i < n
            invariant
                i <= n,
                n == vs@.len(),
                stored == Option::Some(vs),
                vsv == vs@.map_values(|x: VersionChannel| x@),
                forall|j: int|
                    0 <= j < i ==> #[trigger] find_channel_idx(self@.config.channels, vsv[j].channel)
                        >= 0,
            decreases n - i,
        {
            proof {
                assert(vsv[i as int] == vs@[i as int]@);
            }
            match self.get_channel(vs[i].channel.as_str()) {
                Some(_) => (),
                None => {
                    proof {
                        assert(find_channel_idx(self@.config.channels, vsv[i as int].channel)
                            == -1);
                        assert(!known_channels(self@, vsv));
                    }
                    return false;
                },
            }
            i = i + 1;
        }
        true
    }
}

/// Index of the first channel with the given name, or `-1` when absent.
pub open spec fn find_channel_idx(chs: Seq<ChannelV>, name: Seq<char>) -> int
    decreases chs.len(),
{
    if chs.len() == 0 {
        -1
    } else if chs[0].name == name {
        0
    } else {
        let r = find_channel_idx(chs.drop_first(), name);
        if r < 0 {
            -1
        } else {
            1 + r
        }
    }
}

pub proof fn lemma_find_channel_idx_at(chs: Seq<ChannelV>, name: Seq<char>, i: int)
    requires
        0 <= i < chs.len(),
        chs[i].name == name,
        forall|j: int| 0 <= j < i ==> chs[j].name != name,
    ensures
        find_channel_idx(chs, name) == i,
    decreases chs.len(),
{
    if i == 0 {
    } else {
        assert(chs[0].name != name);
        lemma_find_channel_idx_at(chs.drop_first(), name, i - 1);
    }
}

pub proof fn lemma_find_channel_idx_none(chs: Seq<ChannelV>, name: Seq<char>)
    requires
        forall|j: int| 0 <= j < chs.len() ==> chs[j].name != name,
    ensures
        find_channel_idx(chs, name) == -1,
    decreases chs.len(),
{
    if chs.len() > 0 {
        lemma_find_channel_idx_none(chs.drop_first(), name);
    }
}

/// The three channel roles that receive built-in defaults, matched by
/// channel name.
#[derive(Clone, Copy, PartialEq, Eq, Structural, Debug)]
pub enum ChannelRole {
    Release,
    Unstable,
    Commit,
}

/// The channel name that selects a role.
pub open spec fn role_name(r: ChannelRole) -> Seq<char> {
    match r {
        ChannelRole::Release => "release"@,
        ChannelRole::Unstable => "unstable"@,
        ChannelRole::Commit => "commit"@,
    }
}

/// The default probe expression for a role, per upstream kind.
pub open spec fn role_default_fetch(r: ChannelRole, t: UpstreamType) -> Seq<char> {
    match r {
        ChannelRole::Release => default_fetch_release_spec(t),
        ChannelRole::Unstable => default_fetch_unstable_spec(t),
        ChannelRole::Commit => default_fetch_commit_spec(t),
    }
}

/// The default validation pattern for a role.
pub open spec fn role_default_expected(r: ChannelRole) -> Seq<char> {
    match r {
        ChannelRole::Release => release_expected_re(),
        ChannelRole::Unstable => unstable_expected_re(),
        ChannelRole::Commit => commit_expected_re(),
    }
}

/// The upstream a channel is probed from: its own override when present,
/// else the package's upstream.
pub open spec fn effective_upstream(ch: ChannelV, pkg_upstream: Seq<char>) -> Seq<char> {
    match ch.upstream {
        Option::Some(u) => u,
        Option::None => pkg_upstream,
    }
}

/// One enabled channel after defaulting: an empty probe expression is
/// filled from the classified effective upstream — except that a commit
/// channel of an upstream kind with no commit concept is force-disabled —
/// and an absent validation pattern is filled from the role's default.
pub open spec fn defaulted_channel(ch: ChannelV, pkg_upstream: Seq<char>, r: ChannelRole) -> ChannelV {
    let k = classify_spec(effective_upstream(ch, pkg_upstream));
    let step = if ch.fetch.len() == 0 {
        if r is Commit && (k is Arch || k is Curl || k is Empty) {
            ChannelV { enabled: false, ..ch }
        } else {
            ChannelV { fetch: role_default_fetch(r, k), ..ch }
        }
    } else {
        ch
    };
    if step.expected is None {
        ChannelV { expected: Option::Some(role_default_expected(r)), ..step }
    } else {
        step
    }
}

/// Defaulting of the first enabled channel with a role's name, when the
/// configuration has one.
pub open spec fn apply_role(c: ConfigV, r: ChannelRole) -> ConfigV {
    let i = find_channel_idx(c.channels, role_name(r));
    if 0 <= i < c.channels.len() && c.channels[i].enabled {
        ConfigV { channels: c.channels.update(i, defaulted_channel(c.channels[i], c.upstream, r)), ..c }
    } else {
        c
    }
}

/// A configuration after the one-time defaulting step, which considers the
/// release, unstable and commit roles in that order.
pub open spec fn apply_defaults_spec(c: ConfigV) -> ConfigV {
    apply_role(apply_role(apply_role(c, ChannelRole::Release), ChannelRole::Unstable), ChannelRole::Commit)
}

pub proof fn lemma_find_channel_idx_props(chs: Seq<ChannelV>, name: Seq<char>)
    ensures
        -1 <= find_channel_idx(chs, name) < chs.len(),
        find_channel_idx(chs, name) >= 0 ==> chs[find_channel_idx(chs, name)].name == name,
        find_channel_idx(chs, name) >= 0 ==> forall|j: int|
            0 <= j < find_channel_idx(chs, name) ==> chs[j].name != name,
        find_channel_idx(chs, name) == -1 ==> forall|j: int|
            0 <= j < chs.len() ==> chs[j].name != name,
    decreases chs.len(),
{
    if chs.len() == 0 {
    } else if chs[0].name == name {
    } else {
        lemma_find_channel_idx_props(chs.drop_first(), name);
        assert(forall|j: int| 1 <= j < chs.len() ==> chs[j] == chs.drop_first()[j - 1]);
    }
}

/// The three role names are pairwise distinct.
proof fn lemma_role_names_distinct()
    ensures
        "release"@ != "unstable"@,
        "release"@ != "commit"@,
        "unstable"@ != "commit"@,
{
    reveal_strlit("release");
    reveal_strlit("unstable");
    reveal_strlit("commit");
    assert("release"@.len() == 7);
    assert("unstable"@.len() == 8);
    assert("commit"@.len() == 6);
}

/// One defaulting step changes nothing but the chosen channel's fetch,
/// enabled flag and expected pattern.
proof fn lemma_apply_role_shape(c: ConfigV, r: ChannelRole)
    ensures
        apply_role(c, r).upstream == c.upstream,
        apply_role(c, r).chance == c.chance,
        apply_role(c, r).channels.len() == c.channels.len(),
        forall|j: int|
            0 <= j < c.channels.len() ==> #[trigger] apply_role(c, r).channels[j].name
                == c.channels[j].name && apply_role(c, r).channels[j].upstream
                == c.channels[j].upstream,
        forall|j: int|
            0 <= j < c.channels.len() && j != find_channel_idx(c.channels, role_name(r))
                ==> #[trigger] apply_role(c, r).channels[j] == c.channels[j],
{
    lemma_find_channel_idx_props(c.channels, role_name(r));
}

/// Defaulting a channel is idempotent while it stays enabled.
proof fn lemma_defaulted_channel_idem(ch: ChannelV, up: Seq<char>, r: ChannelRole)
    ensures
        defaulted_channel(ch, up, r).name == ch.name,
        defaulted_channel(ch, up, r).upstream == ch.upstream,
        defaulted_channel(ch, up, r).enabled ==> defaulted_channel(
            defaulted_channel(ch, up, r),
            up,
            r,
        ) == defaulted_channel(ch, up, r),
{
    let d = defaulted_channel(ch, up, r);
    if d.enabled {
        assert(defaulted_channel(d, up, r) =~~= d);
    }
}

/// Applying one role's defaulting to an already-defaulted configuration
/// changes nothing.
proof fn lemma_role_fixed_after_defaults(c: ConfigV, r: ChannelRole)
    ensures
        apply_role(apply_defaults_spec(c), r) == apply_defaults_spec(c),
{
    lemma_role_names_distinct();
    let c1 = apply_role(c, ChannelRole::Release);
    let c2 = apply_role(c1, ChannelRole::Unstable);
    let c3 = apply_role(c2, ChannelRole::Commit);
    lemma_apply_role_shape(c, ChannelRole::Release);
    lemma_apply_role_shape(c1, ChannelRole::Unstable);
    lemma_apply_role_shape(c2, ChannelRole::Commit);
    lemma_find_channel_idx_props(c.channels, role_name(r));
    let i = find_channel_idx(c.channels, role_name(r));
    // the role's index is the same in every intermediate configuration
    assert(find_channel_idx(c1.channels, role_name(r)) == i) by {
        lemma_find_channel_idx_props(c.channels, role_name(r));
        if i >= 0 {
            lemma_find_channel_idx_at(c1.channels, role_name(r), i);
        } else {
            lemma_find_channel_idx_none(c1.channels, role_name(r));
        }
    }
    assert(find_channel_idx(c2.channels, role_name(r)) == i) by {
        if i >= 0 {
            lemma_find_channel_idx_at(c2.channels, role_name(r), i);
        } else {
            lemma_find_channel_idx_none(c2.channels, role_name(r));
        }
    }
    assert(find_channel_idx(c3.channels, role_name(r)) == i) by {
        if i >= 0 {
            lemma_find_channel_idx_at(c3.channels, role_name(r), i);
        } else {
            lemma_find_channel_idx_none(c3.channels, role_name(r));
        }
    }
    if i == -1 {
        assert(apply_role(c3, r) == c3);
    } else {
        // the two other roles' steps leave index `i` untouched
        let ir = find_channel_idx(c.channels, role_name(ChannelRole::Release));
        let iu = find_channel_idx(c1.channels, role_name(ChannelRole::Unstable));
        let ic = find_channel_idx(c2.channels, role_name(ChannelRole::Commit));
        lemma_find_channel_idx_props(c.channels, role_name(ChannelRole::Release));
        lemma_find_channel_idx_props(c1.channels, role_name(ChannelRole::Unstable));
        lemma_find_channel_idx_props(c2.channels, role_name(ChannelRole::Commit));
        let own = if r is Release {
            ir
        } else if r is Unstable {
            iu
        } else {
            ic
        };
        assert(own == i);
        if !c.channels[i].enabled {
            assert(c3.channels[i] == c.channels[i]);
            assert(apply_role(c3, r) == c3);
        } else {
            let d1 = defaulted_channel(c.channels[i], c.upstream, r);
            lemma_defaulted_channel_idem(c.channels[i], c.upstream, r);
            assert(c3.channels[i] == d1);
            assert(c3.upstream == c.upstream);
            if !d1.enabled {
                assert(apply_role(c3, r) == c3);
            } else {
                assert(defaulted_channel(c3.channels[i], c3.upstream, r) == d1);
                assert(c3.channels.update(i, d1) =~~= c3.channels);
                assert(apply_role(c3, r) =~~= c3);
            }
        }
    }
}

/// Defaulting is idempotent: applying it twice to a configuration yields
/// the same configuration as applying it once.
pub proof fn lemma_apply_defaults_idempotent(c: ConfigV)
    ensures
        apply_defaults_spec(apply_defaults_spec(c)) == apply_defaults_spec(c),
{
    let d = apply_defaults_spec(c);
    lemma_role_fixed_after_defaults(c, ChannelRole::Release);
    lemma_role_fixed_after_defaults(c, ChannelRole::Unstable);
    lemma_role_fixed_after_defaults(c, ChannelRole::Commit);
    assert(apply_role(d, ChannelRole::Release) == d);
    assert(apply_role(apply_role(d, ChannelRole::Release), ChannelRole::Unstable) == d);
    assert(apply_defaults_spec(d) == d);
}

/// A commit channel whose probe expression the descriptor left empty and
/// whose effective upstream classifies as Arch, Curl or Empty is always
/// disabled after defaulting.
pub proof fn lemma_commit_force_disabled(c: ConfigV)
    requires
        ({
            let i = find_channel_idx(c.channels, "commit"@);
            &&& 0 <= i < c.channels.len()
            &&& c.channels[i].fetch.len() == 0
            &&& {
                let k = classify_spec(effective_upstream(c.channels[i], c.upstream));
                k is Arch || k is Curl || k is Empty
            }
        }),
    ensures
        ({
            let i = find_channel_idx(c.channels, "commit"@);
            !apply_defaults_spec(c).channels[i].enabled
        }),
{
    lemma_role_names_distinct();
    let i = find_channel_idx(c.channels, "commit"@);
    lemma_find_channel_idx_props(c.channels, "commit"@);
    let c1 = apply_role(c, ChannelRole::Release);
    let c2 = apply_role(c1, ChannelRole::Unstable);
    lemma_apply_role_shape(c, ChannelRole::Release);
    lemma_apply_role_shape(c1, ChannelRole::Unstable);
    lemma_apply_role_shape(c2, ChannelRole::Commit);
    lemma_find_channel_idx_props(c.channels, role_name(ChannelRole::Release));
    lemma_find_channel_idx_props(c1.channels, role_name(ChannelRole::Unstable));
    assert(c2.channels[i] == c.channels[i]);
    assert(c2.upstream == c.upstream);
    assert(find_channel_idx(c2.channels, "commit"@) == i) by {
        lemma_find_channel_idx_at(c2.channels, "commit"@, i);
    }
    if c.channels[i].enabled {
        assert(!defaulted_channel(c2.channels[i], c2.upstream, ChannelRole::Commit).enabled);
    }
}

/// The channel name that selects a role.
fn role_name_str(r: ChannelRole) -> (s: &'static str)
    ensures
        s@ == role_name(r),
{
    match r {
        ChannelRole::Release => "release",
        ChannelRole::Unstable => "unstable",
        ChannelRole::Commit => "commit",
    }
}

fn role_expected_str(r: ChannelRole) -> (s: &'static str)
    ensures
        s@ == role_default_expected(r),
{
    match r {
        ChannelRole::Release => "^[0-9]+(\\.[0-9]+)*$",
        ChannelRole::Unstable => "^[0-9]+(\\.[0-9]+)*-?(rc|alpha|beta|a|b|pre|dev)?[0-9]*$",
        ChannelRole::Commit => "^[0-9a-f]{40}$",
    }
}

/// Index of the first channel with the given name in a channel list.
fn find_channel_index(channels: &Vec<PackageChannel>, name: &str) -> (r: Option<usize>)
    ensures
        match r {
            Option::Some(i) => {
                &&& i < channels@.len()
                &&& find_channel_idx(channels@.map_values(|c: PackageChannel| c@), name@) == i
            },
            Option::None => find_channel_idx(channels@.map_values(|c: PackageChannel| c@), name@)
                == -1,
        },
{
    let ghost chs = channels@.map_values(|c: PackageChannel| c@);
    let n = channels.len();
    let mut i: usize = 0;
    while i < n
        invariant
            i <= n,
            n == channels@.len(),
            chs == channels@.map_values(|c: PackageChannel| c@),
            forall|j: int| 0 <= j < i ==> chs[j].name != name@,
        decreases n - i,
    {
        if str_eq(channels[i].name.as_str(), name) {
            proof {
                assert(chs[i as int] == channels@[i as int]@);
                lemma_find_channel_idx_at(chs, name@, i as int);
            }
            return Some(i);
        }
        proof {
            assert(chs[i as int] == channels@[i as int]@);
        }
        i = i + 1;
    }
    proof {
        lemma_find_channel_idx_none(chs, name@);
    }
    None
}

/// Applies one role's defaulting step to a configuration.
fn apply_role_exec(config: &mut PackageConfig, role: ChannelRole)
    ensures
        final(config)@ == apply_role(old(config)@, role),
{
    let rn = role_name_str(role);
    let found = find_channel_index(&config.channels, rn);
    let i = match found {
        Some(i) => i,
        None => {
            proof {
                assert(config@ =~~= apply_role(config@, role));
            }
            return ;
        },
    };
    if !config.channels[i].enabled {
        proof {
            assert(config@.channels[i as int] == config.channels@[i as int]@);
            assert(config@ =~~= apply_role(config@, role));
        }
        return ;
    }
    let ghost c0 = config@;
    let ghost i_ = i as int;
    let ghost ch0 = c0.channels[i_];
    proof {
        assert(ch0 == config.channels@[i_]@);
    }
    let fetch_empty = config.channels[i].fetch.as_str().unicode_len() == 0;
    if fetch_empty {
        let eff: &String = match &config.channels[i].upstream {
            Some(u) => u,
            None => &config.upstream,
        };
        proof {
            assert(eff@ == effective_upstream(ch0, c0.upstream));
        }
        let t = UpstreamType::from_str(eff.as_str());
        let commit_dead = matches!(role, ChannelRole::Commit) && (matches!(
            t,
            UpstreamType::Arch,
        ) || matches!(t, UpstreamType::Curl) || matches!(t, UpstreamType::Empty));
        if commit_dead {
            config.channels[i].enabled = false;
        } else {
            let f = match role {
                ChannelRole::Release => t.default_fetch_release(),
                ChannelRole::Unstable => t.default_fetch_unstable(),
                ChannelRole::Commit => t.default_fetch_commit(),
            };
            config.channels[i].fetch = f;
        }
    }
    if config.channels[i].expected.is_none() {
        let e = role_expected_str(role).to_owned();
        config.channels[i].expected = Some(e);
    }
    proof {
        let d = defaulted_channel(ch0, c0.upstream, role);
        assert(config.channels@[i_]@ =~~= d);
        assert(config@.channels =~~= c0.channels.update(i_, d));
        assert(config@ =~~= apply_role(c0, role));
    }
}

impl Package {
    /// Fills each enabled channel's empty probe expression and absent
    /// validation pattern from the built-in defaults of its classified
    /// effective upstream; runs once at configuration-load time.
    pub fn set_defaults(&mut self)
        ensures
            final(self).name == old(self).name,
            final(self)@.config == apply_defaults_spec(old(self)@.config),
    {
        apply_role_exec(&mut self.config, ChannelRole::Release);
        apply_role_exec(&mut self.config, ChannelRole::Unstable);
        apply_role_exec(&mut self.config, ChannelRole::Commit);
    }
}

} // verus!
