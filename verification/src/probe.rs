//! The probe boundary: building a channel's probe invocation, classifying
//! the raw outcome of a probe subprocess, validating the normalized
//! version, and the sampling policy that decides whether a package is
//! probed at all.

use vstd::prelude::*;
use vstd::seq_lib::*;

use crate::package::{ChannelV, Package, PackageChannel, PackageV, PPM_FULL, VersionChannel,
    VersionChannelV, effective_upstream};
use crate::shortform::{get_longform, get_shortform, longform_spec, shortform_spec};
use crate::strutil::{first_idx_ch, is_space, is_space_char, lemma_first_idx_ch, split_ch};
use crate::version::{content_lines, has_content, lines_spec, normalize, normalize_spec, strip_cr};

verus! {

/// How a probe subprocess can fail. Exactly one kind is reported, checked
/// in this order: standard-error output, a non-zero exit code, then
/// missing standard output.
#[derive(Clone, Copy, PartialEq, Eq, Structural, Debug)]
pub enum CmdError {
    OutputInStderr,
    NonzeroStatus,
    EmptyStdout,
}

/// `s` holds at least one non-whitespace character.
pub open spec fn has_nonspace(s: Seq<char>) -> bool {
    exists|i: int| 0 <= i < s.len() && !is_space(s[i])
}

pub proof fn lemma_first_idx_ch_props(s: Seq<char>, c: char)
    ensures
        0 <= first_idx_ch(s, c) <= s.len(),
        first_idx_ch(s, c) < s.len() ==> s[first_idx_ch(s, c)] == c,
        forall|j: int| 0 <= j < first_idx_ch(s, c) ==> s[j] != c,
    decreases s.len(),
{
    if s.len() > 0 && s[0] != c {
        lemma_first_idx_ch_props(s.drop_first(), c);
        assert(forall|j: int| 1 <= j < s.len() ==> s[j] == s.drop_first()[j - 1]);
    }
}

/// A string with a non-whitespace character has a non-empty line.
pub proof fn lemma_nonspace_has_content(s: Seq<char>, i: int)
    requires
        0 <= i < s.len(),
        !is_space(s[i]),
    ensures
        has_content(s),
    decreases s.len(),
{
    let pred = |l: Seq<char>| l.len() > 0;
    lemma_first_idx_ch_props(s, '\n');
    let f = first_idx_ch(s, '\n');
    if f >= s.len() {
        // a single unterminated segment, kept whole
        assert(split_ch(s, '\n') == seq![s]);
        assert(lines_spec(s) =~~= seq![s]);
        assert(lines_spec(s)[0].len() > 0);
        lines_spec(s).lemma_filter_contains(pred, 0);
        assert(content_lines(s).len() > 0);
    } else {
        let first = s.subrange(0, f);
        let rest = s.subrange(f + 1, s.len() as int);
        assert(split_ch(s, '\n') == seq![first] + split_ch(rest, '\n'));
        assert(lines_spec(s) =~~= seq![strip_cr(first)] + lines_spec(rest)) by {
            let parts = split_ch(s, '\n');
            let rparts = split_ch(rest, '\n');
            assert(parts.len() == 1 + rparts.len());
            assert(rparts.len() > 0);
            assert(parts[0] == first);
            assert(forall|k: int| 1 <= k < parts.len() ==> parts[k] == rparts[k - 1]);
            assert(forall|k: int|
                1 <= k < parts.len() ==> #[trigger] lines_spec(s)[k] == lines_spec(rest)[k - 1]);
        }
        if i < f {
            assert(first[i] == s[i]);
            assert(strip_cr(first).len() > 0) by {
                if first.len() > 0 && first.last() == '\r' {
                    assert(i < first.len() - 1);
                }
            }
            assert(lines_spec(s)[0].len() > 0);
            lines_spec(s).lemma_filter_contains(pred, 0);
            assert(content_lines(s).len() > 0);
        } else {
            assert(s[f] == '\n' && is_space('\n'));
            assert(i > f);
            assert(rest[i - f - 1] == s[i]);
            lemma_nonspace_has_content(rest, i - f - 1);
            Seq::filter_distributes_over_add(seq![strip_cr(first)], lines_spec(rest), pred);
            assert(content_lines(s).len() >= content_lines(rest).len());
        }
    }
}

/// Classifies the raw outcome of a probe subprocess. Success requires an
/// empty standard error, a zero exit code, and standard output with
/// non-whitespace content; the first failed check names the failure.
pub fn classify_output(stdout: String, stderr: &str, code: i32) -> (r: Result<String, CmdError>)
    ensures
        (r is Ok) == (stderr@.len() == 0 && code == 0 && has_nonspace(stdout@)),
        match r {
            Ok(out) => out@ == stdout@ && has_content(stdout@),
            Err(e) => match e {
                CmdError::OutputInStderr => stderr@.len() > 0,
                CmdError::NonzeroStatus => stderr@.len() == 0 && code != 0,
                CmdError::EmptyStdout => stderr@.len() == 0 && code == 0 && !has_nonspace(stdout@),
            },
        },
{
    if stderr.unicode_len() > 0 {
        return Err(CmdError::OutputInStderr);
    }
    if code != 0 {
        return Err(CmdError::NonzeroStatus);
    }
    let n = stdout.as_str().unicode_len();
    let mut i: usize = 0;
    while i < n
        invariant
            i <= n,
            n == stdout@.len(),
            stderr@.len() == 0,
            code == 0,
            forall|j: int| 0 <= j < i ==> is_space(stdout@[j]),
        decreases n - i,
    {
        if !is_space_char(stdout.as_str().get_char(i)) {
            proof {
                lemma_nonspace_has_content(stdout@, i as int);
                assert(has_nonspace(stdout@)) by {
                    assert(0 <= (i as int) < stdout@.len() && !is_space(stdout@[i as int]));
                }
            }
            return Ok(stdout);
        }
        i = i + 1;
    }
    Err(CmdError::EmptyStdout)
}

/// How fetching one channel's version can fail.
#[derive(Clone, Copy, PartialEq, Eq, Structural, Debug)]
pub enum FetchError {
    /// The probe subprocess failed.
    Command(CmdError),
    /// The configured validation pattern does not compile.
    InvalidExpected,
    /// The normalized version does not match the validation pattern.
    Mismatch,
}

#[verifier::external_type_specification]
#[verifier::external_body]
pub struct ExRegex(regex::Regex);

/// Whether `regex::Regex::new` accepts a pattern; a function of the
/// pattern alone.
pub uninterp spec fn regex_ok(pattern: Seq<char>) -> bool;

/// Whether a compiled pattern matches anywhere in a text, as
/// `regex::Regex::is_match` decides it; a function of the pattern and the
/// text alone.
pub uninterp spec fn regex_matches(pattern: Seq<char>, text: Seq<char>) -> bool;

/// A compiled validation pattern, kept with its source text.
pub struct Validator {
    pattern: String,
    re: regex::Regex,
}

impl View for Validator {
    type V = Seq<char>;

    closed spec fn view(&self) -> Seq<char> {
        self.pattern@
    }
}

/// Relies on regex::Regex::new: it compiles exactly the valid patterns,
/// and the returned matcher is the one the pattern denotes.
#[verifier::external_body]
fn compile_validator(pattern: &str) -> (r: Option<Validator>)
    ensures
        (r is Some) == regex_ok(pattern@),
        match r {
            Some(v) => v@ == pattern@,
            None => true,
        },
{
    match regex::Regex::new(pattern) {
        Ok(re) => Some(Validator { pattern: pattern.to_string(), re }),
        Err(_) => None,
    }
}

/// Relies on regex::Regex::is_match: whether the pattern matches anywhere
/// in the text.
#[verifier::external_body]
fn validator_matches(v: &Validator, text: &str) -> (b: bool)
    ensures
        b == regex_matches(v@, text@),
{
    v.re.is_match(text)
}

/// The validation outcome for a normalized version `v` under an optional
/// pattern: an invalid pattern and a non-match are both hard failures.
pub open spec fn validate_result(expected: Option<Seq<char>>, v: Seq<char>) -> Result<
    Seq<char>,
    FetchError,
> {
    match expected {
        Option::None => Result::Ok(v),
        Option::Some(p) => if !regex_ok(p) {
            Result::Err(FetchError::InvalidExpected)
        } else if !regex_matches(p, v) {
            Result::Err(FetchError::Mismatch)
        } else {
            Result::Ok(v)
        },
    }
}

/// The argument vector of a channel's probe invocation: the probe
/// expression runs under `bash` with the package name, the long-form
/// upstream and the derived shortform in its environment.
pub open spec fn probe_command_spec(ch: ChannelV, p: PackageV) -> Seq<Seq<char>> {
    let lf = longform_spec(effective_upstream(ch, p.config.upstream));
    seq![
        "env"@,
        "name="@ + p.name,
        "upstream="@ + lf,
        "shortform="@ + shortform_spec(lf),
        "bash"@,
        "-c"@,
        ". sh/lib.env && "@ + ch.fetch,
    ]
}

impl PackageChannel {
    /// Builds the probe invocation for this channel of a package.
    pub fn probe_command(&self, package: &Package) -> (cmd: Vec<String>)
        ensures
            cmd@.map_values(|s: String| s@) == probe_command_spec(self@, package@),
    {
        let upstream_ref: &String = match &self.upstream {
            Some(u) => u,
            None => &package.config.upstream,
        };
        let lf = get_longform(upstream_ref.as_str());
        let sf = get_shortform(lf.as_str());
        let mut name_env = "name=".to_owned();
        name_env.append(package.name.as_str());
        let mut upstream_env = "upstream=".to_owned();
        upstream_env.append(lf.as_str());
        let mut shortform_env = "shortform=".to_owned();
        shortform_env.append(sf.as_str());
        let mut fetch_arg = ". sh/lib.env && ".to_owned();
        fetch_arg.append(self.fetch.as_str());
        let mut cmd: Vec<String> = Vec::new();
        cmd.push("env".to_owned());
        cmd.push(name_env);
        cmd.push(upstream_env);
        cmd.push(shortform_env);
        cmd.push("bash".to_owned());
        cmd.push("-c".to_owned());
        cmd.push(fetch_arg);
        proof {
            assert(cmd@.map_values(|s: String| s@) =~~= probe_command_spec(self@, package@));
        }
        cmd
    }

    /// Normalizes a successful probe's raw output and validates it against
    /// this channel's expected pattern, when one is configured.
    pub fn process_output(&self, package: &Package, raw: &str) -> (r: Result<String, FetchError>)
        requires
            has_content(raw@),
        ensures
            ({
                let v = validate_result(self@.expected, normalize_spec(raw@, package.name@));
                match r {
                    Ok(s) => v matches Ok(vs) && s@ == vs,
                    Err(e) => v matches Err(e2) && e == e2,
                }
            }),
    {
        let ver = normalize(raw, package.name.as_str());
        match &self.expected {
            None => Ok(ver),
            Some(p) => {
                match compile_validator(p.as_str()) {
                    None => Err(FetchError::InvalidExpected),
                    Some(val) => {
                        if validator_matches(&val, ver.as_str()) {
                            Ok(ver)
                        } else {
                            Err(FetchError::Mismatch)
                        }
                    },
                }
            },
        }
    }
}

/// Whether a package is probed this run: a probe is guaranteed by the
/// guarantee flag or by a missing fallback; otherwise a draw above the
/// configured chance skips it.
pub open spec fn probe_decision(chance: u32, guarantee: bool, has_fallback: bool, draw: u32) -> bool {
    guarantee || !has_fallback || !(chance < PPM_FULL && draw > chance)
}

/// Decides probe-or-skip from the already-drawn sample.
pub fn should_probe(chance: u32, guarantee: bool, has_fallback: bool, draw: u32) -> (b: bool)
    ensures
        b == probe_decision(chance, guarantee, has_fallback, draw),
{
    guarantee || !has_fallback || !(chance < PPM_FULL && draw > chance)
}

/// The sampling policy: a guarantee — by flag, by a missing fallback, or
/// by a chance of certainty — always probes, and a chance of zero with a
/// usable fallback and no guarantee always skips, whatever is drawn.
pub proof fn lemma_sampling_policy(chance: u32, guarantee: bool, has_fallback: bool, draw: u32)
    requires
        1 <= draw <= PPM_FULL,
        chance <= PPM_FULL,
    ensures
        !has_fallback ==> probe_decision(chance, guarantee, has_fallback, draw),
        guarantee ==> probe_decision(chance, guarantee, has_fallback, draw),
        chance == PPM_FULL ==> probe_decision(chance, guarantee, has_fallback, draw),
        (chance == 0 && has_fallback && !guarantee) ==> !probe_decision(
            chance,
            guarantee,
            has_fallback,
            draw,
        ),
{
}

/// Relies on rand::random_range: a draw from the given inclusive range.
#[verifier::external_body]
fn draw_ppm() -> (r: u32)
    ensures
        1 <= r <= PPM_FULL,
{
    rand::random_range(1..=PPM_FULL)
}

/// Draws the sample and decides probe-or-skip. Whatever is drawn, a
/// guaranteed package is probed and a zero-chance package with a usable
/// fallback and no guarantee is skipped.
pub fn sample_probe(chance: u32, guarantee: bool, has_fallback: bool) -> (b: bool)
    ensures
        (guarantee || !has_fallback || chance == PPM_FULL) ==> b,
        (chance == 0 && has_fallback && !guarantee) ==> !b,
        exists|draw: u32|
            1 <= draw <= PPM_FULL && b == probe_decision(chance, guarantee, has_fallback, draw),
{
    let draw = draw_ppm();
    should_probe(chance, guarantee, has_fallback, draw)
}


/// The enabled channels of a configuration, in definition order.
pub open spec fn enabled_channels(chs: Seq<ChannelV>) -> Seq<ChannelV> {
    chs.filter(|c: ChannelV| c.enabled)
}

/// Index of the first enabled channel at or after `from`, or the channel
/// count when none remains.
pub open spec fn pending_idx(chs: Seq<ChannelV>, from: int) -> int
    decreases chs.len() - from,
{
    if !(0 <= from < chs.len()) {
        chs.len() as int
    } else if chs[from].enabled {
        from
    } else {
        pending_idx(chs, from + 1)
    }
}

/// An enabled channel remains at or after `from`.
pub open spec fn has_pending(chs: Seq<ChannelV>, from: int) -> bool {
    pending_idx(chs, from) < chs.len()
}

pub proof fn lemma_pending_idx_props(chs: Seq<ChannelV>, from: int)
    requires
        0 <= from <= chs.len(),
    ensures
        from <= pending_idx(chs, from) <= chs.len(),
        pending_idx(chs, from) < chs.len() ==> chs[pending_idx(chs, from)].enabled,
        forall|j: int| from <= j < pending_idx(chs, from) ==> !chs[j].enabled,
        pending_idx(chs, from) == chs.len() ==> forall|j: int|
            from <= j < chs.len() ==> !chs[j].enabled,
    decreases chs.len() - from,
{
    if from < chs.len() && !chs[from].enabled {
        lemma_pending_idx_props(chs, from + 1);
    }
}

/// A channel list with nothing enabled has no enabled channels.
proof fn lemma_enabled_none(chs: Seq<ChannelV>)
    requires
        forall|j: int| 0 <= j < chs.len() ==> !(#[trigger] chs[j]).enabled,
    ensures
        enabled_channels(chs) == Seq::<ChannelV>::empty(),
    decreases chs.len(),
{
    reveal(Seq::filter);
    if chs.len() > 0 {
        lemma_enabled_none(chs.drop_last());
        assert(enabled_channels(chs) =~= Seq::<ChannelV>::empty());
    } else {
        assert(enabled_channels(chs) =~= Seq::<ChannelV>::empty());
    }
}

/// Index of the first enabled channel at or after `from`.
fn pending_index(package: &Package, from: usize) -> (r: usize)
    requires
        from <= package@.config.channels.len(),
    ensures
        r == pending_idx(package@.config.channels, from as int),
        r <= package@.config.channels.len(),
{
    let ghost chs = package@.config.channels;
    let n = package.config.channels.len();
    let mut i = from;
    while i < n && !package.config.channels[i].enabled
        invariant
            from <= i <= n,
            n == chs.len(),
            chs == package@.config.channels,
            forall|j: int| from <= j < i ==> !(#[trigger] chs[j]).enabled,
        decreases n - i,
    {
        proof {
            assert(chs[i as int] == package.config.channels@[i as int]@);
        }
        i = i + 1;
    }
    proof {
        if i < n {
            assert(chs[i as int] == package.config.channels@[i as int]@);
        }
        lemma_pending_idx_det(chs, from as int, i as int);
    }
    i
}

proof fn lemma_pending_idx_det(chs: Seq<ChannelV>, from: int, i: int)
    requires
        0 <= from <= i <= chs.len(),
        forall|j: int| from <= j < i ==> !(#[trigger] chs[j]).enabled,
        i < chs.len() ==> chs[i].enabled,
    ensures
        pending_idx(chs, from) == i,
    decreases i - from,
{
    if from < i {
        lemma_pending_idx_det(chs, from + 1, i);
    }
}

/// Progress of one package's probe phase: the channel results recorded so
/// far and the position of the channel scan. Only the library's own
/// functions can advance it, so a completed cursor always holds one entry
/// per enabled channel, in channel-definition order.
pub struct ChannelCursor {
    done: Vec<VersionChannel>,
    next: usize,
}

impl ChannelCursor {
    /// The channel results recorded so far.
    pub closed spec fn done_v(&self) -> Seq<VersionChannelV> {
        self.done@.map_values(|v: VersionChannel| v@)
    }

    /// The next channel index the scan will examine.
    pub closed spec fn next_v(&self) -> int {
        self.next as int
    }
}

/// The cursor's invariant against a package: the recorded entries are
/// exactly the enabled channels already passed, by name and in order.
pub open spec fn cursor_ok(cur: &ChannelCursor, p: PackageV) -> bool {
    &&& 0 <= cur.next_v() <= p.config.channels.len()
    &&& cur.done_v().map_values(|v: VersionChannelV| v.channel) == enabled_channels(
        p.config.channels.take(cur.next_v()),
    ).map_values(|c: ChannelV| c.name)
}

impl ChannelCursor {
    /// Starts the probe phase of one package.
    pub fn new(package: &Package) -> (c: ChannelCursor)
        ensures
            cursor_ok(&c, package@),
            c.done_v() == Seq::<VersionChannelV>::empty(),
            c.next_v() == 0,
    {
        let c = ChannelCursor { done: Vec::new(), next: 0 };
        proof {
            reveal(Seq::filter);
            assert(c.done_v() =~= Seq::<VersionChannelV>::empty());
            assert(package@.config.channels.take(0) =~= Seq::<ChannelV>::empty());
            assert(cursor_ok(&c, package@)) by {
                assert(c.done_v().map_values(|v: VersionChannelV| v.channel)
                    =~= Seq::<Seq<char>>::empty());
                assert(enabled_channels(Seq::<ChannelV>::empty()).map_values(
                    |ch: ChannelV| ch.name,
                ) =~= Seq::<Seq<char>>::empty());
            }
        }
        c
    }

    /// The next enabled channel to probe, when one remains.
    pub fn next_channel<'a>(&self, package: &'a Package) -> (r: Option<&'a PackageChannel>)
        requires
            self.next_v() <= package@.config.channels.len(),
        ensures
            match r {
                Some(ch) => has_pending(package@.config.channels, self.next_v()) && ch@
                    == package@.config.channels[pending_idx(
                    package@.config.channels,
                    self.next_v(),
                )],
                None => !has_pending(package@.config.channels, self.next_v()),
            },
    {
        let i = pending_index(package, self.next);
        if i < package.config.channels.len() {
            proof {
                assert(package.config.channels@[i as int]@ == package@.config.channels[i as int]);
            }
            Some(&package.config.channels[i])
        } else {
            None
        }
    }

    /// Classifies one probe subprocess's outcome for the pending channel,
    /// normalizes and validates its output, and records the result; any
    /// failure leaves the cursor unchanged, so the whole package falls
    /// back.
    pub fn record(
        &mut self,
        package: &Package,
        stdout: String,
        stderr: &str,
        code: i32,
    ) -> (r: Result<(), FetchError>)
        requires
            cursor_ok(old(self), package@),
            has_pending(package@.config.channels, old(self).next_v()),
        ensures
            ({
                let chs = package@.config.channels;
                let i = pending_idx(chs, old(self).next_v());
                let ch = chs[i];
                let ok_output = stderr@.len() == 0 && code == 0 && has_nonspace(stdout@);
                match r {
                    Ok(u) => {
                        &&& ok_output
                        &&& cursor_ok(final(self), package@)
                        &&& final(self).next_v() == i + 1
                        &&& (validate_result(ch.expected, normalize_spec(stdout@, package@.name))
                            matches Ok(v) && final(self).done_v() == old(self).done_v().push(
                            (VersionChannelV { channel: ch.name, version: v }),
                        ))
                    },
                    Err(e) => {
                        &&& final(self).done_v() == old(self).done_v()
                        &&& final(self).next_v() == old(self).next_v()
                        &&& match e {
                            FetchError::Command(ce) => !ok_output && (match ce {
                                CmdError::OutputInStderr => stderr@.len() > 0,
                                CmdError::NonzeroStatus => stderr@.len() == 0 && code != 0,
                                CmdError::EmptyStdout => stderr@.len() == 0 && code == 0
                                    && !has_nonspace(stdout@),
                            }),
                            _ => ok_output && (validate_result(
                                ch.expected,
                                normalize_spec(stdout@, package@.name),
                            ) matches Err(e2) && e2 == e),
                        }
                    },
                }
            }),
    {
        let ghost chs = package@.config.channels;
        let ghost from = old(self).next_v();
        let i = pending_index(package, self.next);
        let n = package.config.channels.len();
        proof {
            lemma_pending_idx_props(chs, from);
            assert(chs.len() == n);
            assert(i < n);
        }
        let raw = match classify_output(stdout, stderr, code) {
            Err(e) => {
                return Err(FetchError::Command(e));
            },
            Ok(raw) => raw,
        };
        let ch = &package.config.channels[i];
        proof {
            assert(ch@ == chs[i as int]);
        }
        let version = match ch.process_output(package, raw.as_str()) {
            Err(e) => {
                return Err(e);
            },
            Ok(v) => v,
        };
        let entry = VersionChannel { channel: ch.name.clone(), version };
        let ghost done0 = self.done_v();
        self.done.push(entry);
        self.next = i + 1;
        proof {
            reveal(Seq::filter);
            let a = chs.take(from);
            let mid = chs.subrange(from, i as int);
            let one = seq![chs[i as int]];
            assert(chs.take(i + 1) =~= a + mid + one);
            Seq::filter_distributes_over_add(a, mid, |c: ChannelV| c.enabled);
            Seq::filter_distributes_over_add(a + mid, one, |c: ChannelV| c.enabled);
            assert(forall|j: int| 0 <= j < mid.len() ==> !(#[trigger] mid[j]).enabled);
            lemma_enabled_none(mid);
            assert(enabled_channels(one) =~= one) by {
                assert(one.drop_last() =~= Seq::<ChannelV>::empty());
                assert(enabled_channels(Seq::<ChannelV>::empty()) =~= Seq::<ChannelV>::empty());
            }
            assert(enabled_channels(chs.take(i + 1)) =~= enabled_channels(a) + one);
            assert(self.done_v() =~~= done0.push(entry@));
            assert(self.done_v().map_values(|v: VersionChannelV| v.channel) =~~= done0.map_values(
                |v: VersionChannelV| v.channel,
            ).push(chs[i as int].name));
            assert((enabled_channels(a) + one).map_values(|c: ChannelV| c.name)
                =~~= enabled_channels(a).map_values(|c: ChannelV| c.name).push(
                chs[i as int].name,
            ));
            assert(cursor_ok(self, package@));
        }
        Ok(())
    }

    /// Hands out the completed result list: one entry per enabled channel
    /// of the package, in channel-definition order.
    pub fn finish(self, package: &Package) -> (r: Vec<VersionChannel>)
        requires
            cursor_ok(&self, package@),
            !has_pending(package@.config.channels, self.next_v()),
        ensures
            r@.map_values(|v: VersionChannel| v@) == self.done_v(),
            r@.map_values(|v: VersionChannel| v@).map_values(|v: VersionChannelV| v.channel)
                == enabled_channels(package@.config.channels).map_values(|c: ChannelV| c.name),
    {
        proof {
            reveal(Seq::filter);
            let chs = package@.config.channels;
            let nx = self.next_v();
            lemma_pending_idx_props(chs, nx);
            let a = chs.take(nx);
            let suffix = chs.subrange(nx, chs.len() as int);
            assert(chs =~= a + suffix);
            Seq::filter_distributes_over_add(a, suffix, |c: ChannelV| c.enabled);
            assert(forall|j: int| 0 <= j < suffix.len() ==> !(#[trigger] suffix[j]).enabled);
            lemma_enabled_none(suffix);
            assert(enabled_channels(chs) =~= enabled_channels(a));
        }
        self.done
    }
}

} // verus!
