//! The version normalizer: reduces a raw probe result to a canonical
//! version string.

use vstd::prelude::*;

use crate::package::Package;
use crate::strutil::{
    basename, basename_spec, is_prefix_of, is_space_char, lower_of, lowercase, match_at, split_ch,
    split_char, skip_lead_char, skip_lead_space, strip_lead_ch, strip_lead_reps, trim_end_sp,
    trim_sp, trim_start_sp,
};

verus! {

/// One trailing carriage return removed from a line.
pub open spec fn strip_cr(l: Seq<char>) -> Seq<char> {
    if l.len() > 0 && l.last() == '\r' {
        l.drop_last()
    } else {
        l
    }
}

/// The lines of `s`, as `str::lines` yields them: split on line feeds,
/// with a trailing carriage return removed only from segments that a line
/// feed terminated — a final unterminated segment keeps its characters.
pub open spec fn lines_spec(s: Seq<char>) -> Seq<Seq<char>> {
    let parts = split_ch(s, '\n');
    parts.map(
        |i: int, l: Seq<char>|
            if i < parts.len() - 1 {
                strip_cr(l)
            } else {
                l
            },
    )
}

/// The non-empty lines of `s`.
pub open spec fn content_lines(s: Seq<char>) -> Seq<Seq<char>> {
    lines_spec(s).filter(|l: Seq<char>| l.len() > 0)
}

/// Whether `s` has at least one non-empty line. A successful probe always
/// does.
pub open spec fn has_content(s: Seq<char>) -> bool {
    content_lines(s).len() > 0
}

/// The last non-empty line of `s`: the only authoritative line of a probe
/// result.
pub open spec fn last_content_line(s: Seq<char>) -> Seq<char> {
    content_lines(s).last()
}

/// The stripping pipeline applied to the lowercased authoritative line:
/// leading `v` repetitions, then leading repetitions of the package base
/// name, then leading `-` and `_` separators, then surrounding whitespace.
pub open spec fn strip_pipeline_spec(lower: Seq<char>, base: Seq<char>) -> Seq<char> {
    trim_sp(
        strip_lead_ch(strip_lead_ch(strip_lead_reps(strip_lead_ch(lower, 'v'), base), '-'), '_'),
    )
}

/// The canonical version string derived from a raw probe result for a
/// package of the given name.
pub open spec fn normalize_spec(raw: Seq<char>, package_name: Seq<char>) -> Seq<char> {
    strip_pipeline_spec(lower_of(last_content_line(raw)), basename_spec(package_name))
}

/// In a line list whose entries past `j` are all empty, a non-empty entry
/// at `j` is the last non-empty one.
proof fn lemma_filter_last(l: Seq<Seq<char>>, j: int)
    requires
        0 <= j < l.len(),
        l[j].len() > 0,
        forall|k: int| j < k < l.len() ==> l[k].len() == 0,
    ensures
        l.filter(|x: Seq<char>| x.len() > 0).len() > 0,
        l.filter(|x: Seq<char>| x.len() > 0).last() == l[j],
    decreases l.len(),
{
    reveal(Seq::filter);
    if j == l.len() - 1 {
    } else {
        lemma_filter_last(l.drop_last(), j);
    }
}

/// A line list with no non-empty entry filters to nothing.
proof fn lemma_filter_all_empty(l: Seq<Seq<char>>)
    requires
        forall|k: int| 0 <= k < l.len() ==> l[k].len() == 0,
    ensures
        l.filter(|x: Seq<char>| x.len() > 0).len() == 0,
    decreases l.len(),
{
    reveal(Seq::filter);
    if l.len() > 0 {
        lemma_filter_all_empty(l.drop_last());
    }
}

/// Applies the stripping pipeline to the lowercased line.
fn strip_pipeline(low: &str, base: &str) -> (r: String)
    ensures
        r@ == strip_pipeline_spec(low@, base@),
{
    let llen = low.unicode_len();
    let blen = base.unicode_len();
    proof {
        assert(low@.subrange(0, llen as int) =~= low@);
    }
    // leading `v` repetitions
    let lo0 = skip_lead_char(low, 0, 'v');
    let ghost t1 = strip_lead_ch(low@, 'v');
    // leading repetitions of the package base name
    let mut lo = lo0;
    if blen > 0 {
        while blen <= llen - lo && match_at(low, base, lo)
            invariant
                lo0 <= lo <= llen,
                blen == base@.len(),
                0 < blen,
                llen == low@.len(),
                strip_lead_reps(t1, base@) == strip_lead_reps(
                    low@.subrange(lo as int, llen as int),
                    base@,
                ),
            decreases llen - lo,
        {
            proof {
                let sub = low@.subrange(lo as int, llen as int);
                assert(sub.subrange(0, blen as int) =~= low@.subrange(lo as int, lo + blen));
                assert(is_prefix_of(base@, sub));
                assert(sub.subrange(blen as int, sub.len() as int) =~= low@.subrange(
                    lo + blen,
                    llen as int,
                ));
            }
            lo = lo + blen;
        }
        proof {
            let sub = low@.subrange(lo as int, llen as int);
            if lo + blen <= llen {
                assert(!is_prefix_of(base@, sub)) by {
                    if is_prefix_of(base@, sub) {
                        assert(sub.subrange(0, blen as int) =~= low@.subrange(
                            lo as int,
                            lo + blen,
                        ));
                    }
                }
            }
            assert(strip_lead_reps(sub, base@) == sub);
        }
    }
    let ghost t2 = strip_lead_reps(t1, base@);
    proof {
        assert(t2 == low@.subrange(lo as int, llen as int));
    }
    // separators left behind by the name strip
    let lo1 = skip_lead_char(low, lo, '-');
    let lo2 = skip_lead_char(low, lo1, '_');
    let ghost t3 = strip_lead_ch(strip_lead_ch(t2, '-'), '_');
    // surrounding whitespace
    let lo3 = skip_lead_space(low, lo2);
    let mut hi = llen;
    proof {
        assert(trim_start_sp(t3) == low@.subrange(lo3 as int, llen as int));
    }
    while hi > lo3 && is_space_char(low.get_char(hi - 1))
        invariant
            lo3 <= hi <= llen,
            llen == low@.len(),
            trim_end_sp(trim_start_sp(t3)) == trim_end_sp(low@.subrange(lo3 as int, hi as int)),
        decreases hi,
    {
        proof {
            let sub = low@.subrange(lo3 as int, hi as int);
            assert(sub.last() == low@[hi - 1]);
            assert(sub.drop_last() =~= low@.subrange(lo3 as int, hi - 1));
        }
        hi = hi - 1;
    }
    proof {
        let sub = low@.subrange(lo3 as int, hi as int);
        if hi > lo3 {
            assert(sub.last() == low@[hi - 1]);
        }
        assert(trim_end_sp(sub) == sub);
    }
    low.substring_char(lo3, hi).to_owned()
}

/// Reduces a raw probe result to a canonical version string: the last
/// non-empty line is lowercased and stripped of a leading `v`, the
/// package's base name, separators and whitespace.
pub fn normalize(raw: &str, package_name: &str) -> (r: String)
    requires
        has_content(raw@),
    ensures
        r@ == normalize_spec(raw@, package_name@),
{
    let lines = split_char(raw, '\n');
    let ghost lseq = lines_spec(raw@);
    proof {
        assert(lseq.len() == lines@.len());
    }
    let n = lines.len();
    let mut j: usize = n;
    while j > 0
        invariant
            j <= n,
            n == lines@.len(),
            lseq == lines_spec(raw@),
            lines@.map_values(|p: String| p@) == split_ch(raw@, '\n'),
            forall|k: int| j <= k < n ==> lseq[k].len() == 0,
        decreases j,
    {
        let ll = lines[j - 1].as_str().unicode_len();
        let terminated = j < n;
        proof {
            if terminated {
                assert(lseq[j - 1] == strip_cr(lines@[j - 1]@));
            } else {
                assert(lseq[j - 1] == lines@[j - 1]@);
            }
        }
        let is_content = if ll == 0 {
            false
        } else if terminated && ll == 1 {
            lines[j - 1].as_str().get_char(0) != '\r'
        } else {
            true
        };
        proof {
            assert(is_content == (lseq[j - 1].len() > 0));
        }
        if is_content {
            proof {
                lemma_filter_last(lseq, j - 1);
            }
            let line: &str = if terminated && lines[j - 1].as_str().get_char(ll - 1) == '\r' {
                lines[j - 1].as_str().substring_char(0, ll - 1)
            } else {
                lines[j - 1].as_str()
            };
            proof {
                assert(line@ =~= lseq[j - 1]);
            }
            let low = lowercase(line);
            let base = basename(package_name);
            return strip_pipeline(low.as_str(), base);
        }
        j = j - 1;
    }
    proof {
        lemma_filter_all_empty(lseq);
        assert(false);
    }
    String::new()
}

/// A raw probe result together with its canonical form.
#[derive(Debug)]
pub struct Version {
    pub raw: String,
    pub fmt: String,
}

impl Version {
    pub fn new(raw: String) -> (v: Version)
        ensures
            v.raw == raw,
            v.fmt@ == Seq::<char>::empty(),
    {
        Version { raw, fmt: String::new() }
    }

    /// Fills `fmt` with the canonical form of `raw` for the given package.
    pub fn trim(&mut self, package: &Package)
        requires
            has_content(old(self).raw@),
        ensures
            final(self).raw == old(self).raw,
            final(self).fmt@ == normalize_spec(old(self).raw@, package.name@),
    {
        self.fmt = normalize(self.raw.as_str(), package.name.as_str());
    }
}

} // verus!
