//! Conversions between the `owner/repo` shortform of a GitHub locator and
//! its long-form URL.

use vstd::prelude::*;

use crate::strutil::{
    contains_seq, contains_str, count_ch, count_char, has_suffix, is_suffix_of, split_ch,
    split_char, strip_suffix_reps,
};

verus! {

/// A locator is a shortform exactly when it consists of two `/`-separated
/// segments, that is, it contains exactly one `/`.
pub open spec fn is_shortform_spec(s: Seq<char>) -> bool {
    count_ch(s, '/') == 1
}

/// The long form of a locator: a shortform is expanded to a full GitHub
/// URL, anything else is kept unchanged.
pub open spec fn longform_spec(s: Seq<char>) -> Seq<char> {
    if is_shortform_spec(s) {
        "https://github.com/"@ + s + ".git"@
    } else {
        s
    }
}

/// The shortform identifier derived from a locator: for a long-form GitHub
/// URL with at least five `/`-separated segments, the fourth and fifth
/// segments joined by `/` with any trailing `.git` removed; anything else
/// is kept unchanged.
pub open spec fn shortform_spec(s: Seq<char>) -> Seq<char> {
    if !contains_seq(s, "github.com"@) {
        s
    } else {
        let parts = split_ch(s, '/');
        if parts.len() > 4 {
            strip_suffix_reps(parts[3] + seq!['/'] + parts[4], ".git"@)
        } else {
            s
        }
    }
}

pub fn is_shortform(maybe_short: &str) -> (r: bool)
    ensures
        r == is_shortform_spec(maybe_short@),
{
    count_char(maybe_short, '/') == 1
}

pub fn get_longform(maybe_short: &str) -> (r: String)
    ensures
        r@ == longform_spec(maybe_short@),
{
    if is_shortform(maybe_short) {
        let mut r = "https://github.com/".to_owned();
        r.append(maybe_short);
        r.append(".git");
        proof {
            assert(r@ =~= "https://github.com/"@ + maybe_short@ + ".git"@);
        }
        r
    } else {
        maybe_short.to_owned()
    }
}

pub fn get_shortform(maybe_short: &str) -> (r: String)
    ensures
        r@ == shortform_spec(maybe_short@),
{
    if !contains_str(maybe_short, "github.com") {
        return maybe_short.to_owned();
    }
    let parts = split_char(maybe_short, '/');
    if parts.len() > 4 {
        proof {
            assert(parts@.map_values(|p: String| p@)[3] == parts@[3]@);
            assert(parts@.map_values(|p: String| p@)[4] == parts@[4]@);
        }
        let mut joined = parts[3].clone();
        joined.append("/");
        joined.append(parts[4].as_str());
        proof {
            reveal_strlit("/");
            assert("/"@ =~= seq!['/']);
            assert(joined@ =~= split_ch(maybe_short@, '/')[3] + seq!['/'] + split_ch(
                maybe_short@,
                '/',
            )[4]);
        }
        proof {
            reveal_strlit(".git");
        }
        let mut cur = joined;
        while has_suffix(cur.as_str(), ".git")
            invariant
                strip_suffix_reps(cur@, ".git"@) == shortform_spec(maybe_short@),
            decreases cur@.len(),
        {
            proof {
                reveal_strlit(".git");
            }
            let len = cur.as_str().unicode_len();
            cur = cur.as_str().substring_char(0, len - 4).to_owned();
        }
        proof {
            reveal_strlit(".git");
        }
        cur
    } else {
        maybe_short.to_owned()
    }
}

} // verus!
