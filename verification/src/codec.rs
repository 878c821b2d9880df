//! The persisted forms of channel results: a JSON document per package —
//! the authoritative "last known" source read back as fallback — and the
//! tab-separated summaries, all built and parsed by verified code.

use vstd::prelude::*;

use crate::package::{PackageVersions, PackageVersionsV, VersionChannel, VersionChannelV};
use crate::strutil::push_char;

verus! {

/// The sixteen lowercase hexadecimal digits.
pub open spec fn hex_chars() -> Seq<char> {
    seq!['0', '1', '2', '3', '4', '5', '6', '7', '8', '9', 'a', 'b', 'c', 'd', 'e', 'f']
}

/// The digit character for a value below sixteen.
pub open spec fn hex_digit(n: int) -> char {
    hex_chars()[n]
}

/// The value of a lowercase hexadecimal digit character, or `-1`.
pub open spec fn hex_val(c: char) -> int {
    if '0' <= c && c <= '9' {
        (c as u32) - ('0' as u32)
    } else if 'a' <= c && c <= 'f' {
        (c as u32) - ('a' as u32) + 10
    } else {
        -1
    }
}

/// The JSON escape of one character: quote, backslash and the common
/// control characters get short escapes, other control characters a
/// `\u00` escape, and everything else stands for itself.
pub open spec fn esc_char(c: char) -> Seq<char> {
    if c == '"' {
        seq!['\\', '"']
    } else if c == '\\' {
        seq!['\\', '\\']
    } else if c == '\n' {
        seq!['\\', 'n']
    } else if c == '\t' {
        seq!['\\', 't']
    } else if c == '\r' {
        seq!['\\', 'r']
    } else if (c as u32) < 0x20 {
        seq!['\\', 'u', '0', '0', hex_digit(((c as u32) / 16) as int), hex_digit(((c as u32) % 16) as int)]
    } else {
        seq![c]
    }
}

/// The JSON escape of a string's characters.
pub open spec fn json_escape(s: Seq<char>) -> Seq<char>
    decreases s.len(),
{
    if s.len() == 0 {
        Seq::empty()
    } else {
        json_escape(s.drop_last()) + esc_char(s.last())
    }
}

/// One channel result as a JSON object.
pub open spec fn encode_vc(v: VersionChannelV) -> Seq<char> {
    "{\"channel\":\""@ + json_escape(v.channel) + "\",\"version\":\""@ + json_escape(v.version)
        + "\"}"@
}

/// A comma-separated list of channel results.
pub open spec fn encode_items(vs: Seq<VersionChannelV>) -> Seq<char>
    decreases vs.len(),
{
    if vs.len() == 0 {
        Seq::empty()
    } else if vs.len() == 1 {
        encode_vc(vs[0])
    } else {
        encode_items(vs.drop_last()) + seq![','] + encode_vc(vs.last())
    }
}

/// A package's channel results as a JSON array.
pub open spec fn encode_versions_spec(vs: Seq<VersionChannelV>) -> Seq<char> {
    seq!['['] + encode_items(vs) + seq![']']
}

fn hex_digit_exec(n: u32) -> (c: char)
    requires
        n < 16,
    ensures
        c == hex_digit(n as int),
{
    if n == 0 {
        '0'
    } else if n == 1 {
        '1'
    } else if n == 2 {
        '2'
    } else if n == 3 {
        '3'
    } else if n == 4 {
        '4'
    } else if n == 5 {
        '5'
    } else if n == 6 {
        '6'
    } else if n == 7 {
        '7'
    } else if n == 8 {
        '8'
    } else if n == 9 {
        '9'
    } else if n == 10 {
        'a'
    } else if n == 11 {
        'b'
    } else if n == 12 {
        'c'
    } else if n == 13 {
        'd'
    } else if n == 14 {
        'e'
    } else {
        'f'
    }
}

/// Appends the JSON escape of `s` to `out`.
fn escape_into(out: &mut String, s: &str)
    ensures
        final(out)@ == old(out)@ + json_escape(s@),
{
    let n = s.unicode_len();
    let mut i: usize = 0;
    proof {
        assert(s@.subrange(0, 0) =~= Seq::<char>::empty());
        assert(old(out)@ + json_escape(s@.subrange(0, 0)) =~= old(out)@);
    }
    while i < n
        invariant
            i <= n,
            n == s@.len(),
            out@ == old(out)@ + json_escape(s@.subrange(0, i as int)),
        decreases n - i,
    {
        let c = s.get_char(i);
        let u = c as u32;
        proof {
            assert(s@.subrange(0, i + 1).drop_last() =~= s@.subrange(0, i as int));
            assert(s@.subrange(0, i + 1).last() == s@[i as int]);
        }
        if c == '"' {
            push_char(out, '\\');
            push_char(out, '"');
        } else if c == '\\' {
            push_char(out, '\\');
            push_char(out, '\\');
        } else if c == '\n' {
            push_char(out, '\\');
            push_char(out, 'n');
        } else if c == '\t' {
            push_char(out, '\\');
            push_char(out, 't');
        } else if c == '\r' {
            push_char(out, '\\');
            push_char(out, 'r');
        } else if u < 0x20 {
            push_char(out, '\\');
            push_char(out, 'u');
            push_char(out, '0');
            push_char(out, '0');
            push_char(out, hex_digit_exec(u / 16));
            push_char(out, hex_digit_exec(u % 16));
        } else {
            push_char(out, c);
        }
        proof {
            assert(out@ =~= old(out)@ + json_escape(s@.subrange(0, i + 1)));
        }
        i = i + 1;
    }
    proof {
        assert(s@.subrange(0, n as int) =~= s@);
    }
}

/// Appends one channel result's JSON object to `out`.
fn encode_vc_into(out: &mut String, v: &VersionChannel)
    ensures
        final(out)@ == old(out)@ + encode_vc(v@),
{
    out.append("{\"channel\":\"");
    escape_into(out, v.channel.as_str());
    out.append("\",\"version\":\"");
    escape_into(out, v.version.as_str());
    out.append("\"}");
    proof {
        assert(out@ =~= old(out)@ + encode_vc(v@));
    }
}

/// Encodes a package's channel results as the JSON document persisted for
/// fallback.
pub fn encode_versions(versions: &Vec<VersionChannel>) -> (r: String)
    ensures
        r@ == encode_versions_spec(versions@.map_values(|v: VersionChannel| v@)),
{
    let ghost vsv = versions@.map_values(|v: VersionChannel| v@);
    let mut out = String::new();
    push_char(&mut out, '[');
    proof {
        assert(vsv.subrange(0, 0) =~= Seq::<VersionChannelV>::empty());
        assert(out@ =~= seq!['['] + encode_items(vsv.subrange(0, 0)));
    }
    let n = versions.len();
    let mut i: usize = 0;
    while i < n
        invariant
            i <= n,
            n == versions@.len(),
            vsv == versions@.map_values(|v: VersionChannel| v@),
            out@ == seq!['['] + encode_items(vsv.subrange(0, i as int)),
        decreases n - i,
    {
        if i > 0 {
            push_char(&mut out, ',');
        }
        encode_vc_into(&mut out, &versions[i]);
        proof {
            assert(vsv.subrange(0, i + 1).drop_last() =~= vsv.subrange(0, i as int));
            assert(vsv.subrange(0, i + 1).last() == vsv[i as int]);
            assert(vsv[i as int] == versions@[i as int]@);
            if i == 0 {
                assert(vsv.subrange(0, 1).len() == 1);
                assert(vsv.subrange(0, 1)[0] == vsv[0]);
                assert(encode_items(vsv.subrange(0, 1)) == encode_vc(vsv[0]));
                assert(out@ =~= seq!['['] + encode_items(vsv.subrange(0, 1)));
            } else {
                assert(out@ =~= seq!['['] + encode_items(vsv.subrange(0, i + 1)));
            }
        }
        i = i + 1;
    }
    push_char(&mut out, ']');
    proof {
        assert(vsv.subrange(0, n as int) =~= vsv);
        assert(out@ =~= encode_versions_spec(vsv));
    }
    out
}

/// The character denoted by a short escape.
pub open spec fn unescape1(e: char) -> char {
    if e == '"' {
        '"'
    } else if e == '\\' {
        '\\'
    } else if e == 'n' {
        '\n'
    } else if e == 't' {
        '\t'
    } else {
        '\r'
    }
}

/// Parses a JSON string body starting at `i` (after the opening quote),
/// through its closing quote: literal characters, the short escapes, and
/// `\u00` escapes of control characters.
pub open spec fn parse_string_body(s: Seq<char>, i: int) -> Option<(Seq<char>, int)>
    decreases s.len() - i,
{
    if i < 0 || i >= s.len() {
        Option::None
    } else if s[i] == '"' {
        Option::Some((Seq::<char>::empty(), i + 1))
    } else if s[i] == '\\' {
        if i + 1 >= s.len() {
            Option::None
        } else {
            let e = s[i + 1];
            if e == '"' || e == '\\' || e == 'n' || e == 't' || e == 'r' {
                match parse_string_body(s, i + 2) {
                    Option::None => Option::None,
                    Option::Some((t, j)) => Option::Some((seq![unescape1(e)] + t, j)),
                }
            } else if e == 'u' {
                if i + 6 > s.len() {
                    Option::None
                } else {
                    let v = hex_val(s[i + 2]) * 4096 + hex_val(s[i + 3]) * 256 + hex_val(
                        s[i + 4],
                    ) * 16 + hex_val(s[i + 5]);
                    if hex_val(s[i + 2]) < 0 || hex_val(s[i + 3]) < 0 || hex_val(s[i + 4]) < 0
                        || hex_val(s[i + 5]) < 0 || v >= 0x20 {
                        Option::None
                    } else {
                        match parse_string_body(s, i + 6) {
                            Option::None => Option::None,
                            Option::Some((t, j)) => Option::Some(
                                (seq![((v as u8) as char)] + t, j),
                            ),
                        }
                    }
                }
            } else {
                Option::None
            }
        }
    } else if (s[i] as u32) < 0x20 {
        Option::None
    } else {
        match parse_string_body(s, i + 1) {
            Option::None => Option::None,
            Option::Some((t, j)) => Option::Some((seq![s[i]] + t, j)),
        }
    }
}

/// Parses one channel-result object starting at `i`.
pub open spec fn parse_vc(s: Seq<char>, i: int) -> Option<(VersionChannelV, int)> {
    let l1 = "{\"channel\":\""@;
    let l2 = ",\"version\":\""@;
    if !crate::strutil::matches_at(s, l1, i) {
        Option::None
    } else {
        match parse_string_body(s, i + l1.len()) {
            Option::None => Option::None,
            Option::Some((ch, j)) => if !crate::strutil::matches_at(s, l2, j) {
                Option::None
            } else {
                match parse_string_body(s, j + l2.len()) {
                    Option::None => Option::None,
                    Option::Some((ver, k)) => if k < s.len() && s[k] == '}' {
                        Option::Some((VersionChannelV { channel: ch, version: ver }, k + 1))
                    } else {
                        Option::None
                    },
                }
            },
        }
    }
}

/// Parses the comma-separated items of a non-empty array starting at `i`,
/// through the closing bracket.
pub open spec fn parse_items(s: Seq<char>, i: int) -> Option<(Seq<VersionChannelV>, int)>
    decreases s.len() - i,
{
    match parse_vc(s, i) {
        Option::None => Option::None,
        Option::Some((v, j)) => if j <= i || j > s.len() {
            Option::None
        } else if j < s.len() && s[j] == ',' {
            match parse_items(s, j + 1) {
                Option::None => Option::None,
                Option::Some((vs, k)) => Option::Some((seq![v] + vs, k)),
            }
        } else if j < s.len() && s[j] == ']' {
            Option::Some((seq![v], j + 1))
        } else {
            Option::None
        },
    }
}

/// Parses a whole persisted document: a JSON array of channel results,
/// with nothing after it.
pub open spec fn decode_versions_spec(s: Seq<char>) -> Option<Seq<VersionChannelV>> {
    if s.len() < 2 || s[0] != '[' {
        Option::None
    } else if s.len() == 2 && s[1] == ']' {
        Option::Some(Seq::<VersionChannelV>::empty())
    } else {
        match parse_items(s, 1) {
            Option::None => Option::None,
            Option::Some((vs, j)) => if j == s.len() {
                Option::Some(vs)
            } else {
                Option::None
            },
        }
    }
}

fn hex_val_exec(c: char) -> (r: Option<u32>)
    ensures
        match r {
            Some(v) => hex_val(c) == v && v < 16,
            None => hex_val(c) == -1,
        },
{
    let u = c as u32;
    if ('0' as u32) <= u && u <= ('9' as u32) {
        proof {
            vstd::utf8::char_u32_cast(c, u);
        }
        Some(u - ('0' as u32))
    } else if ('a' as u32) <= u && u <= ('f' as u32) {
        proof {
            vstd::utf8::char_u32_cast(c, u);
        }
        Some(u - ('a' as u32) + 10)
    } else {
        proof {
            vstd::utf8::char_u32_cast(c, u);
        }
        None
    }
}

/// Parses a JSON string body, as `parse_string_body` describes it.
fn parse_string_exec(s: &str, from: usize) -> (r: Option<(String, usize)>)
    ensures
        match r {
            Some(t) => parse_string_body(s@, from as int) matches Some(p) && p.0 == t.0@ && p.1
                == t.1 as int && t.1 <= s@.len(),
            None => parse_string_body(s@, from as int) is None,
        },
{
    let slen = s.unicode_len();
    let mut acc = String::new();
    let mut pos = from;
    loop
        invariant
            slen == s@.len(),
            pos <= usize::MAX,
            match parse_string_body(s@, pos as int) {
                Option::Some((t, j)) => parse_string_body(s@, from as int) matches Option::Some(p)
                    && p.0 == acc@ + t && p.1 == j,
                Option::None => parse_string_body(s@, from as int) is None,
            },
        decreases s@.len() - pos,
    {
        if pos >= slen {
            return None;
        }
        let c = s.get_char(pos);
        if c == '"' {
            proof {
                assert(parse_string_body(s@, pos as int) == Option::Some(
                    (Seq::<char>::empty(), pos + 1),
                ));
                assert(acc@ + Seq::<char>::empty() =~= acc@);
            }
            return Some((acc, pos + 1));
        } else if c == '\\' {
            if pos + 1 >= slen {
                return None;
            }
            let e = s.get_char(pos + 1);
            if e == '"' || e == '\\' || e == 'n' || e == 't' || e == 'r' {
                let d = if e == '"' {
                    '"'
                } else if e == '\\' {
                    '\\'
                } else if e == 'n' {
                    '\n'
                } else if e == 't' {
                    '\t'
                } else {
                    '\r'
                };
                proof {
                    assert(d == unescape1(e));
                    assert(forall|t: Seq<char>|
                        (acc@ + seq![d]) + t =~= acc@ + (#[trigger] (seq![d] + t)));
                }
                push_char(&mut acc, d);
                pos = pos + 2;
            } else if e == 'u' {
                if slen - pos < 6 {
                    return None;
                }
                let h0 = hex_val_exec(s.get_char(pos + 2));
                let h1 = hex_val_exec(s.get_char(pos + 3));
                let h2 = hex_val_exec(s.get_char(pos + 4));
                let h3 = hex_val_exec(s.get_char(pos + 5));
                let (v0, v1, v2, v3) = match (h0, h1, h2, h3) {
                    (Some(v0), Some(v1), Some(v2), Some(v3)) => (v0, v1, v2, v3),
                    _ => {
                        return None;
                    },
                };
                let v = v0 * 4096 + v1 * 256 + v2 * 16 + v3;
                if v >= 0x20 {
                    return None;
                }
                let d = (v as u8) as char;
                proof {
                    assert(forall|t: Seq<char>|
                        (acc@ + seq![d]) + t =~= acc@ + (#[trigger] (seq![d] + t)));
                }
                push_char(&mut acc, d);
                pos = pos + 6;
            } else {
                return None;
            }
        } else if (c as u32) < 0x20 {
            return None;
        } else {
            proof {
                assert(forall|t: Seq<char>|
                    (acc@ + seq![c]) + t =~= acc@ + (#[trigger] (seq![c] + t)));
            }
            push_char(&mut acc, c);
            pos = pos + 1;
        }
    }
}

/// A parsed string body ends after the position it started at.
pub proof fn lemma_parse_string_advances(s: Seq<char>, i: int)
    ensures
        parse_string_body(s, i) matches Some(p) ==> p.1 > i,
    decreases s.len() - i,
{
    if 0 <= i < s.len() {
        if s[i] == '"' {
        } else if s[i] == '\\' {
            if i + 1 < s.len() {
                let e = s[i + 1];
                if e == '"' || e == '\\' || e == 'n' || e == 't' || e == 'r' {
                    lemma_parse_string_advances(s, i + 2);
                } else if e == 'u' && i + 6 <= s.len() {
                    lemma_parse_string_advances(s, i + 6);
                }
            }
        } else {
            lemma_parse_string_advances(s, i + 1);
        }
    }
}

/// Parses one channel-result object, as `parse_vc` describes it.
fn parse_vc_exec(s: &str, from: usize) -> (r: Option<(VersionChannel, usize)>)
    ensures
        match r {
            Some(t) => parse_vc(s@, from as int) matches Some(p) && p.0 == t.0@ && p.1
                == t.1 as int && from < t.1 <= s@.len(),
            None => parse_vc(s@, from as int) is None,
        },
{
    let l1 = "{\"channel\":\"";
    let l2 = ",\"version\":\"";
    let slen = s.unicode_len();
    let l1len = l1.unicode_len();
    if from > slen || l1len > slen - from {
        proof {
            assert(!crate::strutil::matches_at(s@, l1@, from as int));
        }
        return None;
    }
    if !crate::strutil::match_at(s, l1, from) {
        return None;
    }
    let (ch, j) = match parse_string_exec(s, from + l1len) {
        None => {
            return None;
        },
        Some(t) => t,
    };
    let l2len = l2.unicode_len();
    if l2len > slen - j {
        proof {
            assert(!crate::strutil::matches_at(s@, l2@, j as int));
        }
        return None;
    }
    if !crate::strutil::match_at(s, l2, j) {
        return None;
    }
    let (ver, k) = match parse_string_exec(s, j + l2len) {
        None => {
            return None;
        },
        Some(t) => t,
    };
    if k < slen && s.get_char(k) == '}' {
        let vc = VersionChannel { channel: ch, version: ver };
        proof {
            lemma_parse_string_advances(s@, from + l1@.len());
            lemma_parse_string_advances(s@, j + l2@.len());
            assert(parse_vc(s@, from as int) matches Some(p) && p.0 =~= vc@);
        }
        Some((vc, k + 1))
    } else {
        None
    }
}

/// Parses the items of a non-empty array, as `parse_items` describes it.
fn parse_items_exec(s: &str, from: usize) -> (r: Option<(Vec<VersionChannel>, usize)>)
    ensures
        match r {
            Some(t) => parse_items(s@, from as int) matches Some(p) && p.0 == t.0@.map_values(
                |v: VersionChannel| v@,
            ) && p.1 == t.1 as int && t.1 <= s@.len(),
            None => parse_items(s@, from as int) is None,
        },
{
    let slen = s.unicode_len();
    let mut acc: Vec<VersionChannel> = Vec::new();
    let mut pos = from;
    proof {
        assert(acc@.map_values(|v: VersionChannel| v@) =~= Seq::<VersionChannelV>::empty());
    }
    loop
        invariant
            slen == s@.len(),
            match parse_items(s@, pos as int) {
                Option::Some((vs, k)) => parse_items(s@, from as int) matches Option::Some(p)
                    && p.0 == acc@.map_values(|v: VersionChannel| v@) + vs && p.1 == k,
                Option::None => parse_items(s@, from as int) is None,
            },
        decreases s@.len() - pos,
    {
        let (v, j) = match parse_vc_exec(s, pos) {
            None => {
                return None;
            },
            Some(t) => t,
        };
        let ghost accv = acc@.map_values(|x: VersionChannel| x@);
        if j < slen && s.get_char(j) == ',' {
            proof {
                assert(acc@.push(v).map_values(|x: VersionChannel| x@) =~= accv.push(v@));
                assert(forall|vs: Seq<VersionChannelV>|
                    (accv.push(v@)) + vs =~= accv + (#[trigger] (seq![v@] + vs)));
            }
            acc.push(v);
            pos = j + 1;
        } else if j < slen && s.get_char(j) == ']' {
            proof {
                assert(parse_items(s@, pos as int) == Option::Some((seq![v@], j + 1)));
                assert(acc@.push(v).map_values(|x: VersionChannel| x@) =~= accv.push(v@));
                assert(accv + seq![v@] =~= accv.push(v@));
            }
            acc.push(v);
            return Some((acc, j + 1));
        } else {
            return None;
        }
    }
}

/// Decodes a persisted document back into its channel results, as
/// `decode_versions_spec` describes it; the fallback path reads files
/// through this.
pub fn decode_versions(s: &str) -> (r: Option<Vec<VersionChannel>>)
    ensures
        match r {
            Some(v) => decode_versions_spec(s@) == Some(
                v@.map_values(|x: VersionChannel| x@),
            ),
            None => decode_versions_spec(s@) is None,
        },
{
    let slen = s.unicode_len();
    if slen < 2 || s.get_char(0) != '[' {
        return None;
    }
    if slen == 2 && s.get_char(1) == ']' {
        let empty: Vec<VersionChannel> = Vec::new();
        proof {
            assert(empty@.map_values(|x: VersionChannel| x@) =~= Seq::<VersionChannelV>::empty());
        }
        return Some(empty);
    }
    match parse_items_exec(s, 1) {
        None => None,
        Some((vs, j)) => {
            if j == slen {
                Some(vs)
            } else {
                None
            }
        },
    }
}

proof fn lemma_hex_roundtrip(n: int)
    requires
        0 <= n < 16,
    ensures
        hex_val(hex_digit(n)) == n,
{
}

/// `json_escape` decomposed at the head of the string.
proof fn lemma_json_escape_head(t: Seq<char>)
    requires
        t.len() > 0,
    ensures
        json_escape(t) == esc_char(t[0]) + json_escape(t.drop_first()),
    decreases t.len(),
{
    if t.len() == 1 {
        assert(t.drop_last() =~= Seq::<char>::empty());
        assert(t.drop_first() =~= Seq::<char>::empty());
        assert(json_escape(t) =~= esc_char(t[0]) + json_escape(t.drop_first()));
    } else {
        lemma_json_escape_head(t.drop_last());
        assert(t.drop_last()[0] == t[0]);
        assert(t.drop_last().drop_first() =~= t.drop_first().drop_last());
        assert(t.drop_first().last() == t.last());
        assert(json_escape(t.drop_first()) == json_escape(t.drop_first().drop_last()) + esc_char(
            t.drop_first().last(),
        ));
        assert(json_escape(t) =~= esc_char(t[0]) + json_escape(t.drop_first()));
    }
}

/// `encode_items` decomposed at the head of the list.
proof fn lemma_encode_items_head(vs: Seq<VersionChannelV>)
    requires
        vs.len() > 0,
    ensures
        vs.len() == 1 ==> encode_items(vs) == encode_vc(vs[0]),
        vs.len() > 1 ==> encode_items(vs) == encode_vc(vs[0]) + seq![','] + encode_items(
            vs.drop_first(),
        ),
    decreases vs.len(),
{
    if vs.len() == 1 {
    } else if vs.len() == 2 {
        assert(vs.drop_last().len() == 1);
        assert(vs.drop_last()[0] == vs[0]);
        assert(vs.drop_first().len() == 1);
        assert(vs.drop_first()[0] == vs.last());
        assert(encode_items(vs.drop_last()) == encode_vc(vs[0]));
        assert(encode_items(vs.drop_first()) == encode_vc(vs.last()));
        assert(encode_items(vs) =~= encode_vc(vs[0]) + seq![','] + encode_items(vs.drop_first()));
    } else {
        lemma_encode_items_head(vs.drop_last());
        assert(vs.drop_last()[0] == vs[0]);
        assert(vs.drop_last().drop_first() =~= vs.drop_first().drop_last());
        assert(vs.drop_first().last() == vs.last());
        assert(vs.drop_first().len() > 1);
        assert(encode_items(vs.drop_first()) == encode_items(vs.drop_first().drop_last())
            + seq![','] + encode_vc(vs.drop_first().last()));
        assert(encode_items(vs) =~= encode_vc(vs[0]) + seq![','] + encode_items(vs.drop_first()));
    }
}

/// An escaped string followed by a closing quote parses back to exactly
/// that string.
proof fn lemma_parse_escaped(t: Seq<char>, s: Seq<char>, i: int)
    requires
        0 <= i,
        i + json_escape(t).len() + 1 <= s.len(),
        s.subrange(i, i + json_escape(t).len() + 1) == json_escape(t) + seq!['"'],
    ensures
        parse_string_body(s, i) == Option::Some((t, i + json_escape(t).len() + 1)),
    decreases t.len(),
{
    let sub = s.subrange(i, i + json_escape(t).len() + 1);
    if t.len() == 0 {
        assert(json_escape(t).len() == 0);
        assert(s[i] == sub[0]);
        assert(sub[0] == '"');
        assert(parse_string_body(s, i) == Option::Some((Seq::<char>::empty(), i + 1)));
        assert(t =~= Seq::<char>::empty());
    } else {
        lemma_json_escape_head(t);
        let c = t[0];
        let e0 = esc_char(c);
        let rest = json_escape(t.drop_first());
        let i2 = i + e0.len();
        assert(json_escape(t) == e0 + rest);
        assert(sub =~= (e0 + rest) + seq!['"']);
        assert(forall|k: int| 0 <= k < e0.len() ==> #[trigger] sub[k] == e0[k]);
        assert(s[i] == sub[0]);
        if e0.len() > 1 {
            assert(s[i + 1] == sub[1]);
        }
        if e0.len() > 2 {
            assert(s[i + 2] == sub[2] && s[i + 3] == sub[3] && s[i + 4] == sub[4] && s[i + 5]
                == sub[5]);
        }
        assert(s.subrange(i2, i2 + rest.len() + 1) =~= rest + seq!['"']) by {
            assert(forall|k: int|
                0 <= k < rest.len() + 1 ==> #[trigger] s.subrange(i2, i2 + rest.len() + 1)[k]
                    == sub[e0.len() + k]);
            assert(forall|k: int|
                0 <= k < rest.len() + 1 ==> #[trigger] sub[e0.len() + k] == (rest
                    + seq!['"'])[k]);
        }
        lemma_parse_escaped(t.drop_first(), s, i2);
        assert(t =~= seq![c] + t.drop_first());
        if c == '"' || c == '\\' {
            assert(s[i] == '\\');
            assert(s[i + 1] == c);
            assert(unescape1(c) == c);
        } else if c == '\n' {
            assert(s[i] == '\\' && s[i + 1] == 'n');
        } else if c == '\t' {
            assert(s[i] == '\\' && s[i + 1] == 't');
        } else if c == '\r' {
            assert(s[i] == '\\' && s[i + 1] == 'r');
        } else if (c as u32) < 0x20 {
            let u = c as u32;
            assert(s[i] == '\\' && s[i + 1] == 'u' && s[i + 2] == '0' && s[i + 3] == '0');
            assert(s[i + 4] == hex_digit((u / 16) as int));
            assert(s[i + 5] == hex_digit((u % 16) as int));
            lemma_hex_roundtrip((u / 16) as int);
            lemma_hex_roundtrip((u % 16) as int);
            assert(hex_val(s[i + 2]) == 0 && hex_val(s[i + 3]) == 0);
            let v = hex_val(s[i + 2]) * 4096 + hex_val(s[i + 3]) * 256 + hex_val(s[i + 4]) * 16
                + hex_val(s[i + 5]);
            assert(v == (u / 16) * 16 + (u % 16));
            assert(v == u);
            assert(((v as u8) as char) == c) by {
                vstd::utf8::char_u32_cast(c, u);
            }
        } else {
            assert(s[i] == c);
            assert(s[i] != '"' && s[i] != '\\' && (s[i] as u32) >= 0x20);
        }
    }
}

/// An encoded channel object parses back to exactly that channel result.
proof fn lemma_parse_vc_roundtrip(v: VersionChannelV, s: Seq<char>, i: int)
    requires
        0 <= i,
        i + encode_vc(v).len() <= s.len(),
        s.subrange(i, i + encode_vc(v).len()) == encode_vc(v),
    ensures
        parse_vc(s, i) == Option::Some((v, i + encode_vc(v).len())),
{
    let l1 = "{\"channel\":\""@;
    let mid = "\",\"version\":\""@;
    let l2 = ",\"version\":\""@;
    let tail = "\"}"@;
    reveal_strlit("{\"channel\":\"");
    reveal_strlit("\",\"version\":\"");
    reveal_strlit(",\"version\":\"");
    reveal_strlit("\"}");
    assert(l1.len() == 12 && mid.len() == 13 && l2.len() == 12 && tail.len() == 2);
    assert(mid =~= seq!['"'] + l2);
    assert(tail =~= seq!['"', '}']);
    let ech = json_escape(v.channel);
    let ever = json_escape(v.version);
    let enc = encode_vc(v);
    assert(enc =~= l1 + (ech + seq!['"']) + l2 + (ever + seq!['"']) + seq!['}']);
    let sub = s.subrange(i, i + enc.len());
    assert(forall|k: int| 0 <= k < enc.len() ==> s[i + k] == enc[k]) by {
        assert(forall|k: int| 0 <= k < enc.len() ==> s[i + k] == sub[k] && sub[k] == enc[k]);
    }
    assert(forall|k: int|
        0 <= k < enc.len() ==> #[trigger] enc[k] == (l1 + (ech + seq!['"']) + l2 + (ever
            + seq!['"']) + seq!['}'])[k]);
    assert(crate::strutil::matches_at(s, l1, i)) by {
        assert(forall|k: int|
            0 <= k < l1.len() ==> #[trigger] s.subrange(i, i + l1.len() as int)[k] == s[i + k]);
        assert(s.subrange(i, i + l1.len() as int) =~= l1);
    }
    let p1 = i + l1.len();
    assert(s.subrange(p1, p1 + ech.len() + 1) =~= ech + seq!['"']) by {
        assert(forall|k: int|
            0 <= k < ech.len() + 1 ==> #[trigger] s.subrange(p1, p1 + ech.len() + 1)[k] == s[p1
                + k] && enc[l1.len() + k] == (ech + seq!['"'])[k]);
    }
    lemma_parse_escaped(v.channel, s, p1);
    let j = p1 + ech.len() + 1;
    assert(crate::strutil::matches_at(s, l2, j)) by {
        assert(forall|k: int|
            0 <= k < l2.len() ==> #[trigger] s.subrange(j, j + l2.len() as int)[k] == s[j + k]
                && enc[l1.len() + ech.len() + 1 + k] == l2[k]);
        assert(s.subrange(j, j + l2.len() as int) =~= l2);
    }
    let p2 = j + l2.len();
    assert(s.subrange(p2, p2 + ever.len() + 1) =~= ever + seq!['"']) by {
        assert(forall|k: int|
            0 <= k < ever.len() + 1 ==> #[trigger] s.subrange(p2, p2 + ever.len() + 1)[k] == s[p2
                + k] && enc[l1.len() + ech.len() + 1 + l2.len() + k] == (ever + seq!['"'])[k]);
    }
    lemma_parse_escaped(v.version, s, p2);
    let k = p2 + ever.len() + 1;
    assert(s[k] == enc[(enc.len() - 1) as int]);
    assert(k < s.len() && s[k] == '}');
    assert(parse_vc(s, i) matches Option::Some(p) && p.0 =~~= v && p.1 == i + enc.len());
}

/// An encoded non-empty item list followed by the closing bracket parses
/// back to exactly those items.
proof fn lemma_parse_items_roundtrip(vs: Seq<VersionChannelV>, s: Seq<char>, i: int)
    requires
        vs.len() > 0,
        0 <= i,
        i + encode_items(vs).len() + 1 <= s.len(),
        s.subrange(i, i + encode_items(vs).len() + 1) == encode_items(vs) + seq![']'],
    ensures
        parse_items(s, i) == Option::Some((vs, i + encode_items(vs).len() + 1)),
    decreases vs.len(),
{
    lemma_encode_items_head(vs);
    reveal_strlit("{\"channel\":\"");
    let e0 = encode_vc(vs[0]);
    let whole = encode_items(vs);
    let sub = s.subrange(i, i + whole.len() + 1);
    assert(forall|k: int|
        0 <= k < whole.len() + 1 ==> s[i + k] == (whole + seq![']'])[k]) by {
        assert(forall|k: int| 0 <= k < whole.len() + 1 ==> s[i + k] == sub[k]);
    }
    assert(e0.len() >= 12);
    if vs.len() == 1 {
        assert(whole == e0);
        assert(s.subrange(i, i + e0.len()) =~= e0) by {
            assert(forall|k: int|
                0 <= k < e0.len() ==> #[trigger] s.subrange(i, i + e0.len())[k] == s[i + k]);
        }
        lemma_parse_vc_roundtrip(vs[0], s, i);
        let j = i + e0.len();
        assert(s[i + e0.len()] == (whole + seq![']'])[e0.len() as int]);
        assert(s[j] == ']');
        assert(vs =~= seq![vs[0]]);
    } else {
        assert(whole =~= e0 + seq![','] + encode_items(vs.drop_first()));
        assert(s.subrange(i, i + e0.len()) =~= e0) by {
            assert(forall|k: int|
                0 <= k < e0.len() ==> #[trigger] s.subrange(i, i + e0.len())[k] == s[i + k]
                    && (whole + seq![']'])[k] == e0[k]);
        }
        lemma_parse_vc_roundtrip(vs[0], s, i);
        let j = i + e0.len();
        assert(s[i + e0.len()] == (whole + seq![']'])[e0.len() as int]);
        assert(s[j] == ',');
        let i2 = j + 1;
        let rest = encode_items(vs.drop_first());
        assert(s.subrange(i2, i2 + rest.len() + 1) =~= rest + seq![']']) by {
            assert(forall|k: int|
                0 <= k < rest.len() + 1 ==> s.subrange(i2, i2 + rest.len() + 1)[k] == s[i2 + k]
                    && (rest + seq![']'])[k] == (whole + seq![']'])[e0.len() + 1 + k]);
        }
        lemma_parse_items_roundtrip(vs.drop_first(), s, i2);
        assert(vs =~= seq![vs[0]] + vs.drop_first());
    }
}

/// Round trip: a persisted result document, read back through the
/// fallback path, reproduces exactly the channel set and version strings
/// that were written.
pub proof fn lemma_codec_round_trip(vs: Seq<VersionChannelV>)
    ensures
        decode_versions_spec(encode_versions_spec(vs)) == Option::Some(vs),
{
    let s = encode_versions_spec(vs);
    if vs.len() == 0 {
        assert(encode_items(vs).len() == 0);
        assert(s.len() == 2 && s[0] == '[' && s[1] == ']');
        assert(vs =~= Seq::<VersionChannelV>::empty());
    } else {
        lemma_encode_items_head(vs);
        reveal_strlit("{\"channel\":\"");
        assert(encode_items(vs).len() >= 12);
        assert(s.len() >= 14);
        assert(s[0] == '[');
        assert(s.subrange(1, (encode_items(vs).len() + 2) as int) =~= encode_items(vs)
            + seq![']']);
        lemma_parse_items_roundtrip(vs, s, 1);
        assert(parse_items(s, 1) == Option::Some((vs, s.len() as int)));
    }
}

/// One package's entry in the combined manifest.
pub open spec fn encode_pv(p: PackageVersionsV) -> Seq<char> {
    "{\"package\":\""@ + json_escape(p.package) + "\",\"versions\":"@ + encode_versions_spec(
        p.versions,
    ) + seq!['}']
}

/// The comma-separated entries of the combined manifest.
pub open spec fn encode_all_items(ps: Seq<PackageVersionsV>) -> Seq<char>
    decreases ps.len(),
{
    if ps.len() == 0 {
        Seq::empty()
    } else if ps.len() == 1 {
        encode_pv(ps[0])
    } else {
        encode_all_items(ps.drop_last()) + seq![','] + encode_pv(ps.last())
    }
}

/// The combined manifest over all packages, in the packages' order.
pub open spec fn encode_all_spec(ps: Seq<PackageVersionsV>) -> Seq<char> {
    seq!['['] + encode_all_items(ps) + seq![']']
}

/// Encodes the combined manifest of all packages' channel results.
pub fn encode_all(all: &Vec<PackageVersions>) -> (r: String)
    ensures
        r@ == encode_all_spec(all@.map_values(|p: PackageVersions| p@)),
{
    let ghost psv = all@.map_values(|p: PackageVersions| p@);
    let mut out = String::new();
    push_char(&mut out, '[');
    proof {
        assert(psv.subrange(0, 0) =~= Seq::<PackageVersionsV>::empty());
        assert(out@ =~= seq!['['] + encode_all_items(psv.subrange(0, 0)));
    }
    let n = all.len();
    let mut i: usize = 0;
    while i < n
        invariant
            i <= n,
            n == all@.len(),
            psv == all@.map_values(|p: PackageVersions| p@),
            out@ == seq!['['] + encode_all_items(psv.subrange(0, i as int)),
        decreases n - i,
    {
        if i > 0 {
            push_char(&mut out, ',');
        }
        out.append("{\"package\":\"");
        escape_into(&mut out, all[i].package.as_str());
        out.append("\",\"versions\":");
        let versions_doc = encode_versions(&all[i].versions);
        out.append(versions_doc.as_str());
        push_char(&mut out, '}');
        proof {
            assert(psv.subrange(0, i + 1).drop_last() =~= psv.subrange(0, i as int));
            assert(psv.subrange(0, i + 1).last() == psv[i as int]);
            assert(psv[i as int] == all@[i as int]@);
            if i == 0 {
                assert(psv.subrange(0, 1).len() == 1);
                assert(psv.subrange(0, 1)[0] == psv[0]);
                assert(encode_all_items(psv.subrange(0, 1)) == encode_pv(psv[0]));
                assert(out@ =~= seq!['['] + encode_all_items(psv.subrange(0, 1)));
            } else {
                assert(out@ =~= seq!['['] + encode_all_items(psv.subrange(0, i + 1)));
            }
        }
        i = i + 1;
    }
    push_char(&mut out, ']');
    proof {
        assert(psv.subrange(0, n as int) =~= psv);
        assert(out@ =~= encode_all_spec(psv));
    }
    out
}

/// One line per channel: channel name and version, tab-separated.
pub open spec fn versions_txt_spec(vs: Seq<VersionChannelV>) -> Seq<char>
    decreases vs.len(),
{
    if vs.len() == 0 {
        Seq::empty()
    } else {
        versions_txt_spec(vs.drop_last()) + vs.last().channel + seq!['\t'] + vs.last().version
            + seq!['\n']
    }
}

/// Builds the tab-separated per-package summary.
pub fn versions_txt(versions: &Vec<VersionChannel>) -> (r: String)
    ensures
        r@ == versions_txt_spec(versions@.map_values(|v: VersionChannel| v@)),
{
    let ghost vsv = versions@.map_values(|v: VersionChannel| v@);
    let mut out = String::new();
    proof {
        assert(vsv.subrange(0, 0) =~= Seq::<VersionChannelV>::empty());
        assert(out@ =~= versions_txt_spec(vsv.subrange(0, 0)));
    }
    let n = versions.len();
    let mut i: usize = 0;
    while i < n
        invariant
            i <= n,
            n == versions@.len(),
            vsv == versions@.map_values(|v: VersionChannel| v@),
            out@ == versions_txt_spec(vsv.subrange(0, i as int)),
        decreases n - i,
    {
        out.append(versions[i].channel.as_str());
        push_char(&mut out, '\t');
        out.append(versions[i].version.as_str());
        push_char(&mut out, '\n');
        proof {
            assert(vsv.subrange(0, i + 1).drop_last() =~= vsv.subrange(0, i as int));
            assert(vsv.subrange(0, i + 1).last() == vsv[i as int]);
            assert(vsv[i as int] == versions@[i as int]@);
            assert(out@ =~= versions_txt_spec(vsv.subrange(0, i + 1)));
        }
        i = i + 1;
    }
    proof {
        assert(vsv.subrange(0, n as int) =~= vsv);
    }
    out
}

/// One line per package and channel: package, channel and version,
/// tab-separated, package-major in the packages' order.
pub open spec fn package_lines_spec(pkg: Seq<char>, vs: Seq<VersionChannelV>) -> Seq<char>
    decreases vs.len(),
{
    if vs.len() == 0 {
        Seq::empty()
    } else {
        package_lines_spec(pkg, vs.drop_last()) + pkg + seq!['\t'] + vs.last().channel
            + seq!['\t'] + vs.last().version + seq!['\n']
    }
}

pub open spec fn all_txt_spec(ps: Seq<PackageVersionsV>) -> Seq<char>
    decreases ps.len(),
{
    if ps.len() == 0 {
        Seq::empty()
    } else {
        all_txt_spec(ps.drop_last()) + package_lines_spec(ps.last().package, ps.last().versions)
    }
}

/// Builds the combined tab-separated file over all packages.
pub fn all_txt(all: &Vec<PackageVersions>) -> (r: String)
    ensures
        r@ == all_txt_spec(all@.map_values(|p: PackageVersions| p@)),
{
    let ghost psv = all@.map_values(|p: PackageVersions| p@);
    let mut out = String::new();
    proof {
        assert(psv.subrange(0, 0) =~= Seq::<PackageVersionsV>::empty());
        assert(out@ =~= all_txt_spec(psv.subrange(0, 0)));
    }
    let n = all.len();
    let mut i: usize = 0;
    while i < n
        invariant
            i <= n,
            n == all@.len(),
            psv == all@.map_values(|p: PackageVersions| p@),
            out@ == all_txt_spec(psv.subrange(0, i as int)),
        decreases n - i,
    {
        let ghost out0 = out@;
        let ghost pv = psv[i as int];
        let m = all[i].versions.len();
        let ghost wsv = all@[i as int].versions@.map_values(|v: VersionChannel| v@);
        proof {
            assert(pv == all@[i as int]@);
            assert(pv.versions == wsv);
            assert(wsv.subrange(0, 0) =~= Seq::<VersionChannelV>::empty());
            assert(out@ =~= out0 + package_lines_spec(pv.package, wsv.subrange(0, 0)));
        }
        let mut j: usize = 0;
        while j < m
            invariant
                j <= m,
                i < n,
                n == all@.len(),
                m == all@[i as int].versions@.len(),
                pv == all@[i as int]@,
                wsv == all@[i as int].versions@.map_values(|v: VersionChannel| v@),
                pv.versions == wsv,
                out@ == out0 + package_lines_spec(pv.package, wsv.subrange(0, j as int)),
            decreases m - j,
        {
            out.append(all[i].package.as_str());
            push_char(&mut out, '\t');
            out.append(all[i].versions[j].channel.as_str());
            push_char(&mut out, '\t');
            out.append(all[i].versions[j].version.as_str());
            push_char(&mut out, '\n');
            proof {
                assert(wsv.subrange(0, j + 1).drop_last() =~= wsv.subrange(0, j as int));
                assert(wsv.subrange(0, j + 1).last() == wsv[j as int]);
                assert(wsv[j as int] == all@[i as int].versions@[j as int]@);
                assert(all@[i as int].package@ == pv.package);
                assert(out@ =~= out0 + package_lines_spec(pv.package, wsv.subrange(0, j + 1)));
            }
            j = j + 1;
        }
        proof {
            assert(wsv.subrange(0, m as int) =~= wsv);
            assert(psv.subrange(0, i + 1).drop_last() =~= psv.subrange(0, i as int));
            assert(psv.subrange(0, i + 1).last() == psv[i as int]);
            assert(out@ =~= all_txt_spec(psv.subrange(0, i + 1)));
        }
        i = i + 1;
    }
    proof {
        assert(psv.subrange(0, n as int) =~= psv);
    }
    out
}

} // verus!
