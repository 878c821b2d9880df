use verpoll::codec::{all_txt, decode_versions, encode_all, encode_versions, versions_txt};
use verpoll::package::{PackageVersions, VersionChannel};

fn vc(channel: &str, version: &str) -> VersionChannel {
    VersionChannel { channel: String::from(channel), version: String::from(version) }
}

fn assert_round_trip(versions: Vec<VersionChannel>) {
    let doc = encode_versions(&versions);
    let back = decode_versions(doc.as_str()).expect("own encoding must decode");
    assert_eq!(back.len(), versions.len());
    for (a, b) in versions.iter().zip(back.iter()) {
        assert_eq!(a.channel, b.channel);
        assert_eq!(a.version, b.version);
    }
}

#[test]
fn encode_one_channel() {
    let doc = encode_versions(&vec![vc("release", "1.2.3")]);
    assert_eq!(doc, "[{\"channel\":\"release\",\"version\":\"1.2.3\"}]");
}

#[test]
fn encode_two_channels() {
    let doc = encode_versions(&vec![vc("release", "1.2.3"), vc("commit", "abc")]);
    assert_eq!(
        doc,
        "[{\"channel\":\"release\",\"version\":\"1.2.3\"},{\"channel\":\"commit\",\"version\":\"abc\"}]"
    );
}

#[test]
fn encode_empty_list() {
    let doc = encode_versions(&vec![]);
    assert_eq!(doc, "[]");
    assert_eq!(decode_versions("[]").unwrap().len(), 0);
}

#[test]
fn encode_escapes_specials() {
    let doc = encode_versions(&vec![vc("re\"lease", "a\\b\nc\u{1}")]);
    assert_eq!(
        doc,
        "[{\"channel\":\"re\\\"lease\",\"version\":\"a\\\\b\\nc\\u0001\"}]"
    );
}

#[test]
fn round_trip_plain() {
    assert_round_trip(vec![vc("release", "1.2.3"), vc("unstable", "1.3.0-rc1")]);
}

#[test]
fn round_trip_empty() {
    assert_round_trip(vec![]);
}

#[test]
fn round_trip_specials() {
    assert_round_trip(vec![
        vc("re\"lease", "a\\b"),
        vc("tab\there", "line\nbreak"),
        vc("ctl\u{2}", "cr\rend"),
    ]);
}

#[test]
fn decode_rejects_garbage() {
    assert!(decode_versions("").is_none());
    assert!(decode_versions("not json").is_none());
    assert!(decode_versions("[").is_none());
    assert!(decode_versions("[{\"channel\":\"a\",\"version\":\"b\"}").is_none());
    assert!(decode_versions("[{\"channel\":\"a\",\"version\":\"b\"}]extra").is_none());
    assert!(decode_versions("[{\"channel\":\"a\"}]").is_none());
}

#[test]
fn decode_rejects_raw_control_chars_and_large_escapes() {
    assert!(decode_versions("[{\"channel\":\"a\u{1}\",\"version\":\"b\"}]").is_none());
    assert!(decode_versions("[{\"channel\":\"a\",\"version\":\"\\u0041\"}]").is_none());
}

#[test]
fn versions_txt_is_tab_separated() {
    let txt = versions_txt(&vec![vc("release", "1.2.3"), vc("commit", "abc")]);
    assert_eq!(txt, "release\t1.2.3\ncommit\tabc\n");
}

#[test]
fn all_txt_is_package_major() {
    let all = vec![
        PackageVersions {
            package: String::from("a"),
            versions: vec![vc("release", "1"), vc("commit", "x")],
        },
        PackageVersions { package: String::from("b"), versions: vec![vc("release", "2")] },
    ];
    assert_eq!(all_txt(&all), "a\trelease\t1\na\tcommit\tx\nb\trelease\t2\n");
}

#[test]
fn encode_all_wraps_packages() {
    let all = vec![
        PackageVersions { package: String::from("a"), versions: vec![vc("release", "1")] },
        PackageVersions { package: String::from("b"), versions: vec![] },
    ];
    assert_eq!(
        encode_all(&all),
        "[{\"package\":\"a\",\"versions\":[{\"channel\":\"release\",\"version\":\"1\"}]},{\"package\":\"b\",\"versions\":[]}]"
    );
}
