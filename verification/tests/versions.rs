use cargo_trim::artifact::{parse_entry_name, EntryName};
use cargo_trim::semver::{compare_versions, Precedence, Version};

fn order(a: &str, b: &str) -> Precedence {
    compare_versions(a, b).expect("both are versions")
}

#[test]
fn parses_plain_versions() {
    assert!(Version::parse("1.0.0").is_some());
    assert!(Version::parse("0.0.0").is_some());
    assert!(Version::parse("10.20.30").is_some());
    assert!(Version::parse("1.0.0-rc.1").is_some());
    assert!(Version::parse("1.0.0-alpha-1.2.3").is_some());
    assert!(Version::parse("1.0.0+build.5").is_some());
    assert!(Version::parse("1.0.0-beta+exp.sha.5114f85").is_some());
    assert!(Version::parse("123456789012345678901234567890.0.0").is_some());
}

#[test]
fn rejects_what_is_no_version() {
    for text in [
        "", "1", "1.0", "1.0.0.0", "01.0.0", "1.00.0", "1.0.01", "a.b.c", "1.0.0-", "1.0.0-01",
        "1.0.0-a..b", "1.0.0+", "1.0.0+a..b", "1.0.0-a_b", " 1.0.0", "1.0.0 ", "v1.0.0", "1..0",
        "1.0.0-rc.1+", "-1.0.0",
    ] {
        assert!(Version::parse(text).is_none(), "{text:?} was read as a version");
    }
}

#[test]
fn numeric_parts_are_ordered_as_numbers() {
    assert_eq!(order("1.0.0", "2.0.0"), Precedence::Lower);
    assert_eq!(order("2.0.0", "2.1.0"), Precedence::Lower);
    assert_eq!(order("2.1.0", "2.1.1"), Precedence::Lower);
    assert_eq!(order("1.9.0", "1.10.0"), Precedence::Lower);
    assert_eq!(order("1.10.0", "1.9.0"), Precedence::Higher);
    assert_eq!(order("9.0.0", "10.0.0"), Precedence::Lower);
    assert_eq!(order("1.2.3", "1.2.3"), Precedence::Same);
    assert_eq!(
        order("99999999999999999999999.0.0", "100000000000000000000000.0.0"),
        Precedence::Lower
    );
}

#[test]
fn release_is_above_its_pre_releases() {
    assert_eq!(order("1.0.0", "1.0.0-rc.1"), Precedence::Higher);
    assert_eq!(order("1.0.0-rc.1", "1.0.0"), Precedence::Lower);
    assert_eq!(order("1.0.0-rc.1", "0.9.9"), Precedence::Higher);
}

#[test]
fn pre_release_chain_of_the_standard() {
    let chain = [
        "1.0.0-alpha",
        "1.0.0-alpha.1",
        "1.0.0-alpha.beta",
        "1.0.0-beta",
        "1.0.0-beta.2",
        "1.0.0-beta.11",
        "1.0.0-rc.1",
        "1.0.0",
    ];
    for i in 0..chain.len() {
        for j in 0..chain.len() {
            let expected = if i < j {
                Precedence::Lower
            } else if i == j {
                Precedence::Same
            } else {
                Precedence::Higher
            };
            assert_eq!(order(chain[i], chain[j]), expected, "{} : {}", chain[i], chain[j]);
        }
    }
}

#[test]
fn build_metadata_takes_no_part() {
    assert_eq!(order("1.0.0+a", "1.0.0+b"), Precedence::Same);
    assert_eq!(order("1.0.0+a", "1.0.0"), Precedence::Same);
    assert_eq!(order("1.0.0-rc.1+x", "1.0.0-rc.1+y"), Precedence::Same);
}

#[test]
fn numeric_identifier_is_below_any_other() {
    assert_eq!(order("1.0.0-1", "1.0.0-a"), Precedence::Lower);
    assert_eq!(order("1.0.0-999", "1.0.0-0a"), Precedence::Lower);
    assert_eq!(order("1.0.0-A", "1.0.0-a"), Precedence::Lower);
}

#[test]
fn comparison_with_no_version_gives_nothing() {
    assert_eq!(compare_versions("1.0.0", "abc"), None);
    assert_eq!(compare_versions("abc", "1.0.0"), None);
}

#[test]
fn order_laws_on_samples() {
    let samples = [
        "0.1.0", "1.0.0-alpha", "1.0.0-alpha.1", "1.0.0-1", "1.0.0-2", "1.0.0-10", "1.0.0",
        "1.0.0+x", "1.0.1", "1.1.0", "2.0.0-rc-1", "2.0.0",
    ];
    for a in samples {
        assert_eq!(order(a, a), Precedence::Same);
        for b in samples {
            let ab = order(a, b);
            let ba = order(b, a);
            let flipped = match ab {
                Precedence::Lower => Precedence::Higher,
                Precedence::Same => Precedence::Same,
                Precedence::Higher => Precedence::Lower,
            };
            assert_eq!(ba, flipped);
            for c in samples {
                if ab == Precedence::Lower && order(b, c) != Precedence::Higher {
                    assert_eq!(order(a, c), Precedence::Lower);
                }
            }
        }
    }
}

fn parsed(raw: &str) -> Option<(String, String)> {
    match parse_entry_name(raw) {
        EntryName::Parsed { name, version } => Some((name, version)),
        EntryName::Unrecognized { raw: kept } => {
            assert_eq!(kept, raw);
            None
        }
    }
}

fn pair(name: &str, version: &str) -> Option<(String, String)> {
    Some((name.to_string(), version.to_string()))
}

#[test]
fn splits_name_and_version() {
    assert_eq!(parsed("foo-1.0.0"), pair("foo", "1.0.0"));
    assert_eq!(parsed("serde_json-1.0.108"), pair("serde_json", "1.0.108"));
}

#[test]
fn hyphenated_names_are_not_split_early() {
    assert_eq!(parsed("foo-bar-1.2.3"), pair("foo-bar", "1.2.3"));
    assert_eq!(parsed("a-b-c-d-0.0.1"), pair("a-b-c-d", "0.0.1"));
    assert_eq!(parsed("foo-2-1.0.0"), pair("foo-2", "1.0.0"));
}

#[test]
fn pre_release_stays_with_the_version() {
    assert_eq!(parsed("foo-1.0.0-rc.1"), pair("foo", "1.0.0-rc.1"));
    assert_eq!(parsed("foo-bar-1.0.0-alpha+b.1"), pair("foo-bar", "1.0.0-alpha+b.1"));
}

#[test]
fn last_hyphen_before_a_version_splits() {
    assert_eq!(parsed("foo-1.0.0-2.0.0"), pair("foo-1.0.0", "2.0.0"));
}

#[test]
fn unrecognized_entries() {
    assert_eq!(parsed("foo"), None);
    assert_eq!(parsed(""), None);
    assert_eq!(parsed("foo-bar"), None);
    assert_eq!(parsed("foo-1.0"), None);
    assert_eq!(parsed("-1.0.0"), None);
    assert_eq!(parsed("1.0.0"), None);
    assert_eq!(parsed("foo-01.0.0"), None);
}
