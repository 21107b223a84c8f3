use workspace_versioning::prerelease::Precedence;
use workspace_versioning::semantic_version::{max_version, BumpKind, SemVer};

fn version_of(text: &str) -> SemVer {
    SemVer::parse(text).expect("a version")
}

fn from_semver(order: std::cmp::Ordering) -> Precedence {
    match order {
        std::cmp::Ordering::Less => Precedence::Lower,
        std::cmp::Ordering::Equal => Precedence::Same,
        std::cmp::Ordering::Greater => Precedence::Higher,
    }
}

fn sample_versions() -> Vec<&'static str> {
    vec![
        "0.0.0",
        "0.0.1",
        "0.1.0",
        "1.0.0-0",
        "1.0.0-1",
        "1.0.0-9",
        "1.0.0-10",
        "1.0.0-alpha",
        "1.0.0-alpha.0",
        "1.0.0-alpha.1",
        "1.0.0-alpha.1.0",
        "1.0.0-alpha.beta",
        "1.0.0-beta",
        "1.0.0-beta.2",
        "1.0.0-beta.11",
        "1.0.0-rc.1",
        "1.0.0-rc-1",
        "1.0.0--",
        "1.0.0-A",
        "1.0.0-a",
        "1.0.0-a1",
        "1.0.0-1a",
        "1.0.0",
        "1.0.1-alpha",
        "1.0.1",
        "1.5.0",
        "1.19.0",
        "2.0.0-rc.1",
        "2.0.0",
        "10.0.0",
        "18446744073709551615.0.0",
    ]
}

#[test]
fn new_gives_a_release() {
    let v = SemVer::new(1, 2, 3);
    assert_eq!(v.major(), 1);
    assert_eq!(v.minor(), 2);
    assert_eq!(v.patch(), 3);
    assert_eq!(v.prerelease(), "");
}

#[test]
fn with_prerelease_keeps_a_valid_tag() {
    let v = SemVer::with_prerelease(1, 2, 3, "alpha.1").expect("a version");
    assert_eq!(v.major(), 1);
    assert_eq!(v.minor(), 2);
    assert_eq!(v.patch(), 3);
    assert_eq!(v.prerelease(), "alpha.1");
}

#[test]
fn with_prerelease_refuses_what_is_no_tag() {
    assert!(SemVer::with_prerelease(1, 2, 3, "alpha..1").is_none());
    assert!(SemVer::with_prerelease(1, 2, 3, "01").is_none());
    assert!(SemVer::with_prerelease(1, 2, 3, "a_b").is_none());
    assert!(SemVer::with_prerelease(1, 2, 3, "").is_some());
}

#[test]
fn parse_reads_numbers_and_tag() {
    let v = version_of("10.20.30-rc.1");
    assert_eq!(v.major(), 10);
    assert_eq!(v.minor(), 20);
    assert_eq!(v.patch(), 30);
    assert_eq!(v.prerelease(), "rc.1");
    assert_eq!(v, SemVer::with_prerelease(10, 20, 30, "rc.1").unwrap());
}

#[test]
fn parse_drops_build_metadata() {
    let v = version_of("1.2.3-beta+build.5");
    assert_eq!(v, SemVer::with_prerelease(1, 2, 3, "beta").unwrap());
    assert_eq!(version_of("1.2.3+5"), SemVer::new(1, 2, 3));
}

#[test]
fn parse_refuses_what_is_no_version() {
    for text in ["", "1", "1.0", "1.0.01", "1.0.unknown", "1.0.0-", "1.0.0-alpha_123", "v1.0.0",
        "23456789999999999999.0.0", " 1.0.0", "1.0.0 "]
    {
        assert!(SemVer::parse(text).is_none(), "{:?}", text);
    }
}

#[test]
fn equality_goes_by_numbers_and_tag() {
    assert_eq!(SemVer::new(1, 0, 0), SemVer::new(1, 0, 0));
    assert_ne!(SemVer::new(1, 0, 0), SemVer::new(1, 0, 1));
    assert_ne!(SemVer::new(1, 0, 0), SemVer::with_prerelease(1, 0, 0, "0").unwrap());
    let v = version_of("3.1.4-pi");
    assert_eq!(v.duplicate(), v);
}

#[test]
fn numbers_are_compared_as_numbers() {
    assert_eq!(version_of("1.5.0").compare(&version_of("1.19.0")), Precedence::Lower);
    assert_eq!(version_of("2.0.0").compare(&version_of("1.99.99")), Precedence::Higher);
    assert_eq!(version_of("1.2.3").compare(&version_of("1.2.3")), Precedence::Same);
    assert_eq!(version_of("1.2.4").compare(&version_of("1.2.3")), Precedence::Higher);
}

#[test]
fn a_prerelease_is_below_its_release() {
    assert_eq!(version_of("1.0.0-alpha.1").compare(&version_of("1.0.0")), Precedence::Lower);
    assert_eq!(version_of("1.0.0").compare(&version_of("1.0.0-rc.1")), Precedence::Higher);
    assert_eq!(version_of("1.0.1-alpha").compare(&version_of("1.0.0")), Precedence::Higher);
}

#[test]
fn prerelease_tags_follow_the_standard_chain() {
    let chain = [
        "1.0.0-alpha",
        "1.0.0-alpha.1",
        "1.0.0-alpha.beta",
        "1.0.0-beta",
        "1.0.0-beta.2",
        "1.0.0-beta.11",
        "1.0.0-rc.1",
        "1.0.0",
    ];
    for i in 0..chain.len() {
        for j in 0..chain.len() {
            let got = version_of(chain[i]).compare(&version_of(chain[j]));
            assert_eq!(got, from_semver(i.cmp(&j)), "{} against {}", chain[i], chain[j]);
        }
    }
}

#[test]
fn compare_agrees_with_semver_precedence() {
    let texts = sample_versions();
    for a in &texts {
        for b in &texts {
            let ours = version_of(a).compare(&version_of(b));
            let theirs = semver::Version::parse(a)
                .unwrap()
                .cmp_precedence(&semver::Version::parse(b).unwrap());
            assert_eq!(ours, from_semver(theirs), "{} against {}", a, b);
        }
    }
}

#[test]
fn compare_ignores_build_metadata() {
    assert_eq!(version_of("1.0.0+a").compare(&version_of("1.0.0+b")), Precedence::Same);
}

#[test]
fn compare_is_a_total_order_on_the_samples() {
    let texts = sample_versions();
    for a in &texts {
        for b in &texts {
            let ab = version_of(a).compare(&version_of(b));
            let ba = version_of(b).compare(&version_of(a));
            let reversed = match ab {
                Precedence::Lower => Precedence::Higher,
                Precedence::Same => Precedence::Same,
                Precedence::Higher => Precedence::Lower,
            };
            assert_eq!(ba, reversed);
            assert_eq!(ab == Precedence::Same, a == b);
            if ab != Precedence::Lower {
                continue;
            }
            for c in &texts {
                if version_of(c).compare(&version_of(a)) != Precedence::Higher {
                    assert_eq!(version_of(c).compare(&version_of(b)), Precedence::Lower);
                }
            }
        }
    }
}

#[test]
fn patch_bump_counts_the_patch_up() {
    assert_eq!(version_of("1.2.3").bump(BumpKind::Patch), version_of("1.2.4"));
    assert_eq!(version_of("0.0.0").bump(BumpKind::Patch), version_of("0.0.1"));
}

#[test]
fn patch_bump_drops_the_tag() {
    assert_eq!(version_of("1.2.3-alpha.1").bump(BumpKind::Patch), version_of("1.2.4"));
}

#[test]
fn minor_bump_resets_the_patch() {
    assert_eq!(version_of("1.2.3").bump(BumpKind::Minor), version_of("1.3.0"));
    assert_eq!(version_of("1.2.3-rc.1").bump(BumpKind::Minor), version_of("1.3.0"));
}

#[test]
fn major_bump_resets_minor_and_patch() {
    assert_eq!(version_of("1.2.3").bump(BumpKind::Major), version_of("2.0.0"));
    assert_eq!(version_of("1.2.3-rc.1").bump(BumpKind::Major), version_of("2.0.0"));
    assert_eq!(version_of("0.9.9").bump(BumpKind::Major), version_of("1.0.0"));
}

#[test]
fn prerelease_bump_keeps_the_numbers() {
    assert_eq!(version_of("1.2.3-alpha.1").bump(BumpKind::Prerelease), version_of("1.2.3-alpha.2"));
    assert_eq!(version_of("1.2.3-alpha").bump(BumpKind::Prerelease), version_of("1.2.3-alpha.0"));
    assert_eq!(version_of("1.2.3-rc.9").bump(BumpKind::Prerelease), version_of("1.2.3-rc.10"));
    assert_eq!(version_of("1.2.3").bump(BumpKind::Prerelease), version_of("1.2.3-0"));
}

#[test]
fn bumps_of_the_samples_are_above_them() {
    for text in sample_versions() {
        let v = version_of(text);
        for kind in [BumpKind::Patch, BumpKind::Minor, BumpKind::Major, BumpKind::Prerelease] {
            if !v.can_bump(kind) {
                continue;
            }
            let next = v.bump(kind);
            let expected = if kind == BumpKind::Prerelease && v.prerelease().is_empty() {
                Precedence::Higher
            } else {
                Precedence::Lower
            };
            assert_eq!(v.compare(&next), expected, "{} by {:?}", text, kind);
        }
    }
}

#[test]
fn a_number_at_its_limit_cannot_be_bumped() {
    let v = SemVer::new(u64::MAX, u64::MAX, u64::MAX);
    assert!(!v.can_bump(BumpKind::Patch));
    assert!(!v.can_bump(BumpKind::Minor));
    assert!(!v.can_bump(BumpKind::Major));
    assert!(v.can_bump(BumpKind::Prerelease));
    let w = SemVer::new(u64::MAX, 0, u64::MAX - 1);
    assert!(w.can_bump(BumpKind::Patch));
    assert!(w.can_bump(BumpKind::Minor));
    assert!(!w.can_bump(BumpKind::Major));
    assert_eq!(w.bump(BumpKind::Patch), SemVer::new(u64::MAX, 0, u64::MAX));
}

#[test]
fn max_version_finds_the_highest() {
    let versions = vec![version_of("1.2.0"), version_of("1.4.1"), version_of("1.3.0")];
    assert_eq!(max_version(&versions), 1);
}

#[test]
fn max_version_takes_the_first_of_equals() {
    let versions = vec![
        version_of("1.0.0-rc.1"),
        version_of("1.0.0"),
        version_of("0.9.0"),
        version_of("1.0.0"),
    ];
    assert_eq!(max_version(&versions), 1);
    assert_eq!(max_version(&vec![version_of("0.1.0")]), 0);
}

#[test]
fn max_version_weighs_tags() {
    let versions = vec![
        version_of("2.0.0-alpha"),
        version_of("2.0.0-alpha.1"),
        version_of("2.0.0-beta"),
        version_of("2.0.0-alpha.beta"),
        version_of("1.9.9"),
    ];
    assert_eq!(max_version(&versions), 2);
}
