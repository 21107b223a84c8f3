use workspace_versioning::decision::{accept, bump_options, decide, Selection, VersionError};
use workspace_versioning::semantic_version::{BumpKind, SemVer};

fn parsed(text: &str) -> SemVer {
    SemVer::parse(text).expect("a version")
}

fn custom(text: &str) -> Selection {
    Selection::Custom(text.to_string())
}

#[test]
fn accept_takes_a_higher_version() {
    let current = parsed("1.2.3");
    let decision = accept(&current, Some(parsed("1.2.4"))).expect("a decision");
    assert_eq!(*decision.next(), parsed("1.2.4"));
    assert_eq!(*decision.current(), current);
    let copy = decision.duplicate();
    assert_eq!(*copy.next(), parsed("1.2.4"));
    assert_eq!(*copy.current(), current);
}

#[test]
fn accept_refuses_an_equal_version() {
    let refused = accept(&parsed("1.2.3"), Some(parsed("1.2.3")));
    assert_eq!(refused.unwrap_err(), VersionError::VersionNotGreater);
}

#[test]
fn accept_refuses_a_lower_version() {
    let refused = accept(&parsed("1.2.3"), Some(parsed("1.2.3-rc.1")));
    assert_eq!(refused.unwrap_err(), VersionError::VersionNotGreater);
    let refused = accept(&parsed("1.2.3"), Some(parsed("0.99.0")));
    assert_eq!(refused.unwrap_err(), VersionError::VersionNotGreater);
}

#[test]
fn accept_refuses_no_version() {
    assert_eq!(accept(&parsed("1.2.3"), None).unwrap_err(), VersionError::VersionNotGreater);
}

#[test]
fn decide_patch_minor_major() {
    let current = parsed("1.2.3");
    let patch = decide(&current, &Selection::Bump(BumpKind::Patch)).unwrap();
    assert_eq!(*patch.next(), parsed("1.2.4"));
    let minor = decide(&current, &Selection::Bump(BumpKind::Minor)).unwrap();
    assert_eq!(*minor.next(), parsed("1.3.0"));
    let major = decide(&current, &Selection::Bump(BumpKind::Major)).unwrap();
    assert_eq!(*major.next(), parsed("2.0.0"));
    assert_eq!(*major.current(), current);
}

#[test]
fn decide_prerelease_of_a_prerelease() {
    let decision = decide(&parsed("1.0.0-beta.3"), &Selection::Bump(BumpKind::Prerelease)).unwrap();
    assert_eq!(*decision.next(), parsed("1.0.0-beta.4"));
    let decision = decide(&parsed("1.0.0-beta"), &Selection::Bump(BumpKind::Prerelease)).unwrap();
    assert_eq!(*decision.next(), parsed("1.0.0-beta.0"));
}

#[test]
fn decide_refuses_a_prerelease_of_a_release() {
    let refused = decide(&parsed("1.0.0"), &Selection::Bump(BumpKind::Prerelease));
    assert_eq!(refused.unwrap_err(), VersionError::VersionNotGreater);
}

#[test]
fn decide_refuses_a_bump_past_the_limit() {
    let current = SemVer::new(1, 2, u64::MAX);
    let refused = decide(&current, &Selection::Bump(BumpKind::Patch));
    assert_eq!(refused.unwrap_err(), VersionError::VersionNotGreater);
    let minor = decide(&current, &Selection::Bump(BumpKind::Minor)).unwrap();
    assert_eq!(*minor.next(), SemVer::new(1, 3, 0));
}

#[test]
fn decide_takes_a_custom_version_above_the_current() {
    let decision = decide(&parsed("1.2.3"), &custom("1.10.0-rc.1")).unwrap();
    assert_eq!(*decision.next(), parsed("1.10.0-rc.1"));
    let decision = decide(&parsed("1.2.3-alpha"), &custom("1.2.3")).unwrap();
    assert_eq!(*decision.next(), parsed("1.2.3"));
}

#[test]
fn decide_refuses_a_custom_version_not_above_the_current() {
    for text in ["1.2.3", "1.2.2", "1.2.3-rc.9", "0.0.1", "1.2.3+build"] {
        let refused = decide(&parsed("1.2.3"), &custom(text));
        assert_eq!(refused.unwrap_err(), VersionError::VersionNotGreater, "{}", text);
    }
}

#[test]
fn decide_refuses_a_custom_text_that_is_no_version() {
    for text in ["", "next", "2", "2.0", "v2.0.0", "2.0.0-"] {
        let refused = decide(&parsed("1.2.3"), &custom(text));
        assert_eq!(refused.unwrap_err(), VersionError::VersionNotGreater, "{:?}", text);
    }
}

#[test]
fn decide_fails_as_aborted_on_abort() {
    let refused = decide(&parsed("1.2.3"), &Selection::Abort);
    assert_eq!(refused.unwrap_err(), VersionError::UserAborted);
}

#[test]
fn options_of_a_release_leave_the_prerelease_out() {
    let options = bump_options(&parsed("1.2.3"));
    let kinds: Vec<BumpKind> = options.iter().map(|o| o.kind).collect();
    assert_eq!(kinds, vec![BumpKind::Patch, BumpKind::Minor, BumpKind::Major]);
    assert_eq!(*options[0].decision.next(), parsed("1.2.4"));
    assert_eq!(*options[1].decision.next(), parsed("1.3.0"));
    assert_eq!(*options[2].decision.next(), parsed("2.0.0"));
}

#[test]
fn options_of_a_prerelease_offer_all_four() {
    let options = bump_options(&parsed("1.2.3-rc.1"));
    let kinds: Vec<BumpKind> = options.iter().map(|o| o.kind).collect();
    assert_eq!(
        kinds,
        vec![BumpKind::Patch, BumpKind::Minor, BumpKind::Major, BumpKind::Prerelease]
    );
    assert_eq!(*options[3].decision.next(), parsed("1.2.3-rc.2"));
    assert_eq!(*options[0].decision.next(), parsed("1.2.4"));
}

#[test]
fn options_leave_out_what_cannot_grow() {
    let options = bump_options(&SemVer::new(u64::MAX, 0, u64::MAX));
    let kinds: Vec<BumpKind> = options.iter().map(|o| o.kind).collect();
    assert_eq!(kinds, vec![BumpKind::Minor]);
}
