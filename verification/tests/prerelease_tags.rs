use workspace_versioning::prerelease::{is_prerelease_text, next_prerelease_text};

fn accepted_by_semver(text: &str) -> bool {
    semver::Prerelease::new(text).is_ok()
}

fn extend_all(alphabet: &[char], prefix: &mut String, depth: usize, out: &mut Vec<String>) {
    out.push(prefix.clone());
    if depth == 0 {
        return;
    }
    for c in alphabet {
        prefix.push(*c);
        extend_all(alphabet, prefix, depth - 1, out);
        prefix.pop();
    }
}

#[test]
fn empty_text_is_a_tag() {
    assert!(is_prerelease_text(""));
}

#[test]
fn common_tags_are_tags() {
    for text in ["alpha", "alpha.1", "rc.0", "0", "beta-2", "-", "a.b.c", "x-y-z.--", "0a", "00a"] {
        assert!(is_prerelease_text(text), "{}", text);
    }
}

#[test]
fn empty_identifiers_are_refused() {
    for text in [".", "a.", ".a", "a..b", ".."] {
        assert!(!is_prerelease_text(text), "{}", text);
    }
}

#[test]
fn leading_zeros_are_refused_in_numbers_only() {
    assert!(!is_prerelease_text("01"));
    assert!(!is_prerelease_text("a.00"));
    assert!(!is_prerelease_text("007.b"));
    assert!(is_prerelease_text("0"));
    assert!(is_prerelease_text("a.0.b"));
    assert!(is_prerelease_text("01a"));
    assert!(is_prerelease_text("0-1"));
}

#[test]
fn other_characters_are_refused() {
    for text in ["a_b", "a b", "a+b", "1.0!", "\u{e9}", "alpha.\u{3b2}", "a\u{0}"] {
        assert!(!is_prerelease_text(text), "{:?}", text);
    }
}

#[test]
fn syntax_agrees_with_semver_on_short_texts() {
    let alphabet = ['0', '1', '9', 'a', 'Z', '-', '.', '_', '+'];
    let mut texts = Vec::new();
    extend_all(&alphabet, &mut String::new(), 5, &mut texts);
    assert!(texts.len() > 60000);
    for text in &texts {
        assert_eq!(is_prerelease_text(text), accepted_by_semver(text), "{:?}", text);
    }
}

#[test]
fn next_tag_of_a_release_is_zero() {
    assert_eq!(next_prerelease_text(""), "0");
}

#[test]
fn next_tag_counts_a_trailing_number_up() {
    assert_eq!(next_prerelease_text("alpha.1"), "alpha.2");
    assert_eq!(next_prerelease_text("0"), "1");
    assert_eq!(next_prerelease_text("rc.8"), "rc.9");
    assert_eq!(next_prerelease_text("a.b.41"), "a.b.42");
}

#[test]
fn next_tag_carries_over_nines() {
    assert_eq!(next_prerelease_text("rc.9"), "rc.10");
    assert_eq!(next_prerelease_text("rc.99"), "rc.100");
    assert_eq!(next_prerelease_text("9"), "10");
    assert_eq!(next_prerelease_text("x.1099"), "x.1100");
    assert_eq!(next_prerelease_text("x.199"), "x.200");
}

#[test]
fn next_tag_has_no_limit_on_the_number() {
    assert_eq!(
        next_prerelease_text("n.18446744073709551615"),
        "n.18446744073709551616"
    );
    assert_eq!(
        next_prerelease_text("99999999999999999999999999"),
        "100000000000000000000000000"
    );
}

#[test]
fn next_tag_appends_a_counter_to_a_word() {
    assert_eq!(next_prerelease_text("alpha"), "alpha.0");
    assert_eq!(next_prerelease_text("alpha.1a"), "alpha.1a.0");
    assert_eq!(next_prerelease_text("1.beta"), "1.beta.0");
    assert_eq!(next_prerelease_text("-"), "-.0");
    assert_eq!(next_prerelease_text("rc-1"), "rc-1.0");
}

#[test]
fn next_tag_is_a_tag_above_the_tag_it_comes_from() {
    let alphabet = ['0', '1', '9', 'a', '-', '.'];
    let mut texts = Vec::new();
    extend_all(&alphabet, &mut String::new(), 5, &mut texts);
    let mut seen = 0;
    for text in &texts {
        if text.is_empty() || !is_prerelease_text(text) {
            continue;
        }
        seen += 1;
        let next = next_prerelease_text(text);
        assert!(is_prerelease_text(&next), "{:?} -> {:?}", text, next);
        let before = semver::Prerelease::new(text).unwrap();
        let after = semver::Prerelease::new(&next).unwrap();
        assert!(before < after, "{:?} -> {:?}", text, next);
    }
    assert!(seen > 1000);
}
