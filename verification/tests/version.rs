use herdr_updater::version::{compare, parse};
use std::cmp::Ordering;

#[test]
fn orders_release_components_numerically_not_lexically() {
    assert_eq!(compare("0.10.0", "0.9.0"), Some(Ordering::Greater));
    assert_eq!(compare("1.0.0", "1.0.1"), Some(Ordering::Less));
    assert_eq!(compare("0.8.2", "0.8.2"), Some(Ordering::Equal));
}

#[test]
fn a_prerelease_sorts_below_the_release_it_leads_to() {
    assert_eq!(compare("0.9.0-rc.1", "0.9.0"), Some(Ordering::Less));
    assert_eq!(compare("0.9.0-rc.1", "0.9.0-rc.2"), Some(Ordering::Less));
    assert_eq!(compare("0.9.0-alpha", "0.9.0-beta"), Some(Ordering::Less));
    // Numeric identifiers rank below alphanumeric ones.
    assert_eq!(compare("0.9.0-1", "0.9.0-alpha"), Some(Ordering::Less));
}

#[test]
fn accepts_a_tag_prefix_and_ignores_build_metadata() {
    assert_eq!(compare("v1.2.3", "1.2.3"), Some(Ordering::Equal));
    assert_eq!(compare("1.2.3+build.7", "1.2.3"), Some(Ordering::Equal));
}

#[test]
fn unparseable_input_is_unknown_rather_than_an_ordering() {
    assert_eq!(compare("0.8", "0.8.2"), None);
    assert_eq!(compare("nightly", "0.8.2"), None);
    assert_eq!(compare("0.8.2.1", "0.8.2"), None);
    assert_eq!(compare("0.8.2-", "0.8.2"), None);
    assert!(parse("01.2.3").is_none());
}

#[test]
fn equal_versions_written_differently_still_compare_equal() {
    assert_eq!(compare("v0.8.2+meta", "0.8.2"), Some(Ordering::Equal));
}

#[test]
fn longer_prerelease_chains_rank_above_their_prefix() {
    assert_eq!(compare("1.0.0-alpha", "1.0.0-alpha.1"), Some(Ordering::Less));
    assert_eq!(compare("1.0.0-alpha.2", "1.0.0-alpha.10"), Some(Ordering::Less));
    assert_eq!(compare("1.0.0-rc.1", "1.0.0-beta.11"), Some(Ordering::Greater));
}

#[test]
fn precedence_is_transitive_on_a_chain() {
    let chain = ["1.0.0-alpha", "1.0.0-alpha.1", "1.0.0-beta", "1.0.0-rc.1", "1.0.0", "1.0.1", "1.10.0"];
    for i in 0..chain.len() {
        for j in 0..chain.len() {
            assert_eq!(compare(chain[i], chain[j]), Some(i.cmp(&j)));
        }
    }
}

#[test]
fn versions_compare_with_operators() {
    let older = parse("0.9.0").unwrap();
    let newer = parse("0.10.0").unwrap();
    assert!(older < newer);
    assert_eq!(older.cmp(&newer), Ordering::Less);
}

#[test]
fn a_prerelease_that_goes_on_is_newer() {
    assert_eq!(compare("1.0.0-rc", "1.0.0-rc.1"), Some(Ordering::Less));
    assert_eq!(compare("1.0.0-rc.1.x", "1.0.0-rc.1"), Some(Ordering::Greater));
    assert_eq!(compare("1.0.0-rc.1", "1.0.0"), Some(Ordering::Less));
}
