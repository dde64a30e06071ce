use stackablectl::catalog::Catalog;
use stackablectl::operator::get_versions_from_repo;
use stackablectl::version::sort_versions_newest_first;

fn strings(items: &[&str]) -> Vec<String> {
    items.iter().map(|s| s.to_string()).collect()
}

#[test]
fn versions_sort_newest_first() {
    let out = sort_versions_newest_first(&strings(&["1.2.0", "2.0.0", "1.9.3"])).unwrap();
    assert_eq!(out, strings(&["2.0.0", "1.9.3", "1.2.0"]));
}

#[test]
fn prerelease_ranks_below_release() {
    let out = sort_versions_newest_first(&strings(&[
        "1.0.0-alpha",
        "1.0.0",
        "1.0.0-alpha.1",
        "1.0.0-beta",
        "1.0.0-alpha.beta",
    ]))
    .unwrap();
    assert_eq!(
        out,
        strings(&[
            "1.0.0",
            "1.0.0-beta",
            "1.0.0-alpha.beta",
            "1.0.0-alpha.1",
            "1.0.0-alpha",
        ])
    );
}

#[test]
fn numeric_identifiers_compare_by_value() {
    let out = sort_versions_newest_first(&strings(&["1.0.0-rc.9", "1.0.0-rc.10"])).unwrap();
    assert_eq!(out, strings(&["1.0.0-rc.10", "1.0.0-rc.9"]));
}

#[test]
fn build_metadata_breaks_ties() {
    let out = sort_versions_newest_first(&strings(&[
        "1.20.0+c144a98",
        "1.20.0",
        "1.20.0+bc17664",
    ]))
    .unwrap();
    assert_eq!(out, strings(&["1.20.0+c144a98", "1.20.0+bc17664", "1.20.0"]));
}

#[test]
fn equal_versions_are_kept() {
    let out = sort_versions_newest_first(&strings(&["1.0.0", "2.0.0", "1.0.0"])).unwrap();
    assert_eq!(out, strings(&["2.0.0", "1.0.0", "1.0.0"]));
}

#[test]
fn unparseable_version_fails_whole_tier() {
    let err = sort_versions_newest_first(&strings(&["1.0.0", "not-a-version", "2.0.0"]))
        .unwrap_err();
    assert_eq!(err.version, "not-a-version");
}

#[test]
fn bad_tier_leaves_other_tier_unaffected() {
    let mut bad_tier: Catalog<Vec<String>> = Catalog::new();
    bad_tier.insert(
        "superset-operator".to_string(),
        strings(&["1.0.0", "oops"]),
    );
    let mut good_tier: Catalog<Vec<String>> = Catalog::new();
    good_tier.insert(
        "superset-operator".to_string(),
        strings(&["0.3.0", "0.4.0"]),
    );

    let op = "superset".to_string();
    let bad = get_versions_from_repo(&op, &bad_tier);
    assert_eq!(bad.unwrap_err().version, "oops");
    let good = get_versions_from_repo(&op, &good_tier).unwrap();
    assert_eq!(good, strings(&["0.4.0", "0.3.0"]));
}

#[test]
fn missing_chart_yields_empty_list() {
    let tier: Catalog<Vec<String>> = Catalog::new();
    let out = get_versions_from_repo(&"superset".to_string(), &tier).unwrap();
    assert!(out.is_empty());
}

#[test]
fn numeric_identifiers_rank_below_alphanumeric_ones() {
    let out = sort_versions_newest_first(&strings(&["1.0.0-1.alpha", "1.0.0-alpha.1"])).unwrap();
    assert_eq!(out, strings(&["1.0.0-alpha.1", "1.0.0-1.alpha"]));
}

#[test]
fn build_metadata_with_leading_zeros_compares_by_value_then_length() {
    let out = sort_versions_newest_first(&strings(&["1.0.0+001", "1.0.0+2"])).unwrap();
    assert_eq!(out, strings(&["1.0.0+2", "1.0.0+001"]));
    let zeros = sort_versions_newest_first(&strings(&["1.0.0+0", "1.0.0+00"])).unwrap();
    assert_eq!(zeros, strings(&["1.0.0+00", "1.0.0+0"]));
}
