use stackablectl::catalog::Catalog;
use stackablectl::operator::{
    describe_operator, known_operators, list_installed_operators, list_operators,
    uninstall_operators, InstalledRelease, Operator, RepoTier,
};

fn strings(items: &[&str]) -> Vec<String> {
    items.iter().map(|s| s.to_string()).collect()
}

#[test]
fn unknown_operator_name_is_rejected() {
    let err = Operator::new("not-a-real-operator".to_string(), None).unwrap_err();
    assert_eq!(
        err,
        "The operator not-a-real-operator does not exist or stackablectl is too old to know the operator"
    );
}

#[test]
fn pr_version_selects_test_tier() {
    let op = Operator::new("superset".to_string(), Some("1.2.3-pr7".to_string())).unwrap();
    assert_eq!(op.install().repo, RepoTier::Test);
}

#[test]
fn plain_version_selects_stable_tier() {
    let op = Operator::new("superset".to_string(), Some("1.2.3".to_string())).unwrap();
    assert_eq!(op.install().repo, RepoTier::Stable);
}

#[test]
fn absent_version_selects_dev_tier() {
    let op = Operator::new("superset".to_string(), None).unwrap();
    assert_eq!(op.install().repo, RepoTier::Dev);
}

#[test]
fn nightly_and_dev_suffixes_select_dev_tier() {
    let nightly = Operator::new("kafka".to_string(), Some("0.3.0-nightly".to_string())).unwrap();
    assert_eq!(nightly.install().repo, RepoTier::Dev);
    let dev = Operator::new("kafka".to_string(), Some("0.3.0-dev".to_string())).unwrap();
    assert_eq!(dev.install().repo, RepoTier::Dev);
}

#[test]
fn install_intent_names_the_operator_chart() {
    let op = Operator::new("trino".to_string(), Some("0.8.0".to_string())).unwrap();
    let intent = op.install();
    assert_eq!(intent.release_name, "trino-operator");
    assert_eq!(intent.chart_name, "trino-operator");
    assert_eq!(intent.version, Some("0.8.0".to_string()));
    assert_eq!(intent.repo.name(), "stackable-stable");
}

#[test]
fn repo_tier_names_match_the_repositories() {
    assert_eq!(RepoTier::Stable.name(), "stackable-stable");
    assert_eq!(RepoTier::Test.name(), "stackable-test");
    assert_eq!(RepoTier::Dev.name(), "stackable-dev");
}

#[test]
fn uninstall_names_every_given_operator() {
    let names = uninstall_operators(&strings(&["superset", "kafka"]));
    assert_eq!(names, strings(&["superset-operator", "kafka-operator"]));
}

#[test]
fn uninstall_accepts_any_string() {
    let names = uninstall_operators(&strings(&["definitely-unknown"]));
    assert_eq!(names, strings(&["definitely-unknown-operator"]));
}

#[test]
fn installed_listing_keeps_known_operators_only() {
    let releases = vec![
        InstalledRelease {
            name: "superset-operator".to_string(),
            version: "1.0.0".to_string(),
            namespace: "default".to_string(),
            status: "deployed".to_string(),
            last_updated: "yesterday".to_string(),
        },
        InstalledRelease {
            name: "some-other-thing".to_string(),
            version: "9.9.9".to_string(),
            namespace: "default".to_string(),
            status: "deployed".to_string(),
            last_updated: "today".to_string(),
        },
        InstalledRelease {
            name: "kafka-operator".to_string(),
            version: "2.0.0".to_string(),
            namespace: "kafka".to_string(),
            status: "deployed".to_string(),
            last_updated: "today".to_string(),
        },
    ];
    let listed = list_installed_operators(releases);
    assert_eq!(listed.len(), 2);
    assert_eq!(listed.key_at(0), "superset");
    assert_eq!(listed.key_at(1), "kafka");
    assert_eq!(listed.value_at(0).version, "1.0.0");
    assert_eq!(listed.value_at(1).namespace, "kafka");
}

#[test]
fn installed_listing_repeated_operator_keeps_first_position() {
    let entry = |name: &str, version: &str| InstalledRelease {
        name: name.to_string(),
        version: version.to_string(),
        namespace: "default".to_string(),
        status: "deployed".to_string(),
        last_updated: "now".to_string(),
    };
    let listed = list_installed_operators(vec![
        entry("superset-operator", "1.0.0"),
        entry("kafka-operator", "1.5.0"),
        entry("superset-operator", "2.0.0"),
    ]);
    assert_eq!(listed.len(), 2);
    assert_eq!(listed.key_at(0), "superset");
    assert_eq!(listed.value_at(0).version, "2.0.0");
}

#[test]
fn describe_operator_reports_all_three_tiers() {
    let mut stable: Catalog<Vec<String>> = Catalog::new();
    stable.insert("hive-operator".to_string(), strings(&["1.0.0", "2.0.0"]));
    let mut test: Catalog<Vec<String>> = Catalog::new();
    test.insert("hive-operator".to_string(), strings(&["2.1.0-pr1"]));
    let dev: Catalog<Vec<String>> = Catalog::new();

    let described = describe_operator(&"hive".to_string(), &stable, &test, &dev).unwrap();
    assert_eq!(described.operator, "hive");
    assert_eq!(described.stable_versions, strings(&["2.0.0", "1.0.0"]));
    assert_eq!(described.test_versions, strings(&["2.1.0-pr1"]));
    assert!(described.dev_versions.is_empty());
}

#[test]
fn list_operators_covers_every_known_operator() {
    let stable: Catalog<Vec<String>> = Catalog::new();
    let test: Catalog<Vec<String>> = Catalog::new();
    let dev: Catalog<Vec<String>> = Catalog::new();
    let listed = list_operators(&stable, &test, &dev).unwrap();
    let known = known_operators();
    assert_eq!(listed.len(), known.len());
    for (entry, name) in listed.iter().zip(known.iter()) {
        assert_eq!(&entry.operator, name);
        assert!(entry.stable_versions.is_empty());
    }
}

#[test]
fn list_operators_fails_on_any_bad_tier() {
    let stable: Catalog<Vec<String>> = Catalog::new();
    let mut test: Catalog<Vec<String>> = Catalog::new();
    test.insert("kafka-operator".to_string(), strings(&["bogus"]));
    let dev: Catalog<Vec<String>> = Catalog::new();
    let err = list_operators(&stable, &test, &dev).unwrap_err();
    assert_eq!(err.version, "bogus");
}
