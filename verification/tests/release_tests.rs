use stackablectl::catalog::{Catalog, CatalogCache, SourceLoad};
use stackablectl::operator::RepoTier;
use stackablectl::release::{
    get_release, get_releases, install_release, uninstall_release, Release,
    ReleaseInstallError, ReleaseProduct,
};

fn strings(items: &[&str]) -> Vec<String> {
    items.iter().map(|s| s.to_string()).collect()
}

fn release(date: &str, description: &str, products: &[(&str, &str)]) -> Release {
    let entries = products
        .iter()
        .map(|(name, version)| {
            (
                name.to_string(),
                ReleaseProduct { operator_version: version.to_string() },
            )
        })
        .collect();
    Release {
        release_date: date.to_string(),
        description: description.to_string(),
        products: Catalog::from_entries(entries),
    }
}

fn one_release_catalog(name: &str, rel: Release) -> Catalog<Release> {
    let mut c = Catalog::new();
    c.insert(name.to_string(), rel);
    c
}

#[test]
fn expansion_applies_whitelist_then_blacklist() {
    let rel = release(
        "2023-01-01",
        "three products",
        &[("airflow", "1.0.0"), ("kafka", "2.0.0"), ("superset", "3.0.0")],
    );
    let releases = one_release_catalog("r1", rel);
    let plan = install_release(
        &releases,
        &"r1".to_string(),
        &strings(&["airflow", "superset"]),
        &strings(&["superset"]),
    )
    .unwrap();
    assert_eq!(plan.len(), 1);
    assert_eq!(plan[0].release_name, "airflow-operator");
    assert_eq!(plan[0].version, Some("1.0.0".to_string()));
    assert_eq!(plan[0].repo, RepoTier::Stable);
}

#[test]
fn empty_whitelist_takes_everything_not_blacklisted() {
    let rel = release(
        "2023-01-01",
        "three products",
        &[("airflow", "1.0.0"), ("kafka", "2.0.0"), ("superset", "3.0.0")],
    );
    let releases = one_release_catalog("r1", rel);
    let plan = install_release(
        &releases,
        &"r1".to_string(),
        &strings(&[]),
        &strings(&["kafka"]),
    )
    .unwrap();
    let names: Vec<&str> = plan.iter().map(|i| i.chart_name.as_str()).collect();
    assert_eq!(names, vec!["airflow-operator", "superset-operator"]);
}

#[test]
fn pinned_pr_version_installs_from_test_tier() {
    let rel = release("2023-01-01", "pr build", &[("kafka", "2.0.0-pr42")]);
    let releases = one_release_catalog("r1", rel);
    let plan =
        install_release(&releases, &"r1".to_string(), &strings(&[]), &strings(&[])).unwrap();
    assert_eq!(plan[0].repo, RepoTier::Test);
}

#[test]
fn missing_release_is_the_fatal_path() {
    let releases: Catalog<Release> = Catalog::new();
    let err = get_release(&releases, &"nope".to_string()).unwrap_err();
    assert_eq!(
        err.message,
        "Release nope not found. Use `stackablectl release list` to list the available releases."
    );
    match install_release(&releases, &"nope".to_string(), &strings(&[]), &strings(&[])) {
        Err(ReleaseInstallError::NotFound(e)) => {
            assert!(e.message.starts_with("Release nope not found"));
        }
        _ => panic!("expected the fatal not-found path"),
    }
}

#[test]
fn unknown_product_fails_the_plan() {
    let rel = release(
        "2023-01-01",
        "bad product",
        &[("airflow", "1.0.0"), ("made-up", "1.0.0")],
    );
    let releases = one_release_catalog("r1", rel);
    match install_release(&releases, &"r1".to_string(), &strings(&[]), &strings(&[])) {
        Err(ReleaseInstallError::UnknownOperator(m)) => {
            assert_eq!(
                m,
                "The operator made-up does not exist or stackablectl is too old to know the operator"
            );
        }
        _ => panic!("expected an unknown-operator failure"),
    }
}

#[test]
fn uninstall_release_names_every_product() {
    let rel = release(
        "2023-01-01",
        "two products",
        &[("airflow", "1.0.0"), ("kafka", "2.0.0")],
    );
    let releases = one_release_catalog("r1", rel);
    let names = uninstall_release(&releases, &"r1".to_string()).unwrap();
    assert_eq!(names, strings(&["airflow-operator", "kafka-operator"]));
}

#[test]
fn release_catalogs_merge_with_later_source_winning() {
    let old = release("2023-01-01", "old content", &[("airflow", "1.0.0")]);
    let newer = release("2023-06-01", "new content", &[("airflow", "2.0.0")]);
    let extra = release("2023-06-02", "extra", &[("kafka", "1.0.0")]);
    let loads = vec![
        SourceLoad::Parsed(vec![("r1".to_string(), old)]),
        SourceLoad::FetchFailed,
        SourceLoad::Parsed(vec![("r2".to_string(), extra), ("r1".to_string(), newer)]),
    ];
    let releases = get_releases(loads);
    assert_eq!(releases.len(), 2);
    assert_eq!(releases.key_at(0), "r1");
    assert_eq!(releases.key_at(1), "r2");
    let r1 = get_release(&releases, &"r1".to_string()).unwrap();
    assert_eq!(r1.description, "new content");
}

#[test]
fn release_cache_fetches_once_per_process() {
    let mut cache: CatalogCache<Release> = CatalogCache::new();
    let mut fetches: u32 = 0;
    for _ in 0..3 {
        if cache.needs_fetch() {
            fetches += 1;
            let rel = release("2023-01-01", "cached", &[("airflow", "1.0.0")]);
            cache.fill(get_releases(vec![SourceLoad::Parsed(vec![(
                "r1".to_string(),
                rel,
            )])]));
        }
        assert_eq!(cache.get().len(), 1);
    }
    assert_eq!(fetches, 1);
}
