use stackablectl::catalog::{aggregate, Catalog, CatalogCache, SourceLoad};

fn seeded(pairs: &[(&str, u64)]) -> Catalog<u64> {
    let mut c = Catalog::new();
    for (k, v) in pairs {
        c.insert(k.to_string(), *v);
    }
    c
}

#[test]
fn merge_redefined_key_takes_new_content_at_old_position() {
    let mut a = seeded(&[("alpha", 1), ("beta", 2), ("gamma", 3)]);
    let b = seeded(&[("beta", 20), ("delta", 4)]);
    a.merge(b);

    assert_eq!(a.len(), 4);
    assert_eq!(a.key_at(0), "alpha");
    assert_eq!(a.key_at(1), "beta");
    assert_eq!(a.key_at(2), "gamma");
    assert_eq!(a.key_at(3), "delta");
    assert_eq!(*a.value_at(1), 20);
    assert_eq!(*a.get(&"beta".to_string()).unwrap(), 20);
    assert_eq!(*a.get(&"alpha".to_string()).unwrap(), 1);
}

#[test]
fn insert_existing_key_keeps_position() {
    let mut c = seeded(&[("one", 1), ("two", 2)]);
    c.insert("one".to_string(), 10);
    assert_eq!(c.len(), 2);
    assert_eq!(c.key_at(0), "one");
    assert_eq!(*c.value_at(0), 10);
}

#[test]
fn aggregate_skips_failed_sources_without_error() {
    let loads: Vec<SourceLoad<u64>> = vec![
        SourceLoad::Parsed(vec![("a".to_string(), 1), ("b".to_string(), 2)]),
        SourceLoad::FetchFailed,
        SourceLoad::ParseFailed,
        SourceLoad::Parsed(vec![("b".to_string(), 20), ("c".to_string(), 3)]),
    ];
    let c = aggregate(loads);
    assert_eq!(c.len(), 3);
    assert_eq!(c.key_at(0), "a");
    assert_eq!(c.key_at(1), "b");
    assert_eq!(c.key_at(2), "c");
    assert_eq!(*c.value_at(1), 20);
}

#[test]
fn aggregate_of_only_failures_is_empty() {
    let loads: Vec<SourceLoad<u64>> = vec![SourceLoad::FetchFailed, SourceLoad::ParseFailed];
    let c = aggregate(loads);
    assert_eq!(c.len(), 0);
    assert!(c.get(&"anything".to_string()).is_none());
}

fn resolve_counting(cache: &mut CatalogCache<u64>, pipeline_runs: &mut u32) -> usize {
    if cache.needs_fetch() {
        *pipeline_runs += 1;
        let loads: Vec<SourceLoad<u64>> =
            vec![SourceLoad::Parsed(vec![("entry".to_string(), 7)])];
        cache.fill(aggregate(loads));
    }
    cache.get().len()
}

#[test]
fn cached_catalog_runs_pipeline_exactly_once() {
    let mut cache: CatalogCache<u64> = CatalogCache::new();
    let mut pipeline_runs: u32 = 0;
    let first = resolve_counting(&mut cache, &mut pipeline_runs);
    let second = resolve_counting(&mut cache, &mut pipeline_runs);
    assert_eq!(first, 1);
    assert_eq!(second, 1);
    assert_eq!(pipeline_runs, 1);
}
