use minipm::errors::ResolveError;
use minipm::resolver::{resolve_graph, Resolver};
use minipm::types::{
    DistTags, Package, PackageVersion, PackageVersionDist, RepositoryResult,
};

fn descriptor(name: &str, version: &str, deps: &[(&str, &str)]) -> PackageVersion {
    PackageVersion {
        name: Some(String::from(name)),
        version: String::from(version),
        repository: Some(RepositoryResult::Str(format!("https://example.test/{}", name))),
        dependencies: if deps.is_empty() {
            None
        } else {
            Some(
                deps.iter()
                    .map(|(n, c)| (String::from(*n), String::from(*c)))
                    .collect(),
            )
        },
        dev_dependencies: None,
        main: None,
        dist: PackageVersionDist {
            tarball: format!("https://example.test/{}-{}.tgz", name, version),
        },
    }
}

fn package(name: &str, versions: Vec<PackageVersion>) -> Package {
    let latest = versions.last().unwrap().version.clone();
    Package {
        name: Some(String::from(name)),
        dist_tags: DistTags { latest },
        versions: versions
            .into_iter()
            .map(|d| (d.version.clone(), d))
            .collect(),
    }
}

fn demo_registry() -> Vec<(String, Package)> {
    // a depends on b; b appears twice: once under the root, once under a,
    // with different constraints.
    let a = package(
        "a",
        vec![
            descriptor("a", "1.0.0", &[("b", "^2.0.0")]),
            descriptor("a", "1.4.0", &[("b", "^2.0.0")]),
        ],
    );
    let b = package(
        "b",
        vec![descriptor("b", "1.3.0", &[]), descriptor("b", "2.1.0", &[])],
    );
    vec![(String::from("a"), a), (String::from("b"), b)]
}

#[test]
fn duplicate_dependency_gets_exactly_one_entry() {
    let registry = demo_registry();
    let root = descriptor("root", "1.0.0", &[("a", "^1.0.0"), ("b", "^1.0.0")]);
    let resolved = resolve_graph(&registry, &root).unwrap();
    let b_entries: Vec<_> = resolved.iter().filter(|(n, _)| n == "b").collect();
    assert_eq!(b_entries.len(), 1);
    let a_entries: Vec<_> = resolved.iter().filter(|(n, _)| n == "a").collect();
    assert_eq!(a_entries.len(), 1);
    assert_eq!(a_entries[0].1.version, "1.4.0");
}

#[test]
fn resolving_twice_yields_identical_sets() {
    let registry = demo_registry();
    let root = descriptor("root", "1.0.0", &[("a", "^1.0.0"), ("b", "^1.0.0")]);
    let first = resolve_graph(&registry, &root).unwrap();
    let second = resolve_graph(&registry, &root).unwrap();
    assert_eq!(first, second);
}

#[test]
fn missing_package_aborts_resolution() {
    let registry = demo_registry();
    let root = descriptor("root", "1.0.0", &[("ghost", "^1.0.0")]);
    let err = resolve_graph(&registry, &root).unwrap_err();
    assert_eq!(err, ResolveError::PackageNotFound { package: String::from("ghost") });
    assert_eq!(err.message(), "could not find package 'ghost'");
}

#[test]
fn unmatched_constraint_aborts_resolution() {
    let registry = demo_registry();
    let root = descriptor("root", "1.0.0", &[("b", "^9.0.0")]);
    let err = resolve_graph(&registry, &root).unwrap_err();
    assert_eq!(
        err,
        ResolveError::NoMatch {
            package: String::from("b"),
            constraint: String::from("^9.0.0"),
        }
    );
}

#[test]
fn root_without_dependencies_resolves_to_empty_set() {
    let registry = demo_registry();
    let root = descriptor("root", "1.0.0", &[]);
    let resolved = resolve_graph(&registry, &root).unwrap();
    assert!(resolved.is_empty());
}

#[test]
fn resolver_steps_walk_the_worklist() {
    let registry = demo_registry();
    let root = descriptor("root", "1.0.0", &[("b", "^2.0.0")]);
    let mut resolver = Resolver::new(&root);
    let (name, constraint) = resolver.next_pending().unwrap();
    assert_eq!(name, "b");
    assert_eq!(constraint, "^2.0.0");
    assert!(!resolver.is_resolved("b"));
    let pkg = &registry.iter().find(|(n, _)| n == "b").unwrap().1;
    resolver.resolve_pending(&name, &constraint, pkg).unwrap();
    assert!(resolver.is_resolved("b"));
    assert!(resolver.next_pending().is_none());
    let resolved = resolver.into_resolved();
    assert_eq!(resolved.len(), 1);
    assert_eq!(resolved[0].0, "b");
    assert_eq!(resolved[0].1.version, "2.1.0");
}
