use minipm::errors::ResolveError;
use minipm::matcher::parse_version;
use minipm::resolver::get_version_data;
use minipm::types::{
    DistTags, Package, PackageVersion, PackageVersionDist, RepositoryResult,
};

fn descriptor(version: &str) -> PackageVersion {
    PackageVersion {
        name: Some(String::from("a")),
        version: String::from(version),
        repository: Some(RepositoryResult::Str(format!("https://example.test/{}", version))),
        dependencies: None,
        dev_dependencies: None,
        main: None,
        dist: PackageVersionDist { tarball: format!("https://example.test/{}.tgz", version) },
    }
}

fn package(versions: &[&str], latest: &str) -> Package {
    Package {
        name: Some(String::from("a")),
        dist_tags: DistTags { latest: String::from(latest) },
        versions: versions
            .iter()
            .map(|v| (String::from(*v), descriptor(v)))
            .collect(),
    }
}

#[test]
fn exact_constraint_present_selects_itself() {
    let p = package(&["1.0.0", "1.1.0", "2.0.0"], "2.0.0");
    assert_eq!(parse_version(&p, "1.1.0"), Ok(String::from("1.1.0")));
    let chosen = get_version_data(&p, Some("1.1.0")).unwrap();
    assert_eq!(chosen.version, "1.1.0");
}

#[test]
fn unconstrained_selection_ignores_input_order() {
    let p1 = package(&["1.0.0", "2.0.0", "1.5.3"], "2.0.0");
    let p2 = package(&["1.5.3", "1.0.0", "2.0.0"], "2.0.0");
    assert_eq!(parse_version(&p1, "*"), Ok(String::from("2.0.0")));
    assert_eq!(parse_version(&p2, "*"), Ok(String::from("2.0.0")));
    assert_eq!(parse_version(&p1, "latest"), Ok(String::from("2.0.0")));
    assert_eq!(parse_version(&p2, ""), Ok(String::from("2.0.0")));
}

#[test]
fn tie_on_equal_triples_breaks_by_string_in_any_order() {
    // both keys decompose to (0, 0, 0); the lexicographically smaller
    // string wins whatever the input order
    let p1 = package(&["beta", "alpha"], "alpha");
    let p2 = package(&["alpha", "beta"], "alpha");
    assert_eq!(parse_version(&p1, "*"), Ok(String::from("alpha")));
    assert_eq!(parse_version(&p2, "*"), Ok(String::from("alpha")));
}

#[test]
fn caret_tie_breaks_consistently_in_any_order() {
    // "1.2.3" and "1.02.3" decompose to one triple; the selection picks
    // the lexicographically smaller string from either arrangement
    let p1 = package(&["1.2.3", "1.02.3"], "1.2.3");
    let p2 = package(&["1.02.3", "1.2.3"], "1.2.3");
    assert_eq!(parse_version(&p1, "^1.0.0"), Ok(String::from("1.02.3")));
    assert_eq!(parse_version(&p2, "^1.0.0"), Ok(String::from("1.02.3")));
}

#[test]
fn exact_constraint_absent_falls_back_to_global_max() {
    let p = package(&["1.0.0", "2.0.0"], "2.0.0");
    assert_eq!(parse_version(&p, "9.9.9"), Ok(String::from("2.0.0")));
    let chosen = get_version_data(&p, Some("9.9.9")).unwrap();
    assert_eq!(chosen.version, "2.0.0");
}

#[test]
fn caret_selects_max_within_major() {
    let p = package(&["1.0.0", "1.2.5", "2.0.0"], "2.0.0");
    assert_eq!(parse_version(&p, "^1.0.0"), Ok(String::from("1.2.5")));
}

#[test]
fn tilde_selects_max_within_major_minor() {
    let p = package(&["1.2.0", "1.2.9", "1.3.0"], "1.3.0");
    assert_eq!(parse_version(&p, "~1.2.0"), Ok(String::from("1.2.9")));
}

#[test]
fn wildcard_falls_back_to_global_max() {
    let p = package(&["1.1.0", "1.3.0"], "1.3.0");
    assert_eq!(parse_version(&p, "1.2.x"), Ok(String::from("1.3.0")));
}

#[test]
fn wildcard_with_candidates_selects_within_prefix() {
    let p = package(&["1.2.0", "1.2.7", "1.3.0"], "1.3.0");
    assert_eq!(parse_version(&p, "1.2.x"), Ok(String::from("1.2.7")));
}

#[test]
fn below_selects_max_strictly_under_bound() {
    let p = package(&["1.0.0", "1.1.5", "1.2.0", "1.5.0"], "1.5.0");
    assert_eq!(parse_version(&p, "<1.2.0"), Ok(String::from("1.1.5")));
}

#[test]
fn below_with_no_candidate_is_no_match() {
    let p = package(&["1.2.0", "1.5.0"], "1.5.0");
    let err = parse_version(&p, "<1.0.0").unwrap_err();
    assert_eq!(
        err,
        ResolveError::NoMatch {
            package: String::from("a"),
            constraint: String::from("<1.0.0"),
        }
    );
    assert_eq!(err.message(), "no version of 'a' matches <1.0.0");
}

#[test]
fn below_or_equal_returns_bound_verbatim() {
    let p = package(&["1.0.0", "2.0.0"], "2.0.0");
    assert_eq!(parse_version(&p, "<=1.4.0"), Ok(String::from("1.4.0")));
    let err = get_version_data(&p, Some("<=1.4.0")).unwrap_err();
    assert_eq!(
        err,
        ResolveError::VersionNotFound {
            package: String::from("a"),
            version: String::from("1.4.0"),
        }
    );
    assert_eq!(err.message(), "could not find version 1.4.0 for package 'a'");
}

#[test]
fn greater_family_selects_global_max() {
    let p = package(&["1.0.0", "1.9.0", "3.0.0"], "3.0.0");
    assert_eq!(parse_version(&p, ">1.5.0"), Ok(String::from("3.0.0")));
    assert_eq!(parse_version(&p, ">=1.5.0"), Ok(String::from("3.0.0")));
}

#[test]
fn caret_with_no_candidate_is_no_match() {
    let p = package(&["1.0.0", "2.0.0"], "2.0.0");
    let err = parse_version(&p, "^3.0.0").unwrap_err();
    assert_eq!(
        err,
        ResolveError::NoMatch {
            package: String::from("a"),
            constraint: String::from("^3.0.0"),
        }
    );
}

#[test]
fn unconstrained_resolution_uses_latest_tag() {
    let p = package(&["1.0.0", "2.0.0", "3.0.0-rc.1"], "2.0.0");
    let chosen = get_version_data(&p, None).unwrap();
    assert_eq!(chosen.version, "2.0.0");
}
