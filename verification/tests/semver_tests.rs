use minipm::semver::{get_version_iterations, higher_version, version_less};

#[test]
fn triple_of_plain_version() {
    assert_eq!(get_version_iterations("1.2.3"), (1, 2, 3));
    assert_eq!(get_version_iterations("10.20.30"), (10, 20, 30));
    assert_eq!(get_version_iterations("0.0.1"), (0, 0, 1));
}

#[test]
fn triple_of_string_without_dot_is_zero() {
    assert_eq!(get_version_iterations("latest"), (0, 0, 0));
    assert_eq!(get_version_iterations(""), (0, 0, 0));
    assert_eq!(get_version_iterations("banana"), (0, 0, 0));
}

#[test]
fn triple_of_short_and_tagged_versions() {
    assert_eq!(get_version_iterations("1.2"), (1, 2, 0));
    assert_eq!(get_version_iterations("1.2.3-beta.1"), (1, 2, 3));
    assert_eq!(get_version_iterations("1.2.x"), (1, 2, 0));
}

#[test]
fn comparison_is_numeric_not_lexical() {
    assert!(version_less("9.0.0", "10.0.0"));
    assert!(!version_less("10.0.0", "9.0.0"));
    assert!(version_less("1.2.9", "1.10.0"));
}

#[test]
fn higher_version_picks_the_larger_triple() {
    let a = String::from("1.2.3");
    let b = String::from("1.3.0");
    assert_eq!(higher_version(&a, &b), Some(String::from("1.3.0")));
    assert_eq!(higher_version(&b, &a), Some(String::from("1.3.0")));
}

#[test]
fn higher_version_equal_triples_is_none() {
    let a = String::from("1.2.3");
    let b = String::from("1.2.3");
    assert_eq!(higher_version(&a, &b), None);
}
