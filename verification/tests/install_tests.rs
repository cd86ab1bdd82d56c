use minipm::install::{dir_exists, install_actions, progress_percent};
use minipm::query::get_version;
use minipm::types::{
    stringify_opt, PackageVersion, PackageVersionDist, RepositoryResult,
};

fn entry(name: &str, with_repository: bool) -> (String, PackageVersion) {
    (
        String::from(name),
        PackageVersion {
            name: Some(String::from(name)),
            version: String::from("1.0.0"),
            repository: if with_repository {
                Some(RepositoryResult::Str(format!("https://example.test/{}", name)))
            } else {
                None
            },
            dependencies: None,
            dev_dependencies: None,
            main: None,
            dist: PackageVersionDist {
                tarball: format!("https://example.test/{}.tgz", name),
            },
        },
    )
}

#[test]
fn entries_without_repository_are_skipped_but_keep_their_slot() {
    let resolved = vec![entry("a", true), entry("b", false), entry("c", true)];
    let actions = install_actions(&resolved);
    assert_eq!(actions.len(), 2);
    assert_eq!(actions[0].name, "a");
    assert_eq!(actions[0].index, 1);
    assert_eq!(actions[0].total, 3);
    assert_eq!(actions[0].percent, 33);
    assert_eq!(actions[1].name, "c");
    assert_eq!(actions[1].index, 3);
    assert_eq!(actions[1].total, 3);
    assert_eq!(actions[1].percent, 100);
    assert!(!actions.iter().any(|a| a.name == "b"));
}

#[test]
fn actions_carry_version_and_tarball() {
    let resolved = vec![entry("a", true)];
    let actions = install_actions(&resolved);
    assert_eq!(actions.len(), 1);
    assert_eq!(actions[0].version, "1.0.0");
    assert_eq!(actions[0].tarball, "https://example.test/a.tgz");
    assert_eq!(actions[0].percent, 100);
}

#[test]
fn no_repository_at_all_means_no_actions() {
    let resolved = vec![entry("a", false), entry("b", false)];
    let actions = install_actions(&resolved);
    assert!(actions.is_empty());
}

#[test]
fn percent_rounds_to_nearest() {
    assert_eq!(progress_percent(1, 2), 50);
    assert_eq!(progress_percent(1, 3), 33);
    assert_eq!(progress_percent(2, 3), 67);
    assert_eq!(progress_percent(3, 3), 100);
    assert_eq!(progress_percent(1, 200), 1);
    assert_eq!(progress_percent(1, 201), 0);
}

#[test]
fn query_splits_name_and_constraint() {
    assert_eq!(
        get_version("pkg@^1.0.0"),
        (String::from("pkg"), Some(String::from("^1.0.0")))
    );
    assert_eq!(get_version("pkg"), (String::from("pkg"), None));
    assert_eq!(get_version("a@b@c"), (String::from("a"), Some(String::from("b"))));
    assert_eq!(get_version("pkg@"), (String::from("pkg"), Some(String::from(""))));
}

#[test]
fn stringify_opt_falls_back_to_placeholder() {
    assert_eq!(stringify_opt(&Some(String::from("left-pad"))), "left-pad");
    assert_eq!(stringify_opt(&None), "unidentified");
}

#[test]
fn dir_exists_reports_filesystem_state() {
    assert!(dir_exists("."));
    assert!(!dir_exists("./no-such-entry-for-this-test"));
}
