use cargo_trim::artifact::ArtifactIdentity;
use cargo_trim::crate_detail::{CrateDetail, Role, SourceKind};
use cargo_trim::scan::{identity_of, repository_of, scan, FoundEntry};
use cargo_trim::store::Store;

fn found(mirror: &str, file_name: &str, size: Option<u64>) -> FoundEntry {
    FoundEntry { mirror: mirror.to_string(), file_name: file_name.to_string(), size }
}

fn labels(list: &[ArtifactIdentity]) -> Vec<String> {
    list.iter().map(|a| a.label()).collect()
}

fn strings(list: &[&str]) -> Vec<String> {
    list.iter().map(|s| s.to_string()).collect()
}

#[test]
fn registry_archives_are_read_without_their_extension() {
    let mut store = Store::new(SourceKind::Registry);
    let mut detail = CrateDetail::new();
    let listing = vec![
        found("index.crates.io-1", "foo-1.0.0.crate", Some(10)),
        found("index.crates.io-1", "foo-bar-0.2.0-rc.1.crate", Some(20)),
        found("index.crates.io-1", "README", Some(1)),
        found("index.crates.io-1", "foo-1.0.crate", Some(1)),
        found("index.crates.io-1", ".crate", Some(1)),
    ];
    let unrecognized = scan(&mut store, &mut detail, Role::Archive, &listing);
    assert_eq!(unrecognized, 3);
    assert_eq!(labels(&store.identities()), strings(&["foo-1.0.0", "foo-bar-0.2.0-rc.1"]));
    assert_eq!(detail.find_size_registry_archive("foo-1.0.0"), 10);
    assert_eq!(detail.find_size_registry_archive("foo-bar-0.2.0-rc.1"), 20);
    assert_eq!(detail.registry_crates_archive().len(), 2);
    assert_eq!(detail.registry_crates_source().len(), 0);
    let first = ArtifactIdentity::registry("foo".to_string(), "1.0.0".to_string());
    let place = store.locate(&first).expect("installed");
    assert_eq!(place.archive, strings(&["index.crates.io-1/foo-1.0.0.crate"]));
    assert!(place.source.is_empty());
}

#[test]
fn mirrors_contribute_to_one_artifact() {
    let mut store = Store::new(SourceKind::Registry);
    let mut detail = CrateDetail::new();
    let archives = vec![found("a", "foo-1.0.0.crate", Some(10)), found("b", "foo-1.0.0.crate", Some(11))];
    let sources = vec![
        found("a", "foo-1.0.0", Some(100)),
        found("b", "foo-1.0.0", None),
        found("b", "bar-2.0.0", Some(7)),
        found("b", ".cache", Some(7)),
    ];
    assert_eq!(scan(&mut store, &mut detail, Role::Archive, &archives), 0);
    assert_eq!(scan(&mut store, &mut detail, Role::Source, &sources), 1);
    assert_eq!(labels(&store.identities()), strings(&["foo-1.0.0", "bar-2.0.0"]));
    assert_eq!(detail.find_size_registry_archive("foo-1.0.0"), 21);
    assert_eq!(detail.find_size_registry_source("foo-1.0.0"), 100);
    assert_eq!(detail.find_size_registry_source("bar-2.0.0"), 7);
    let foo = ArtifactIdentity::registry("foo".to_string(), "1.0.0".to_string());
    let place = store.locate(&foo).expect("installed");
    assert_eq!(place.archive, strings(&["a/foo-1.0.0.crate", "b/foo-1.0.0.crate"]));
    assert_eq!(place.source, strings(&["a/foo-1.0.0", "b/foo-1.0.0"]));
}

#[test]
fn an_artifact_without_measured_size_is_installed_with_size_zero() {
    let mut store = Store::new(SourceKind::Registry);
    let mut detail = CrateDetail::new();
    let sources = vec![found("a", "foo-1.0.0", None)];
    assert_eq!(scan(&mut store, &mut detail, Role::Source, &sources), 0);
    assert_eq!(store.len(), 1);
    assert_eq!(detail.find_size_registry_source("foo-1.0.0"), 0);
    assert_eq!(detail.registry_crates_source().len(), 0);
}

#[test]
fn a_size_that_does_not_fit_is_not_recorded() {
    let mut store = Store::new(SourceKind::Registry);
    let mut detail = CrateDetail::new();
    let sources = vec![found("a", "foo-1.0.0", Some(u64::MAX)), found("b", "foo-1.0.0", Some(1))];
    assert_eq!(scan(&mut store, &mut detail, Role::Source, &sources), 0);
    assert_eq!(detail.find_size_registry_source("foo-1.0.0"), u64::MAX);
}

#[test]
fn git_checkouts_and_stores() {
    let mut store = Store::new(SourceKind::Git);
    let mut detail = CrateDetail::new();
    let checkouts = vec![
        found("serde-0123456789abcdef", "abc1234", Some(40)),
        found("serde-0123456789abcdef", "def5678", Some(41)),
        found("my-repo-fedcba9876543210", "0011223", Some(5)),
    ];
    let stores =
        vec![found("", "serde-0123456789abcdef", Some(4000)), found("", "my-repo-fedcba9876543210", Some(500))];
    assert_eq!(scan(&mut store, &mut detail, Role::Source, &checkouts), 0);
    assert_eq!(scan(&mut store, &mut detail, Role::Archive, &stores), 0);
    assert_eq!(
        labels(&store.identities()),
        strings(&["serde-abc1234", "serde-def5678", "my-repo-0011223"])
    );
    assert_eq!(detail.find_size_git_source("serde-abc1234"), 40);
    assert_eq!(detail.find_size_git_source("serde-def5678"), 41);
    assert_eq!(detail.find_size_git_archive("serde"), 4000);
    assert_eq!(detail.find_size_git_archive("my-repo"), 500);
    assert_eq!(detail.find_size_git_archive("serde-abc1234"), 0);
    let id = ArtifactIdentity::git("serde".to_string(), "abc1234".to_string());
    let place = store.locate(&id).expect("installed");
    assert!(place.archive.is_empty());
    assert_eq!(place.source, strings(&["serde-0123456789abcdef/abc1234"]));
}

#[test]
fn repository_name_drops_the_fingerprint() {
    assert_eq!(repository_of("serde-0123456789abcdef"), "serde");
    assert_eq!(repository_of("my-repo-fedcba"), "my-repo");
    assert_eq!(repository_of("plain"), "plain");
    assert_eq!(repository_of("-abc"), "");
    assert_eq!(repository_of(""), "");
}

#[test]
fn identity_of_one_entry() {
    let entry = found("m", "foo-1.0.0.crate", None);
    let id = identity_of(SourceKind::Registry, Role::Archive, &entry).expect("recognized");
    assert!(id.same(&ArtifactIdentity::registry("foo".to_string(), "1.0.0".to_string())));
    assert!(identity_of(SourceKind::Registry, Role::Source, &entry).is_none());
    assert!(identity_of(SourceKind::Git, Role::Archive, &entry).is_none());
    let id = identity_of(SourceKind::Git, Role::Source, &found("repo-abc", "rev", None)).expect("recognized");
    assert!(id.same(&ArtifactIdentity::git("repo".to_string(), "rev".to_string())));
}
