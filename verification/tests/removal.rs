use cargo_trim::artifact::ArtifactIdentity;
use cargo_trim::crate_detail::{CrateDetail, Footprint, Role, SourceKind};
use cargo_trim::store::{RemovalSummary, Store};

fn reg(name: &str, version: &str) -> ArtifactIdentity {
    ArtifactIdentity::registry(name.to_string(), version.to_string())
}

fn labels(list: &[ArtifactIdentity]) -> Vec<String> {
    list.iter().map(|a| a.label()).collect()
}

fn strings(list: &[&str]) -> Vec<String> {
    list.iter().map(|s| s.to_string()).collect()
}

/// foo-1.0.0 (archive 10, source 100), foo-1.2.0 (20, 200), bar-0.9.0 (source 5 only).
fn sample() -> (Store, CrateDetail) {
    let mut store = Store::new(SourceKind::Registry);
    let mut detail = CrateDetail::new();
    for (name, version, archive, source) in
        [("foo", "1.0.0", Some(10u64), 100u64), ("foo", "1.2.0", Some(20), 200), ("bar", "0.9.0", None, 5)]
    {
        let id = reg(name, version);
        let label = id.label();
        if let Some(bytes) = archive {
            store.insert(id.duplicate(), Role::Archive, format!("mirror/{label}.crate"));
            detail.add_registry_crate_archive(label.clone(), bytes);
        }
        store.insert(id, Role::Source, format!("mirror/{label}"));
        detail.add_registry_crate_source(label, source);
    }
    (store, detail)
}

fn account(summary: &RemovalSummary) -> (u128, u128, usize, Vec<String>) {
    (summary.freed.archive, summary.freed.source, summary.count, labels(&summary.failed))
}

#[test]
fn store_knows_what_was_inserted() {
    let (store, _) = sample();
    assert_eq!(store.len(), 3);
    assert_eq!(labels(&store.identities()), strings(&["foo-1.0.0", "foo-1.2.0", "bar-0.9.0"]));
    assert!(store.contains(&reg("foo", "1.0.0")));
    assert!(!store.contains(&reg("baz", "1.0.0")));
    let place = store.locate(&reg("foo", "1.0.0")).expect("installed");
    assert_eq!(place.archive, strings(&["mirror/foo-1.0.0.crate"]));
    assert_eq!(place.source, strings(&["mirror/foo-1.0.0"]));
    let place = store.locate(&reg("bar", "0.9.0")).expect("installed");
    assert!(place.archive.is_empty());
    assert!(store.locate(&reg("baz", "1.0.0")).is_none());
    assert!(matches!(store.kind(), SourceKind::Registry));
}

#[test]
fn paths_of_one_artifact_accumulate() {
    let mut store = Store::new(SourceKind::Registry);
    store.insert(reg("foo", "1.0.0"), Role::Archive, "a/foo-1.0.0.crate".to_string());
    store.insert(reg("foo", "1.0.0"), Role::Archive, "b/foo-1.0.0.crate".to_string());
    store.insert(reg("foo", "1.0.0"), Role::Source, "a/foo-1.0.0".to_string());
    assert_eq!(store.len(), 1);
    let place = store.locate(&reg("foo", "1.0.0")).expect("installed");
    assert_eq!(place.archive, strings(&["a/foo-1.0.0.crate", "b/foo-1.0.0.crate"]));
    assert_eq!(place.source, strings(&["a/foo-1.0.0"]));
}

#[test]
fn removing_an_absent_package_has_no_effect() {
    let (mut store, detail) = sample();
    let baz = reg("baz", "1.0.0");
    for dry_run in [true, false] {
        for deleted in [true, false] {
            let summary = store.remove_crate(&detail, &baz, dry_run, deleted);
            assert_eq!(account(&summary), (0, 0, 0, vec![]));
            assert_eq!(store.len(), 3);
        }
    }
    let summary = store.remove_crate_list(&detail, &vec![baz], false, &vec![true]);
    assert_eq!(account(&summary), (0, 0, 0, vec![]));
    assert_eq!(labels(&store.identities()), strings(&["foo-1.0.0", "foo-1.2.0", "bar-0.9.0"]));
}

#[test]
fn removing_one_artifact_counts_its_recorded_bytes() {
    let (mut store, detail) = sample();
    let summary = store.remove_crate(&detail, &reg("foo", "1.0.0"), false, true);
    assert_eq!(account(&summary), (10, 100, 1, vec![]));
    assert_eq!(labels(&store.identities()), strings(&["foo-1.2.0", "bar-0.9.0"]));
    assert!(store.locate(&reg("foo", "1.0.0")).is_none());
    let place = store.locate(&reg("foo", "1.2.0")).expect("still installed");
    assert_eq!(place.archive, strings(&["mirror/foo-1.2.0.crate"]));
}

#[test]
fn removing_twice_is_idempotent() {
    let (mut store, detail) = sample();
    let target = reg("foo", "1.0.0");
    let first = store.remove_crate(&detail, &target, false, true);
    assert_eq!(first.count, 1);
    let second = store.remove_crate(&detail, &target, false, true);
    assert_eq!(account(&second), (0, 0, 0, vec![]));
    let third = store.remove_crate_list(&detail, &vec![target], false, &vec![true]);
    assert_eq!(account(&third), (0, 0, 0, vec![]));
    assert_eq!(store.len(), 2);
}

#[test]
fn dry_run_reports_what_a_real_run_reports() {
    let targets = vec![reg("foo", "1.0.0"), reg("baz", "1.0.0"), reg("bar", "0.9.0"), reg("foo", "1.0.0")];
    let (mut dry, detail) = sample();
    let planned = dry.remove_crate_list(&detail, &targets, true, &vec![]);
    assert_eq!(account(&planned), (10, 105, 2, vec![]));
    assert_eq!(dry.len(), 3);
    let (mut real, detail) = sample();
    let done = real.remove_crate_list(&detail, &targets, false, &vec![true, true, true, true]);
    assert_eq!(account(&done), account(&planned));
    assert_eq!(labels(&real.identities()), strings(&["foo-1.2.0"]));
}

#[test]
fn dry_run_leaves_the_store_alone() {
    let (mut store, detail) = sample();
    let summary = store.remove_crate(&detail, &reg("foo", "1.2.0"), true, false);
    assert_eq!(account(&summary), (20, 200, 1, vec![]));
    assert_eq!(store.len(), 3);
    assert!(store.contains(&reg("foo", "1.2.0")));
    let again = store.remove_crate(&detail, &reg("foo", "1.2.0"), true, false);
    assert_eq!(account(&again), (20, 200, 1, vec![]));
}

#[test]
fn a_failed_deletion_does_not_stop_the_others() {
    let (mut store, detail) = sample();
    let targets = vec![reg("foo", "1.0.0"), reg("foo", "1.2.0"), reg("bar", "0.9.0")];
    let summary = store.remove_crate_list(&detail, &targets, false, &vec![true, false, true]);
    assert_eq!(account(&summary), (10, 105, 2, strings(&["foo-1.2.0"])));
    assert_eq!(labels(&store.identities()), strings(&["foo-1.2.0"]));
}

#[test]
fn a_target_without_outcome_was_not_deleted() {
    let (mut store, detail) = sample();
    let targets = vec![reg("foo", "1.0.0"), reg("foo", "1.2.0")];
    let summary = store.remove_crate_list(&detail, &targets, false, &vec![true]);
    assert_eq!(account(&summary), (10, 100, 1, strings(&["foo-1.2.0"])));
    assert_eq!(labels(&store.identities()), strings(&["foo-1.2.0", "bar-0.9.0"]));
}

#[test]
fn an_artifact_without_recorded_size_counts_zero_bytes() {
    let mut store = Store::new(SourceKind::Registry);
    store.insert(reg("foo", "1.0.0"), Role::Source, "m/foo-1.0.0".to_string());
    let detail = CrateDetail::new();
    let summary = store.remove_crate(&detail, &reg("foo", "1.0.0"), false, true);
    assert_eq!(account(&summary), (0, 0, 1, vec![]));
    assert_eq!(store.len(), 0);
}

#[test]
fn git_removal_never_counts_the_shared_store() {
    let mut store = Store::new(SourceKind::Git);
    let id = ArtifactIdentity::git("serde".to_string(), "abc1234".to_string());
    store.insert(id.duplicate(), Role::Source, "serde-0123456789abcdef/abc1234".to_string());
    let mut detail = CrateDetail::new();
    detail.add_git_crate_source("serde-abc1234".to_string(), 40);
    detail.add_git_crate_archive("serde".to_string(), 4000);
    let summary = store.remove_crate(&detail, &id, false, true);
    assert_eq!(summary.freed, Footprint { archive: 0, source: 40 });
    assert_eq!(summary.count, 1);
}

#[test]
fn forgetting_sources_keeps_what_has_an_archive() {
    let (mut store, _) = sample();
    store.forget_sources();
    assert_eq!(labels(&store.identities()), strings(&["foo-1.0.0", "foo-1.2.0"]));
    let place = store.locate(&reg("foo", "1.0.0")).expect("installed");
    assert_eq!(place.archive, strings(&["mirror/foo-1.0.0.crate"]));
    assert!(place.source.is_empty());
}

#[test]
fn git_artifacts_never_own_an_archive() {
    let mut store = Store::new(SourceKind::Git);
    let id = ArtifactIdentity::git("serde".to_string(), "abc1234".to_string());
    store.insert(id.duplicate(), Role::Archive, "serde-0123456789abcdef".to_string());
    assert_eq!(store.len(), 0);
    store.insert(id.duplicate(), Role::Source, "serde-0123456789abcdef/abc1234".to_string());
    store.insert(id.duplicate(), Role::Archive, "serde-0123456789abcdef".to_string());
    let place = store.locate(&id).expect("installed");
    assert!(place.archive.is_empty());
    assert_eq!(place.source, strings(&["serde-0123456789abcdef/abc1234"]));
    store.forget_sources();
    assert_eq!(store.len(), 1);
    assert!(store.locate(&id).expect("installed").archive.is_empty());
}
