use cargo_trim::artifact::ArtifactIdentity;
use cargo_trim::crate_detail::SourceKind;
use cargo_trim::list_crate::CrateList;
use cargo_trim::reference::{ReferenceEntry, ReferenceSet};

fn reg(name: &str, version: &str) -> ArtifactIdentity {
    ArtifactIdentity::registry(name.to_string(), version.to_string())
}

fn git(name: &str, reference: &str) -> ArtifactIdentity {
    ArtifactIdentity::git(name.to_string(), reference.to_string())
}

fn locked(name: &str, version: &str, kind: SourceKind) -> ReferenceEntry {
    ReferenceEntry { name: name.to_string(), version: version.to_string(), kind }
}

fn labels(list: &[ArtifactIdentity]) -> Vec<String> {
    list.iter().map(|a| a.label()).collect()
}

fn names(list: &[ArtifactIdentity]) -> Vec<String> {
    let mut out: Vec<String> = Vec::new();
    for a in list {
        if !out.contains(&a.name) {
            out.push(a.name.clone());
        }
    }
    out
}

fn locking(entries: Vec<ReferenceEntry>) -> ReferenceSet {
    ReferenceSet::aggregate(&vec![Some(entries)], vec![], vec![])
}

fn strings(list: &[&str]) -> Vec<String> {
    list.iter().map(|s| s.to_string()).collect()
}

#[test]
fn newer_version_makes_the_older_old() {
    let installed = vec![reg("foo", "1.0.0"), reg("foo", "1.2.0")];
    let refs = locking(vec![locked("foo", "1.2.0", SourceKind::Registry)]);
    let list = CrateList::create_list(&installed, &vec![], refs);
    assert_eq!(labels(&list.old_registry()), strings(&["foo-1.0.0"]));
    assert_eq!(names(&list.used_registry()), strings(&["foo"]));
    assert_eq!(labels(&list.used_registry()), strings(&["foo-1.0.0", "foo-1.2.0"]));
    assert!(list.orphan_registry().is_empty());
    assert!(list.list_old_orphan_registry().is_empty());
    assert!(!list.directory_is_empty());
}

#[test]
fn unreferenced_single_version_is_orphan_and_not_old() {
    let installed = vec![reg("bar", "0.9.0")];
    let refs = locking(vec![locked("foo", "1.2.0", SourceKind::Registry)]);
    let list = CrateList::create_list(&installed, &vec![], refs);
    assert_eq!(labels(&list.orphan_registry()), strings(&["bar-0.9.0"]));
    assert!(list.old_registry().is_empty());
    assert!(list.list_old_orphan_registry().is_empty());
    assert!(list.used_registry().is_empty());
    assert!(!list.directory_is_empty());
}

#[test]
fn no_tracked_project_makes_everything_orphan() {
    let installed = vec![reg("foo", "1.0.0"), reg("foo", "1.2.0"), reg("bar", "0.9.0")];
    let checkouts = vec![git("baz", "abc123")];
    let refs = ReferenceSet::aggregate(&vec![], strings(&["foo"]), vec![]);
    assert!(refs.directory_is_empty());
    let list = CrateList::create_list(&installed, &checkouts, refs);
    assert!(list.directory_is_empty());
    assert_eq!(labels(&list.orphan_registry()), labels(list.installed_registry()));
    assert_eq!(labels(&list.orphan_git()), labels(list.installed_git()));
    assert!(list.used_registry().is_empty());
    assert!(list.used_git().is_empty());
    assert_eq!(labels(&list.list_old_orphan_registry()), labels(&list.old_registry()));
    assert_eq!(labels(&list.old_registry()), strings(&["foo-1.0.0"]));
}

#[test]
fn only_the_greatest_version_is_not_old() {
    let installed = vec![
        reg("foo", "1.0.0-rc.1"),
        reg("foo", "1.0.0"),
        reg("foo", "0.9.9"),
        reg("foo", "1.0.0-alpha"),
        reg("bar", "2.0.0"),
        reg("bar", "10.0.0"),
        reg("bar", "9.0.0"),
    ];
    let list = CrateList::create_list(&installed, &vec![], locking(vec![]));
    assert_eq!(
        labels(&list.old_registry()),
        strings(&["foo-1.0.0-rc.1", "foo-0.9.9", "foo-1.0.0-alpha", "bar-2.0.0", "bar-9.0.0"])
    );
}

#[test]
fn versions_of_equal_precedence_are_both_kept() {
    let installed = vec![reg("foo", "1.0.0+a"), reg("foo", "1.0.0+b"), reg("foo", "0.1.0")];
    let list = CrateList::create_list(&installed, &vec![], locking(vec![]));
    assert_eq!(labels(&list.old_registry()), strings(&["foo-0.1.0"]));
}

#[test]
fn an_artifact_found_twice_is_installed_once() {
    let installed = vec![reg("foo", "1.0.0"), reg("foo", "1.0.0"), reg("foo", "1.0.0")];
    let list = CrateList::create_list(&installed, &vec![], locking(vec![]));
    assert_eq!(labels(list.installed_registry()), strings(&["foo-1.0.0"]));
    assert!(list.old_registry().is_empty());
}

#[test]
fn artifacts_of_the_other_cache_are_left_out() {
    let installed = vec![reg("foo", "1.0.0"), git("bar", "abc")];
    let checkouts = vec![git("baz", "def"), reg("qux", "1.0.0")];
    let list = CrateList::create_list(&installed, &checkouts, locking(vec![]));
    assert_eq!(labels(list.installed_registry()), strings(&["foo-1.0.0"]));
    assert_eq!(labels(list.installed_git()), strings(&["baz-def"]));
}

#[test]
fn used_goes_by_name_and_cache_not_by_version() {
    let installed = vec![reg("foo", "1.0.0"), reg("bar", "1.0.0")];
    let checkouts = vec![git("foo", "abc"), git("bar", "abc")];
    let refs = locking(vec![
        locked("foo", "9.9.9", SourceKind::Registry),
        locked("bar", "1.0.0", SourceKind::Git),
    ]);
    let list = CrateList::create_list(&installed, &checkouts, refs);
    assert_eq!(labels(&list.used_registry()), strings(&["foo-1.0.0"]));
    assert_eq!(labels(&list.orphan_registry()), strings(&["bar-1.0.0"]));
    assert_eq!(labels(&list.used_git()), strings(&["bar-abc"]));
    assert_eq!(labels(&list.orphan_git()), strings(&["foo-abc"]));
}

#[test]
fn git_references_are_ordered_only_where_they_are_versions() {
    let checkouts = vec![git("foo", "abc"), git("foo", "def"), git("foo", "1.0.0"), git("foo", "2.0.0")];
    let list = CrateList::create_list(&vec![], &checkouts, locking(vec![]));
    assert_eq!(labels(&list.old_git()), strings(&["foo-1.0.0"]));
    let checkouts = vec![git("foo", "abc"), git("foo", "def")];
    let list = CrateList::create_list(&vec![], &checkouts, locking(vec![]));
    assert!(list.old_git().is_empty());
    assert!(list.list_old_orphan_git().is_empty());
}

#[test]
fn overrides_add_to_and_take_from_the_reference_set() {
    let installed = vec![reg("foo", "1.0.0"), reg("bar", "1.0.0"), reg("baz", "1.0.0")];
    let refs = ReferenceSet::aggregate(
        &vec![Some(vec![locked("foo", "1.0.0", SourceKind::Registry), locked("baz", "1.0.0", SourceKind::Registry)])],
        strings(&["bar", "baz"]),
        strings(&["foo", "baz"]),
    );
    assert!(!refs.mentions(&"foo".to_string(), SourceKind::Registry));
    assert!(refs.mentions(&"bar".to_string(), SourceKind::Registry));
    assert!(refs.mentions(&"bar".to_string(), SourceKind::Git));
    assert!(!refs.mentions(&"baz".to_string(), SourceKind::Registry));
    let list = CrateList::create_list(&installed, &vec![], refs);
    assert_eq!(labels(&list.used_registry()), strings(&["bar-1.0.0"]));
    assert_eq!(labels(&list.orphan_registry()), strings(&["foo-1.0.0", "baz-1.0.0"]));
}

#[test]
fn skipped_projects_are_counted_and_the_others_read() {
    let refs = ReferenceSet::aggregate(
        &vec![
            None,
            Some(vec![locked("foo", "1.0.0", SourceKind::Registry)]),
            None,
            Some(vec![locked("bar", "1.0.0", SourceKind::Git)]),
        ],
        vec![],
        vec![],
    );
    assert_eq!(refs.skipped(), 2);
    assert!(!refs.directory_is_empty());
    assert!(refs.mentions(&"foo".to_string(), SourceKind::Registry));
    assert!(!refs.mentions(&"foo".to_string(), SourceKind::Git));
    assert!(refs.mentions(&"bar".to_string(), SourceKind::Git));
    let list = CrateList::create_list(&vec![], &vec![], refs);
    assert_eq!(list.skipped_projects(), 2);
}

#[test]
fn classes_partition_the_installed_artifacts() {
    let installed = vec![
        reg("a", "1.0.0"),
        reg("a", "2.0.0"),
        reg("b", "1.0.0"),
        reg("b", "1.0.1"),
        reg("c", "0.1.0"),
    ];
    let refs = locking(vec![locked("a", "2.0.0", SourceKind::Registry)]);
    let list = CrateList::create_list(&installed, &vec![], refs);
    let all = labels(list.installed_registry());
    let old = labels(&list.old_registry());
    let used = labels(&list.used_registry());
    let orphan = labels(&list.orphan_registry());
    let both = labels(&list.list_old_orphan_registry());
    for label in &all {
        assert!(used.contains(label) != orphan.contains(label));
        assert_eq!(both.contains(label), old.contains(label) && orphan.contains(label));
    }
    assert_eq!(used.len() + orphan.len(), all.len());
    assert_eq!(old, strings(&["a-1.0.0", "b-1.0.0"]));
    assert_eq!(both, strings(&["b-1.0.0"]));
}

#[test]
fn identities_compare_by_all_three_parts() {
    assert!(reg("foo", "1.0.0").same(&reg("foo", "1.0.0")));
    assert!(!reg("foo", "1.0.0").same(&reg("foo", "1.0.1")));
    assert!(!reg("foo", "1.0.0").same(&reg("fo", "1.0.0")));
    assert!(!reg("foo", "1.0.0").same(&git("foo", "1.0.0")));
    let bare = ArtifactIdentity { name: "foo".to_string(), version: None, kind: SourceKind::Git };
    assert!(bare.same(&bare.duplicate()));
    assert!(!bare.same(&git("foo", "")));
    assert_eq!(bare.label(), "foo");
    assert_eq!(git("foo", "").label(), "foo-");
    assert_eq!(reg("foo-bar", "1.0.0-rc.1").label(), "foo-bar-1.0.0-rc.1");
}

#[test]
fn old_and_greatest_versions_make_up_the_installed() {
    let installed = vec![
        reg("a", "1.0.0"),
        reg("a", "2.0.0-rc.1"),
        reg("a", "2.0.0"),
        reg("b", "0.1.0"),
        reg("c", "3.0.0"),
        reg("c", "3.0.0+build"),
        reg("c", "2.9.9"),
    ];
    let list = CrateList::create_list(&installed, &vec![], locking(vec![]));
    let old = labels(&list.old_registry());
    let greatest = strings(&["a-2.0.0", "b-0.1.0", "c-3.0.0", "c-3.0.0+build"]);
    for label in labels(list.installed_registry()) {
        assert!(old.contains(&label) != greatest.contains(&label), "{label}");
    }
    assert_eq!(old.len() + greatest.len(), installed.len());
}
