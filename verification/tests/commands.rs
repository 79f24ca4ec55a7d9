use cargo_trim::artifact::ArtifactIdentity;
use cargo_trim::command::list::{
    crate_list_type, list_all, list_old, list_old_orphan, list_orphan, list_used, CrateTable, List,
    Listing, Warning,
};
use cargo_trim::command::registry::{
    all_clean_registry, confirmed, light_cleanup_folders, light_cleanup_registry,
    old_clean_registry, old_orphan_clean_registry, orphan_clean_registry, query_size_registry,
    remove_crates, targets_named, top_crates_registry, Clean, Registry, RegistryAction, Stage,
};
use cargo_trim::config_file::{query_subcommand, ConfigFile, QueryFlags};
use cargo_trim::crate_detail::{CrateDetail, Footprint, Role, SourceKind};
use cargo_trim::dir_path::{force_remove, wipe_directory, CacheFolder, FolderSizes, QueryLine};
use cargo_trim::list_crate::CrateList;
use cargo_trim::reference::{ReferenceEntry, ReferenceSet};
use cargo_trim::store::{RemovalSummary, Store};
use cargo_trim::trim::{
    list_subcommand, old_clean, orphan_clean, query_size, remove_all, remove_crate, ListFlags,
    RemoveRequest,
};

fn reg(name: &str, version: &str) -> ArtifactIdentity {
    ArtifactIdentity::registry(name.to_string(), version.to_string())
}

fn git(name: &str, reference: &str) -> ArtifactIdentity {
    ArtifactIdentity::git(name.to_string(), reference.to_string())
}

fn strings(list: &[&str]) -> Vec<String> {
    list.iter().map(|s| s.to_string()).collect()
}

fn labels(list: &[ArtifactIdentity]) -> Vec<String> {
    list.iter().map(|a| a.label()).collect()
}

struct World {
    list: CrateList,
    detail: CrateDetail,
    registry: Store,
    git: Store,
}

/// Registry: foo-1.0.0 (1/10), foo-1.2.0 (2/20), bar-0.9.0 (3/30), bar-1.0.0 (4/40).
/// Git: foo-aaa (source 5), baz-bbb (source 6). Referenced: registry foo, git baz.
fn world(with_projects: bool) -> World {
    let mut detail = CrateDetail::new();
    let mut registry = Store::new(SourceKind::Registry);
    let mut checkouts = Store::new(SourceKind::Git);
    for (name, version, archive, source) in
        [("foo", "1.0.0", 1u64, 10u64), ("foo", "1.2.0", 2, 20), ("bar", "0.9.0", 3, 30), ("bar", "1.0.0", 4, 40)]
    {
        let id = reg(name, version);
        let label = id.label();
        registry.insert(id.duplicate(), Role::Archive, format!("m/{label}.crate"));
        registry.insert(id, Role::Source, format!("m/{label}"));
        detail.add_registry_crate_archive(label.clone(), archive);
        detail.add_registry_crate_source(label, source);
    }
    for (name, reference, source) in [("foo", "aaa", 5u64), ("baz", "bbb", 6)] {
        let id = git(name, reference);
        let label = id.label();
        checkouts.insert(id, Role::Source, format!("{name}-0123/{reference}"));
        detail.add_git_crate_source(label, source);
    }
    detail.add_git_crate_archive("baz".to_string(), 600);
    let projects = if with_projects {
        vec![Some(vec![
            ReferenceEntry { name: "foo".to_string(), version: "1.2.0".to_string(), kind: SourceKind::Registry },
            ReferenceEntry { name: "baz".to_string(), version: "0.1.0".to_string(), kind: SourceKind::Git },
        ])]
    } else {
        vec![]
    };
    let refs = ReferenceSet::aggregate(&projects, vec![], vec![]);
    let list = CrateList::create_list(&registry.identities(), &checkouts.identities(), refs);
    World { list, detail, registry, git: checkouts }
}

fn rows(table: &CrateTable) -> Vec<(String, u128, u128)> {
    table.rows.iter().map(|r| (r.name.clone(), r.size.archive, r.size.source)).collect()
}

fn row(name: &str, archive: u128, source: u128) -> (String, u128, u128) {
    (name.to_string(), archive, source)
}

fn account(summary: &RemovalSummary) -> (u128, u128, usize, Vec<String>) {
    (summary.freed.archive, summary.freed.source, summary.count, labels(&summary.failed))
}

fn check_listing(listing: &Listing, registry_title: &str, git_title: &str) {
    assert_eq!(listing.registry.title, registry_title);
    assert_eq!(listing.git.title, git_title);
    for table in [&listing.registry, &listing.git] {
        let archive: u128 = table.rows.iter().map(|r| r.size.archive).sum();
        let source: u128 = table.rows.iter().map(|r| r.size.source).sum();
        assert_eq!(table.total, Footprint { archive, source });
    }
}

#[test]
fn table_lists_labels_with_sizes_and_total() {
    let w = world(true);
    let table = crate_list_type(&w.detail, w.list.installed_registry(), "REGISTRY INSTALLED CRATE");
    assert_eq!(table.title, "REGISTRY INSTALLED CRATE");
    assert_eq!(
        rows(&table),
        vec![row("foo-1.0.0", 1, 10), row("foo-1.2.0", 2, 20), row("bar-0.9.0", 3, 30), row("bar-1.0.0", 4, 40)]
    );
    assert_eq!(table.total, Footprint { archive: 10, source: 100 });
    let table = crate_list_type(&w.detail, w.list.installed_registry(), "SOMETHING ELSE");
    assert_eq!(table.total, Footprint { archive: 0, source: 0 });
    assert_eq!(table.rows.len(), 4);
    let table = crate_list_type(&w.detail, &vec![], "REGISTRY OLD CRATE");
    assert!(table.rows.is_empty());
    assert_eq!(table.total, Footprint { archive: 0, source: 0 });
}

#[test]
fn listings_of_each_class() {
    let w = world(true);
    let all = list_all(&w.detail, &w.list);
    check_listing(&all, "REGISTRY INSTALLED CRATE", "GIT INSTALLED CRATE");
    assert_eq!(all.registry.rows.len(), 4);
    assert_eq!(rows(&all.git), vec![row("foo-aaa", 0, 5), row("baz-bbb", 0, 6)]);
    assert_eq!(all.warning, None);

    let old = list_old(&w.detail, &w.list);
    check_listing(&old, "REGISTRY OLD CRATE", "GIT OLD CRATE");
    assert_eq!(rows(&old.registry), vec![row("foo-1.0.0", 1, 10), row("bar-0.9.0", 3, 30)]);
    assert!(old.git.rows.is_empty());
    assert_eq!(old.warning, None);

    let both = list_old_orphan(&w.detail, &w.list, false);
    check_listing(&both, "REGISTRY OLD+ORPHAN CRATE", "GIT OLD+ORPHAN CRATE");
    assert_eq!(rows(&both.registry), vec![row("bar-0.9.0", 3, 30)]);
    assert_eq!(both.warning, None);

    let orphan = list_orphan(&w.detail, &w.list, false);
    check_listing(&orphan, "REGISTRY ORPHAN CRATE", "GIT ORPHAN CRATE");
    assert_eq!(rows(&orphan.registry), vec![row("bar-0.9.0", 3, 30), row("bar-1.0.0", 4, 40)]);
    assert_eq!(rows(&orphan.git), vec![row("foo-aaa", 0, 5)]);
    assert_eq!(orphan.registry.total, Footprint { archive: 7, source: 70 });

    let used = list_used(&w.detail, &w.list, false);
    check_listing(&used, "REGISTRY USED CRATE", "GIT USED CRATE");
    assert_eq!(rows(&used.registry), vec![row("foo-1.0.0", 1, 10), row("foo-1.2.0", 2, 20)]);
    assert_eq!(rows(&used.git), vec![row("baz-bbb", 0, 6)]);
}

#[test]
fn listings_warn_where_no_project_is_known() {
    let w = world(false);
    assert_eq!(list_old_orphan(&w.detail, &w.list, true).warning, Some(Warning::OldOrphan));
    assert_eq!(list_orphan(&w.detail, &w.list, true).warning, Some(Warning::Orphan));
    assert_eq!(list_used(&w.detail, &w.list, true).warning, Some(Warning::Used));
    let orphan = list_orphan(&w.detail, &w.list, true);
    assert_eq!(orphan.registry.rows.len(), 4);
    assert_eq!(orphan.git.rows.len(), 2);
    assert!(list_used(&w.detail, &w.list, true).registry.rows.is_empty());
    let both = list_old_orphan(&w.detail, &w.list, true);
    assert_eq!(rows(&both.registry), rows(&list_old(&w.detail, &w.list).registry));
}

#[test]
fn list_run_gives_what_was_asked_in_order() {
    let w = world(true);
    let none = List { all: false, old: false, old_orphan: false, orphan: false, used: false };
    assert!(none.run(&w.detail, &w.list, false).is_empty());
    let some = List { all: true, old: false, old_orphan: false, orphan: true, used: true };
    let out = some.run(&w.detail, &w.list, true);
    let titles: Vec<&str> = out.iter().map(|l| l.registry.title.as_str()).collect();
    assert_eq!(titles, vec!["REGISTRY INSTALLED CRATE", "REGISTRY ORPHAN CRATE", "REGISTRY USED CRATE"]);
    assert_eq!(out[0].warning, None);
    assert_eq!(out[1].warning, Some(Warning::Orphan));
    assert_eq!(out[2].warning, Some(Warning::Used));
    let every = List { all: true, old: true, old_orphan: true, orphan: true, used: true };
    let out = every.run(&w.detail, &w.list, false);
    let titles: Vec<&str> = out.iter().map(|l| l.git.title.as_str()).collect();
    assert_eq!(
        titles,
        vec!["GIT INSTALLED CRATE", "GIT OLD CRATE", "GIT OLD+ORPHAN CRATE", "GIT ORPHAN CRATE", "GIT USED CRATE"]
    );
}

#[test]
fn answers_that_say_yes() {
    for answer in ["y", "Y", "yes", "YES", "Yes", "yEs", " y", "y\n", "\t yes \r\n", "\u{a0}y\u{3000}"] {
        assert!(confirmed(answer), "{answer:?}");
    }
    for answer in ["", " ", "n", "no", "ye", "yess", "y e s", "yes!", "yy", "\u{200b}y", "ja", "y y"] {
        assert!(!confirmed(answer), "{answer:?}");
    }
}

fn flags() -> Registry {
    Registry {
        all: false,
        dry_run: false,
        light_cleanup: false,
        old: false,
        old_orphan: false,
        orphan: false,
        query: false,
        remove: None,
        top: None,
    }
}

fn run_through(flags: &Registry, directory_is_empty: bool, answers: &[&str]) -> Vec<RegistryAction> {
    let mut out = Vec::new();
    let mut stage = Stage::LightCleanup;
    let mut asked = 0;
    let mut answer = "";
    loop {
        let (action, next) = flags.run(stage, answer, directory_is_empty);
        out.push(action);
        match action {
            RegistryAction::Finished => return out,
            RegistryAction::Confirm(_) => {
                answer = answers[asked];
                asked += 1;
            }
            _ => {}
        }
        stage = next;
        assert!(out.len() < 20);
    }
}

#[test]
fn run_with_nothing_asked_finishes_at_once() {
    assert_eq!(run_through(&flags(), false, &[]), vec![RegistryAction::Finished]);
    assert_eq!(flags().run(Stage::Finished, "", true), (RegistryAction::Finished, Stage::Finished));
}

#[test]
fn run_takes_the_steps_in_order() {
    let every = Registry {
        all: true,
        dry_run: true,
        light_cleanup: true,
        old: true,
        old_orphan: true,
        orphan: true,
        query: true,
        remove: Some(strings(&["foo-1.0.0"])),
        top: Some(3),
    };
    assert_eq!(
        run_through(&every, false, &[]),
        vec![
            RegistryAction::LightCleanup,
            RegistryAction::Top(3),
            RegistryAction::Query,
            RegistryAction::Clean(Clean::Old),
            RegistryAction::Clean(Clean::OldOrphan),
            RegistryAction::Clean(Clean::Orphan),
            RegistryAction::Clean(Clean::All),
            RegistryAction::Remove,
            RegistryAction::Finished,
        ]
    );
    assert_eq!(
        run_through(&every, true, &["y", " YES\n"]),
        vec![
            RegistryAction::LightCleanup,
            RegistryAction::Top(3),
            RegistryAction::Query,
            RegistryAction::Clean(Clean::Old),
            RegistryAction::Confirm(Clean::OldOrphan),
            RegistryAction::Clean(Clean::OldOrphan),
            RegistryAction::Confirm(Clean::Orphan),
            RegistryAction::Clean(Clean::Orphan),
            RegistryAction::Clean(Clean::All),
            RegistryAction::Remove,
            RegistryAction::Finished,
        ]
    );
}

#[test]
fn anything_but_yes_ends_the_run() {
    let some = Registry { old: true, old_orphan: true, orphan: true, all: true, ..flags() };
    assert_eq!(
        run_through(&some, true, &["n"]),
        vec![
            RegistryAction::Clean(Clean::Old),
            RegistryAction::Confirm(Clean::OldOrphan),
            RegistryAction::Finished,
        ]
    );
    assert_eq!(
        run_through(&some, true, &["yes", ""]),
        vec![
            RegistryAction::Clean(Clean::Old),
            RegistryAction::Confirm(Clean::OldOrphan),
            RegistryAction::Clean(Clean::OldOrphan),
            RegistryAction::Confirm(Clean::Orphan),
            RegistryAction::Finished,
        ]
    );
    let orphan = Registry { orphan: true, remove: Some(vec![]), ..flags() };
    assert_eq!(
        run_through(&orphan, true, &["y"]),
        vec![
            RegistryAction::Confirm(Clean::Orphan),
            RegistryAction::Clean(Clean::Orphan),
            RegistryAction::Remove,
            RegistryAction::Finished,
        ]
    );
}

#[test]
fn light_cleanup_succeeds_where_both_folders_went() {
    assert_eq!(light_cleanup_folders(), vec![CacheFolder::Src, CacheFolder::IndexCache]);
    for (src, index, expected) in [(true, true, true), (true, false, false), (false, true, false), (false, false, false)] {
        let mut w = world(true);
        assert_eq!(light_cleanup_registry(&mut w.registry, src, index, true), expected);
        assert_eq!(w.registry.len(), 4);
        let place = w.registry.locate(&reg("foo", "1.0.0")).expect("installed");
        assert_eq!(place.source, strings(&["m/foo-1.0.0"]));
    }
}

#[test]
fn light_cleanup_keeps_the_archives() {
    let mut w = world(true);
    w.registry.insert(reg("lone", "1.0.0"), Role::Source, "m/lone-1.0.0".to_string());
    assert!(light_cleanup_registry(&mut w.registry, true, true, false));
    assert_eq!(labels(&w.registry.identities()), strings(&["foo-1.0.0", "foo-1.2.0", "bar-0.9.0", "bar-1.0.0"]));
    let place = w.registry.locate(&reg("foo", "1.0.0")).expect("installed");
    assert_eq!(place.archive, strings(&["m/foo-1.0.0.crate"]));
    assert!(place.source.is_empty());
    assert!(!light_cleanup_registry(&mut w.git, true, false, false));
    assert_eq!(w.git.len(), 2);
    let place = w.git.locate(&git("foo", "aaa")).expect("installed");
    assert_eq!(place.source, strings(&["foo-0123/aaa"]));
}

#[test]
fn top_crates_of_both_roles() {
    let w = world(true);
    let (archives, sources) = top_crates_registry(&w.detail, 2);
    let archives: Vec<(String, u64)> = archives.iter().map(|e| (e.name.clone(), e.size)).collect();
    let sources: Vec<(String, u64)> = sources.iter().map(|e| (e.name.clone(), e.size)).collect();
    assert_eq!(archives, vec![("bar-1.0.0".to_string(), 4), ("bar-0.9.0".to_string(), 3)]);
    assert_eq!(sources, vec![("bar-1.0.0".to_string(), 40), ("bar-0.9.0".to_string(), 30)]);
}

fn line(l: &QueryLine) -> (CacheFolder, Option<usize>, u64) {
    (l.folder, l.crates, l.bytes)
}

fn sizes() -> FolderSizes {
    FolderSizes {
        git: Some(7000),
        checkout: Some(11),
        db: None,
        registry: Some(9000),
        cache: Some(10),
        index: None,
        src: Some(100),
    }
}

#[test]
fn size_report_of_the_registry() {
    let w = world(true);
    let (lines, total) = query_size_registry(&sizes(), &w.list, &w.detail);
    assert_eq!(total, 9000);
    let lines: Vec<_> = lines.iter().map(line).collect();
    assert_eq!(
        lines,
        vec![
            (CacheFolder::Registry, Some(4), 9000),
            (CacheFolder::Cache, Some(4), 10),
            (CacheFolder::Index, None, 0),
            (CacheFolder::Src, Some(4), 100),
        ]
    );
    let unmeasured = FolderSizes { registry: None, ..sizes() };
    assert_eq!(query_size_registry(&unmeasured, &w.list, &w.detail).1, 0);
}

#[test]
fn size_report_by_flags() {
    let w = world(true);
    assert!(query_size(&sizes(), &w.list, (false, false, false)).is_empty());
    let git_lines = vec![(CacheFolder::Git, Some(2), 7000), (CacheFolder::Checkout, None, 11), (CacheFolder::Db, None, 0)];
    let registry_lines = vec![
        (CacheFolder::Registry, Some(4), 9000),
        (CacheFolder::Cache, None, 10),
        (CacheFolder::Index, None, 0),
        (CacheFolder::Src, None, 100),
    ];
    let got: Vec<_> = query_size(&sizes(), &w.list, (false, true, false)).iter().map(line).collect();
    assert_eq!(got, git_lines);
    let got: Vec<_> = query_size(&sizes(), &w.list, (false, false, true)).iter().map(line).collect();
    assert_eq!(got, registry_lines);
    let got: Vec<_> = query_size(&sizes(), &w.list, (true, false, false)).iter().map(line).collect();
    let both: Vec<_> = git_lines.iter().chain(registry_lines.iter()).cloned().collect();
    assert_eq!(got, both);
}

#[test]
fn cleaning_each_class_of_the_registry() {
    let mut w = world(true);
    let s = old_clean_registry(&mut w.registry, &w.list, &w.detail, true, &vec![]);
    assert_eq!(account(&s), (4, 40, 2, vec![]));
    let s = old_orphan_clean_registry(&mut w.registry, &w.list, &w.detail, true, &vec![]);
    assert_eq!(account(&s), (3, 30, 1, vec![]));
    let s = orphan_clean_registry(&mut w.registry, &w.list, &w.detail, true, &vec![]);
    assert_eq!(account(&s), (7, 70, 2, vec![]));
    let s = all_clean_registry(&mut w.registry, &w.list, &w.detail, true, &vec![]);
    assert_eq!(account(&s), (10, 100, 4, vec![]));
    assert_eq!(w.registry.len(), 4);

    let s = old_clean_registry(&mut w.registry, &w.list, &w.detail, false, &vec![true, true]);
    assert_eq!(account(&s), (4, 40, 2, vec![]));
    assert_eq!(labels(&w.registry.identities()), strings(&["foo-1.2.0", "bar-1.0.0"]));
    let s = old_orphan_clean_registry(&mut w.registry, &w.list, &w.detail, false, &vec![true]);
    assert_eq!(account(&s), (0, 0, 0, vec![]));
    let s = orphan_clean_registry(&mut w.registry, &w.list, &w.detail, false, &vec![true, false]);
    assert_eq!(account(&s), (0, 0, 0, strings(&["bar-1.0.0"])));
    let s = all_clean_registry(&mut w.registry, &w.list, &w.detail, false, &vec![true, true, true, true]);
    assert_eq!(account(&s), (6, 60, 2, vec![]));
    assert_eq!(w.registry.len(), 0);
}

#[test]
fn removing_named_artifacts() {
    let w = world(true);
    let targets = targets_named(w.list.installed_registry(), &strings(&["bar-1.0.0", "baz-1.0.0", "foo-1.0.0", "bar-1.0.0", "foo"]));
    assert_eq!(labels(&targets), strings(&["bar-1.0.0", "foo-1.0.0", "bar-1.0.0"]));
    let mut w = world(true);
    let s = remove_crates(&strings(&["baz"]), &w.list, &mut w.registry, &w.detail, false, &vec![true]);
    assert_eq!(account(&s), (0, 0, 0, vec![]));
    assert_eq!(w.registry.len(), 4);
    let names = strings(&["bar-1.0.0", "baz-1.0.0", "foo-1.0.0", "bar-1.0.0"]);
    let planned = remove_crates(&names, &w.list, &mut w.registry, &w.detail, true, &vec![]);
    assert_eq!(account(&planned), (5, 50, 2, vec![]));
    let done = remove_crates(&names, &w.list, &mut w.registry, &w.detail, false, &vec![true, true, true]);
    assert_eq!(account(&done), account(&planned));
    assert_eq!(labels(&w.registry.identities()), strings(&["foo-1.2.0", "bar-0.9.0"]));
}

#[test]
fn old_clean_by_flags() {
    for (app, registry, expected) in [(false, false, 0), (true, false, 2), (false, true, 2), (true, true, 2)] {
        let mut w = world(true);
        let s = old_clean(&w.list, (app, registry), &mut w.registry, &w.detail, false, &vec![true, true]);
        assert_eq!(s.count, expected);
        assert_eq!(w.registry.len(), 4 - expected);
    }
}

#[test]
fn orphan_clean_by_flags() {
    for (app, git, registry, from_registry, from_git) in [
        (false, false, false, 0, 0),
        (true, false, false, 2, 1),
        (false, true, false, 0, 1),
        (false, false, true, 2, 0),
    ] {
        let mut w = world(true);
        let (r, g) = orphan_clean(
            &w.list,
            (app, git, registry),
            &mut w.registry,
            &mut w.git,
            &w.detail,
            false,
            &vec![true, true],
            &vec![true],
        );
        assert_eq!((r.count, g.count), (from_registry, from_git));
        assert_eq!(w.registry.len(), 4 - from_registry);
        assert_eq!(w.git.len(), 2 - from_git);
    }
    let mut w = world(true);
    let (r, g) =
        orphan_clean(&w.list, (true, false, false), &mut w.registry, &mut w.git, &w.detail, true, &vec![], &vec![]);
    assert_eq!(account(&r), (7, 70, 2, vec![]));
    assert_eq!(account(&g), (0, 5, 1, vec![]));
}

#[test]
fn remove_all_by_flags() {
    let mut w = world(true);
    let (r, g) = remove_all(
        &w.list,
        &mut w.registry,
        &mut w.git,
        (false, true, false),
        &w.detail,
        false,
        &vec![true; 4],
        &vec![true, false],
    );
    assert_eq!(account(&r), (0, 0, 0, vec![]));
    assert_eq!(account(&g), (0, 5, 1, strings(&["baz-bbb"])));
    let (r, g) =
        remove_all(&w.list, &mut w.registry, &mut w.git, (true, false, false), &w.detail, true, &vec![], &vec![]);
    assert_eq!(account(&r), (10, 100, 4, vec![]));
    assert_eq!(account(&g), (0, 6, 1, vec![]));
}

#[test]
fn remove_crate_takes_the_first_value_given() {
    let w = world(true);
    let request = RemoveRequest { app: None, git: Some("foo-aaa".to_string()), registry: Some("foo-1.0.0".to_string()) };
    let (r, g) = request.targets(&w.list);
    assert!(r.is_empty());
    assert_eq!(labels(&g), strings(&["foo-aaa"]));
    let request = RemoveRequest { app: None, git: None, registry: Some("foo-1.0.0".to_string()) };
    let (r, g) = request.targets(&w.list);
    assert_eq!(labels(&r), strings(&["foo-1.0.0"]));
    assert!(g.is_empty());
    let request = RemoveRequest { app: None, git: None, registry: None };
    let (r, g) = request.targets(&w.list);
    assert!(r.is_empty() && g.is_empty());
}

#[test]
fn remove_crate_from_both_caches() {
    let mut w = world(true);
    w.git.insert(git("foo", "1.0.0"), Role::Source, "foo-0123/1.0.0".to_string());
    w.detail.add_git_crate_source("foo-1.0.0".to_string(), 9);
    let list = CrateList::create_list(
        &w.registry.identities(),
        &w.git.identities(),
        ReferenceSet::aggregate(&vec![Some(vec![])], vec![], vec![]),
    );
    let request = RemoveRequest { app: Some("foo-1.0.0".to_string()), git: None, registry: None };
    let (r, g) = remove_crate(&list, &request, &mut w.registry, &mut w.git, &w.detail, false, &vec![true], &vec![true]);
    assert_eq!(account(&r), (1, 10, 1, vec![]));
    assert_eq!(account(&g), (0, 9, 1, vec![]));
    let absent = RemoveRequest { app: Some("baz".to_string()), git: None, registry: None };
    let (r, g) = remove_crate(&list, &absent, &mut w.registry, &mut w.git, &w.detail, false, &vec![true], &vec![true]);
    assert_eq!(account(&r), (0, 0, 0, vec![]));
    assert_eq!(account(&g), (0, 0, 0, vec![]));
}

#[test]
fn list_subcommand_by_flags() {
    let w = world(true);
    let off = ListFlags { list: false, old: true, orphan: true, used: true };
    assert!(list_subcommand(&off, &w.list).is_empty());
    let old = ListFlags { list: true, old: true, orphan: true, used: true };
    assert_eq!(list_subcommand(&old, &w.list), strings(&["foo-1.0.0", "bar-0.9.0"]));
    let orphan = ListFlags { list: true, old: false, orphan: true, used: true };
    assert_eq!(list_subcommand(&orphan, &w.list), strings(&["bar-0.9.0", "bar-1.0.0", "foo-aaa"]));
    let used = ListFlags { list: true, old: false, orphan: false, used: true };
    assert_eq!(list_subcommand(&used, &w.list), strings(&["foo-1.0.0", "foo-1.2.0", "baz-bbb"]));
    let all = ListFlags { list: true, old: false, orphan: false, used: false };
    assert_eq!(
        list_subcommand(&all, &w.list),
        strings(&["foo-1.0.0", "foo-1.2.0", "bar-0.9.0", "bar-1.0.0", "foo-aaa", "baz-bbb"])
    );
}

#[test]
fn query_subcommand_by_flags() {
    let config =
        ConfigFile { directory: strings(&["/a", "/b"]), added: strings(&["x"]), removed: strings(&["y", "z"]) };
    let off = QueryFlags { query: false, directory: true, added: true, removed: true };
    assert!(query_subcommand(&off, &config).is_empty());
    let all = QueryFlags { query: true, directory: true, added: true, removed: true };
    assert_eq!(query_subcommand(&all, &config), strings(&["/a", "/b", "x", "y", "z"]));
    let some = QueryFlags { query: true, directory: false, added: true, removed: false };
    assert_eq!(query_subcommand(&some, &config), strings(&["x"]));
    let none = QueryFlags { query: true, directory: false, added: false, removed: false };
    assert!(query_subcommand(&none, &config).is_empty());
}

#[test]
fn folders_by_name() {
    assert_eq!(wipe_directory("git"), Some(CacheFolder::Git));
    assert_eq!(wipe_directory("checkouts"), Some(CacheFolder::Checkout));
    assert_eq!(wipe_directory("db"), Some(CacheFolder::Db));
    assert_eq!(wipe_directory("registry"), Some(CacheFolder::Registry));
    assert_eq!(wipe_directory("cache"), Some(CacheFolder::Cache));
    assert_eq!(wipe_directory("index"), Some(CacheFolder::Index));
    assert_eq!(wipe_directory("src"), Some(CacheFolder::Src));
    assert_eq!(wipe_directory("checkout"), None);
    assert_eq!(wipe_directory(""), None);
    assert_eq!(wipe_directory("Git"), None);
}

#[test]
fn forced_removal_by_flags() {
    assert!(force_remove((false, false, false)).is_empty());
    assert_eq!(force_remove((false, false, true)), vec![CacheFolder::Cache, CacheFolder::Src]);
    assert_eq!(force_remove((false, true, false)), vec![CacheFolder::Checkout, CacheFolder::Db]);
    assert_eq!(
        force_remove((true, false, false)),
        vec![CacheFolder::Cache, CacheFolder::Src, CacheFolder::Checkout, CacheFolder::Db]
    );
}

#[test]
fn config_file_is_read_line_by_line() {
    let text = "directory /home/me/a project\nadded serde\nunknown x\n\ndirectory /b\nremoved libc\nremoved \ndirectory\n";
    let config = ConfigFile::parse(text);
    assert_eq!(config.directory, strings(&["/home/me/a project", "/b"]));
    assert_eq!(config.added, strings(&["serde"]));
    assert_eq!(config.removed, strings(&["libc", ""]));
    let empty = ConfigFile::parse("");
    assert!(empty.directory.is_empty() && empty.added.is_empty() && empty.removed.is_empty());
}

#[test]
fn config_file_is_written_as_it_is_read() {
    let config =
        ConfigFile { directory: strings(&["/a", "/b c"]), added: strings(&["x"]), removed: strings(&["y", "z"]) };
    let text = config.render();
    assert_eq!(text, "directory /a\ndirectory /b c\nadded x\nremoved y\nremoved z\n");
    let back = ConfigFile::parse(&text);
    assert_eq!(back.directory, config.directory);
    assert_eq!(back.added, config.added);
    assert_eq!(back.removed, config.removed);
    assert_eq!(ConfigFile::new().render(), "");
}

#[test]
fn tracking_a_project_twice_changes_nothing() {
    let mut config = ConfigFile::new();
    assert!(config.track("/a".to_string()));
    assert!(config.track("/b".to_string()));
    assert!(!config.track("/a".to_string()));
    assert_eq!(config.directory, strings(&["/a", "/b"]));
    assert!(config.added.is_empty());
}
