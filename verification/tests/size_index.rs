use cargo_trim::crate_detail::{
    megabytes, CrateDetail, Footprint, Megabytes, Role, SizeMap, SourceKind,
};

fn names(list: &[cargo_trim::crate_detail::SizeEntry]) -> Vec<(String, u64)> {
    list.iter().map(|e| (e.name.clone(), e.size)).collect()
}

#[test]
fn unknown_label_has_size_zero() {
    let detail = CrateDetail::new();
    assert_eq!(detail.find_size_registry_source("never-1.0.0"), 0);
    assert_eq!(detail.find_size_registry_archive("never-1.0.0"), 0);
    assert_eq!(detail.find_size_git_source("never"), 0);
    assert_eq!(detail.find_size_git_archive("never"), 0);
    assert_eq!(detail.find_size_registry_all("never-1.0.0"), Footprint { archive: 0, source: 0 });
    assert_eq!(detail.find_size_git_all("never"), Footprint { archive: 0, source: 0 });
    assert_eq!(detail.registry_crates_source().get("never-1.0.0"), None);
    assert_eq!(detail.registry_crates_source().len(), 0);
}

#[test]
fn recording_twice_accumulates() {
    let mut detail = CrateDetail::new();
    detail.add_registry_crate_source("foo-1.0.0".to_string(), 100);
    detail.add_registry_crate_source("foo-1.0.0".to_string(), 23);
    assert_eq!(detail.find_size_registry_source("foo-1.0.0"), 123);
    assert_eq!(detail.registry_crates_source().len(), 1);
    assert_eq!(detail.registry_crates_source().get("foo-1.0.0"), Some(123));
}

#[test]
fn every_table_accumulates_on_its_own() {
    let mut detail = CrateDetail::new();
    detail.add_bin("tool".to_string(), 1);
    detail.add_bin("tool".to_string(), 2);
    detail.add_git_crate_source("a".to_string(), 10);
    detail.add_git_crate_source("a".to_string(), 20);
    detail.add_git_crate_archive("a".to_string(), 100);
    detail.add_git_crate_archive("a".to_string(), 200);
    detail.add_registry_crate_source("a".to_string(), 1000);
    detail.add_registry_crate_source("a".to_string(), 2000);
    detail.add_registry_crate_archive("a".to_string(), 10000);
    detail.add_registry_crate_archive("a".to_string(), 20000);
    assert_eq!(detail.bin().get("tool"), Some(3));
    assert_eq!(detail.bin().get("a"), None);
    assert_eq!(detail.find_size_git_source("a"), 30);
    assert_eq!(detail.find_size_git_archive("a"), 300);
    assert_eq!(detail.find_size_registry_source("a"), 3000);
    assert_eq!(detail.find_size_registry_archive("a"), 30000);
    assert_eq!(detail.git_crates_source().len(), 1);
    assert_eq!(detail.git_crates_archive().len(), 1);
    assert_eq!(detail.registry_crates_source().len(), 1);
    assert_eq!(detail.registry_crates_archive().len(), 1);
}

#[test]
fn totals_sum_both_roles() {
    let mut detail = CrateDetail::new();
    detail.add_registry_crate_archive("foo-1.0.0".to_string(), 7);
    detail.add_registry_crate_source("foo-1.0.0".to_string(), 35);
    detail.add_git_crate_archive("bar-abc".to_string(), 5);
    detail.add_git_crate_source("bar-abc".to_string(), 6);
    assert_eq!(detail.find_size_registry_all("foo-1.0.0"), Footprint { archive: 7, source: 35 });
    assert_eq!(detail.find_size_git_all("bar-abc"), Footprint { archive: 5, source: 6 });
    assert_eq!(detail.find_size_git_all("foo-1.0.0"), Footprint { archive: 0, source: 0 });
    assert_eq!(
        detail.footprint_of("foo-1.0.0", SourceKind::Registry),
        Footprint { archive: 7, source: 35 }
    );
    assert_eq!(detail.footprint_of("bar-abc", SourceKind::Git), Footprint { archive: 5, source: 6 });
}

#[test]
fn largest_counts_fit() {
    let mut detail = CrateDetail::new();
    detail.add_registry_crate_archive("big".to_string(), u64::MAX);
    detail.add_registry_crate_source("big".to_string(), u64::MAX);
    let all = detail.find_size_registry_all("big");
    assert_eq!(all.archive, u64::MAX as u128);
    assert_eq!(all.source, u64::MAX as u128);
}

#[test]
fn record_refuses_what_does_not_fit() {
    let mut detail = CrateDetail::new();
    assert!(detail.record(SourceKind::Registry, Role::Source, "x".to_string(), u64::MAX - 1));
    assert!(!detail.record(SourceKind::Registry, Role::Source, "x".to_string(), 2));
    assert_eq!(detail.find_size_registry_source("x"), u64::MAX - 1);
    assert!(detail.record(SourceKind::Registry, Role::Source, "x".to_string(), 1));
    assert_eq!(detail.find_size_registry_source("x"), u64::MAX);
    assert!(detail.registry_crates_source().has_room("x", 0));
    assert!(!detail.registry_crates_source().has_room("x", 1));
}

#[test]
fn record_goes_to_the_table_of_its_role() {
    let mut detail = CrateDetail::new();
    assert!(detail.record(SourceKind::Registry, Role::Archive, "a".to_string(), 1));
    assert!(detail.record(SourceKind::Registry, Role::Source, "a".to_string(), 2));
    assert!(detail.record(SourceKind::Git, Role::Archive, "a".to_string(), 3));
    assert!(detail.record(SourceKind::Git, Role::Source, "a".to_string(), 4));
    assert_eq!(detail.find_size_registry_archive("a"), 1);
    assert_eq!(detail.find_size_registry_source("a"), 2);
    assert_eq!(detail.find_size_git_archive("a"), 3);
    assert_eq!(detail.find_size_git_source("a"), 4);
}

#[test]
fn find_goes_by_the_title() {
    let mut detail = CrateDetail::new();
    detail.add_registry_crate_archive("a".to_string(), 1);
    detail.add_registry_crate_source("a".to_string(), 2);
    detail.add_git_crate_archive("a".to_string(), 3);
    detail.add_git_crate_source("a".to_string(), 4);
    assert_eq!(detail.find("a", "REGISTRY INSTALLED CRATE"), Footprint { archive: 1, source: 2 });
    assert_eq!(detail.find("a", "GIT OLD CRATE"), Footprint { archive: 3, source: 4 });
    assert_eq!(detail.find("a", "OLD REGISTRY"), Footprint { archive: 1, source: 2 });
    assert_eq!(detail.find("a", "GIT AND REGISTRY"), Footprint { archive: 1, source: 2 });
    assert_eq!(detail.find("a", "BIN"), Footprint { archive: 0, source: 0 });
    assert_eq!(detail.find("a", "registry"), Footprint { archive: 0, source: 0 });
    assert_eq!(detail.find("a", ""), Footprint { archive: 0, source: 0 });
    assert_eq!(detail.find("b", "REGISTRY"), Footprint { archive: 0, source: 0 });
}

#[test]
fn top_gives_the_largest_first() {
    let mut map = SizeMap::new();
    map.add("small".to_string(), 1);
    map.add("large".to_string(), 100);
    map.add("middle".to_string(), 50);
    map.add("twin".to_string(), 50);
    map.add("small".to_string(), 1);
    assert_eq!(
        names(&map.top(3)),
        vec![("large".to_string(), 100), ("middle".to_string(), 50), ("twin".to_string(), 50)]
    );
    assert_eq!(names(&map.top(0)), vec![]);
    assert_eq!(
        names(&map.top(10)),
        vec![
            ("large".to_string(), 100),
            ("middle".to_string(), 50),
            ("twin".to_string(), 50),
            ("small".to_string(), 2)
        ]
    );
    assert_eq!(map.len(), 4);
}

#[test]
fn megabytes_are_decimal() {
    assert_eq!(megabytes(0), Megabytes { whole: 0, thousandths: 0 });
    assert_eq!(megabytes(999), Megabytes { whole: 0, thousandths: 0 });
    assert_eq!(megabytes(1_000), Megabytes { whole: 0, thousandths: 1 });
    assert_eq!(megabytes(999_999), Megabytes { whole: 0, thousandths: 999 });
    assert_eq!(megabytes(1_000_000), Megabytes { whole: 1, thousandths: 0 });
    assert_eq!(megabytes(1_048_576), Megabytes { whole: 1, thousandths: 48 });
    assert_eq!(megabytes(1_234_567_890), Megabytes { whole: 1234, thousandths: 567 });
    assert_eq!(
        megabytes(u128::MAX),
        Megabytes { whole: 340282366920938463463374607431768, thousandths: 211 }
    );
}

#[test]
fn footprint_megabytes_sum_both_roles() {
    assert_eq!(Footprint { archive: 0, source: 0 }.megabytes(), Megabytes { whole: 0, thousandths: 0 });
    assert_eq!(Footprint { archive: 999_999, source: 1 }.megabytes(), Megabytes { whole: 1, thousandths: 0 });
    assert_eq!(Footprint { archive: 600_500, source: 700_600 }.megabytes(), Megabytes { whole: 1, thousandths: 301 });
    assert_eq!(Footprint { archive: 7, source: 35 }.megabytes(), Megabytes { whole: 0, thousandths: 0 });
    assert_eq!(
        Footprint { archive: u128::MAX, source: u128::MAX }.megabytes(),
        Megabytes { whole: 680564733841876926926749214863536, thousandths: 422 }
    );
}
