//! The subcommand that lists artifacts by class, with their sizes.

use vstd::prelude::*;
use crate::artifact::{ids, label_of, ArtifactId, ArtifactIdentity};
use crate::crate_detail::{CrateDetail, Footprint, SourceKind};
use crate::list_crate::{old_of, old_orphan_of, orphan_of, used_of, CrateList};
use crate::text::{contains_text, occurs_at};

verus! {

/// One line of a listing as contracts see it.
pub struct Row {
    pub name: Seq<char>,
    pub size: Footprint,
}

/// One line of a listing: the label of an artifact and what it holds.
#[derive(Debug)]
pub struct TableRow {
    pub name: String,
    pub size: Footprint,
}

impl View for TableRow {
    type V = Row;

    open spec fn view(&self) -> Row {
        Row { name: self.name@, size: self.size }
    }
}

/// A listing as contracts see it.
pub struct Table {
    pub title: Seq<char>,
    pub rows: Seq<Row>,
    pub total_archive: nat,
    pub total_source: nat,
}

/// A listing: a title, one line per artifact, and the sum of the lines.
#[derive(Debug)]
pub struct CrateTable {
    pub title: String,
    pub rows: Vec<TableRow>,
    pub total: Footprint,
}

impl View for CrateTable {
    type V = Table;

    open spec fn view(&self) -> Table {
        Table {
            title: self.title@,
            rows: self.rows@.map_values(|r: TableRow| r@),
            total_archive: self.total.archive as nat,
            total_source: self.total.source as nat,
        }
    }
}

/// The archive bytes of `rows` together.
pub open spec fn archive_sum(rows: Seq<Row>) -> nat
    decreases rows.len(),
{
    if rows.len() == 0 {
        0
    } else {
        archive_sum(rows.drop_last()) + rows.last().size.archive as nat
    }
}

/// The source bytes of `rows` together.
pub open spec fn source_sum(rows: Seq<Row>) -> nat
    decreases rows.len(),
{
    if rows.len() == 0 {
        0
    } else {
        source_sum(rows.drop_last()) + rows.last().size.source as nat
    }
}

/// The lines of the listing of `list` under `title`: for each artifact its
/// label and what the size index holds for that label in the cache that the
/// title names.
pub open spec fn rows_of(detail: CrateDetail, list: Seq<ArtifactId>, title: Seq<char>) -> Seq<Row> {
    list.map_values(|id: ArtifactId| Row { name: label_of(id), size: detail.found(label_of(id), title) })
}

/// The listing of `list` under `title`.
pub open spec fn table_of(detail: CrateDetail, list: Seq<ArtifactId>, title: Seq<char>) -> Table {
    Table {
        title,
        rows: rows_of(detail, list, title),
        total_archive: archive_sum(rows_of(detail, list, title)),
        total_source: source_sum(rows_of(detail, list, title)),
    }
}

/// Lists `crate_type` under `title`.
pub fn crate_list_type(crate_detail: &CrateDetail, crate_type: &Vec<ArtifactIdentity>, title: &str) -> (r:
    CrateTable)
    ensures
        r@ == table_of(*crate_detail, ids(crate_type@), title@),
{
    let mut rows: Vec<TableRow> = Vec::new();
    let mut archive: u128 = 0;
    let mut source: u128 = 0;
    let mut i: usize = 0;
    let ghost all = rows_of(*crate_detail, ids(crate_type@), title@);
    assert(all.take(0) =~= Seq::<Row>::empty());
    while i < crate_type.len()
        invariant
            i <= crate_type.len(),
            all == rows_of(*crate_detail, ids(crate_type@), title@),
            rows@.map_values(|r: TableRow| r@) == all.take(i as int),
            archive as nat == archive_sum(all.take(i as int)),
            source as nat == source_sum(all.take(i as int)),
            archive <= i * u64::MAX,
            source <= i * u64::MAX,
        decreases crate_type.len() - i,
    {
        let name = crate_type[i].label();
        let size = crate_detail.find(name.as_str(), title);
        proof {
            assert(all.take(i + 1).drop_last() =~= all.take(i as int));
            assert(all.take(i + 1).last() == all[i as int]);
            assert(all[i as int] == Row { name: name@, size });
            assert(size.archive <= u64::MAX && size.source <= u64::MAX);
            assert(i * u64::MAX + u64::MAX == (i + 1) * u64::MAX) by (nonlinear_arith);
            assert((i + 1) * u64::MAX <= usize::MAX * u64::MAX) by (nonlinear_arith)
                requires
                    i + 1 <= usize::MAX,
            ;
            assert(usize::MAX * u64::MAX <= u128::MAX) by (nonlinear_arith)
                requires
                    usize::MAX <= u64::MAX,
            ;
        }
        archive = archive + size.archive;
        source = source + size.source;
        let ghost before = rows@.map_values(|r: TableRow| r@);
        rows.push(TableRow { name, size });
        assert(rows@.map_values(|r: TableRow| r@) =~= before.push(all[i as int]));
        assert(all.take(i + 1) =~= all.take(i as int).push(all[i as int]));
        i += 1;
    }
    assert(all.take(i as int) =~= all);
    CrateTable { title: title.to_owned(), rows, total: Footprint { archive, source } }
}

/// The cache that a title names: the registry by the word `REGISTRY`, else
/// git by the word `GIT`.
pub open spec fn title_kind(title: Seq<char>) -> Option<SourceKind> {
    if contains_text(title, "REGISTRY"@) {
        Some(SourceKind::Registry)
    } else if contains_text(title, "GIT"@) {
        Some(SourceKind::Git)
    } else {
        None
    }
}

/// A title that starts with `REGISTRY` names the registry cache.
proof fn lemma_registry_title(title: Seq<char>)
    requires
        title.len() >= 8,
        title.subrange(0, 8) == "REGISTRY"@,
    ensures
        title_kind(title) == Some(SourceKind::Registry),
{
    reveal_strlit("REGISTRY");
    assert(occurs_at(title, "REGISTRY"@, 0));
}

/// A title that starts with `GIT` and in which no `R` is followed by `E`
/// names the git cache.
proof fn lemma_git_title(title: Seq<char>)
    requires
        title.len() >= 3,
        title.subrange(0, 3) == "GIT"@,
        forall|i: int|
            0 <= i < title.len() - 1 ==> !((#[trigger] title[i]) == 'R' && title[i + 1] == 'E'),
    ensures
        title_kind(title) == Some(SourceKind::Git),
{
    reveal_strlit("REGISTRY");
    reveal_strlit("GIT");
    assert(occurs_at(title, "GIT"@, 0));
    assert forall|i: int| !occurs_at(title, "REGISTRY"@, i) by {
        if occurs_at(title, "REGISTRY"@, i) {
            let sub = title.subrange(i, i + 8);
            assert(sub[0] == 'R' && sub[1] == 'E');
            assert(title[i] == 'R' && title[i + 1] == 'E');
        }
    }
}

/// The cache that each title of a listing names.
pub proof fn lemma_titles()
    ensures
        title_kind("REGISTRY INSTALLED CRATE"@) == Some(SourceKind::Registry),
        title_kind("REGISTRY OLD CRATE"@) == Some(SourceKind::Registry),
        title_kind("REGISTRY OLD+ORPHAN CRATE"@) == Some(SourceKind::Registry),
        title_kind("REGISTRY ORPHAN CRATE"@) == Some(SourceKind::Registry),
        title_kind("REGISTRY USED CRATE"@) == Some(SourceKind::Registry),
        title_kind("GIT INSTALLED CRATE"@) == Some(SourceKind::Git),
        title_kind("GIT OLD CRATE"@) == Some(SourceKind::Git),
        title_kind("GIT OLD+ORPHAN CRATE"@) == Some(SourceKind::Git),
        title_kind("GIT ORPHAN CRATE"@) == Some(SourceKind::Git),
        title_kind("GIT USED CRATE"@) == Some(SourceKind::Git),
{
    reveal_strlit("REGISTRY");
    reveal_strlit("GIT");
    reveal_strlit("REGISTRY INSTALLED CRATE");
    reveal_strlit("REGISTRY OLD CRATE");
    reveal_strlit("REGISTRY OLD+ORPHAN CRATE");
    reveal_strlit("REGISTRY ORPHAN CRATE");
    reveal_strlit("REGISTRY USED CRATE");
    reveal_strlit("GIT INSTALLED CRATE");
    reveal_strlit("GIT OLD CRATE");
    reveal_strlit("GIT OLD+ORPHAN CRATE");
    reveal_strlit("GIT ORPHAN CRATE");
    reveal_strlit("GIT USED CRATE");
    assert("REGISTRY INSTALLED CRATE"@.subrange(0, 8) =~= "REGISTRY"@);
    assert("REGISTRY OLD CRATE"@.subrange(0, 8) =~= "REGISTRY"@);
    assert("REGISTRY OLD+ORPHAN CRATE"@.subrange(0, 8) =~= "REGISTRY"@);
    assert("REGISTRY ORPHAN CRATE"@.subrange(0, 8) =~= "REGISTRY"@);
    assert("REGISTRY USED CRATE"@.subrange(0, 8) =~= "REGISTRY"@);
    lemma_registry_title("REGISTRY INSTALLED CRATE"@);
    lemma_registry_title("REGISTRY OLD CRATE"@);
    lemma_registry_title("REGISTRY OLD+ORPHAN CRATE"@);
    lemma_registry_title("REGISTRY ORPHAN CRATE"@);
    lemma_registry_title("REGISTRY USED CRATE"@);
    assert("GIT INSTALLED CRATE"@.subrange(0, 3) =~= "GIT"@);
    assert("GIT OLD CRATE"@.subrange(0, 3) =~= "GIT"@);
    assert("GIT OLD+ORPHAN CRATE"@.subrange(0, 3) =~= "GIT"@);
    assert("GIT ORPHAN CRATE"@.subrange(0, 3) =~= "GIT"@);
    assert("GIT USED CRATE"@.subrange(0, 3) =~= "GIT"@);
    lemma_git_title("GIT INSTALLED CRATE"@);
    lemma_git_title("GIT OLD CRATE"@);
    lemma_git_title("GIT OLD+ORPHAN CRATE"@);
    lemma_git_title("GIT ORPHAN CRATE"@);
    lemma_git_title("GIT USED CRATE"@);
}

/// The listing of `list` under `title`, with the sizes that the size index
/// holds for the cache of `kind`.
pub open spec fn listing_of(
    detail: CrateDetail,
    list: Seq<ArtifactId>,
    title: Seq<char>,
    kind: SourceKind,
) -> Table {
    let rows = list.map_values(
        |id: ArtifactId| Row { name: label_of(id), size: detail.footprint(kind, label_of(id)) },
    );
    Table { title, rows, total_archive: archive_sum(rows), total_source: source_sum(rows) }
}

/// Under a title that names a cache the sizes listed are those of that
/// cache.
pub proof fn lemma_table_by_kind(
    detail: CrateDetail,
    list: Seq<ArtifactId>,
    title: Seq<char>,
    kind: SourceKind,
)
    requires
        title_kind(title) == Some(kind),
    ensures
        table_of(detail, list, title) == listing_of(detail, list, title, kind),
{
    assert(rows_of(detail, list, title) =~= list.map_values(
        |id: ArtifactId| Row { name: label_of(id), size: detail.footprint(kind, label_of(id)) },
    ));
}

/// The caveat that goes with a listing where no project is tracked.
#[derive(Clone, Copy, Debug, PartialEq, Eq, Structural)]
pub enum Warning {
    /// Every old artifact is listed as old and orphan.
    OldOrphan,
    /// Every artifact is listed as orphan.
    Orphan,
    /// No artifact is listed as used.
    Used,
}

/// The listings of one class as contracts see them.
pub struct Tables {
    pub registry: Table,
    pub git: Table,
    pub warning: Option<Warning>,
}

/// The listings of one class: the registry cache, the git cache, and the
/// caveat to show with them, if any.
#[derive(Debug)]
pub struct Listing {
    pub registry: CrateTable,
    pub git: CrateTable,
    pub warning: Option<Warning>,
}

impl View for Listing {
    type V = Tables;

    open spec fn view(&self) -> Tables {
        Tables { registry: self.registry@, git: self.git@, warning: self.warning }
    }
}

/// The views of a list of listings.
pub open spec fn tables_of(list: Seq<Listing>) -> Seq<Tables> {
    list.map_values(|l: Listing| l@)
}

/// `warning` where no project is tracked.
pub open spec fn caveat(directory_is_empty: bool, warning: Warning) -> Option<Warning> {
    if directory_is_empty {
        Some(warning)
    } else {
        None
    }
}

/// The listings of all installed artifacts.
pub open spec fn all_tables(detail: CrateDetail, list: CrateList) -> Tables {
    Tables {
        registry: listing_of(
            detail,
            list.installed(SourceKind::Registry),
            "REGISTRY INSTALLED CRATE"@,
            SourceKind::Registry,
        ),
        git: listing_of(
            detail,
            list.installed(SourceKind::Git),
            "GIT INSTALLED CRATE"@,
            SourceKind::Git,
        ),
        warning: None,
    }
}

/// The listings of the old artifacts.
pub open spec fn old_tables(detail: CrateDetail, list: CrateList) -> Tables {
    Tables {
        registry: listing_of(
            detail,
            old_of(list.installed(SourceKind::Registry)),
            "REGISTRY OLD CRATE"@,
            SourceKind::Registry,
        ),
        git: listing_of(
            detail,
            old_of(list.installed(SourceKind::Git)),
            "GIT OLD CRATE"@,
            SourceKind::Git,
        ),
        warning: None,
    }
}

/// The listings of the artifacts that are old and orphan.
pub open spec fn old_orphan_tables(
    detail: CrateDetail,
    list: CrateList,
    directory_is_empty: bool,
) -> Tables {
    Tables {
        registry: listing_of(
            detail,
            old_orphan_of(list.installed(SourceKind::Registry), list.references()),
            "REGISTRY OLD+ORPHAN CRATE"@,
            SourceKind::Registry,
        ),
        git: listing_of(
            detail,
            old_orphan_of(list.installed(SourceKind::Git), list.references()),
            "GIT OLD+ORPHAN CRATE"@,
            SourceKind::Git,
        ),
        warning: caveat(directory_is_empty, Warning::OldOrphan),
    }
}

/// The listings of the orphan artifacts.
pub open spec fn orphan_tables(
    detail: CrateDetail,
    list: CrateList,
    directory_is_empty: bool,
) -> Tables {
    Tables {
        registry: listing_of(
            detail,
            orphan_of(list.installed(SourceKind::Registry), list.references()),
            "REGISTRY ORPHAN CRATE"@,
            SourceKind::Registry,
        ),
        git: listing_of(
            detail,
            orphan_of(list.installed(SourceKind::Git), list.references()),
            "GIT ORPHAN CRATE"@,
            SourceKind::Git,
        ),
        warning: caveat(directory_is_empty, Warning::Orphan),
    }
}

/// The listings of the used artifacts.
pub open spec fn used_tables(
    detail: CrateDetail,
    list: CrateList,
    directory_is_empty: bool,
) -> Tables {
    Tables {
        registry: listing_of(
            detail,
            used_of(list.installed(SourceKind::Registry), list.references()),
            "REGISTRY USED CRATE"@,
            SourceKind::Registry,
        ),
        git: listing_of(
            detail,
            used_of(list.installed(SourceKind::Git), list.references()),
            "GIT USED CRATE"@,
            SourceKind::Git,
        ),
        warning: caveat(directory_is_empty, Warning::Used),
    }
}

/// `item` if `wanted`, else nothing.
pub open spec fn when(wanted: bool, item: Tables) -> Seq<Tables> {
    if wanted {
        seq![item]
    } else {
        Seq::empty()
    }
}

/// Lists all installed artifacts.
pub fn list_all(crate_detail: &CrateDetail, crate_list: &CrateList) -> (r: Listing)
    ensures
        r@ == all_tables(*crate_detail, *crate_list),
{
    proof {
        lemma_titles();
        lemma_table_by_kind(
            *crate_detail,
            crate_list.installed(SourceKind::Registry),
            "REGISTRY INSTALLED CRATE"@,
            SourceKind::Registry,
        );
        lemma_table_by_kind(
            *crate_detail,
            crate_list.installed(SourceKind::Git),
            "GIT INSTALLED CRATE"@,
            SourceKind::Git,
        );
    }
    Listing {
        registry: crate_list_type(
            crate_detail,
            crate_list.installed_registry(),
            "REGISTRY INSTALLED CRATE",
        ),
        git: crate_list_type(crate_detail, crate_list.installed_git(), "GIT INSTALLED CRATE"),
        warning: None,
    }
}

/// Lists the old artifacts.
pub fn list_old(crate_detail: &CrateDetail, crate_list: &CrateList) -> (r: Listing)
    ensures
        r@ == old_tables(*crate_detail, *crate_list),
{
    proof {
        lemma_titles();
        lemma_table_by_kind(
            *crate_detail,
            old_of(crate_list.installed(SourceKind::Registry)),
            "REGISTRY OLD CRATE"@,
            SourceKind::Registry,
        );
        lemma_table_by_kind(
            *crate_detail,
            old_of(crate_list.installed(SourceKind::Git)),
            "GIT OLD CRATE"@,
            SourceKind::Git,
        );
    }
    Listing {
        registry: crate_list_type(crate_detail, &crate_list.old_registry(), "REGISTRY OLD CRATE"),
        git: crate_list_type(crate_detail, &crate_list.old_git(), "GIT OLD CRATE"),
        warning: None,
    }
}

/// Lists the artifacts that are old and orphan. Where no project is
/// tracked these are all old artifacts, and the listing says so.
pub fn list_old_orphan(
    crate_detail: &CrateDetail,
    crate_list: &CrateList,
    directory_is_empty: bool,
) -> (r: Listing)
    ensures
        r@ == old_orphan_tables(*crate_detail, *crate_list, directory_is_empty),
{
    proof {
        lemma_titles();
        lemma_table_by_kind(
            *crate_detail,
            old_orphan_of(crate_list.installed(SourceKind::Registry), crate_list.references()),
            "REGISTRY OLD+ORPHAN CRATE"@,
            SourceKind::Registry,
        );
        lemma_table_by_kind(
            *crate_detail,
            old_orphan_of(crate_list.installed(SourceKind::Git), crate_list.references()),
            "GIT OLD+ORPHAN CRATE"@,
            SourceKind::Git,
        );
    }
    Listing {
        registry: crate_list_type(
            crate_detail,
            &crate_list.list_old_orphan_registry(),
            "REGISTRY OLD+ORPHAN CRATE",
        ),
        git: crate_list_type(crate_detail, &crate_list.list_old_orphan_git(), "GIT OLD+ORPHAN CRATE"),
        warning: if directory_is_empty {
            Some(Warning::OldOrphan)
        } else {
            None
        },
    }
}

/// Lists the orphan artifacts. Where no project is tracked these are all
/// installed artifacts, and the listing says so.
pub fn list_orphan(crate_detail: &CrateDetail, crate_list: &CrateList, directory_is_empty: bool) -> (r:
    Listing)
    ensures
        r@ == orphan_tables(*crate_detail, *crate_list, directory_is_empty),
{
    proof {
        lemma_titles();
        lemma_table_by_kind(
            *crate_detail,
            orphan_of(crate_list.installed(SourceKind::Registry), crate_list.references()),
            "REGISTRY ORPHAN CRATE"@,
            SourceKind::Registry,
        );
        lemma_table_by_kind(
            *crate_detail,
            orphan_of(crate_list.installed(SourceKind::Git), crate_list.references()),
            "GIT ORPHAN CRATE"@,
            SourceKind::Git,
        );
    }
    Listing {
        registry: crate_list_type(
            crate_detail,
            &crate_list.orphan_registry(),
            "REGISTRY ORPHAN CRATE",
        ),
        git: crate_list_type(crate_detail, &crate_list.orphan_git(), "GIT ORPHAN CRATE"),
        warning: if directory_is_empty {
            Some(Warning::Orphan)
        } else {
            None
        },
    }
}

/// Lists the used artifacts. Where no project is tracked there are none,
/// and the listing says so.
pub fn list_used(crate_detail: &CrateDetail, crate_list: &CrateList, directory_is_empty: bool) -> (r:
    Listing)
    ensures
        r@ == used_tables(*crate_detail, *crate_list, directory_is_empty),
{
    proof {
        lemma_titles();
        lemma_table_by_kind(
            *crate_detail,
            used_of(crate_list.installed(SourceKind::Registry), crate_list.references()),
            "REGISTRY USED CRATE"@,
            SourceKind::Registry,
        );
        lemma_table_by_kind(
            *crate_detail,
            used_of(crate_list.installed(SourceKind::Git), crate_list.references()),
            "GIT USED CRATE"@,
            SourceKind::Git,
        );
    }
    Listing {
        registry: crate_list_type(crate_detail, &crate_list.used_registry(), "REGISTRY USED CRATE"),
        git: crate_list_type(crate_detail, &crate_list.used_git(), "GIT USED CRATE"),
        warning: if directory_is_empty {
            Some(Warning::Used)
        } else {
            None
        },
    }
}

/// Which classes to list.
#[derive(Clone, Copy, Debug)]
pub struct List {
    pub all: bool,
    pub old: bool,
    pub old_orphan: bool,
    pub orphan: bool,
    pub used: bool,
}

impl List {
    /// The listings asked for, in this order: all, old, old and orphan,
    /// orphan, used.
    pub fn run(&self, crate_detail: &CrateDetail, crate_list: &CrateList, directory_is_empty: bool) -> (r:
        Vec<Listing>)
        ensures
            tables_of(r@) == when(self.all, all_tables(*crate_detail, *crate_list)) + when(
                self.old,
                old_tables(*crate_detail, *crate_list),
            ) + when(
                self.old_orphan,
                old_orphan_tables(*crate_detail, *crate_list, directory_is_empty),
            ) + when(self.orphan, orphan_tables(*crate_detail, *crate_list, directory_is_empty))
                + when(self.used, used_tables(*crate_detail, *crate_list, directory_is_empty)),
    {
        let mut out: Vec<Listing> = Vec::new();
        assert(tables_of(out@) =~= Seq::<Tables>::empty());
        if self.all {
            let ghost before = tables_of(out@);
            out.push(list_all(crate_detail, crate_list));
            assert(tables_of(out@) =~= before + when(
                true,
                all_tables(*crate_detail, *crate_list),
            ));
        }
        if self.old {
            let ghost before = tables_of(out@);
            out.push(list_old(crate_detail, crate_list));
            assert(tables_of(out@) =~= before + when(
                true,
                old_tables(*crate_detail, *crate_list),
            ));
        }
        if self.old_orphan {
            let ghost before = tables_of(out@);
            out.push(list_old_orphan(crate_detail, crate_list, directory_is_empty));
            assert(tables_of(out@) =~= before + when(
                true,
                old_orphan_tables(*crate_detail, *crate_list, directory_is_empty),
            ));
        }
        if self.orphan {
            let ghost before = tables_of(out@);
            out.push(list_orphan(crate_detail, crate_list, directory_is_empty));
            assert(tables_of(out@) =~= before + when(
                true,
                orphan_tables(*crate_detail, *crate_list, directory_is_empty),
            ));
        }
        if self.used {
            let ghost before = tables_of(out@);
            out.push(list_used(crate_detail, crate_list, directory_is_empty));
            assert(tables_of(out@) =~= before + when(
                true,
                used_tables(*crate_detail, *crate_list, directory_is_empty),
            ));
        }
        assert(tables_of(out@) =~= when(self.all, all_tables(*crate_detail, *crate_list)) + when(
            self.old,
            old_tables(*crate_detail, *crate_list),
        ) + when(
            self.old_orphan,
            old_orphan_tables(*crate_detail, *crate_list, directory_is_empty),
        ) + when(self.orphan, orphan_tables(*crate_detail, *crate_list, directory_is_empty))
            + when(self.used, used_tables(*crate_detail, *crate_list, directory_is_empty)));
        out
    }
}

} // verus!
