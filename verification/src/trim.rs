//! What the top-level command decides and computes.

use vstd::prelude::*;
use crate::artifact::{ids, label_of, ArtifactId, ArtifactIdentity};
use crate::command::registry::{cleaned, named, targets_named};
use crate::crate_detail::{CrateDetail, SourceKind};
use crate::dir_path::{bytes_of, measured, CacheFolder, FolderSizes, QueryLine};
use crate::list_crate::{old_of, orphan_of, used_of, CrateList};
use crate::reference::texts;
use crate::store::{RemovalSummary, Store};

verus! {

/// Which artifacts the list subcommand prints.
#[derive(Clone, Copy, Debug)]
pub struct ListFlags {
    /// The list subcommand was given.
    pub list: bool,
    pub old: bool,
    pub orphan: bool,
    pub used: bool,
}

/// The labels of a list of artifacts.
pub open spec fn labels(list: Seq<ArtifactId>) -> Seq<Seq<char>> {
    list.map_values(|id: ArtifactId| label_of(id))
}

/// The labels that the list subcommand prints: the old registry artifacts
/// where asked for; else the orphan artifacts of both caches where asked
/// for; else the used ones where asked for; else all installed ones.
/// Nothing where the subcommand was not given.
pub open spec fn listed(flags: ListFlags, list: CrateList) -> Seq<Seq<char>> {
    let registry = list.installed(SourceKind::Registry);
    let git = list.installed(SourceKind::Git);
    if !flags.list {
        Seq::empty()
    } else if flags.old {
        labels(old_of(registry))
    } else if flags.orphan {
        labels(orphan_of(registry, list.references())) + labels(orphan_of(git, list.references()))
    } else if flags.used {
        labels(used_of(registry, list.references())) + labels(used_of(git, list.references()))
    } else {
        labels(registry) + labels(git)
    }
}

fn append_labels(out: &mut Vec<String>, list: &Vec<ArtifactIdentity>)
    ensures
        texts(final(out)@) == texts(old(out)@) + labels(ids(list@)),
{
    let ghost start = texts(out@);
    let ghost all = labels(ids(list@));
    let mut i: usize = 0;
    assert(texts(out@) =~= start + all.take(0));
    while i < list.len()
        invariant
            i <= list.len(),
            all == labels(ids(list@)),
            texts(out@) == start + all.take(i as int),
        decreases list.len() - i,
    {
        let ghost before = texts(out@);
        out.push(list[i].label());
        assert(texts(out@) =~= before.push(all[i as int]));
        assert(all.take(i + 1) =~= all.take(i as int).push(all[i as int]));
        i += 1;
    }
    assert(all.take(i as int) =~= all);
}

/// The labels that the list subcommand prints, one per line.
pub fn list_subcommand(flags: &ListFlags, list_crate: &CrateList) -> (r: Vec<String>)
    ensures
        texts(r@) == listed(*flags, *list_crate),
{
    let mut out: Vec<String> = Vec::new();
    assert(texts(out@) =~= Seq::<Seq<char>>::empty());
    if flags.list {
        if flags.old {
            append_labels(&mut out, &list_crate.old_registry());
        } else if flags.orphan {
            append_labels(&mut out, &list_crate.orphan_registry());
            append_labels(&mut out, &list_crate.orphan_git());
        } else if flags.used {
            append_labels(&mut out, &list_crate.used_registry());
            append_labels(&mut out, &list_crate.used_git());
        } else {
            append_labels(&mut out, list_crate.installed_registry());
            append_labels(&mut out, list_crate.installed_git());
        }
    }
    assert(texts(out@) =~= listed(*flags, *list_crate));
    out
}

/// The lines of the size report of the git cache.
pub open spec fn git_lines(sizes: FolderSizes, list: CrateList) -> Seq<QueryLine> {
    seq![
        QueryLine {
            folder: CacheFolder::Git,
            crates: Some(list.installed(SourceKind::Git).len() as usize),
            bytes: measured(sizes.git),
        },
        QueryLine { folder: CacheFolder::Checkout, crates: None, bytes: measured(sizes.checkout) },
        QueryLine { folder: CacheFolder::Db, crates: None, bytes: measured(sizes.db) },
    ]
}

/// The lines of the size report of the registry cache.
pub open spec fn registry_lines(sizes: FolderSizes, list: CrateList) -> Seq<QueryLine> {
    seq![
        QueryLine {
            folder: CacheFolder::Registry,
            crates: Some(list.installed(SourceKind::Registry).len() as usize),
            bytes: measured(sizes.registry),
        },
        QueryLine { folder: CacheFolder::Cache, crates: None, bytes: measured(sizes.cache) },
        QueryLine { folder: CacheFolder::Index, crates: None, bytes: measured(sizes.index) },
        QueryLine { folder: CacheFolder::Src, crates: None, bytes: measured(sizes.src) },
    ]
}

/// The size report: the git cache where the command or its git subcommand
/// asks for sizes, then the registry cache where the command or its
/// registry subcommand does. A folder that could not be measured counts as
/// empty.
pub fn query_size(sizes: &FolderSizes, list_crate: &CrateList, flags: (bool, bool, bool)) -> (r: Vec<
    QueryLine,
>)
    ensures
        r@ == (if flags.0 || flags.1 {
            git_lines(*sizes, *list_crate)
        } else {
            Seq::empty()
        }) + (if flags.0 || flags.2 {
            registry_lines(*sizes, *list_crate)
        } else {
            Seq::empty()
        }),
{
    let (query_size_app, query_size_git, query_size_registry) = flags;
    let mut out: Vec<QueryLine> = Vec::new();
    if query_size_app || query_size_git {
        out.push(
            QueryLine {
                folder: CacheFolder::Git,
                crates: Some(list_crate.installed_git().len()),
                bytes: bytes_of(sizes.git),
            },
        );
        out.push(
            QueryLine { folder: CacheFolder::Checkout, crates: None, bytes: bytes_of(sizes.checkout) },
        );
        out.push(QueryLine { folder: CacheFolder::Db, crates: None, bytes: bytes_of(sizes.db) });
    }
    if query_size_app || query_size_registry {
        out.push(
            QueryLine {
                folder: CacheFolder::Registry,
                crates: Some(list_crate.installed_registry().len()),
                bytes: bytes_of(sizes.registry),
            },
        );
        out.push(QueryLine { folder: CacheFolder::Cache, crates: None, bytes: bytes_of(sizes.cache) });
        out.push(QueryLine { folder: CacheFolder::Index, crates: None, bytes: bytes_of(sizes.index) });
        out.push(QueryLine { folder: CacheFolder::Src, crates: None, bytes: bytes_of(sizes.src) });
    }
    assert(out@ =~= (if flags.0 || flags.1 {
        git_lines(*sizes, *list_crate)
    } else {
        Seq::empty()
    }) + (if flags.0 || flags.2 {
        registry_lines(*sizes, *list_crate)
    } else {
        Seq::empty()
    }));
    out
}

/// `list` if `wanted`, else nothing.
pub open spec fn chosen(wanted: bool, list: Seq<ArtifactId>) -> Seq<ArtifactId> {
    if wanted {
        list
    } else {
        Seq::empty()
    }
}

fn copies_when(wanted: bool, list: &Vec<ArtifactIdentity>) -> (r: Vec<ArtifactIdentity>)
    ensures
        ids(r@) == chosen(wanted, ids(list@)),
{
    let mut out: Vec<ArtifactIdentity> = Vec::new();
    if wanted {
        let mut i: usize = 0;
        while i < list.len()
            invariant
                i <= list.len(),
                out@.len() == i,
                forall|k: int| 0 <= k < i ==> (#[trigger] out@[k])@ == list@[k]@,
            decreases list.len() - i,
        {
            out.push(list[i].duplicate());
            i += 1;
        }
    }
    assert(ids(out@) =~= chosen(wanted, ids(list@)));
    out
}

/// Removes the old registry artifacts where the command or its registry
/// subcommand asks for it, and accounts for it; else nothing is removed.
/// `outcomes` tells for each old artifact, in the order of
/// `CrateList::old_registry`, whether its files were deleted.
pub fn old_clean(
    list_crate: &CrateList,
    flags: (bool, bool),
    registry_crates_location: &mut Store,
    crate_detail: &CrateDetail,
    dry_run: bool,
    outcomes: &Vec<bool>,
) -> (r: RemovalSummary)
    ensures
        cleaned(
            *old(registry_crates_location),
            *final(registry_crates_location),
            r,
            *crate_detail,
            chosen(flags.0 || flags.1, old_of(list_crate.installed(SourceKind::Registry))),
            dry_run,
            outcomes@,
        ),
{
    let (old_app, old_registry) = flags;
    let targets = copies_when(old_app || old_registry, &list_crate.old_registry());
    registry_crates_location.remove_crate_list(crate_detail, &targets, dry_run, outcomes)
}

/// Removes the orphan artifacts and accounts for it: those of the registry
/// cache where the command or its registry subcommand asks for it, those
/// of the git cache where the command or its git subcommand does. The
/// outcomes tell for each orphan artifact of a cache, in the order of
/// `CrateList::orphan_registry` and `CrateList::orphan_git`, whether its
/// files were deleted.
pub fn orphan_clean(
    list_crate: &CrateList,
    flags: (bool, bool, bool),
    registry_crates_location: &mut Store,
    git_crates_location: &mut Store,
    crate_detail: &CrateDetail,
    dry_run: bool,
    registry_outcomes: &Vec<bool>,
    git_outcomes: &Vec<bool>,
) -> (r: (RemovalSummary, RemovalSummary))
    ensures
        cleaned(
            *old(registry_crates_location),
            *final(registry_crates_location),
            r.0,
            *crate_detail,
            chosen(
                flags.0 || flags.2,
                orphan_of(list_crate.installed(SourceKind::Registry), list_crate.references()),
            ),
            dry_run,
            registry_outcomes@,
        ),
        cleaned(
            *old(git_crates_location),
            *final(git_crates_location),
            r.1,
            *crate_detail,
            chosen(
                flags.0 || flags.1,
                orphan_of(list_crate.installed(SourceKind::Git), list_crate.references()),
            ),
            dry_run,
            git_outcomes@,
        ),
{
    let (orphan_app, orphan_git, orphan_registry) = flags;
    let registry_targets = copies_when(orphan_app || orphan_registry, &list_crate.orphan_registry());
    let git_targets = copies_when(orphan_app || orphan_git, &list_crate.orphan_git());
    let registry = registry_crates_location.remove_crate_list(
        crate_detail,
        &registry_targets,
        dry_run,
        registry_outcomes,
    );
    let git = git_crates_location.remove_crate_list(
        crate_detail,
        &git_targets,
        dry_run,
        git_outcomes,
    );
    (registry, git)
}

/// Removes all installed artifacts and accounts for it: those of the
/// registry cache where the command or its registry subcommand asks for
/// it, those of the git cache where the command or its git subcommand
/// does. The outcomes tell for each installed artifact of a cache, in the
/// order of `CrateList::installed_registry` and `CrateList::installed_git`,
/// whether its files were deleted.
pub fn remove_all(
    list_crate: &CrateList,
    registry_crates_location: &mut Store,
    git_crates_location: &mut Store,
    flags: (bool, bool, bool),
    crate_detail: &CrateDetail,
    dry_run: bool,
    registry_outcomes: &Vec<bool>,
    git_outcomes: &Vec<bool>,
) -> (r: (RemovalSummary, RemovalSummary))
    ensures
        cleaned(
            *old(registry_crates_location),
            *final(registry_crates_location),
            r.0,
            *crate_detail,
            chosen(flags.0 || flags.2, list_crate.installed(SourceKind::Registry)),
            dry_run,
            registry_outcomes@,
        ),
        cleaned(
            *old(git_crates_location),
            *final(git_crates_location),
            r.1,
            *crate_detail,
            chosen(flags.0 || flags.1, list_crate.installed(SourceKind::Git)),
            dry_run,
            git_outcomes@,
        ),
{
    let (all_app, all_git, all_registry) = flags;
    let registry_targets = copies_when(all_app || all_registry, list_crate.installed_registry());
    let git_targets = copies_when(all_app || all_git, list_crate.installed_git());
    let registry = registry_crates_location.remove_crate_list(
        crate_detail,
        &registry_targets,
        dry_run,
        registry_outcomes,
    );
    let git = git_crates_location.remove_crate_list(
        crate_detail,
        &git_targets,
        dry_run,
        git_outcomes,
    );
    (registry, git)
}

/// The label to remove as given to the command, to its git subcommand and
/// to its registry subcommand.
#[derive(Debug)]
pub struct RemoveRequest {
    pub app: Option<String>,
    pub git: Option<String>,
    pub registry: Option<String>,
}

impl RemoveRequest {
    /// The label asked for: that of the command before that of the git
    /// subcommand before that of the registry subcommand.
    pub open spec fn value(&self) -> Option<Seq<char>> {
        match (self.app, self.git, self.registry) {
            (Some(v), _, _) => Some(v@),
            (None, Some(v), _) => Some(v@),
            (None, None, Some(v)) => Some(v@),
            (None, None, None) => None,
        }
    }

    /// The registry artifacts to remove: those with the label asked for,
    /// where the command or its registry subcommand asks.
    pub open spec fn registry_targets(&self, list: CrateList) -> Seq<ArtifactId> {
        match self.value() {
            Some(v) => chosen(
                self.app is Some || self.registry is Some,
                named(list.installed(SourceKind::Registry), seq![v]),
            ),
            None => Seq::empty(),
        }
    }

    /// The git artifacts to remove: those with the label asked for, where
    /// the command or its git subcommand asks.
    pub open spec fn git_targets(&self, list: CrateList) -> Seq<ArtifactId> {
        match self.value() {
            Some(v) => chosen(
                self.app is Some || self.git is Some,
                named(list.installed(SourceKind::Git), seq![v]),
            ),
            None => Seq::empty(),
        }
    }

    /// The artifacts to remove from each cache, registry first.
    pub fn targets(&self, list_crate: &CrateList) -> (r: (
        Vec<ArtifactIdentity>,
        Vec<ArtifactIdentity>,
    ))
        ensures
            ids(r.0@) == self.registry_targets(*list_crate),
            ids(r.1@) == self.git_targets(*list_crate),
    {
        let value = match (&self.app, &self.git, &self.registry) {
            (Some(v), _, _) => Some(v.clone()),
            (None, Some(v), _) => Some(v.clone()),
            (None, None, Some(v)) => Some(v.clone()),
            (None, None, None) => None,
        };
        match value {
            Some(v) => {
                let mut wanted: Vec<String> = Vec::new();
                wanted.push(v);
                assert(texts(wanted@) =~= seq![v@]);
                let registry = targets_named(list_crate.installed_registry(), &wanted);
                let git = targets_named(list_crate.installed_git(), &wanted);
                (
                    copies_when(self.app.is_some() || self.registry.is_some(), &registry),
                    copies_when(self.app.is_some() || self.git.is_some(), &git),
                )
            },
            None => {
                let registry: Vec<ArtifactIdentity> = Vec::new();
                let git: Vec<ArtifactIdentity> = Vec::new();
                assert(ids(registry@) =~= Seq::<ArtifactId>::empty());
                assert(ids(git@) =~= Seq::<ArtifactId>::empty());
                (registry, git)
            },
        }
    }
}

/// Removes the artifacts with the label asked for and accounts for it: from
/// the registry cache where the command or its registry subcommand asks,
/// from the git cache where the command or its git subcommand does. A
/// label that names nothing installed has no effect. The outcomes tell for
/// each target of a cache, in the order of `RemoveRequest::targets`,
/// whether its files were deleted.
pub fn remove_crate(
    list_crate: &CrateList,
    request: &RemoveRequest,
    registry_crates_location: &mut Store,
    git_crates_location: &mut Store,
    crate_detail: &CrateDetail,
    dry_run: bool,
    registry_outcomes: &Vec<bool>,
    git_outcomes: &Vec<bool>,
) -> (r: (RemovalSummary, RemovalSummary))
    ensures
        cleaned(
            *old(registry_crates_location),
            *final(registry_crates_location),
            r.0,
            *crate_detail,
            request.registry_targets(*list_crate),
            dry_run,
            registry_outcomes@,
        ),
        cleaned(
            *old(git_crates_location),
            *final(git_crates_location),
            r.1,
            *crate_detail,
            request.git_targets(*list_crate),
            dry_run,
            git_outcomes@,
        ),
{
    let (registry_targets, git_targets) = request.targets(list_crate);
    let registry = registry_crates_location.remove_crate_list(
        crate_detail,
        &registry_targets,
        dry_run,
        registry_outcomes,
    );
    let git = git_crates_location.remove_crate_list(
        crate_detail,
        &git_targets,
        dry_run,
        git_outcomes,
    );
    (registry, git)
}

} // verus!
