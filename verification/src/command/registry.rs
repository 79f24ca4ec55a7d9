//! The subcommand that works on the registry cache.
//!
//! Its run alternates work on the disk with decisions. The decisions are
//! here: `Registry::run` names the next thing to do, and the functions
//! beside it account for what was done.

use vstd::prelude::*;
use crate::artifact::{ids, label_of, ArtifactId, ArtifactIdentity};
use crate::crate_detail::{lines, top_of, CrateDetail, Role, SizeEntry, SourceKind};
use crate::dir_path::{bytes_of, measured, CacheFolder, FolderSizes, QueryLine};
use crate::list_crate::{old_of, old_orphan_of, orphan_of, CrateList};
use crate::reference::texts;
use crate::store::{
    begin, has_archive, remove_all, without_sources, RemovalSummary, Store,
};
use crate::text::{chars_of, trim, trimmed};

verus! {

/// What to do on the registry cache.
#[derive(Debug)]
pub struct Registry {
    /// Remove every installed artifact.
    pub all: bool,
    /// Account for removals without deleting anything.
    pub dry_run: bool,
    /// Remove the extracted sources and keep the archives.
    pub light_cleanup: bool,
    /// Remove the old artifacts.
    pub old: bool,
    /// Remove the artifacts that are old and orphan.
    pub old_orphan: bool,
    /// Remove the orphan artifacts.
    pub orphan: bool,
    /// Report the sizes of the folders.
    pub query: bool,
    /// Remove the artifacts with these labels.
    pub remove: Option<Vec<String>>,
    /// Show this many of the largest artifacts.
    pub top: Option<usize>,
}

/// A class of artifacts to remove.
#[derive(Clone, Copy, Debug, PartialEq, Eq, Structural)]
pub enum Clean {
    Old,
    OldOrphan,
    Orphan,
    All,
}

/// How far a run has come: the step to consider next.
#[derive(Clone, Copy, Debug, PartialEq, Eq, Structural)]
pub enum Stage {
    LightCleanup,
    Top,
    Query,
    Old,
    OldOrphan,
    /// The user was asked whether to remove what is old and orphan.
    OldOrphanAsked,
    Orphan,
    /// The user was asked whether to remove what is orphan.
    OrphanAsked,
    All,
    Remove,
    Finished,
}

/// The next thing to do in a run.
#[derive(Clone, Copy, Debug, PartialEq, Eq, Structural)]
pub enum RegistryAction {
    /// Delete the extracted sources and the cache of the index.
    LightCleanup,
    /// Show this many of the largest artifacts.
    Top(usize),
    /// Measure the folders and report their sizes.
    Query,
    /// Warn that no project is tracked, and ask whether to go on.
    Confirm(Clean),
    /// Remove the artifacts of a class.
    Clean(Clean),
    /// Remove the artifacts named on the command line.
    Remove,
    /// Nothing is left to do.
    Finished,
}

/// The steps left from a stage on, at most.
pub open spec fn steps_left(stage: Stage) -> nat {
    match stage {
        Stage::LightCleanup => 10,
        Stage::Top => 9,
        Stage::Query => 8,
        Stage::Old => 7,
        Stage::OldOrphan => 6,
        Stage::OldOrphanAsked => 5,
        Stage::Orphan => 4,
        Stage::OrphanAsked => 3,
        Stage::All => 2,
        Stage::Remove => 1,
        Stage::Finished => 0,
    }
}

/// `c` is the letter given in lower and in upper case.
pub open spec fn is_letter(c: char, lower: char, upper: char) -> bool {
    c == lower || c == upper
}

/// Whether an answer says yes: without the white space around it and
/// without regard to case it is `y` or `yes`.
pub open spec fn is_yes(answer: Seq<char>) -> bool {
    let t = trimmed(answer);
    ||| t.len() == 1 && is_letter(t[0], 'y', 'Y')
    ||| t.len() == 3 && is_letter(t[0], 'y', 'Y') && is_letter(t[1], 'e', 'E') && is_letter(
        t[2],
        's',
        'S',
    )
}

/// Whether an answer says yes.
pub fn confirmed(answer: &str) -> (r: bool)
    ensures
        r == is_yes(answer@),
{
    let t = trim(&chars_of(answer));
    (t.len() == 1 && (t[0] == 'y' || t[0] == 'Y')) || (t.len() == 3 && (t[0] == 'y' || t[0] == 'Y')
        && (t[1] == 'e' || t[1] == 'E') && (t[2] == 's' || t[2] == 'S'))
}

impl Registry {
    /// The next thing to do from `stage` on, and the stage after it. The
    /// steps come in this order: light cleanup, largest artifacts, sizes,
    /// old, old and orphan, orphan, all, named artifacts; each only where it
    /// was asked for. Where no project is tracked, removing what is orphan,
    /// or old and orphan, is preceded by a question, and anything but a yes
    /// ends the run.
    pub open spec fn step(&self, stage: Stage, yes: bool, directory_is_empty: bool) -> (
        RegistryAction,
        Stage,
    )
        decreases steps_left(stage),
    {
        match stage {
            Stage::LightCleanup => if self.light_cleanup {
                (RegistryAction::LightCleanup, Stage::Top)
            } else {
                self.step(Stage::Top, yes, directory_is_empty)
            },
            Stage::Top => match self.top {
                Some(number) => (RegistryAction::Top(number), Stage::Query),
                None => self.step(Stage::Query, yes, directory_is_empty),
            },
            Stage::Query => if self.query {
                (RegistryAction::Query, Stage::Old)
            } else {
                self.step(Stage::Old, yes, directory_is_empty)
            },
            Stage::Old => if self.old {
                (RegistryAction::Clean(Clean::Old), Stage::OldOrphan)
            } else {
                self.step(Stage::OldOrphan, yes, directory_is_empty)
            },
            Stage::OldOrphan => if !self.old_orphan {
                self.step(Stage::Orphan, yes, directory_is_empty)
            } else if directory_is_empty {
                (RegistryAction::Confirm(Clean::OldOrphan), Stage::OldOrphanAsked)
            } else {
                (RegistryAction::Clean(Clean::OldOrphan), Stage::Orphan)
            },
            Stage::OldOrphanAsked => if yes {
                (RegistryAction::Clean(Clean::OldOrphan), Stage::Orphan)
            } else {
                (RegistryAction::Finished, Stage::Finished)
            },
            Stage::Orphan => if !self.orphan {
                self.step(Stage::All, yes, directory_is_empty)
            } else if directory_is_empty {
                (RegistryAction::Confirm(Clean::Orphan), Stage::OrphanAsked)
            } else {
                (RegistryAction::Clean(Clean::Orphan), Stage::All)
            },
            Stage::OrphanAsked => if yes {
                (RegistryAction::Clean(Clean::Orphan), Stage::All)
            } else {
                (RegistryAction::Finished, Stage::Finished)
            },
            Stage::All => if self.all {
                (RegistryAction::Clean(Clean::All), Stage::Remove)
            } else {
                self.step(Stage::Remove, yes, directory_is_empty)
            },
            Stage::Remove => if self.remove is Some {
                (RegistryAction::Remove, Stage::Finished)
            } else {
                (RegistryAction::Finished, Stage::Finished)
            },
            Stage::Finished => (RegistryAction::Finished, Stage::Finished),
        }
    }

    /// The next thing to do from `stage` on, and the stage to pass to the
    /// next call. A run starts at `Stage::LightCleanup`. `answer` is what the
    /// user replied to the question asked last; it is read only at the two
    /// stages that follow a question.
    pub fn run(&self, stage: Stage, answer: &str, directory_is_empty: bool) -> (r: (
        RegistryAction,
        Stage,
    ))
        ensures
            r == self.step(stage, is_yes(answer@), directory_is_empty),
    {
        let ghost yes = is_yes(answer@);
        let mut at = stage;
        loop
            invariant
                yes == is_yes(answer@),
                self.step(at, yes, directory_is_empty) == self.step(stage, yes, directory_is_empty),
            decreases steps_left(at),
        {
            match at {
                Stage::LightCleanup => {
                    if self.light_cleanup {
                        return (RegistryAction::LightCleanup, Stage::Top);
                    }
                    at = Stage::Top;
                },
                Stage::Top => {
                    match self.top {
                        Some(number) => {
                            return (RegistryAction::Top(number), Stage::Query);
                        },
                        None => {},
                    }
                    at = Stage::Query;
                },
                Stage::Query => {
                    if self.query {
                        return (RegistryAction::Query, Stage::Old);
                    }
                    at = Stage::Old;
                },
                Stage::Old => {
                    if self.old {
                        return (RegistryAction::Clean(Clean::Old), Stage::OldOrphan);
                    }
                    at = Stage::OldOrphan;
                },
                Stage::OldOrphan => {
                    if self.old_orphan {
                        if directory_is_empty {
                            return (
                                RegistryAction::Confirm(Clean::OldOrphan),
                                Stage::OldOrphanAsked,
                            );
                        }
                        return (RegistryAction::Clean(Clean::OldOrphan), Stage::Orphan);
                    }
                    at = Stage::Orphan;
                },
                Stage::OldOrphanAsked => {
                    if confirmed(answer) {
                        return (RegistryAction::Clean(Clean::OldOrphan), Stage::Orphan);
                    }
                    return (RegistryAction::Finished, Stage::Finished);
                },
                Stage::Orphan => {
                    if self.orphan {
                        if directory_is_empty {
                            return (RegistryAction::Confirm(Clean::Orphan), Stage::OrphanAsked);
                        }
                        return (RegistryAction::Clean(Clean::Orphan), Stage::All);
                    }
                    at = Stage::All;
                },
                Stage::OrphanAsked => {
                    if confirmed(answer) {
                        return (RegistryAction::Clean(Clean::Orphan), Stage::All);
                    }
                    return (RegistryAction::Finished, Stage::Finished);
                },
                Stage::All => {
                    if self.all {
                        return (RegistryAction::Clean(Clean::All), Stage::Remove);
                    }
                    at = Stage::Remove;
                },
                Stage::Remove => {
                    if self.remove.is_some() {
                        return (RegistryAction::Remove, Stage::Finished);
                    }
                    return (RegistryAction::Finished, Stage::Finished);
                },
                Stage::Finished => {
                    return (RegistryAction::Finished, Stage::Finished);
                },
            }
        }
    }
}

/// Where no project is tracked, nothing that is orphan, or old and orphan,
/// is removed unless the user said yes to the question before it.
pub proof fn lemma_orphans_kept_without_yes(flags: Registry, stage: Stage)
    ensures
        flags.step(stage, false, true).0 != RegistryAction::Clean(Clean::Orphan),
        flags.step(stage, false, true).0 != RegistryAction::Clean(Clean::OldOrphan),
    decreases steps_left(stage),
{
    match stage {
        Stage::LightCleanup => lemma_orphans_kept_without_yes(flags, Stage::Top),
        Stage::Top => lemma_orphans_kept_without_yes(flags, Stage::Query),
        Stage::Query => lemma_orphans_kept_without_yes(flags, Stage::Old),
        Stage::Old => lemma_orphans_kept_without_yes(flags, Stage::OldOrphan),
        Stage::OldOrphan => lemma_orphans_kept_without_yes(flags, Stage::Orphan),
        Stage::Orphan => lemma_orphans_kept_without_yes(flags, Stage::All),
        Stage::All => lemma_orphans_kept_without_yes(flags, Stage::Remove),
        _ => {},
    }
}

/// What a light cleanup leaves of a store. Where the sources were deleted
/// and the store is of the registry cache, what had an archive is installed,
/// with its archive alone. Else nothing has changed.
pub open spec fn lightened(before: Store, after: Store, sources_deleted: bool) -> bool {
    &&& after.spec_kind() == before.spec_kind()
    &&& if sources_deleted && before.spec_kind() == SourceKind::Registry {
        &&& after.installed() == before.installed().filter(has_archive(before.places()))
        &&& after.places().dom() == after.installed().to_set()
        &&& forall|id: ArtifactId|
            #![trigger after.places()[id]]
            after.installed().contains(id) ==> after.places()[id] == without_sources(
                before.places()[id],
            )
    } else {
        &&& after.installed() == before.installed()
        &&& after.places() == before.places()
    }
}

/// The folders that a light cleanup deletes: the extracted sources and the
/// cache of the index. The archives stay, and so does everything of git.
pub fn light_cleanup_folders() -> (r: Vec<CacheFolder>)
    ensures
        r@ == seq![CacheFolder::Src, CacheFolder::IndexCache],
{
    let mut out: Vec<CacheFolder> = Vec::new();
    out.push(CacheFolder::Src);
    out.push(CacheFolder::IndexCache);
    out
}

/// Accounts for a light cleanup. `src_deleted` and `index_cache_deleted`
/// tell whether each of the two folders was deleted; the cleanup succeeded
/// where both were. Where the sources were deleted, and not in a dry run,
/// a store of the registry cache forgets them: what has an archive stays
/// installed with its archive alone. A store of the git cache is left as it
/// is.
pub fn light_cleanup_registry(
    registry_crates_location: &mut Store,
    src_deleted: bool,
    index_cache_deleted: bool,
    dry_run: bool,
) -> (light_cleanup_success: bool)
    ensures
        light_cleanup_success == (src_deleted && index_cache_deleted),
        lightened(
            *old(registry_crates_location),
            *final(registry_crates_location),
            src_deleted && !dry_run,
        ),
{
    if src_deleted && !dry_run {
        registry_crates_location.forget_sources();
    }
    src_deleted && index_cache_deleted
}

/// The largest compressed packages and the largest extracted sources of the
/// registry cache, `number` of each, largest first.
pub fn top_crates_registry(crate_detail: &CrateDetail, number: usize) -> (r: (
    Vec<SizeEntry>,
    Vec<SizeEntry>,
))
    ensures
        lines(r.0@) == top_of(
            crate_detail.table_of(SourceKind::Registry, Role::Archive),
            number as nat,
        ),
        lines(r.1@) == top_of(
            crate_detail.table_of(SourceKind::Registry, Role::Source),
            number as nat,
        ),
{
    (
        crate_detail.registry_crates_archive().top(number),
        crate_detail.registry_crates_source().top(number),
    )
}

/// The size report of the registry cache: the cache as a whole with the
/// number of installed artifacts, its compressed packages with the number
/// of labels that have one, its index, and its extracted sources with the
/// number of labels that have one. A folder that could not be measured
/// counts as empty. The second result is the size of the cache as a whole.
pub fn query_size_registry(sizes: &FolderSizes, crate_list: &CrateList, crate_detail: &CrateDetail) -> (r:
    (Vec<QueryLine>, u64))
    ensures
        r.1 == measured(sizes.registry),
        r.0@ == seq![
            QueryLine {
                folder: CacheFolder::Registry,
                crates: Some(crate_list.installed(SourceKind::Registry).len() as usize),
                bytes: measured(sizes.registry),
            },
            QueryLine {
                folder: CacheFolder::Cache,
                crates: Some(
                    crate_detail.table_of(SourceKind::Registry, Role::Archive).len() as usize,
                ),
                bytes: measured(sizes.cache),
            },
            QueryLine { folder: CacheFolder::Index, crates: None, bytes: measured(sizes.index) },
            QueryLine {
                folder: CacheFolder::Src,
                crates: Some(
                    crate_detail.table_of(SourceKind::Registry, Role::Source).len() as usize,
                ),
                bytes: measured(sizes.src),
            },
        ],
{
    let registry_dir_size = bytes_of(sizes.registry);
    let mut out: Vec<QueryLine> = Vec::new();
    out.push(
        QueryLine {
            folder: CacheFolder::Registry,
            crates: Some(crate_list.installed_registry().len()),
            bytes: registry_dir_size,
        },
    );
    out.push(
        QueryLine {
            folder: CacheFolder::Cache,
            crates: Some(crate_detail.registry_crates_archive().len()),
            bytes: bytes_of(sizes.cache),
        },
    );
    out.push(QueryLine { folder: CacheFolder::Index, crates: None, bytes: bytes_of(sizes.index) });
    out.push(
        QueryLine {
            folder: CacheFolder::Src,
            crates: Some(crate_detail.registry_crates_source().len()),
            bytes: bytes_of(sizes.src),
        },
    );
    (out, registry_dir_size)
}

/// Removes the old registry artifacts and accounts for it. `outcomes`
/// tells for each of them, in the order of `CrateList::old_registry`,
/// whether its files were deleted.
pub fn old_clean_registry(
    registry_crates_location: &mut Store,
    crate_list: &CrateList,
    crate_detail: &CrateDetail,
    dry_run: bool,
    outcomes: &Vec<bool>,
) -> (r: RemovalSummary)
    ensures
        cleaned(
            *old(registry_crates_location),
            *final(registry_crates_location),
            r,
            *crate_detail,
            old_of(crate_list.installed(SourceKind::Registry)),
            dry_run,
            outcomes@,
        ),
{
    registry_crates_location.remove_crate_list(
        crate_detail,
        &crate_list.old_registry(),
        dry_run,
        outcomes,
    )
}

/// Removes the registry artifacts that are old and orphan and accounts for
/// it. `outcomes` tells for each of them, in the order of
/// `CrateList::list_old_orphan_registry`, whether its files were deleted.
pub fn old_orphan_clean_registry(
    registry_crates_location: &mut Store,
    crate_list: &CrateList,
    crate_detail: &CrateDetail,
    dry_run: bool,
    outcomes: &Vec<bool>,
) -> (r: RemovalSummary)
    ensures
        cleaned(
            *old(registry_crates_location),
            *final(registry_crates_location),
            r,
            *crate_detail,
            old_orphan_of(crate_list.installed(SourceKind::Registry), crate_list.references()),
            dry_run,
            outcomes@,
        ),
{
    registry_crates_location.remove_crate_list(
        crate_detail,
        &crate_list.list_old_orphan_registry(),
        dry_run,
        outcomes,
    )
}

/// Removes the orphan registry artifacts and accounts for it. `outcomes`
/// tells for each of them, in the order of `CrateList::orphan_registry`,
/// whether its files were deleted.
pub fn orphan_clean_registry(
    registry_crates_location: &mut Store,
    crate_list: &CrateList,
    crate_detail: &CrateDetail,
    dry_run: bool,
    outcomes: &Vec<bool>,
) -> (r: RemovalSummary)
    ensures
        cleaned(
            *old(registry_crates_location),
            *final(registry_crates_location),
            r,
            *crate_detail,
            orphan_of(crate_list.installed(SourceKind::Registry), crate_list.references()),
            dry_run,
            outcomes@,
        ),
{
    registry_crates_location.remove_crate_list(
        crate_detail,
        &crate_list.orphan_registry(),
        dry_run,
        outcomes,
    )
}

/// Removes all installed registry artifacts and accounts for it.
/// `outcomes` tells for each of them, in the order of
/// `CrateList::installed_registry`, whether its files were deleted.
pub fn all_clean_registry(
    registry_crates_location: &mut Store,
    crate_list: &CrateList,
    crate_detail: &CrateDetail,
    dry_run: bool,
    outcomes: &Vec<bool>,
) -> (r: RemovalSummary)
    ensures
        cleaned(
            *old(registry_crates_location),
            *final(registry_crates_location),
            r,
            *crate_detail,
            crate_list.installed(SourceKind::Registry),
            dry_run,
            outcomes@,
        ),
{
    registry_crates_location.remove_crate_list(
        crate_detail,
        crate_list.installed_registry(),
        dry_run,
        outcomes,
    )
}

/// What a removal of `targets` from a store leaves and reports: the
/// summary is the account of removing them one after the other; a dry run
/// leaves the store as it was, any other run leaves what the account says
/// is installed.
pub open spec fn cleaned(
    before: Store,
    after: Store,
    summary: RemovalSummary,
    detail: CrateDetail,
    targets: Seq<ArtifactId>,
    dry_run: bool,
    outcomes: Seq<bool>,
) -> bool {
    &&& summary.reports(
        remove_all(begin(before.installed()), detail, before.spec_kind(), targets, dry_run, outcomes),
    )
    &&& after.spec_kind() == before.spec_kind()
    &&& after.installed() == if dry_run {
        before.installed()
    } else {
        remove_all(
            begin(before.installed()),
            detail,
            before.spec_kind(),
            targets,
            false,
            outcomes,
        ).installed
    }
    &&& forall|id: ArtifactId|
        #![trigger after.place_of(id)]
        after.installed().contains(id) ==> after.place_of(id) == before.place_of(id)
}

/// Whether an artifact has the label `label`.
pub open spec fn label_pred(label: Seq<char>) -> spec_fn(ArtifactId) -> bool {
    |x: ArtifactId| label_of(x) == label
}

/// The installed artifacts that the labels name: for each label in turn
/// the artifacts with that label.
pub open spec fn named(installed: Seq<ArtifactId>, labels: Seq<Seq<char>>) -> Seq<ArtifactId>
    decreases labels.len(),
{
    if labels.len() == 0 {
        Seq::empty()
    } else {
        named(installed, labels.drop_last()) + installed.filter(label_pred(labels.last()))
    }
}

/// The installed artifacts that the labels name.
pub fn targets_named(installed: &Vec<ArtifactIdentity>, labels: &Vec<String>) -> (r: Vec<
    ArtifactIdentity,
>)
    ensures
        ids(r@) == named(ids(installed@), texts(labels@)),
{
    let mut out: Vec<ArtifactIdentity> = Vec::new();
    let mut i: usize = 0;
    assert(texts(labels@).take(0) =~= Seq::<Seq<char>>::empty());
    assert(ids(out@) =~= Seq::<ArtifactId>::empty());
    while i < labels.len()
        invariant
            i <= labels.len(),
            ids(out@) == named(ids(installed@), texts(labels@).take(i as int)),
        decreases labels.len() - i,
    {
        let ghost sofar = ids(out@);
        let ghost p = label_pred(labels@[i as int]@);
        proof {
            assert(texts(labels@).take(i + 1).drop_last() =~= texts(labels@).take(i as int));
            assert(texts(labels@).take(i + 1).last() == labels@[i as int]@);
            reveal(Seq::filter);
            assert(ids(installed@).take(0) =~= Seq::<ArtifactId>::empty());
        }
        let mut k: usize = 0;
        while k < installed.len()
            invariant
                k <= installed.len(),
                i < labels.len(),
                p == label_pred(labels@[i as int]@),
                ids(out@) == sofar + ids(installed@).take(k as int).filter(p),
            decreases installed.len() - k,
        {
            let ghost done = ids(installed@).take(k as int);
            let ghost x = ids(installed@)[k as int];
            proof {
                assert(ids(installed@).take(k + 1) =~= done.push(x));
                done.lemma_filter_push(x, p);
            }
            let label = installed[k].label();
            if label == labels[i] {
                let ghost before = ids(out@);
                out.push(installed[k].duplicate());
                assert(ids(out@) =~= before.push(x));
                assert(ids(out@) =~= sofar + done.filter(p).push(x));
            }
            k += 1;
        }
        assert(ids(installed@).take(k as int) =~= ids(installed@));
        i += 1;
    }
    assert(texts(labels@).take(i as int) =~= texts(labels@));
    out
}

/// Removes the registry artifacts with the given labels and accounts for
/// it. A label that names nothing installed has no effect. `outcomes`
/// tells for each target, in the order of `targets_named`, whether its
/// files were deleted.
pub fn remove_crates(
    crates: &Vec<String>,
    crate_list: &CrateList,
    registry_crates_location: &mut Store,
    crate_detail: &CrateDetail,
    dry_run: bool,
    outcomes: &Vec<bool>,
) -> (r: RemovalSummary)
    ensures
        cleaned(
            *old(registry_crates_location),
            *final(registry_crates_location),
            r,
            *crate_detail,
            named(crate_list.installed(SourceKind::Registry), texts(crates@)),
            dry_run,
            outcomes@,
        ),
{
    let targets = targets_named(crate_list.installed_registry(), crates);
    registry_crates_location.remove_crate_list(crate_detail, &targets, dry_run, outcomes)
}

} // verus!
