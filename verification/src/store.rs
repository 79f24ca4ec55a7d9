//! The artifacts of one cache with their places on disk, and their removal.
//!
//! Nothing here touches the disk. A removal is told for each target whether
//! its files were deleted, and accounts for it: what is installed
//! afterwards, how many artifacts went and how many bytes they held. A dry
//! run is the same account with every deletion taken as done, kept apart
//! from what is installed.

use vstd::prelude::*;
use crate::artifact::{ids, label_of, ArtifactId, ArtifactIdentity};
use crate::crate_detail::{CrateDetail, Footprint, Role, SourceKind};
use crate::list_crate::lemma_filter_no_duplicates;
use crate::reference::texts;

verus! {

/// Where an artifact lies: paths below the archive root and below the source
/// root of its cache. A registry artifact has compressed packages and
/// extracted directories; a git artifact has checkouts only, since the bare
/// repository store is shared by all of them.
pub struct ArtifactLocation {
    pub archive: Vec<String>,
    pub source: Vec<String>,
}

/// A location as contracts see it.
pub struct Place {
    pub archive: Seq<Seq<char>>,
    pub source: Seq<Seq<char>>,
}

impl View for ArtifactLocation {
    type V = Place;

    open spec fn view(&self) -> Place {
        Place { archive: texts(self.archive@), source: texts(self.source@) }
    }
}

/// An installed artifact and where it lies.
pub struct Located {
    pub identity: ArtifactIdentity,
    pub location: ArtifactLocation,
}

/// In the git cache no artifact has an archive of its own: the bare
/// repository store is shared by all checkouts of a repository, and is not
/// removed with any one of them.
pub open spec fn archive_free(kind: SourceKind, entries: Seq<Located>) -> bool {
    kind == SourceKind::Git ==> forall|i: int|
        0 <= i < entries.len() ==> (#[trigger] entries[i]).location@.archive.len() == 0
}

/// The identities of a list of located artifacts.
pub open spec fn located_ids(entries: Seq<Located>) -> Seq<ArtifactId> {
    entries.map_values(|e: Located| e.identity@)
}

/// The account of a removal as contracts see it.
pub struct Run {
    /// What is installed.
    pub installed: Seq<ArtifactId>,
    /// Bytes that the removed artifacts held as archives.
    pub archive: nat,
    /// Bytes that the removed artifacts held as sources.
    pub source: nat,
    /// Number of artifacts removed.
    pub count: nat,
    /// The targets that were installed and whose deletion failed.
    pub failed: Seq<ArtifactId>,
}

/// The account before anything was removed.
pub open spec fn begin(installed: Seq<ArtifactId>) -> Run {
    Run { installed, archive: 0, source: 0, count: 0, failed: Seq::empty() }
}

/// `installed` without `target`.
pub open spec fn without(installed: Seq<ArtifactId>, target: ArtifactId) -> Seq<ArtifactId> {
    if installed.contains(target) {
        installed.remove(installed.index_of(target))
    } else {
        installed
    }
}

/// The account after one target: a target that is not installed changes
/// nothing; one whose files were deleted leaves the installed artifacts and
/// is counted with the bytes recorded for it; one whose deletion failed
/// stays installed and is listed as failed.
pub open spec fn remove_one(
    run: Run,
    detail: CrateDetail,
    kind: SourceKind,
    target: ArtifactId,
    deleted: bool,
) -> Run {
    if !run.installed.contains(target) {
        run
    } else if deleted {
        Run {
            installed: without(run.installed, target),
            archive: run.archive + detail.archive_bytes(kind, label_of(target)),
            source: run.source + detail.source_bytes(kind, label_of(target)),
            count: run.count + 1,
            failed: run.failed,
        }
    } else {
        Run { failed: run.failed.push(target), ..run }
    }
}

/// Whether the deletion of the target at `i` is taken as done: always in a
/// dry run, else where `outcomes` says so. A target without an outcome was
/// not deleted.
pub open spec fn deleted_at(dry_run: bool, outcomes: Seq<bool>, i: int) -> bool {
    dry_run || (0 <= i < outcomes.len() && outcomes[i])
}

/// The account after the targets, one after the other.
pub open spec fn remove_all(
    run: Run,
    detail: CrateDetail,
    kind: SourceKind,
    targets: Seq<ArtifactId>,
    dry_run: bool,
    outcomes: Seq<bool>,
) -> Run
    decreases targets.len(),
{
    if targets.len() == 0 {
        run
    } else {
        remove_one(
            remove_all(run, detail, kind, targets.drop_last(), dry_run, outcomes),
            detail,
            kind,
            targets.last(),
            deleted_at(dry_run, outcomes, targets.len() - 1),
        )
    }
}

/// In a sequence without repetitions an item stands at one position only.
pub proof fn lemma_index_of_unique(s: Seq<ArtifactId>, i: int)
    requires
        s.no_duplicates(),
        0 <= i < s.len(),
    ensures
        s.contains(s[i]),
        s.index_of(s[i]) == i,
{
    let k = s.index_of(s[i]);
    assert(0 <= k < s.len() && s[k] == s[i]);
}

/// Taking an artifact out leaves the others, each once, and not the
/// artifact.
pub proof fn lemma_without(installed: Seq<ArtifactId>, target: ArtifactId)
    requires
        installed.no_duplicates(),
    ensures
        without(installed, target).no_duplicates(),
        !without(installed, target).contains(target),
        forall|x: ArtifactId|
            x != target ==> (without(installed, target).contains(x) <==> installed.contains(x)),
{
    let after = without(installed, target);
    if installed.contains(target) {
        let i = installed.index_of(target);
        assert(0 <= i < installed.len() && installed[i] == target);
        assert forall|a: int, b: int| 0 <= a < b < after.len() implies after[a] != after[b] by {
            let a0 = if a < i { a } else { a + 1 };
            let b0 = if b < i { b } else { b + 1 };
            assert(after[a] == installed[a0] && after[b] == installed[b0]);
        }
        if after.contains(target) {
            let k = choose|k: int| 0 <= k < after.len() && after[k] == target;
            let k0 = if k < i { k } else { k + 1 };
            assert(after[k] == installed[k0]);
        }
        assert forall|x: ArtifactId| x != target implies (after.contains(x) <==> installed.contains(
            x,
        )) by {
            if installed.contains(x) {
                let k = choose|k: int| 0 <= k < installed.len() && installed[k] == x;
                let k1 = if k < i { k } else { k - 1 };
                assert(after[k1] == x);
            }
            if after.contains(x) {
                let k = choose|k: int| 0 <= k < after.len() && after[k] == x;
                let k0 = if k < i { k } else { k + 1 };
                assert(installed[k0] == x);
            }
        }
    }
}

/// A removal keeps the installed artifacts distinct, installs nothing, and
/// counts at most one artifact per target and at most the range of a
/// counter of bytes per artifact.
pub proof fn lemma_remove_all_bounds(
    run: Run,
    detail: CrateDetail,
    kind: SourceKind,
    targets: Seq<ArtifactId>,
    dry_run: bool,
    outcomes: Seq<bool>,
)
    requires
        run.installed.no_duplicates(),
    ensures
        remove_all(run, detail, kind, targets, dry_run, outcomes).installed.no_duplicates(),
        forall|x: ArtifactId|
            remove_all(run, detail, kind, targets, dry_run, outcomes).installed.contains(x)
                ==> run.installed.contains(x),
        remove_all(run, detail, kind, targets, dry_run, outcomes).count <= run.count
            + targets.len(),
        remove_all(run, detail, kind, targets, dry_run, outcomes).archive <= run.archive
            + targets.len() * u64::MAX,
        remove_all(run, detail, kind, targets, dry_run, outcomes).source <= run.source
            + targets.len() * u64::MAX,
    decreases targets.len(),
{
    if targets.len() > 0 {
        let before = remove_all(run, detail, kind, targets.drop_last(), dry_run, outcomes);
        lemma_remove_all_bounds(run, detail, kind, targets.drop_last(), dry_run, outcomes);
        lemma_without(before.installed, targets.last());
        assert((targets.len() - 1) * u64::MAX + u64::MAX == targets.len() * u64::MAX)
            by (nonlinear_arith);
    }
}

/// A dry run and a run in which every deletion succeeds give the same
/// account.
pub proof fn lemma_dry_run_agrees(
    installed: Seq<ArtifactId>,
    detail: CrateDetail,
    kind: SourceKind,
    targets: Seq<ArtifactId>,
    ignored: Seq<bool>,
    outcomes: Seq<bool>,
)
    requires
        outcomes.len() == targets.len(),
        forall|i: int| 0 <= i < outcomes.len() ==> outcomes[i],
    ensures
        remove_all(begin(installed), detail, kind, targets, true, ignored) == remove_all(
            begin(installed),
            detail,
            kind,
            targets,
            false,
            outcomes,
        ),
    decreases targets.len(),
{
    if targets.len() > 0 {
        let front = targets.drop_last();
        lemma_dry_run_agrees(installed, detail, kind, front, ignored, outcomes.drop_last());
        lemma_outcomes_beyond(begin(installed), detail, kind, front, outcomes.drop_last(), outcomes);
    }
}

/// Outcomes beyond the last target take no part in a removal.
pub proof fn lemma_outcomes_beyond(
    run: Run,
    detail: CrateDetail,
    kind: SourceKind,
    targets: Seq<ArtifactId>,
    a: Seq<bool>,
    b: Seq<bool>,
)
    requires
        a.len() >= targets.len(),
        b.len() >= targets.len(),
        forall|i: int| 0 <= i < targets.len() ==> a[i] == b[i],
    ensures
        remove_all(run, detail, kind, targets, false, a) == remove_all(
            run,
            detail,
            kind,
            targets,
            false,
            b,
        ),
    decreases targets.len(),
{
    if targets.len() > 0 {
        lemma_outcomes_beyond(run, detail, kind, targets.drop_last(), a, b);
    }
}

/// Removing what is not installed changes nothing: no artifact is counted,
/// no byte, and nothing is listed as failed.
pub proof fn lemma_absent_target_no_effect(
    run: Run,
    detail: CrateDetail,
    kind: SourceKind,
    target: ArtifactId,
    dry_run: bool,
    outcomes: Seq<bool>,
)
    requires
        !run.installed.contains(target),
    ensures
        remove_all(run, detail, kind, seq![target], dry_run, outcomes) == run,
{
    assert(seq![target].drop_last() =~= Seq::<ArtifactId>::empty());
    assert(seq![target].last() == target);
    assert(remove_all(run, detail, kind, Seq::<ArtifactId>::empty(), dry_run, outcomes) == run);
}

/// A target that was removed is not installed afterwards, so that removing
/// it once more has no effect.
pub proof fn lemma_removed_target_is_gone(
    run: Run,
    detail: CrateDetail,
    kind: SourceKind,
    targets: Seq<ArtifactId>,
    outcomes: Seq<bool>,
    i: int,
)
    requires
        run.installed.no_duplicates(),
        0 <= i < targets.len(),
        deleted_at(false, outcomes, i),
    ensures
        !remove_all(run, detail, kind, targets, false, outcomes).installed.contains(targets[i]),
        remove_all(
            begin(remove_all(run, detail, kind, targets, false, outcomes).installed),
            detail,
            kind,
            seq![targets[i]],
            false,
            seq![true],
        ) == begin(remove_all(run, detail, kind, targets, false, outcomes).installed),
    decreases targets.len(),
{
    let front = targets.drop_last();
    let before = remove_all(run, detail, kind, front, false, outcomes);
    let after = remove_all(run, detail, kind, targets, false, outcomes);
    lemma_remove_all_bounds(run, detail, kind, front, false, outcomes);
    lemma_without(before.installed, targets.last());
    if i < targets.len() - 1 {
        lemma_removed_target_is_gone(run, detail, kind, front, outcomes, i);
        assert(front[i] == targets[i]);
    }
    lemma_absent_target_no_effect(begin(after.installed), detail, kind, targets[i], false, seq![true]);
}

/// Where `id` lies according to `entries`; `None` where it is not among them.
pub open spec fn place_in(entries: Seq<Located>, id: ArtifactId) -> Option<Place> {
    if located_ids(entries).contains(id) {
        Some(entries[located_ids(entries).index_of(id)].location@)
    } else {
        None
    }
}

/// Taking one entry out leaves the places of the others.
pub proof fn lemma_place_after_remove(entries: Seq<Located>, i: int, id: ArtifactId)
    requires
        located_ids(entries).no_duplicates(),
        0 <= i < entries.len(),
        id != entries[i].identity@,
    ensures
        located_ids(entries.remove(i)) == located_ids(entries).remove(i),
        place_in(entries.remove(i), id) == place_in(entries, id),
{
    let all = located_ids(entries);
    let rest = located_ids(entries.remove(i));
    assert(rest =~= all.remove(i));
    lemma_index_of_unique(all, i);
    lemma_without(all, all[i]);
    assert(without(all, all[i]) == rest);
    if all.contains(id) {
        let k = all.index_of(id);
        assert(0 <= k < all.len() && all[k] == id);
        let k1 = if k < i { k } else { k - 1 };
        assert(rest[k1] == id);
        lemma_index_of_unique(rest, k1);
        assert(entries.remove(i)[k1] == entries[k]);
    }
}

/// Position of the entry for `id`.
fn find_entry(entries: &Vec<Located>, id: &ArtifactIdentity) -> (r: Option<usize>)
    requires
        located_ids(entries@).no_duplicates(),
    ensures
        match r {
            Some(i) => i < entries@.len() && located_ids(entries@)[i as int] == id@ && located_ids(
                entries@,
            ).contains(id@) && located_ids(entries@).index_of(id@) == i,
            None => !located_ids(entries@).contains(id@),
        },
{
    let mut i: usize = 0;
    while i < entries.len()
        invariant
            i <= entries.len(),
            located_ids(entries@).no_duplicates(),
            forall|j: int| 0 <= j < i ==> (#[trigger] located_ids(entries@)[j]) != id@,
        decreases entries.len() - i,
    {
        if entries[i].identity.same(id) {
            proof {
                assert(located_ids(entries@)[i as int] == id@);
                lemma_index_of_unique(located_ids(entries@), i as int);
            }
            return Some(i);
        }
        assert(located_ids(entries@)[i as int] == entries@[i as int].identity@);
        i += 1;
    }
    None
}

fn copy_texts(list: &Vec<String>) -> (r: Vec<String>)
    ensures
        texts(r@) == texts(list@),
{
    let mut out: Vec<String> = Vec::new();
    let mut i: usize = 0;
    while i < list.len()
        invariant
            i <= list.len(),
            texts(out@) == texts(list@).take(i as int),
        decreases list.len() - i,
    {
        let ghost before = texts(out@);
        out.push(list[i].clone());
        assert(texts(out@) =~= before.push(list@[i as int]@));
        assert(texts(list@).take(i + 1) =~= texts(list@).take(i as int).push(list@[i as int]@));
        i += 1;
    }
    assert(texts(list@).take(i as int) =~= texts(list@));
    out
}

impl ArtifactLocation {
    /// A location without any path.
    pub fn empty() -> (r: ArtifactLocation)
        ensures
            r@ == (Place { archive: Seq::empty(), source: Seq::empty() }),
    {
        let r = ArtifactLocation { archive: Vec::new(), source: Vec::new() };
        assert(r@.archive =~= Seq::<Seq<char>>::empty());
        assert(r@.source =~= Seq::<Seq<char>>::empty());
        r
    }

    /// A copy of this location.
    pub fn duplicate(&self) -> (r: ArtifactLocation)
        ensures
            r@ == self@,
    {
        ArtifactLocation { archive: copy_texts(&self.archive), source: copy_texts(&self.source) }
    }
}

/// The account of a removal: the bytes that the removed artifacts held, how
/// many artifacts were removed, and the targets that were installed and
/// could not be deleted.
pub struct RemovalSummary {
    pub freed: Footprint,
    pub count: usize,
    pub failed: Vec<ArtifactIdentity>,
}

impl RemovalSummary {
    /// Whether this summary reports the account `run`.
    pub open spec fn reports(&self, run: Run) -> bool {
        &&& self.freed.archive == run.archive
        &&& self.freed.source == run.source
        &&& self.count == run.count
        &&& ids(self.failed@) == run.failed
        &&& self.failed@.len() == run.failed.len()
    }
}

/// Takes one target out of `entries` and accounts for it in `summary`.
fn take_out(
    entries: &mut Vec<Located>,
    detail: &CrateDetail,
    kind: SourceKind,
    target: &ArtifactIdentity,
    deleted: bool,
    summary: &mut RemovalSummary,
    Ghost(run): Ghost<Run>,
)
    requires
        located_ids(old(entries)@) == run.installed,
        run.installed.no_duplicates(),
        old(summary).reports(run),
        run.count < usize::MAX,
        run.archive + u64::MAX <= u128::MAX,
        run.source + u64::MAX <= u128::MAX,
    ensures
        located_ids(final(entries)@) == remove_one(run, *detail, kind, target@, deleted).installed,
        final(summary).reports(remove_one(run, *detail, kind, target@, deleted)),
        forall|id: ArtifactId|
            #![trigger place_in(final(entries)@, id)]
            located_ids(final(entries)@).contains(id) ==> place_in(final(entries)@, id)
                == place_in(old(entries)@, id),
        forall|k: SourceKind| archive_free(k, old(entries)@) ==> archive_free(k, final(entries)@),
{
    match find_entry(entries, target) {
        None => {},
        Some(i) => {
            if deleted {
                let label = target.label();
                let size = detail.footprint_of(label.as_str(), kind);
                let ghost before = entries@;
                proof {
                    lemma_without(run.installed, target@);
                    assert forall|id: ArtifactId|
                        located_ids(before.remove(i as int)).contains(id) implies place_in(
                        before.remove(i as int),
                        id,
                    ) == place_in(before, id) by {
                        assert(located_ids(before.remove(i as int)) =~= located_ids(before).remove(
                            i as int,
                        ));
                        lemma_place_after_remove(before, i as int, id);
                    }
                    assert(located_ids(before.remove(i as int)) =~= located_ids(before).remove(
                        i as int,
                    ));
                }
                entries.remove(i);
                assert forall|k: int| 0 <= k < entries@.len() implies exists|j: int|
                    0 <= j < before.len() && before[j] == #[trigger] entries@[k] by {
                    let j = if k < i { k } else { k + 1 };
                    assert(before[j] == entries@[k]);
                }
                assert forall|k: SourceKind| archive_free(k, before) implies archive_free(
                    k,
                    entries@,
                ) by {
                    if k == SourceKind::Git {
                        assert forall|m: int| 0 <= m < entries@.len() implies (
                        #[trigger] entries@[m]).location@.archive.len() == 0 by {
                            let j = if m < i { m } else { m + 1 };
                            assert(before[j] == entries@[m]);
                        }
                    }
                }
                summary.freed = Footprint {
                    archive: summary.freed.archive + size.archive,
                    source: summary.freed.source + size.source,
                };
                summary.count = summary.count + 1;
            } else {
                let ghost before = ids(summary.failed@);
                summary.failed.push(target.duplicate());
                assert(ids(summary.failed@) =~= before.push(target@));
            }
        },
    }
}

fn copy_entries(entries: &Vec<Located>) -> (r: Vec<Located>)
    ensures
        located_ids(r@) == located_ids(entries@),
        forall|id: ArtifactId| #![trigger place_in(r@, id)] place_in(r@, id) == place_in(entries@, id),
        forall|k: SourceKind| archive_free(k, entries@) ==> archive_free(k, r@),
{
    let mut out: Vec<Located> = Vec::new();
    let mut i: usize = 0;
    while i < entries.len()
        invariant
            i <= entries.len(),
            out@.len() == i,
            forall|k: int|
                0 <= k < i ==> (#[trigger] out@[k]).identity@ == entries@[k].identity@
                    && out@[k].location@ == entries@[k].location@,
        decreases entries.len() - i,
    {
        out.push(
            Located { identity: entries[i].identity.duplicate(), location: entries[i].location.duplicate() },
        );
        i += 1;
    }
    assert(located_ids(out@) =~= located_ids(entries@));
    out
}

/// The artifacts installed in one cache, each once, with their places.
pub struct Store {
    kind: SourceKind,
    entries: Vec<Located>,
}

impl Store {
    #[verifier::type_invariant]
    spec fn well_formed(&self) -> bool {
        &&& located_ids(self.entries@).no_duplicates()
        &&& archive_free(self.kind, self.entries@)
    }

    /// The cache that this store describes.
    pub closed spec fn spec_kind(&self) -> SourceKind {
        self.kind
    }

    /// The installed artifacts, in the order in which they were found.
    pub closed spec fn installed(&self) -> Seq<ArtifactId> {
        located_ids(self.entries@)
    }

    /// The places of the installed artifacts.
    pub closed spec fn places(&self) -> Map<ArtifactId, Place> {
        Map::new(
            |id: ArtifactId| located_ids(self.entries@).contains(id),
            |id: ArtifactId| place_in(self.entries@, id)->0,
        )
    }

    /// Where `id` lies; `None` where it is not installed.
    pub open spec fn place_of(&self, id: ArtifactId) -> Option<Place> {
        if self.places().contains_key(id) {
            Some(self.places()[id])
        } else {
            None
        }
    }

    /// A store with nothing installed.
    pub fn new(kind: SourceKind) -> (r: Store)
        ensures
            r.spec_kind() == kind,
            r.installed() == Seq::<ArtifactId>::empty(),
            r.places() == Map::<ArtifactId, Place>::empty(),
    {
        let r = Store { kind, entries: Vec::new() };
        assert(r.installed() =~= Seq::<ArtifactId>::empty());
        assert(r.places() =~= Map::<ArtifactId, Place>::empty());
        r
    }

    /// The cache that this store describes.
    pub fn kind(&self) -> (r: SourceKind)
        ensures
            r == self.spec_kind(),
    {
        self.kind
    }

    /// Number of installed artifacts.
    pub fn len(&self) -> (r: usize)
        ensures
            r == self.installed().len(),
            self.installed().no_duplicates(),
    {
        proof {
            use_type_invariant(self);
        }
        self.entries.len()
    }

    /// The installed artifacts.
    pub fn identities(&self) -> (r: Vec<ArtifactIdentity>)
        ensures
            ids(r@) == self.installed(),
            self.installed().no_duplicates(),
    {
        proof {
            use_type_invariant(self);
        }
        let mut out: Vec<ArtifactIdentity> = Vec::new();
        let mut i: usize = 0;
        while i < self.entries.len()
            invariant
                i <= self.entries.len(),
                out@.len() == i,
                forall|k: int| 0 <= k < i ==> (#[trigger] out@[k])@ == self.entries@[k].identity@,
            decreases self.entries.len() - i,
        {
            out.push(self.entries[i].identity.duplicate());
            i += 1;
        }
        assert(ids(out@) =~= self.installed());
        out
    }

    /// Whether `id` is installed.
    pub fn contains(&self, id: &ArtifactIdentity) -> (r: bool)
        ensures
            r == self.installed().contains(id@),
    {
        proof {
            use_type_invariant(self);
        }
        find_entry(&self.entries, id).is_some()
    }

    /// Where `id` lies: the files and directories to delete in order to
    /// remove it. `None` where it is not installed.
    pub fn locate(&self, id: &ArtifactIdentity) -> (r: Option<&ArtifactLocation>)
        ensures
            match r {
                Some(location) => self.place_of(id@) == Some(location@),
                None => self.place_of(id@) is None,
            },
            r is Some <==> self.installed().contains(id@),
            r is Some && self.spec_kind() == SourceKind::Git ==> r->0@.archive.len() == 0,
    {
        proof {
            use_type_invariant(self);
        }
        match find_entry(&self.entries, id) {
            Some(i) => Some(&self.entries[i].location),
            None => None,
        }
    }

    /// Notes that `path` holds the artifact `id` in the given role. An
    /// artifact noted for the first time becomes installed. In the git
    /// cache an archive belongs to no artifact, and noting one changes
    /// nothing.
    pub fn insert(&mut self, id: ArtifactIdentity, role: Role, path: String)
        ensures
            final(self).spec_kind() == old(self).spec_kind(),
            noted(*old(self), *final(self), id@, role, path@),
    {
        let shared = match (self.kind, role) {
            (SourceKind::Git, Role::Archive) => true,
            _ => false,
        };
        if shared {
            return;
        }
        proof {
            use_type_invariant(&*self);
        }
        let mut entries: Vec<Located> = Vec::new();
        std::mem::swap(&mut entries, &mut self.entries);
        let ghost before = entries@;
        let ghost all = located_ids(before);
        let found = find_entry(&entries, &id);
        let at = match found {
            Some(i) => i,
            None => {
                let n = entries.len();
                entries.push(Located { identity: id, location: ArtifactLocation::empty() });
                assert(located_ids(entries@) =~= all.push(id@));
                n
            },
        };
        let ghost middle = entries@;
        proof {
            assert(located_ids(middle).no_duplicates());
            lemma_index_of_unique(located_ids(middle), at as int);
        }
        let mut location = ArtifactLocation::empty();
        std::mem::swap(&mut location, &mut entries[at].location);
        let ghost place = location@;
        match role {
            Role::Archive => {
                let ghost list = texts(location.archive@);
                location.archive.push(path);
                assert(texts(location.archive@) =~= list.push(path@));
            },
            Role::Source => {
                let ghost list = texts(location.source@);
                location.source.push(path);
                assert(texts(location.source@) =~= list.push(path@));
            },
        }
        assert(location@ == with_path(place, role, path@));
        entries[at].location = location;
        proof {
            assert(located_ids(entries@) =~= located_ids(middle));
            assert forall|other: ArtifactId| other != id@ implies place_in(entries@, other)
                == place_in(before, other) by {
                if located_ids(entries@).contains(other) {
                    let k = located_ids(entries@).index_of(other);
                    assert(0 <= k < entries@.len() && located_ids(entries@)[k] == other);
                    assert(k != at);
                    assert(all[k] == other);
                    lemma_index_of_unique(all, k);
                }
                if all.contains(other) {
                    let k = all.index_of(other);
                    assert(0 <= k < all.len() && all[k] == other);
                    assert(located_ids(entries@)[k] == other);
                }
            }
        }
        proof {
            lemma_index_of_unique(located_ids(entries@), at as int);
            assert(located_ids(entries@)[at as int] == id@);
            assert(place_in(entries@, id@) == Some(with_path(place, role, path@)));
            assert(place == match place_in(before, id@) {
                Some(p) => p,
                None => Place { archive: Seq::empty(), source: Seq::empty() },
            });
            assert forall|x: ArtifactId| located_ids(entries@).contains(x) <==> (x == id@
                || all.contains(x)) by {
                if located_ids(entries@).contains(x) && x != id@ {
                    let k = located_ids(entries@).index_of(x);
                    assert(0 <= k < entries@.len() && located_ids(entries@)[k] == x);
                    assert(all[k] == x);
                }
                if all.contains(x) {
                    let k = all.index_of(x);
                    assert(0 <= k < all.len() && all[k] == x);
                    assert(located_ids(entries@)[k] == x);
                }
            }
        }
        self.entries = entries;
        assert(self.places() =~= old(self).places().insert(
            id@,
            with_path(
                match old(self).place_of(id@) {
                    Some(p) => p,
                    None => Place { archive: Seq::empty(), source: Seq::empty() },
                },
                role,
                path@,
            ),
        ));
    }

    /// Removes one artifact. `deleted` tells whether its files were
    /// deleted; a dry run takes that for granted and leaves the store as it
    /// is. A target that is not installed has no effect.
    pub fn remove_crate(
        &mut self,
        detail: &CrateDetail,
        target: &ArtifactIdentity,
        dry_run: bool,
        deleted: bool,
    ) -> (r: RemovalSummary)
        ensures
            r.reports(
                remove_one(
                    begin(old(self).installed()),
                    *detail,
                    old(self).spec_kind(),
                    target@,
                    dry_run || deleted,
                ),
            ),
            final(self).spec_kind() == old(self).spec_kind(),
            final(self).installed() == if dry_run {
                old(self).installed()
            } else {
                remove_one(
                    begin(old(self).installed()),
                    *detail,
                    old(self).spec_kind(),
                    target@,
                    deleted,
                ).installed
            },
            !dry_run && deleted ==> !final(self).installed().contains(target@),
            forall|id: ArtifactId|
                #![trigger final(self).place_of(id)]
                final(self).installed().contains(id) ==> final(self).place_of(id) == old(
                    self,
                ).place_of(id),
    {
        proof {
            use_type_invariant(&*self);
        }
        let mut summary = RemovalSummary { freed: Footprint::zero(), count: 0, failed: Vec::new() };
        assert(ids(summary.failed@) =~= Seq::<ArtifactId>::empty());
        let ghost run = begin(self.installed());
        let kind = self.kind;
        if dry_run {
            let mut scratch = copy_entries(&self.entries);
            take_out(&mut scratch, detail, kind, target, true, &mut summary, Ghost(run));
        } else {
            let mut entries: Vec<Located> = Vec::new();
            std::mem::swap(&mut entries, &mut self.entries);
            proof {
                lemma_without(run.installed, target@);
            }
            take_out(&mut entries, detail, kind, target, deleted, &mut summary, Ghost(run));
            self.entries = entries;
        }
        summary
    }

    /// Removes the targets one after the other. `outcomes` tells for each
    /// target, by its position, whether its files were deleted; a target
    /// without an outcome was not. A dry run takes every deletion for
    /// granted and leaves the store as it is. A target that is not
    /// installed, or no longer, has no effect: of equal targets only the
    /// first is counted.
    pub fn remove_crate_list(
        &mut self,
        detail: &CrateDetail,
        targets: &Vec<ArtifactIdentity>,
        dry_run: bool,
        outcomes: &Vec<bool>,
    ) -> (r: RemovalSummary)
        ensures
            r.reports(
                remove_all(
                    begin(old(self).installed()),
                    *detail,
                    old(self).spec_kind(),
                    ids(targets@),
                    dry_run,
                    outcomes@,
                ),
            ),
            final(self).spec_kind() == old(self).spec_kind(),
            final(self).installed() == if dry_run {
                old(self).installed()
            } else {
                remove_all(
                    begin(old(self).installed()),
                    *detail,
                    old(self).spec_kind(),
                    ids(targets@),
                    false,
                    outcomes@,
                ).installed
            },
            !dry_run ==> forall|i: int|
                #![trigger ids(targets@)[i]]
                0 <= i < targets@.len() && deleted_at(false, outcomes@, i)
                    ==> !final(self).installed().contains(ids(targets@)[i]),
            forall|id: ArtifactId|
                #![trigger final(self).place_of(id)]
                final(self).installed().contains(id) ==> final(self).place_of(id) == old(
                    self,
                ).place_of(id),
    {
        proof {
            use_type_invariant(&*self);
        }
        let mut summary = RemovalSummary { freed: Footprint::zero(), count: 0, failed: Vec::new() };
        assert(ids(summary.failed@) =~= Seq::<ArtifactId>::empty());
        let kind = self.kind;
        let ghost start = begin(self.installed());
        let ghost first = self.entries@;
        let mut scratch = copy_entries(&self.entries);
        let mut i: usize = 0;
        assert(ids(targets@).take(0) =~= Seq::<ArtifactId>::empty());
        while i < targets.len()
            invariant
                i <= targets.len(),
                start.installed.no_duplicates(),
                start == begin(located_ids(first)),
                archive_free(kind, scratch@),
                located_ids(scratch@) == remove_all(
                    start,
                    *detail,
                    kind,
                    ids(targets@).take(i as int),
                    dry_run,
                    outcomes@,
                ).installed,
                summary.reports(
                    remove_all(
                        start,
                        *detail,
                        kind,
                        ids(targets@).take(i as int),
                        dry_run,
                        outcomes@,
                    ),
                ),
                forall|id: ArtifactId|
                    #![trigger place_in(scratch@, id)]
                    located_ids(scratch@).contains(id) ==> place_in(scratch@, id) == place_in(
                        first,
                        id,
                    ),
            decreases targets.len() - i,
        {
            let ghost done = ids(targets@).take(i as int);
            let ghost next = ids(targets@).take(i + 1);
            let ghost run = remove_all(start, *detail, kind, done, dry_run, outcomes@);
            proof {
                assert(next.drop_last() =~= done);
                assert(next.last() == targets@[i as int]@);
                lemma_remove_all_bounds(start, *detail, kind, done, dry_run, outcomes@);
                assert(done.len() * u64::MAX <= usize::MAX * u64::MAX) by (nonlinear_arith)
                    requires
                        done.len() <= usize::MAX,
                ;
                assert(usize::MAX * u64::MAX + u64::MAX <= u128::MAX) by (nonlinear_arith)
                    requires
                        usize::MAX <= u64::MAX,
                ;
            }
            let deleted = dry_run || (i < outcomes.len() && outcomes[i]);
            let ghost before = scratch@;
            take_out(&mut scratch, detail, kind, &targets[i], deleted, &mut summary, Ghost(run));
            i += 1;
        }
        assert(ids(targets@).take(i as int) =~= ids(targets@));
        if !dry_run {
            proof {
                lemma_remove_all_bounds(start, *detail, kind, ids(targets@), dry_run, outcomes@);
                assert forall|i: int|
                    0 <= i < targets@.len() && deleted_at(false, outcomes@, i) implies !located_ids(
                        scratch@,
                    ).contains(#[trigger] ids(targets@)[i]) by {
                    lemma_removed_target_is_gone(start, *detail, kind, ids(targets@), outcomes@, i);
                }
            }
            self.entries = scratch;
        }
        summary
    }
}

/// Whether an artifact with this place still has an archive.
pub open spec fn has_archive(places: Map<ArtifactId, Place>) -> spec_fn(ArtifactId) -> bool {
    |id: ArtifactId| places.contains_key(id) && places[id].archive.len() > 0
}

/// `place` without its extracted sources.
pub open spec fn without_sources(place: Place) -> Place {
    Place { archive: place.archive, source: Seq::empty() }
}

impl Store {
    /// Forgets the extracted sources of every artifact of the registry
    /// cache: what has an archive stays installed with its archive alone, so
    /// that it can be extracted again; what has none is no longer installed.
    /// A store of the git cache is left as it is.
    pub fn forget_sources(&mut self)
        ensures
            final(self).spec_kind() == old(self).spec_kind(),
            old(self).spec_kind() == SourceKind::Git ==> final(self).installed() == old(
                self,
            ).installed() && final(self).places() == old(self).places(),
            old(self).spec_kind() == SourceKind::Registry ==> {
                &&& final(self).installed() == old(self).installed().filter(
                    has_archive(old(self).places()),
                )
                &&& final(self).places().dom() == final(self).installed().to_set()
                &&& forall|id: ArtifactId|
                    #![trigger final(self).places()[id]]
                    final(self).installed().contains(id) ==> old(self).places().contains_key(id)
                        && final(self).places()[id] == without_sources(old(self).places()[id])
            },
    {
        proof {
            use_type_invariant(&*self);
        }
        match self.kind {
            SourceKind::Git => {
                return;
            },
            SourceKind::Registry => {},
        }
        let ghost first = self.entries@;
        let ghost all = located_ids(first);
        let ghost keep = has_archive(self.places());
        let mut out: Vec<Located> = Vec::new();
        let mut i: usize = 0;
        proof {
            reveal(Seq::filter);
            assert(all.take(0) =~= Seq::<ArtifactId>::empty());
            assert(located_ids(out@) =~= Seq::<ArtifactId>::empty());
        }
        while i < self.entries.len()
            invariant
                i <= self.entries.len(),
                first == self.entries@,
                all == located_ids(first),
                all.no_duplicates(),
                keep == has_archive(self.places()),
                located_ids(out@) == all.take(i as int).filter(keep),
                forall|k: int|
                    0 <= k < out@.len() ==> exists|j: int|
                        0 <= j < i && first[j].identity@ == (#[trigger] out@[k]).identity@
                            && out@[k].location@ == without_sources(first[j].location@),
            decreases self.entries.len() - i,
        {
            let ghost done = all.take(i as int);
            let ghost x = all[i as int];
            let e = &self.entries[i];
            proof {
                assert(all.take(i + 1) =~= done.push(x));
                done.lemma_filter_push(x, keep);
                lemma_index_of_unique(all, i as int);
                assert(self.places().contains_key(x));
                assert(self.places()[x] == first[i as int].location@);
            }
            if e.location.archive.len() > 0 {
                let ghost before = located_ids(out@);
                let ghost prev = out@;
                let kept = Located {
                    identity: e.identity.duplicate(),
                    location: ArtifactLocation {
                        archive: copy_texts(&e.location.archive),
                        source: Vec::new(),
                    },
                };
                assert(kept.location@.source =~= Seq::<Seq<char>>::empty());
                out.push(kept);
                assert(located_ids(out@) =~= before.push(x));
                assert forall|k: int| 0 <= k < out@.len() implies exists|j: int|
                    0 <= j < i + 1 && first[j].identity@ == (#[trigger] out@[k]).identity@
                        && out@[k].location@ == without_sources(first[j].location@) by {
                    if k < prev.len() {
                        assert(out@[k] == prev[k]);
                        let j = choose|j: int|
                            0 <= j < i && first[j].identity@ == prev[k].identity@
                                && prev[k].location@ == without_sources(first[j].location@);
                        assert(0 <= j < i + 1);
                    } else {
                        assert(first[i as int].identity@ == out@[k].identity@);
                    }
                }
            }
            i += 1;
        }
        proof {
            assert(all.take(i as int) =~= all);
            lemma_filter_no_duplicates(all, keep);
            assert forall|id: ArtifactId| located_ids(out@).contains(id) implies place_in(first, id)
                is Some && place_in(out@, id) == Some(
                without_sources(place_in(first, id)->0),
            ) by {
                let k = located_ids(out@).index_of(id);
                assert(0 <= k < out@.len() && located_ids(out@)[k] == id);
                let j = choose|j: int|
                    0 <= j < i && first[j].identity@ == out@[k].identity@ && out@[k].location@
                        == without_sources(first[j].location@);
                assert(all[j] == id);
                lemma_index_of_unique(all, j);
            }
        }
        self.entries = out;
        assert(self.places().dom() =~= self.installed().to_set());
    }
}

/// What noting a path leaves of a store: the artifact is installed, and the
/// path is added to its place in the given role. Noting an archive in the
/// git cache leaves everything as it was.
pub open spec fn noted(before: Store, after: Store, id: ArtifactId, role: Role, path: Seq<char>) -> bool {
    if before.spec_kind() == SourceKind::Git && role == Role::Archive {
        &&& after.installed() == before.installed()
        &&& after.places() == before.places()
    } else {
        &&& after.installed() == if before.installed().contains(id) {
            before.installed()
        } else {
            before.installed().push(id)
        }
        &&& after.places() == before.places().insert(
            id,
            with_path(
                match before.place_of(id) {
                    Some(p) => p,
                    None => Place { archive: Seq::empty(), source: Seq::empty() },
                },
                role,
                path,
            ),
        )
    }
}

/// `place` with one more path in the given role.
pub open spec fn with_path(place: Place, role: Role, path: Seq<char>) -> Place {
    match role {
        Role::Archive => Place { archive: place.archive.push(path), ..place },
        Role::Source => Place { source: place.source.push(path), ..place },
    }
}

} // verus!
