//! The reference set: what the tracked projects depend on.

use vstd::prelude::*;
use crate::crate_detail::SourceKind;

verus! {

/// One locked dependency as contracts see it.
pub struct RefEntry {
    pub name: Seq<char>,
    pub version: Seq<char>,
    pub kind: SourceKind,
}

/// One locked dependency of a tracked project.
#[derive(Debug)]
pub struct ReferenceEntry {
    pub name: String,
    pub version: String,
    pub kind: SourceKind,
}

impl ReferenceEntry {
    /// A copy of this entry.
    pub fn duplicate(&self) -> (r: ReferenceEntry)
        ensures
            r@ == self@,
    {
        ReferenceEntry { name: self.name.clone(), version: self.version.clone(), kind: self.kind }
    }
}

impl View for ReferenceEntry {
    type V = RefEntry;

    open spec fn view(&self) -> RefEntry {
        RefEntry { name: self.name@, version: self.version@, kind: self.kind }
    }
}

/// The views of a list of locked dependencies.
pub open spec fn entries_of(list: Seq<ReferenceEntry>) -> Seq<RefEntry> {
    list.map_values(|e: ReferenceEntry| e@)
}

/// The views of a list of strings.
pub open spec fn texts(list: Seq<String>) -> Seq<Seq<char>> {
    list.map_values(|s: String| s@)
}

/// The reference set as contracts see it.
pub struct References {
    /// No project is tracked.
    pub directory_is_empty: bool,
    /// The locked dependencies of the tracked projects that could be read.
    pub entries: Seq<RefEntry>,
    /// Package names counted as referenced whatever the lock files say.
    pub added: Seq<Seq<char>>,
    /// Package names counted as unreferenced whatever the lock files say.
    pub removed: Seq<Seq<char>>,
    /// Number of tracked projects whose lock file could not be read.
    pub skipped: nat,
}

impl References {
    /// Some lock file names the package `name` from the cache of `kind`.
    pub open spec fn locked(self, name: Seq<char>, kind: SourceKind) -> bool {
        exists|i: int|
            0 <= i < self.entries.len() && (#[trigger] self.entries[i]).name == name
                && self.entries[i].kind == kind
    }

    /// Whether the package `name` from the cache of `kind` counts as
    /// referenced: a lock file names it or it is added, and it is not
    /// removed. Where no project is tracked nothing is referenced.
    pub open spec fn mentions(self, name: Seq<char>, kind: SourceKind) -> bool {
        &&& !self.directory_is_empty
        &&& self.locked(name, kind) || self.added.contains(name)
        &&& !self.removed.contains(name)
    }
}

/// The locked dependencies of `projects`, project after project; a project
/// whose lock file could not be read contributes none.
pub open spec fn merged(projects: Seq<Option<Vec<ReferenceEntry>>>) -> Seq<RefEntry>
    decreases projects.len(),
{
    if projects.len() == 0 {
        Seq::empty()
    } else {
        let rest = merged(projects.drop_last());
        match projects.last() {
            Some(list) => rest + entries_of(list@),
            None => rest,
        }
    }
}

/// The number of `projects` whose lock file could not be read.
pub open spec fn unread(projects: Seq<Option<Vec<ReferenceEntry>>>) -> nat
    decreases projects.len(),
{
    if projects.len() == 0 {
        0
    } else {
        let rest = unread(projects.drop_last());
        match projects.last() {
            Some(_) => rest,
            None => rest + 1,
        }
    }
}

/// No more projects are unread than there are projects.
pub proof fn lemma_unread_bound(projects: Seq<Option<Vec<ReferenceEntry>>>)
    ensures
        unread(projects) <= projects.len(),
    decreases projects.len(),
{
    if projects.len() > 0 {
        lemma_unread_bound(projects.drop_last());
    }
}

/// Whether `name` is one of `list`.
pub fn has_text(list: &Vec<String>, name: &String) -> (r: bool)
    ensures
        r <==> texts(list@).contains(name@),
{
    let mut i: usize = 0;
    while i < list.len()
        invariant
            i <= list.len(),
            forall|j: int| 0 <= j < i ==> (#[trigger] list@[j])@ != name@,
        decreases list.len() - i,
    {
        if list[i] == *name {
            assert(texts(list@)[i as int] == name@);
            return true;
        }
        i += 1;
    }
    assert(!texts(list@).contains(name@)) by {
        if texts(list@).contains(name@) {
            let k = choose|k: int| 0 <= k < texts(list@).len() && texts(list@)[k] == name@;
            assert(list@[k]@ == name@);
        }
    }
    false
}

/// What the tracked projects depend on, with the overrides of this run.
pub struct ReferenceSet {
    directory_is_empty: bool,
    entries: Vec<ReferenceEntry>,
    added: Vec<String>,
    removed: Vec<String>,
    skipped: usize,
}

impl View for ReferenceSet {
    type V = References;

    closed spec fn view(&self) -> References {
        References {
            directory_is_empty: self.directory_is_empty,
            entries: entries_of(self.entries@),
            added: texts(self.added@),
            removed: texts(self.removed@),
            skipped: self.skipped as nat,
        }
    }
}

impl ReferenceSet {
    /// Merges the locked dependencies of the tracked projects. `projects`
    /// holds one item per tracked project: its locked dependencies, or
    /// `None` where its lock file was missing or could not be read. Such a
    /// project is skipped and counted.
    pub fn aggregate(
        projects: &Vec<Option<Vec<ReferenceEntry>>>,
        added: Vec<String>,
        removed: Vec<String>,
    ) -> (r: ReferenceSet)
        ensures
            r@.directory_is_empty == (projects@.len() == 0),
            r@.entries == merged(projects@),
            r@.added == texts(added@),
            r@.removed == texts(removed@),
            r@.skipped == unread(projects@),
    {
        let mut entries: Vec<ReferenceEntry> = Vec::new();
        let mut skipped: usize = 0;
        let mut i: usize = 0;
        while i < projects.len()
            invariant
                i <= projects.len(),
                skipped as nat == unread(projects@.take(i as int)),
                entries_of(entries@) == merged(projects@.take(i as int)),
            decreases projects.len() - i,
        {
            let ghost done = projects@.take(i as int);
            let ghost next = projects@.take(i + 1);
            assert(next.drop_last() =~= done);
            assert(next.last() == projects@[i as int]);
            proof {
                lemma_unread_bound(done);
            }
            match &projects[i] {
                Some(list) => {
                    let ghost sofar = entries_of(entries@);
                    let mut k: usize = 0;
                    while k < list.len()
                        invariant
                            k <= list.len(),
                            entries_of(entries@) == sofar + entries_of(list@).take(k as int),
                        decreases list.len() - k,
                    {
                        let ghost e0 = entries_of(entries@);
                        entries.push(list[k].duplicate());
                        assert(entries_of(entries@) =~= e0.push(list@[k as int]@));
                        assert(entries_of(list@).take(k + 1) =~= entries_of(list@).take(
                            k as int,
                        ).push(list@[k as int]@));
                        k += 1;
                    }
                    assert(entries_of(list@).take(k as int) =~= entries_of(list@));
                },
                None => {
                    skipped += 1;
                },
            }
            i += 1;
        }
        assert(projects@.take(i as int) =~= projects@);
        ReferenceSet {
            directory_is_empty: projects.len() == 0,
            entries,
            added,
            removed,
            skipped,
        }
    }

    /// Whether no project is tracked, so that nothing counts as referenced.
    pub fn directory_is_empty(&self) -> (r: bool)
        ensures
            r == self@.directory_is_empty,
    {
        self.directory_is_empty
    }

    /// Number of tracked projects whose lock file could not be read.
    pub fn skipped(&self) -> (r: usize)
        ensures
            r == self@.skipped,
    {
        self.skipped
    }

    /// Whether the package `name` from the cache of `kind` counts as
    /// referenced.
    pub fn mentions(&self, name: &String, kind: SourceKind) -> (r: bool)
        ensures
            r == self@.mentions(name@, kind),
    {
        if self.directory_is_empty {
            return false;
        }
        if has_text(&self.removed, name) {
            return false;
        }
        if has_text(&self.added, name) {
            return true;
        }
        let mut i: usize = 0;
        while i < self.entries.len()
            invariant
                i <= self.entries.len(),
                !self@.directory_is_empty,
                !self@.removed.contains(name@),
                forall|j: int|
                    0 <= j < i ==> !((#[trigger] self.entries@[j])@.name == name@
                        && self.entries@[j]@.kind == kind),
            decreases self.entries.len() - i,
        {
            let e = &self.entries[i];
            let same_kind = match (e.kind, kind) {
                (SourceKind::Registry, SourceKind::Registry) => true,
                (SourceKind::Git, SourceKind::Git) => true,
                _ => false,
            };
            if same_kind && e.name == *name {
                assert(self@.entries.len() == self.entries@.len());
                assert(self@.entries[i as int] == self.entries@[i as int]@);
                assert(self@.locked(name@, kind));
                return true;
            }
            i += 1;
        }
        assert(!self@.locked(name@, kind)) by {
            if self@.locked(name@, kind) {
                let k = choose|k: int|
                    0 <= k < self@.entries.len() && (#[trigger] self@.entries[k]).name == name@
                        && self@.entries[k].kind == kind;
                assert(self.entries@[k]@.name == name@);
            }
        }
        false
    }
}

} // verus!
