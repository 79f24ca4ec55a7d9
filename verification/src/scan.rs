//! Reading the listing of a cache directory into what is installed there.
//!
//! The registry cache keeps, below one directory per index mirror,
//! compressed packages named `name-version.ext` and extracted directories
//! named `name-version`. The git cache keeps, below one directory per
//! repository, one checkout per reference, and beside them one bare
//! repository store per repository.

use vstd::prelude::*;
use vstd::string::StringExecFns;
use crate::artifact::{
    label_of, parse_entry_name, split_label, ArtifactId, ArtifactIdentity, EntryName,
};
use crate::crate_detail::{recorded, size_in, CrateDetail, Role, SourceKind};
use crate::store::{with_path, Place, Store};
use crate::text::{chars_of, find_last, last_index, text_between};

verus! {

/// One item of a directory listing as contracts see it.
pub struct Found {
    pub mirror: Seq<char>,
    pub file_name: Seq<char>,
    pub size: Option<u64>,
}

/// One item of a directory listing: the directory it lies in (an index
/// mirror, or a repository), its own name, and its size in bytes where that
/// could be measured.
#[derive(Debug)]
pub struct FoundEntry {
    pub mirror: String,
    pub file_name: String,
    pub size: Option<u64>,
}

impl View for FoundEntry {
    type V = Found;

    open spec fn view(&self) -> Found {
        Found { mirror: self.mirror@, file_name: self.file_name@, size: self.size }
    }
}

/// The items of a listing as contracts see them.
pub open spec fn founds(entries: Seq<FoundEntry>) -> Seq<Found> {
    entries.map_values(|e: FoundEntry| e@)
}

/// A file name without its extension; `None` where it has none.
pub open spec fn stem(file_name: Seq<char>) -> Option<Seq<char>> {
    match last_index(file_name, '.') {
        Some(i) => Some(file_name.take(i)),
        None => None,
    }
}

/// The name of a repository directory without the fingerprint that follows
/// its last hyphen; the whole name where it has no hyphen.
pub open spec fn repository_name(dir: Seq<char>) -> Seq<char> {
    match last_index(dir, '-') {
        Some(i) => dir.take(i),
        None => dir,
    }
}

/// The registry artifact that a label writes.
pub open spec fn registry_identity(label: Seq<char>) -> Option<ArtifactId> {
    match split_label(label) {
        Some((name, version)) => Some(
            ArtifactId { name, version: Some(version), kind: SourceKind::Registry },
        ),
        None => None,
    }
}

/// The artifact that an item of a listing belongs to. A bare repository
/// store belongs to none: all checkouts of its repository share it.
pub open spec fn entry_identity(kind: SourceKind, role: Role, e: Found) -> Option<ArtifactId> {
    match (kind, role) {
        (SourceKind::Registry, Role::Archive) => match stem(e.file_name) {
            Some(label) => registry_identity(label),
            None => None,
        },
        (SourceKind::Registry, Role::Source) => registry_identity(e.file_name),
        (SourceKind::Git, Role::Source) => Some(
            ArtifactId {
                name: repository_name(e.mirror),
                version: Some(e.file_name),
                kind: SourceKind::Git,
            },
        ),
        (SourceKind::Git, Role::Archive) => None,
    }
}

/// The label under which the size of an item is recorded; `None` where the
/// item is not recognized.
pub open spec fn entry_key(kind: SourceKind, role: Role, e: Found) -> Option<Seq<char>> {
    match (kind, role) {
        (SourceKind::Git, Role::Archive) => Some(repository_name(e.file_name)),
        _ => match entry_identity(kind, role, e) {
            Some(id) => Some(label_of(id)),
            None => None,
        },
    }
}

/// The path of an item below the root that was listed.
pub open spec fn entry_path(e: Found) -> Seq<char> {
    e.mirror + seq!['/'] + e.file_name
}

/// What a scan has gathered.
pub struct Scanned {
    /// The installed artifacts, each once, in the order found.
    pub installed: Seq<ArtifactId>,
    /// Where they lie.
    pub places: Map<ArtifactId, Place>,
    /// The size table of the role that is scanned.
    pub table: Seq<(Seq<char>, u64)>,
    /// Number of items that were not recognized.
    pub unrecognized: nat,
}

/// What is gathered after one more item. An item that is not recognized is
/// counted and nothing else. A size that is missing, or that would take a
/// count out of the range of its counter, is not recorded.
pub open spec fn scan_one(s: Scanned, kind: SourceKind, role: Role, e: Found) -> Scanned {
    match entry_key(kind, role, e) {
        None => Scanned { unrecognized: s.unrecognized + 1, ..s },
        Some(key) => {
            let table = if e.size is Some && size_in(s.table, key) + e.size->0 <= u64::MAX {
                recorded(s.table, key, e.size->0)
            } else {
                s.table
            };
            match entry_identity(kind, role, e) {
                Some(id) => Scanned {
                    installed: if s.installed.contains(id) {
                        s.installed
                    } else {
                        s.installed.push(id)
                    },
                    places: s.places.insert(
                        id,
                        with_path(
                            if s.places.contains_key(id) {
                                s.places[id]
                            } else {
                                Place { archive: Seq::empty(), source: Seq::empty() }
                            },
                            role,
                            entry_path(e),
                        ),
                    ),
                    table,
                    unrecognized: s.unrecognized,
                },
                None => Scanned { table, ..s },
            }
        },
    }
}

/// What is gathered after the items of a listing, one after the other.
pub open spec fn scan_all(s: Scanned, kind: SourceKind, role: Role, entries: Seq<Found>) -> Scanned
    decreases entries.len(),
{
    if entries.len() == 0 {
        s
    } else {
        scan_one(scan_all(s, kind, role, entries.drop_last()), kind, role, entries.last())
    }
}

/// A scan counts no more unrecognized items than the listing holds.
pub proof fn lemma_scan_unrecognized(s: Scanned, kind: SourceKind, role: Role, entries: Seq<Found>)
    ensures
        scan_all(s, kind, role, entries).unrecognized <= s.unrecognized + entries.len(),
    decreases entries.len(),
{
    if entries.len() > 0 {
        lemma_scan_unrecognized(s, kind, role, entries.drop_last());
    }
}

/// The name of a repository directory without its fingerprint.
pub fn repository_of(dir: &str) -> (r: String)
    ensures
        r@ == repository_name(dir@),
{
    let chars = chars_of(dir);
    match find_last(&chars, '-') {
        Some(i) => {
            let r = text_between(dir, 0, i);
            assert(r@ =~= dir@.take(i as int));
            r
        },
        None => dir.to_owned(),
    }
}

/// The registry artifact that a label writes.
fn read_label(label: &str) -> (r: Option<ArtifactIdentity>)
    ensures
        match r {
            Some(id) => registry_identity(label@) == Some(id@),
            None => registry_identity(label@) is None,
        },
{
    match parse_entry_name(label) {
        EntryName::Parsed { name, version } => Some(ArtifactIdentity::registry(name, version)),
        EntryName::Unrecognized { raw } => None,
    }
}

/// The artifact that an item of a listing belongs to.
pub fn identity_of(kind: SourceKind, role: Role, entry: &FoundEntry) -> (r: Option<
    ArtifactIdentity,
>)
    ensures
        match r {
            Some(id) => entry_identity(kind, role, entry@) == Some(id@),
            None => entry_identity(kind, role, entry@) is None,
        },
{
    match (kind, role) {
        (SourceKind::Registry, Role::Archive) => {
            let chars = chars_of(entry.file_name.as_str());
            match find_last(&chars, '.') {
                Some(i) => {
                    let label = text_between(entry.file_name.as_str(), 0, i);
                    assert(label@ =~= entry.file_name@.take(i as int));
                    read_label(label.as_str())
                },
                None => None,
            }
        },
        (SourceKind::Registry, Role::Source) => read_label(entry.file_name.as_str()),
        (SourceKind::Git, Role::Source) => Some(
            ArtifactIdentity::git(repository_of(entry.mirror.as_str()), entry.file_name.clone()),
        ),
        (SourceKind::Git, Role::Archive) => None,
    }
}

/// Whether `places` are the places that `store` holds.
pub open spec fn gathered(store: Store, detail: CrateDetail, role: Role, s: Scanned) -> bool {
    &&& store.installed() == s.installed
    &&& store.places() == s.places
    &&& detail.table_of(store.spec_kind(), role) == s.table
}

/// Reads the listing of one root of a cache. `role` tells which: the
/// archive root or the source root. Every recognized item makes its artifact
/// installed and adds its path to the place of the artifact, and its size,
/// where it has one, to the size table of that role. The result is the
/// number of items that were not recognized.
pub fn scan(store: &mut Store, detail: &mut CrateDetail, role: Role, entries: &Vec<FoundEntry>) -> (r:
    usize)
    ensures
        final(store).spec_kind() == old(store).spec_kind(),
        gathered(
            *final(store),
            *final(detail),
            role,
            scan_all(
                Scanned {
                    installed: old(store).installed(),
                    places: old(store).places(),
                    table: old(detail).table_of(old(store).spec_kind(), role),
                    unrecognized: 0,
                },
                old(store).spec_kind(),
                role,
                founds(entries@),
            ),
        ),
        r == scan_all(
            Scanned {
                installed: old(store).installed(),
                places: old(store).places(),
                table: old(detail).table_of(old(store).spec_kind(), role),
                unrecognized: 0,
            },
            old(store).spec_kind(),
            role,
            founds(entries@),
        ).unrecognized,
        forall|k: SourceKind, o: Role|
            k != old(store).spec_kind() || o != role ==> final(detail).table_of(k, o) == old(
                detail,
            ).table_of(k, o),
        final(detail).spec_bin() == old(detail).spec_bin(),
{
    let kind = store.kind();
    let ghost start = Scanned {
        installed: store.installed(),
        places: store.places(),
        table: detail.table_of(kind, role),
        unrecognized: 0,
    };
    let mut unrecognized: usize = 0;
    let mut i: usize = 0;
    assert(founds(entries@).take(0) =~= Seq::<Found>::empty());
    while i < entries.len()
        invariant
            i <= entries.len(),
            store.spec_kind() == kind,
            kind == old(store).spec_kind(),
            start.unrecognized == 0,
            gathered(*store, *detail, role, scan_all(start, kind, role, founds(entries@).take(i as int))),
            unrecognized == scan_all(
                start,
                kind,
                role,
                founds(entries@).take(i as int),
            ).unrecognized,
            forall|k: SourceKind, o: Role|
                k != kind || o != role ==> detail.table_of(k, o) == old(detail).table_of(k, o),
            detail.spec_bin() == old(detail).spec_bin(),
        decreases entries.len() - i,
    {
        let ghost done = founds(entries@).take(i as int);
        let ghost next = founds(entries@).take(i + 1);
        proof {
            assert(next.drop_last() =~= done);
            assert(next.last() == entries@[i as int]@);
            lemma_scan_unrecognized(start, kind, role, done);
            assert(done.len() == i);
            assert(unrecognized <= i);
        }
        let entry = &entries[i];
        let identity = identity_of(kind, role, entry);
        let key = match (kind, role) {
            (SourceKind::Git, Role::Archive) => Some(repository_of(entry.file_name.as_str())),
            _ => match &identity {
                Some(id) => Some(id.label()),
                None => None,
            },
        };
        match key {
            None => {
                unrecognized += 1;
            },
            Some(key) => {
                match entry.size {
                    Some(size) => {
                        detail.record(kind, role, key, size);
                    },
                    None => {},
                }
                match identity {
                    Some(id) => {
                        let mut path = entry.mirror.clone();
                        path.append("/");
                        path.append(entry.file_name.as_str());
                        proof {
                            reveal_strlit("/");
                            assert("/"@ =~= seq!['/']);
                        }
                        store.insert(id, role, path);
                    },
                    None => {},
                }
            },
        }
        i += 1;
    }
    assert(founds(entries@).take(i as int) =~= founds(entries@));
    unrecognized
}

} // verus!
