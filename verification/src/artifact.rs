//! Artifact identities and the labels under which they lie on disk.

use vstd::prelude::*;
use vstd::string::StringExecFns;
use crate::crate_detail::SourceKind;
use crate::semver::{parse_version, Version};
use crate::text::{chars_of, slice_of};

verus! {

/// An artifact as contracts see it: package name, version and cache.
pub struct ArtifactId {
    pub name: Seq<char>,
    pub version: Option<Seq<char>>,
    pub kind: SourceKind,
}

/// One cached artifact: a package name, the version or reference that
/// tells it from its siblings, and the cache it lies in.
#[derive(Debug)]
pub struct ArtifactIdentity {
    pub name: String,
    pub version: Option<String>,
    pub kind: SourceKind,
}

impl View for ArtifactIdentity {
    type V = ArtifactId;

    open spec fn view(&self) -> ArtifactId {
        ArtifactId {
            name: self.name@,
            version: match self.version {
                Some(v) => Some(v@),
                None => None,
            },
            kind: self.kind,
        }
    }
}

/// The identities of a list of artifacts.
pub open spec fn ids(list: Seq<ArtifactIdentity>) -> Seq<ArtifactId> {
    list.map_values(|a: ArtifactIdentity| a@)
}

/// The label of an artifact: `name-version`, or the name alone where it has
/// no version.
pub open spec fn label_of(id: ArtifactId) -> Seq<char> {
    match id.version {
        Some(v) => id.name + seq!['-'] + v,
        None => id.name,
    }
}

/// `raw` splits into a name and a version at the hyphen at `i`.
pub open spec fn is_split_point(raw: Seq<char>, i: int) -> bool {
    &&& 0 < i < raw.len()
    &&& raw[i] == '-'
    &&& parse_version(raw.skip(i + 1)) is Some
}

/// `i` is the last hyphen of `raw` at which it splits.
pub open spec fn is_last_split(raw: Seq<char>, i: int) -> bool {
    &&& is_split_point(raw, i)
    &&& forall|j: int| i < j < raw.len() ==> !is_split_point(raw, j)
}

/// The name and the version that the label `raw` writes: it is split at the
/// last hyphen that is followed by a version. `None` where there is no such
/// hyphen.
pub open spec fn split_label(raw: Seq<char>) -> Option<(Seq<char>, Seq<char>)> {
    if exists|i: int| is_last_split(raw, i) {
        let i = choose|i: int| is_last_split(raw, i);
        Some((raw.take(i), raw.skip(i + 1)))
    } else {
        None
    }
}

/// The name and the version that a label was split into make up the label
/// again.
pub proof fn lemma_split_label_joins(raw: Seq<char>)
    ensures
        match split_label(raw) {
            Some((name, version)) => {
                &&& name + seq!['-'] + version == raw
                &&& name.len() > 0
                &&& parse_version(version) is Some
            },
            None => true,
        },
{
    if split_label(raw) is Some {
        let i = choose|i: int| is_last_split(raw, i);
        assert(raw.take(i) + seq!['-'] + raw.skip(i + 1) =~= raw);
    }
}

/// What the name of a cache entry was read as.
#[derive(Debug)]
pub enum EntryName {
    /// A package name and a version.
    Parsed { name: String, version: String },
    /// Not of the form `name-version`.
    Unrecognized { raw: String },
}

impl EntryName {
    /// The name and version read, if any.
    pub open spec fn parts(&self) -> Option<(Seq<char>, Seq<char>)> {
        match self {
            EntryName::Parsed { name, version } => Some((name@, version@)),
            EntryName::Unrecognized { raw } => None,
        }
    }
}

/// Reads the name of a cache entry as `name-version`.
pub fn parse_entry_name(raw: &str) -> (r: EntryName)
    ensures
        r.parts() == split_label(raw@),
        r matches EntryName::Unrecognized { raw: kept } ==> kept@ == raw@,
{
    let chars = chars_of(raw);
    let mut i: usize = chars.len();
    while i > 1
        invariant
            chars@ == raw@,
            i <= chars.len(),
            forall|j: int| i <= j < chars.len() && j > 0 ==> !is_split_point(raw@, j),
        decreases i,
    {
        i -= 1;
        if chars[i] == '-' {
            let suffix = slice_of(&chars, i + 1, chars.len());
            assert(suffix@ =~= raw@.skip(i + 1));
            if Version::parse_chars(&suffix).is_some() {
                assert(is_last_split(raw@, i as int));
                let ghost k = choose|k: int| is_last_split(raw@, k);
                assert(k == i) by {
                    if k < i {
                        assert(!is_split_point(raw@, i as int));
                    }
                    if k > i {
                        assert(!is_split_point(raw@, k));
                    }
                }
                let total = raw.unicode_len();
                let name = raw.substring_char(0, i).to_owned();
                let version = raw.substring_char(i + 1, total).to_owned();
                assert(name@ =~= raw@.take(i as int));
                assert(version@ =~= raw@.skip(i + 1));
                return EntryName::Parsed { name, version };
            }
        }
    }
    assert(!(exists|k: int| is_last_split(raw@, k))) by {
        if exists|k: int| is_last_split(raw@, k) {
            let k = choose|k: int| is_last_split(raw@, k);
            assert(is_split_point(raw@, k));
        }
    }
    EntryName::Unrecognized { raw: raw.to_owned() }
}

impl ArtifactIdentity {
    /// An artifact of the registry cache.
    pub fn registry(name: String, version: String) -> (r: ArtifactIdentity)
        ensures
            r@ == (ArtifactId {
                name: name@,
                version: Some(version@),
                kind: SourceKind::Registry,
            }),
    {
        ArtifactIdentity { name, version: Some(version), kind: SourceKind::Registry }
    }

    /// An artifact of the git cache, checked out at `reference`.
    pub fn git(name: String, reference: String) -> (r: ArtifactIdentity)
        ensures
            r@ == (ArtifactId { name: name@, version: Some(reference@), kind: SourceKind::Git }),
    {
        ArtifactIdentity { name, version: Some(reference), kind: SourceKind::Git }
    }

    /// A copy of this identity.
    pub fn duplicate(&self) -> (r: ArtifactIdentity)
        ensures
            r@ == self@,
    {
        let version = match &self.version {
            Some(v) => Some(v.clone()),
            None => None,
        };
        ArtifactIdentity { name: self.name.clone(), version, kind: self.kind }
    }

    /// Whether two identities are the same artifact: equal name, version and
    /// cache.
    pub fn same(&self, other: &ArtifactIdentity) -> (r: bool)
        ensures
            r <==> self@ == other@,
    {
        let versions = match (&self.version, &other.version) {
            (Some(a), Some(b)) => *a == *b,
            (None, None) => true,
            _ => false,
        };
        let kinds = match (self.kind, other.kind) {
            (SourceKind::Registry, SourceKind::Registry) => true,
            (SourceKind::Git, SourceKind::Git) => true,
            _ => false,
        };
        self.name == other.name && versions && kinds
    }

    /// The label of this artifact: `name-version`, or the name alone where
    /// it has no version.
    pub fn label(&self) -> (r: String)
        ensures
            r@ == label_of(self@),
    {
        match &self.version {
            Some(v) => {
                let mut out = self.name.clone();
                out.append("-");
                out.append(v.as_str());
                proof {
                    reveal_strlit("-");
                    assert("-"@ =~= seq!['-']);
                }
                out
            },
            None => self.name.clone(),
        }
    }
}

/// Position of an identity equal to `id` in `list`.
pub fn position_of(list: &Vec<ArtifactIdentity>, id: &ArtifactIdentity) -> (r: Option<usize>)
    ensures
        match r {
            Some(i) => i < list.len() && list@[i as int]@ == id@ && forall|j: int|
                0 <= j < i ==> (#[trigger] list@[j])@ != id@,
            None => !ids(list@).contains(id@),
        },
{
    let mut i: usize = 0;
    while i < list.len()
        invariant
            i <= list.len(),
            forall|j: int| 0 <= j < i ==> (#[trigger] list@[j])@ != id@,
        decreases list.len() - i,
    {
        if list[i].same(id) {
            return Some(i);
        }
        i += 1;
    }
    assert(!ids(list@).contains(id@)) by {
        if ids(list@).contains(id@) {
            let k = choose|k: int| 0 <= k < ids(list@).len() && ids(list@)[k] == id@;
            assert(list@[k]@ == id@);
        }
    }
    None
}

} // verus!
