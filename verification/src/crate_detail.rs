//! Size index: byte counts per artifact label, one table per storage role.
//!
//! A table is an association list with one entry per label, kept in the order
//! in which labels were first recorded. Recording under a label that is already
//! present adds to its count.

use vstd::prelude::*;
use crate::text::{contains, contains_text};

verus! {

/// One line of a size table.
pub struct SizeEntry {
    pub name: String,
    pub size: u64,
}

/// The lines of a list of entries as contracts see them.
pub open spec fn lines(entries: Seq<SizeEntry>) -> Seq<(Seq<char>, u64)> {
    entries.map_values(|e: SizeEntry| (e.name@, e.size))
}

/// `i` is the first position of `table` that holds its largest count.
pub open spec fn is_largest_at(table: Seq<(Seq<char>, u64)>, i: int) -> bool {
    &&& 0 <= i < table.len()
    &&& forall|j: int| 0 <= j < table.len() ==> (#[trigger] table[j]).1 <= table[i].1
    &&& forall|j: int| 0 <= j < i ==> (#[trigger] table[j]).1 < table[i].1
}

/// The first position of the largest count of a table that is not empty.
pub open spec fn largest_at(table: Seq<(Seq<char>, u64)>) -> int {
    choose|i: int| is_largest_at(table, i)
}

/// The `n` lines of `table` with the largest counts, largest first; of equal
/// counts the one recorded earlier comes first. All lines where the table has
/// no more than `n`.
pub open spec fn top_of(table: Seq<(Seq<char>, u64)>, n: nat) -> Seq<(Seq<char>, u64)>
    decreases n,
{
    if n == 0 || table.len() == 0 {
        Seq::empty()
    } else {
        let i = largest_at(table);
        if 0 <= i < table.len() {
            seq![table[i]] + top_of(table.remove(i), (n - 1) as nat)
        } else {
            Seq::empty()
        }
    }
}

/// `i` is the first position of `table` that holds `name`.
pub open spec fn is_first_at(table: Seq<(Seq<char>, u64)>, name: Seq<char>, i: int) -> bool {
    &&& 0 <= i < table.len()
    &&& table[i].0 == name
    &&& forall|j: int| 0 <= j < i ==> (#[trigger] table[j]).0 != name
}

/// Whether some line of `table` holds `name`.
pub open spec fn has_name(table: Seq<(Seq<char>, u64)>, name: Seq<char>) -> bool {
    exists|i: int| is_first_at(table, name, i)
}

/// The first position of `name` in `table`; arbitrary where `name` is absent.
pub open spec fn first_at(table: Seq<(Seq<char>, u64)>, name: Seq<char>) -> int {
    choose|i: int| is_first_at(table, name, i)
}

/// The bytes recorded under `name`, zero where nothing was recorded.
pub open spec fn size_in(table: Seq<(Seq<char>, u64)>, name: Seq<char>) -> nat {
    if has_name(table, name) {
        table[first_at(table, name)].1 as nat
    } else {
        0
    }
}

/// The table after `size` more bytes were recorded under `name`.
pub open spec fn recorded(table: Seq<(Seq<char>, u64)>, name: Seq<char>, size: u64) -> Seq<
    (Seq<char>, u64),
> {
    if has_name(table, name) {
        let i = first_at(table, name);
        table.update(i, (name, (table[i].1 + size) as u64))
    } else {
        table.push((name, size))
    }
}

/// No two lines of `table` hold the same label.
pub open spec fn distinct_names(table: Seq<(Seq<char>, u64)>) -> bool {
    forall|i: int, j: int|
        0 <= i < j < table.len() ==> (#[trigger] table[i]).0 != (#[trigger] table[j]).0
}

/// Recording changes the count of the recorded label by the recorded bytes
/// and the count of no other label.
pub proof fn lemma_recorded_sizes(
    table: Seq<(Seq<char>, u64)>,
    name: Seq<char>,
    size: u64,
    other: Seq<char>,
)
    requires
        size_in(table, name) + size <= u64::MAX,
    ensures
        size_in(recorded(table, name, size), name) == size_in(table, name) + size,
        other != name ==> size_in(recorded(table, name, size), other) == size_in(table, other),
        has_name(recorded(table, name, size), other) <==> other == name || has_name(table, other),
{
    let after = recorded(table, name, size);
    if has_name(table, name) {
        let i = first_at(table, name);
        assert(is_first_at(after, name, i));
        if other != name {
            if has_name(table, other) {
                let k = first_at(table, other);
                assert forall|j: int| 0 <= j < k implies (#[trigger] after[j]).0 != other by {
                    assert(table[j].0 != other);
                }
                assert(is_first_at(after, other, k));
            }
            if has_name(after, other) {
                let k = first_at(after, other);
                assert forall|j: int| 0 <= j < k implies (#[trigger] table[j]).0 != other by {
                    assert(after[j].0 != other);
                }
                assert(is_first_at(table, other, k));
            }
        }
    } else {
        assert forall|j: int| 0 <= j < table.len() implies (#[trigger] table[j]).0 != name by {
            if table[j].0 == name {
                lemma_first_exists(table, name, j);
            }
        }
        assert(is_first_at(after, name, table.len() as int));
        if other != name {
            if has_name(table, other) {
                let k = first_at(table, other);
                assert forall|j: int| 0 <= j < k implies (#[trigger] after[j]).0 != other by {
                    assert(table[j].0 != other);
                }
                assert(is_first_at(after, other, k));
            }
            if has_name(after, other) {
                let k = first_at(after, other);
                assert forall|j: int| 0 <= j < k implies (#[trigger] table[j]).0 != other by {
                    assert(after[j].0 != other);
                }
                assert(is_first_at(table, other, k));
            }
        }
    }
}

/// A label that occurs anywhere in a table has a first position.
pub proof fn lemma_first_exists(table: Seq<(Seq<char>, u64)>, name: Seq<char>, at: int)
    requires
        0 <= at < table.len(),
        table[at].0 == name,
    ensures
        has_name(table, name),
        first_at(table, name) <= at,
    decreases at,
{
    if forall|j: int| 0 <= j < at ==> (#[trigger] table[j]).0 != name {
        assert(is_first_at(table, name, at));
    } else {
        let j = choose|j: int| 0 <= j < at && (#[trigger] table[j]).0 == name;
        lemma_first_exists(table, name, j);
    }
}

/// Recording keeps the labels of a table distinct.
pub proof fn lemma_recorded_distinct(table: Seq<(Seq<char>, u64)>, name: Seq<char>, size: u64)
    requires
        distinct_names(table),
    ensures
        distinct_names(recorded(table, name, size)),
{
    let after = recorded(table, name, size);
    if has_name(table, name) {
        let k = first_at(table, name);
        assert forall|i: int, j: int| 0 <= i < j < after.len() implies (#[trigger] after[i]).0 != (
        #[trigger] after[j]).0 by {
            assert(table[i].0 != table[j].0);
        }
    } else {
        assert forall|i: int, j: int| 0 <= i < j < after.len() implies (#[trigger] after[i]).0 != (
        #[trigger] after[j]).0 by {
            if j == table.len() {
                if table[i].0 == name {
                    lemma_first_exists(table, name, i);
                }
            } else {
                assert(table[i].0 != table[j].0);
            }
        }
    }
}

/// A size table for one storage role.
pub struct SizeMap {
    entries: Vec<SizeEntry>,
}

impl SizeMap {
    #[verifier::type_invariant]
    spec fn well_formed(&self) -> bool {
        distinct_names(self.table())
    }

    /// The lines of the table, oldest label first.
    pub closed spec fn table(&self) -> Seq<(Seq<char>, u64)> {
        lines(self.entries@)
    }

    /// The bytes recorded under `name`, zero where nothing was recorded.
    pub open spec fn spec_size(&self, name: Seq<char>) -> nat {
        size_in(self.table(), name)
    }

    /// An empty table.
    pub fn new() -> (r: SizeMap)
        ensures
            r.table() == Seq::<(Seq<char>, u64)>::empty(),
    {
        let r = SizeMap { entries: Vec::new() };
        assert(r.table() =~= Seq::<(Seq<char>, u64)>::empty());
        r
    }

    /// Number of labels recorded.
    pub fn len(&self) -> (r: usize)
        ensures
            r == self.table().len(),
            distinct_names(self.table()),
    {
        proof {
            use_type_invariant(self);
        }
        self.entries.len()
    }

    /// Position of `name` in the table.
    fn find(&self, name: &String) -> (r: Option<usize>)
        ensures
            distinct_names(self.table()),
            match r {
                Some(i) => is_first_at(self.table(), name@, i as int) && has_name(
                    self.table(),
                    name@,
                ),
                None => !has_name(self.table(), name@),
            },
    {
        proof {
            use_type_invariant(self);
        }
        let mut i: usize = 0;
        while i < self.entries.len()
            invariant
                i <= self.entries.len(),
                self.table().len() == self.entries.len(),
                distinct_names(self.table()),
                forall|j: int| 0 <= j < i ==> (#[trigger] self.table()[j]).0 != name@,
            decreases self.entries.len() - i,
        {
            if self.entries[i].name == *name {
                assert(self.table()[i as int].0 == name@);
                assert(is_first_at(self.table(), name@, i as int));
                return Some(i);
            }
            assert(self.table()[i as int].0 != name@);
            i += 1;
        }
        assert(!has_name(self.table(), name@)) by {
            if has_name(self.table(), name@) {
                let k = first_at(self.table(), name@);
                assert(self.table()[k].0 == name@);
            }
        }
        None
    }

    /// The `n` largest lines, largest first.
    pub fn top(&self, n: usize) -> (r: Vec<SizeEntry>)
        ensures
            lines(r@) == top_of(self.table(), n as nat),
    {
        let mut work: Vec<SizeEntry> = Vec::new();
        let mut c: usize = 0;
        while c < self.entries.len()
            invariant
                c <= self.entries.len(),
                lines(work@) == self.table().take(c as int),
            decreases self.entries.len() - c,
        {
            let ghost before = lines(work@);
            let e = &self.entries[c];
            work.push(SizeEntry { name: e.name.clone(), size: e.size });
            assert(lines(work@) =~= before.push(self.table()[c as int]));
            assert(self.table().take(c + 1) =~= self.table().take(c as int).push(
                self.table()[c as int],
            ));
            c += 1;
        }
        assert(self.table().take(c as int) =~= self.table());
        let mut out: Vec<SizeEntry> = Vec::new();
        let mut k: usize = 0;
        assert(lines(out@) + top_of(lines(work@), n as nat) =~= top_of(self.table(), n as nat));
        while k < n && work.len() > 0
            invariant
                k <= n,
                lines(out@) + top_of(lines(work@), (n - k) as nat) == top_of(
                    self.table(),
                    n as nat,
                ),
            decreases n - k,
        {
            let mut best: usize = 0;
            let mut j: usize = 1;
            while j < work.len()
                invariant
                    0 <= best < j <= work.len(),
                    forall|m: int| 0 <= m < j ==> (#[trigger] lines(work@)[m]).1 <= lines(
                        work@,
                    )[best as int].1,
                    forall|m: int| 0 <= m < best ==> (#[trigger] lines(work@)[m]).1 < lines(
                        work@,
                    )[best as int].1,
                decreases work.len() - j,
            {
                if work[j].size > work[best].size {
                    best = j;
                }
                j += 1;
            }
            let ghost table = lines(work@);
            let ghost sofar = lines(out@);
            proof {
                assert(is_largest_at(table, best as int));
                let i = largest_at(table);
                assert(is_largest_at(table, i));
                if i < best {
                    assert(table[i].1 < table[best as int].1);
                }
                if best < i {
                    assert(table[best as int].1 < table[i].1);
                }
                assert(i == best);
            }
            let e = work.remove(best);
            assert(lines(work@) =~= table.remove(best as int));
            out.push(e);
            assert(lines(out@) =~= sofar.push(table[best as int]));
            assert(lines(out@) + top_of(lines(work@), (n - k - 1) as nat) =~= sofar + top_of(
                table,
                (n - k) as nat,
            ));
            k += 1;
        }
        assert(top_of(lines(work@), (n - k) as nat) =~= Seq::<(Seq<char>, u64)>::empty());
        assert(lines(out@) + Seq::<(Seq<char>, u64)>::empty() =~= lines(out@));
        out
    }

    /// The bytes recorded under `name`, if any were.
    pub fn get(&self, name: &str) -> (r: Option<u64>)
        ensures
            distinct_names(self.table()),
            r is Some <==> has_name(self.table(), name@),
            r is Some ==> r.unwrap() as nat == self.spec_size(name@),
    {
        let owned = name.to_owned();
        match self.find(&owned) {
            Some(i) => Some(self.entries[i].size),
            None => None,
        }
    }

    /// The bytes recorded under `name`, zero where nothing was recorded.
    pub fn size_of(&self, name: &str) -> (r: u64)
        ensures
            r as nat == self.spec_size(name@),
    {
        match self.get(name) {
            Some(size) => size,
            None => 0,
        }
    }

    /// Whether `size` more bytes can be recorded under `name` without
    /// leaving the range of the counter.
    pub fn has_room(&self, name: &str, size: u64) -> (r: bool)
        ensures
            r <==> self.spec_size(name@) + size <= u64::MAX,
    {
        self.size_of(name) <= u64::MAX - size
    }

    /// Records `size` more bytes under `name`.
    pub fn add(&mut self, name: String, size: u64)
        requires
            old(self).spec_size(name@) + size <= u64::MAX,
        ensures
            final(self).table() == recorded(old(self).table(), name@, size),
            final(self).spec_size(name@) == old(self).spec_size(name@) + size,
            forall|other: Seq<char>|
                other != name@ ==> final(self).spec_size(other) == old(self).spec_size(other),
    {
        let ghost before = self.table();
        let found = self.find(&name);
        proof {
            lemma_recorded_distinct(before, name@, size);
            assert forall|other: Seq<char>| other != name@ implies size_in(
                recorded(before, name@, size),
                other,
            ) == size_in(before, other) by {
                lemma_recorded_sizes(before, name@, size, other);
            }
            lemma_recorded_sizes(before, name@, size, name@);
        }
        let mut entries: Vec<SizeEntry> = Vec::new();
        std::mem::swap(&mut entries, &mut self.entries);
        match found {
            Some(i) => {
                let sum = entries[i].size + size;
                entries[i] = SizeEntry { name, size: sum };
            },
            None => {
                entries.push(SizeEntry { name, size });
            },
        }
        assert(lines(entries@) =~= recorded(
            before,
            name@,
            size,
        ));
        self.entries = entries;
    }
}

/// Bytes held by one artifact, or by a set of them, split by storage role.
///
/// For registry artifacts `archive` counts the compressed package and `source`
/// the extracted directory; for git artifacts `archive` counts the bare
/// repository store and `source` the checkout.
#[derive(Clone, Copy, Debug, PartialEq, Eq, Structural)]
pub struct Footprint {
    pub archive: u128,
    pub source: u128,
}

impl Footprint {
    /// The footprint of nothing.
    pub fn zero() -> (r: Footprint)
        ensures
            r == (Footprint { archive: 0, source: 0 }),
    {
        Footprint { archive: 0, source: 0 }
    }
}

/// A size in decimal megabytes, cut off after three places: one megabyte is
/// 1,000,000 bytes.
#[derive(Clone, Copy, Debug, PartialEq, Eq, Structural)]
pub struct Megabytes {
    pub whole: u128,
    pub thousandths: u16,
}

/// `bytes` in decimal megabytes, cut off after three places.
pub open spec fn in_megabytes(bytes: nat) -> (nat, nat) {
    (bytes / 1_000_000, (bytes % 1_000_000) / 1000)
}

/// `bytes` in decimal megabytes, cut off after three places.
pub fn megabytes(bytes: u128) -> (r: Megabytes)
    ensures
        (r.whole as nat, r.thousandths as nat) == in_megabytes(bytes as nat),
{
    let rest = bytes % 1_000_000;
    Megabytes { whole: bytes / 1_000_000, thousandths: (rest / 1000) as u16 }
}

impl Footprint {
    /// Both roles together, in bytes.
    pub open spec fn spec_total(&self) -> nat {
        (self.archive + self.source) as nat
    }

    /// Both roles together, in decimal megabytes cut off after three
    /// places.
    pub fn megabytes(&self) -> (r: Megabytes)
        ensures
            (r.whole as nat, r.thousandths as nat) == in_megabytes(self.spec_total()),
    {
        let rest = self.archive % 1_000_000 + self.source % 1_000_000;
        let whole = self.archive / 1_000_000 + self.source / 1_000_000 + rest / 1_000_000;
        let thousandths = ((rest % 1_000_000) / 1000) as u16;
        assert(self.spec_total() / 1_000_000 == whole && self.spec_total() % 1_000_000 == rest
            % 1_000_000) by {
            let a = self.archive as int;
            let b = self.source as int;
            lemma_sum_by_million(a, b);
        }
        Megabytes { whole, thousandths }
    }
}

/// Quotient and remainder of a sum by one million, from those of its parts.
proof fn lemma_sum_by_million(a: int, b: int)
    requires
        0 <= a,
        0 <= b,
    ensures
        (a + b) / 1_000_000 == a / 1_000_000 + b / 1_000_000 + (a % 1_000_000 + b % 1_000_000)
            / 1_000_000,
        (a + b) % 1_000_000 == (a % 1_000_000 + b % 1_000_000) % 1_000_000,
{
    let m = 1_000_000int;
    let r = a % m + b % m;
    let q = a / m + b / m;
    assert(a == m * (a / m) + a % m && b == m * (b / m) + b % m) by (nonlinear_arith)
        requires
            m == 1_000_000,
    ;
    assert(a + b == m * q + r) by (nonlinear_arith)
        requires
            a == m * (a / m) + a % m,
            b == m * (b / m) + b % m,
            q == a / m + b / m,
            r == a % m + b % m,
    ;
    assert(r == m * (r / m) + r % m && 0 <= r % m < m) by (nonlinear_arith)
        requires
            m == 1_000_000,
    ;
    let t = q + r / m;
    assert(a + b == m * t + r % m) by (nonlinear_arith)
        requires
            a + b == m * q + r,
            r == m * (r / m) + r % m,
            t == q + r / m,
    ;
    assert((m * t + r % m) / m == t && (m * t + r % m) % m == r % m) by (nonlinear_arith)
        requires
            0 <= r % m < m,
            m == 1_000_000,
    ;
}

/// Which cache a listing or a size query is about.
#[derive(Clone, Copy, Debug, PartialEq, Eq, Structural)]
pub enum SourceKind {
    Registry,
    Git,
}

/// The role of a file or directory found in a cache: the compressed package
/// or bare repository store, or the extracted or checked-out files.
#[derive(Clone, Copy, Debug, PartialEq, Eq, Structural)]
pub enum Role {
    Archive,
    Source,
}

/// Sizes of everything found in the caches, by label and storage role.
pub struct CrateDetail {
    bin: SizeMap,
    git_crates_source: SizeMap,
    registry_crates_source: SizeMap,
    git_crates_archive: SizeMap,
    registry_crates_archive: SizeMap,
}

impl CrateDetail {
    /// The table of locally built binaries.
    pub closed spec fn spec_bin(&self) -> SizeMap {
        self.bin
    }

    /// The table of git checkouts.
    pub closed spec fn spec_git_crates_source(&self) -> SizeMap {
        self.git_crates_source
    }

    /// The table of extracted registry sources.
    pub closed spec fn spec_registry_crates_source(&self) -> SizeMap {
        self.registry_crates_source
    }

    /// The table of bare git repository stores.
    pub closed spec fn spec_git_crates_archive(&self) -> SizeMap {
        self.git_crates_archive
    }

    /// The table of compressed registry packages.
    pub closed spec fn spec_registry_crates_archive(&self) -> SizeMap {
        self.registry_crates_archive
    }

    /// The table of the given cache and role.
    pub open spec fn table_of(&self, kind: SourceKind, role: Role) -> Seq<(Seq<char>, u64)> {
        match (kind, role) {
            (SourceKind::Registry, Role::Archive) => self.spec_registry_crates_archive().table(),
            (SourceKind::Registry, Role::Source) => self.spec_registry_crates_source().table(),
            (SourceKind::Git, Role::Archive) => self.spec_git_crates_archive().table(),
            (SourceKind::Git, Role::Source) => self.spec_git_crates_source().table(),
        }
    }

    /// Bytes recorded for `name` in the archive role of `kind`.
    pub open spec fn archive_bytes(&self, kind: SourceKind, name: Seq<char>) -> nat {
        match kind {
            SourceKind::Registry => self.spec_registry_crates_archive().spec_size(name),
            SourceKind::Git => self.spec_git_crates_archive().spec_size(name),
        }
    }

    /// Bytes recorded for `name` in the source role of `kind`.
    pub open spec fn source_bytes(&self, kind: SourceKind, name: Seq<char>) -> nat {
        match kind {
            SourceKind::Registry => self.spec_registry_crates_source().spec_size(name),
            SourceKind::Git => self.spec_git_crates_source().spec_size(name),
        }
    }

    /// The footprint of `name` in the cache of `kind`: what was recorded for
    /// it in either role, zero where nothing was.
    pub open spec fn footprint(&self, kind: SourceKind, name: Seq<char>) -> Footprint {
        Footprint {
            archive: self.archive_bytes(kind, name) as u128,
            source: self.source_bytes(kind, name) as u128,
        }
    }

    /// An index with nothing recorded.
    pub fn new() -> (r: CrateDetail)
        ensures
            r.spec_bin().table().len() == 0,
            r.spec_git_crates_source().table().len() == 0,
            r.spec_registry_crates_source().table().len() == 0,
            r.spec_git_crates_archive().table().len() == 0,
            r.spec_registry_crates_archive().table().len() == 0,
    {
        CrateDetail {
            bin: SizeMap::new(),
            git_crates_source: SizeMap::new(),
            registry_crates_source: SizeMap::new(),
            git_crates_archive: SizeMap::new(),
            registry_crates_archive: SizeMap::new(),
        }
    }

    /// Sizes of locally built binaries.
    pub fn bin(&self) -> (r: &SizeMap)
        ensures
            *r == self.spec_bin(),
    {
        &self.bin
    }

    /// Sizes of git checkouts.
    pub fn git_crates_source(&self) -> (r: &SizeMap)
        ensures
            *r == self.spec_git_crates_source(),
    {
        &self.git_crates_source
    }

    /// Sizes of extracted registry sources.
    pub fn registry_crates_source(&self) -> (r: &SizeMap)
        ensures
            *r == self.spec_registry_crates_source(),
    {
        &self.registry_crates_source
    }

    /// Sizes of bare git repository stores.
    pub fn git_crates_archive(&self) -> (r: &SizeMap)
        ensures
            *r == self.spec_git_crates_archive(),
    {
        &self.git_crates_archive
    }

    /// Sizes of compressed registry packages.
    pub fn registry_crates_archive(&self) -> (r: &SizeMap)
        ensures
            *r == self.spec_registry_crates_archive(),
    {
        &self.registry_crates_archive
    }

    /// Records `size` more bytes for the binary `bin_name`.
    pub fn add_bin(&mut self, bin_name: String, size: u64)
        requires
            old(self).spec_bin().spec_size(bin_name@) + size <= u64::MAX,
        ensures
            final(self).spec_bin().spec_size(bin_name@) == old(self).spec_bin().spec_size(bin_name@) + size,
            forall|other: Seq<char>|
                other != bin_name@ ==> final(self).spec_bin().spec_size(other) == old(
                    self,
                ).spec_bin().spec_size(other),
            final(self).spec_bin().table() == recorded(old(self).spec_bin().table(), bin_name@, size),
            final(self).spec_git_crates_source() == old(self).spec_git_crates_source(),
            final(self).spec_registry_crates_source() == old(self).spec_registry_crates_source(),
            final(self).spec_git_crates_archive() == old(self).spec_git_crates_archive(),
            final(self).spec_registry_crates_archive() == old(self).spec_registry_crates_archive(),
    {
        self.bin.add(bin_name, size);
    }

    /// Records `size` more bytes for the git checkout `crate_name`.
    pub fn add_git_crate_source(&mut self, crate_name: String, size: u64)
        requires
            old(self).spec_git_crates_source().spec_size(crate_name@) + size <= u64::MAX,
        ensures
            final(self).spec_git_crates_source().spec_size(crate_name@) == old(self).spec_git_crates_source().spec_size(crate_name@) + size,
            forall|other: Seq<char>|
                other != crate_name@ ==> final(self).spec_git_crates_source().spec_size(other) == old(
                    self,
                ).spec_git_crates_source().spec_size(other),
            final(self).spec_git_crates_source().table() == recorded(
                old(self).spec_git_crates_source().table(),
                crate_name@,
                size,
            ),
            final(self).spec_bin() == old(self).spec_bin(),
            final(self).spec_registry_crates_source() == old(self).spec_registry_crates_source(),
            final(self).spec_git_crates_archive() == old(self).spec_git_crates_archive(),
            final(self).spec_registry_crates_archive() == old(self).spec_registry_crates_archive(),
    {
        self.git_crates_source.add(crate_name, size);
    }

    /// Records `size` more bytes for the extracted registry source `crate_name`.
    pub fn add_registry_crate_source(&mut self, crate_name: String, size: u64)
        requires
            old(self).spec_registry_crates_source().spec_size(crate_name@) + size <= u64::MAX,
        ensures
            final(self).spec_registry_crates_source().spec_size(crate_name@) == old(self).spec_registry_crates_source().spec_size(crate_name@) + size,
            forall|other: Seq<char>|
                other != crate_name@ ==> final(self).spec_registry_crates_source().spec_size(other) == old(
                    self,
                ).spec_registry_crates_source().spec_size(other),
            final(self).spec_registry_crates_source().table() == recorded(
                old(self).spec_registry_crates_source().table(),
                crate_name@,
                size,
            ),
            final(self).spec_bin() == old(self).spec_bin(),
            final(self).spec_git_crates_source() == old(self).spec_git_crates_source(),
            final(self).spec_git_crates_archive() == old(self).spec_git_crates_archive(),
            final(self).spec_registry_crates_archive() == old(self).spec_registry_crates_archive(),
    {
        self.registry_crates_source.add(crate_name, size);
    }

    /// Records `size` more bytes for the bare git repository store `crate_name`.
    pub fn add_git_crate_archive(&mut self, crate_name: String, size: u64)
        requires
            old(self).spec_git_crates_archive().spec_size(crate_name@) + size <= u64::MAX,
        ensures
            final(self).spec_git_crates_archive().spec_size(crate_name@) == old(self).spec_git_crates_archive().spec_size(crate_name@) + size,
            forall|other: Seq<char>|
                other != crate_name@ ==> final(self).spec_git_crates_archive().spec_size(other) == old(
                    self,
                ).spec_git_crates_archive().spec_size(other),
            final(self).spec_git_crates_archive().table() == recorded(
                old(self).spec_git_crates_archive().table(),
                crate_name@,
                size,
            ),
            final(self).spec_bin() == old(self).spec_bin(),
            final(self).spec_git_crates_source() == old(self).spec_git_crates_source(),
            final(self).spec_registry_crates_source() == old(self).spec_registry_crates_source(),
            final(self).spec_registry_crates_archive() == old(self).spec_registry_crates_archive(),
    {
        self.git_crates_archive.add(crate_name, size);
    }

    /// Records `size` more bytes for the compressed registry package `crate_name`.
    pub fn add_registry_crate_archive(&mut self, crate_name: String, size: u64)
        requires
            old(self).spec_registry_crates_archive().spec_size(crate_name@) + size <= u64::MAX,
        ensures
            final(self).spec_registry_crates_archive().spec_size(crate_name@) == old(self).spec_registry_crates_archive().spec_size(crate_name@) + size,
            forall|other: Seq<char>|
                other != crate_name@ ==> final(self).spec_registry_crates_archive().spec_size(other) == old(
                    self,
                ).spec_registry_crates_archive().spec_size(other),
            final(self).spec_registry_crates_archive().table() == recorded(
                old(self).spec_registry_crates_archive().table(),
                crate_name@,
                size,
            ),
            final(self).spec_bin() == old(self).spec_bin(),
            final(self).spec_git_crates_source() == old(self).spec_git_crates_source(),
            final(self).spec_registry_crates_source() == old(self).spec_registry_crates_source(),
            final(self).spec_git_crates_archive() == old(self).spec_git_crates_archive(),
    {
        self.registry_crates_archive.add(crate_name, size);
    }

    /// Bytes of the git checkout `crate_name`, zero where none was recorded.
    pub fn find_size_git_source(&self, crate_name: &str) -> (r: u64)
        ensures
            r as nat == self.source_bytes(SourceKind::Git, crate_name@),
    {
        self.git_crates_source.size_of(crate_name)
    }

    /// Bytes of the extracted registry source `crate_name`, zero where none
    /// was recorded.
    pub fn find_size_registry_source(&self, crate_name: &str) -> (r: u64)
        ensures
            r as nat == self.source_bytes(SourceKind::Registry, crate_name@),
    {
        self.registry_crates_source.size_of(crate_name)
    }

    /// Bytes of the bare git repository store `crate_name`, zero where none
    /// was recorded.
    pub fn find_size_git_archive(&self, crate_name: &str) -> (r: u64)
        ensures
            r as nat == self.archive_bytes(SourceKind::Git, crate_name@),
    {
        self.git_crates_archive.size_of(crate_name)
    }

    /// Bytes of the compressed registry package `crate_name`, zero where none
    /// was recorded.
    pub fn find_size_registry_archive(&self, crate_name: &str) -> (r: u64)
        ensures
            r as nat == self.archive_bytes(SourceKind::Registry, crate_name@),
    {
        self.registry_crates_archive.size_of(crate_name)
    }

    /// Everything recorded for the git artifact `crate_name`.
    pub fn find_size_git_all(&self, crate_name: &str) -> (r: Footprint)
        ensures
            r == self.footprint(SourceKind::Git, crate_name@),
    {
        Footprint {
            archive: self.find_size_git_archive(crate_name) as u128,
            source: self.find_size_git_source(crate_name) as u128,
        }
    }

    /// Everything recorded for the registry artifact `crate_name`.
    pub fn find_size_registry_all(&self, crate_name: &str) -> (r: Footprint)
        ensures
            r == self.footprint(SourceKind::Registry, crate_name@),
    {
        Footprint {
            archive: self.find_size_registry_archive(crate_name) as u128,
            source: self.find_size_registry_source(crate_name) as u128,
        }
    }

    /// Everything recorded for `crate_name` in the cache of `kind`.
    pub fn footprint_of(&self, crate_name: &str, kind: SourceKind) -> (r: Footprint)
        ensures
            r == self.footprint(kind, crate_name@),
    {
        match kind {
            SourceKind::Registry => self.find_size_registry_all(crate_name),
            SourceKind::Git => self.find_size_git_all(crate_name),
        }
    }
}

impl CrateDetail {
    /// Records `size` more bytes for `name` in the table of the given cache
    /// and role, unless the count would leave the range of the counter: then
    /// nothing is recorded and the result is `false`.
    pub fn record(&mut self, kind: SourceKind, role: Role, name: String, size: u64) -> (r: bool)
        ensures
            r ==> size_in(final(self).table_of(kind, role), name@) == size_in(
                old(self).table_of(kind, role),
                name@,
            ) + size,
            forall|other: Seq<char>|
                other != name@ ==> size_in(final(self).table_of(kind, role), other) == size_in(
                    old(self).table_of(kind, role),
                    other,
                ),
            r <==> size_in(old(self).table_of(kind, role), name@) + size <= u64::MAX,
            final(self).table_of(kind, role) == if r {
                recorded(old(self).table_of(kind, role), name@, size)
            } else {
                old(self).table_of(kind, role)
            },
            forall|k: SourceKind, o: Role|
                k != kind || o != role ==> final(self).table_of(k, o) == old(self).table_of(k, o),
            final(self).spec_bin() == old(self).spec_bin(),
    {
        match (kind, role) {
            (SourceKind::Registry, Role::Archive) => {
                if !self.registry_crates_archive.has_room(name.as_str(), size) {
                    return false;
                }
                self.add_registry_crate_archive(name, size);
            },
            (SourceKind::Registry, Role::Source) => {
                if !self.registry_crates_source.has_room(name.as_str(), size) {
                    return false;
                }
                self.add_registry_crate_source(name, size);
            },
            (SourceKind::Git, Role::Archive) => {
                if !self.git_crates_archive.has_room(name.as_str(), size) {
                    return false;
                }
                self.add_git_crate_archive(name, size);
            },
            (SourceKind::Git, Role::Source) => {
                if !self.git_crates_source.has_room(name.as_str(), size) {
                    return false;
                }
                self.add_git_crate_source(name, size);
            },
        }
        proof {
            let before = old(self).table_of(kind, role);
            assert forall|other: Seq<char>| other != name@ implies size_in(
                self.table_of(kind, role),
                other,
            ) == size_in(before, other) by {
                lemma_recorded_sizes(before, name@, size, other);
            }
        }
        true
    }

    /// What `find` gives for a title: the registry footprint where the title
    /// names the registry, else the git footprint where it names git, else
    /// nothing.
    pub open spec fn found(&self, crate_name: Seq<char>, location: Seq<char>) -> Footprint {
        if contains_text(location, "REGISTRY"@) {
            self.footprint(SourceKind::Registry, crate_name)
        } else if contains_text(location, "GIT"@) {
            self.footprint(SourceKind::Git, crate_name)
        } else {
            Footprint { archive: 0, source: 0 }
        }
    }

    /// Everything recorded for `crate_name` in the cache that the title
    /// `location` names by the word `REGISTRY` or `GIT`.
    pub fn find(&self, crate_name: &str, location: &str) -> (r: Footprint)
        ensures
            r == self.found(crate_name@, location@),
    {
        if contains(location, "REGISTRY") {
            self.find_size_registry_all(crate_name)
        } else if contains(location, "GIT") {
            self.find_size_git_all(crate_name)
        } else {
            Footprint::zero()
        }
    }
}

} // verus!
