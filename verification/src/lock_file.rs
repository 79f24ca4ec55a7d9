//! Reading the lock file of a tracked project.
//!
//! A lock file is read line by line. The line `[[package]]` opens the
//! description of a package; any other line that starts with `[` closes it.
//! Within a description the lines `name = "…"`, `version = "…"` and
//! `source = "…"` give the package its name, its version and its origin; a
//! later line of a kind replaces an earlier one, and other lines are passed
//! over. A package without a name or a version, or with one of these lines
//! written otherwise than between two quotes, makes the file unreadable. A
//! package whose origin is a registry index or a git repository is a locked
//! dependency; a package without origin, or with another, is not.

use vstd::prelude::*;
use crate::crate_detail::SourceKind;
use crate::reference::{entries_of, merged, texts, unread, RefEntry, ReferenceEntry, ReferenceSet};
use crate::text::{
    chars_of, find_from, has_prefix, range_is, range_starts, split, text_between,
};

verus! {

/// What a line of a lock file says.
pub enum LineKind {
    /// A package description starts.
    Package,
    /// Another table starts.
    Table,
    Name(Seq<char>),
    Version(Seq<char>),
    Source(Seq<char>),
    /// A name, version or origin that is not written between two quotes.
    Malformed,
    /// Anything else.
    Other,
}

/// `line` without the carriage return at its end, if it has one.
pub open spec fn strip_cr(line: Seq<char>) -> Seq<char> {
    if line.len() > 0 && line.last() == '\r' {
        line.drop_last()
    } else {
        line
    }
}

/// Neither a quote nor a backslash occurs in `s`.
pub open spec fn plain(s: Seq<char>) -> bool {
    forall|i: int| 0 <= i < s.len() ==> s[i] != '"' && s[i] != '\\'
}

/// The text before the closing quote that ends `rest`; `None` where `rest`
/// does not end with a quote or holds another quote or a backslash.
pub open spec fn quoted(rest: Seq<char>) -> Option<Seq<char>> {
    if rest.len() >= 1 && rest.last() == '"' && plain(rest.drop_last()) {
        Some(rest.drop_last())
    } else {
        None
    }
}

/// What the line `raw` says.
pub open spec fn line_kind(raw: Seq<char>) -> LineKind {
    let line = strip_cr(raw);
    if line == "[[package]]"@ {
        LineKind::Package
    } else if line.len() > 0 && line[0] == '[' {
        LineKind::Table
    } else if has_prefix(line, "name = \""@) {
        match quoted(line.skip("name = \""@.len() as int)) {
            Some(v) => LineKind::Name(v),
            None => LineKind::Malformed,
        }
    } else if has_prefix(line, "version = \""@) {
        match quoted(line.skip("version = \""@.len() as int)) {
            Some(v) => LineKind::Version(v),
            None => LineKind::Malformed,
        }
    } else if has_prefix(line, "source = \""@) {
        match quoted(line.skip("source = \""@.len() as int)) {
            Some(v) => LineKind::Source(v),
            None => LineKind::Malformed,
        }
    } else {
        LineKind::Other
    }
}

/// The cache that an origin points to: the registry cache for a registry
/// index, the git cache for a git repository.
pub open spec fn source_kind(source: Seq<char>) -> Option<SourceKind> {
    if has_prefix(source, "registry+"@) || has_prefix(source, "sparse+"@) {
        Some(SourceKind::Registry)
    } else if has_prefix(source, "git+"@) {
        Some(SourceKind::Git)
    } else {
        None
    }
}

/// The package description that is being read.
pub struct Pending {
    pub name: Option<Seq<char>>,
    pub version: Option<Seq<char>>,
    pub source: Option<Seq<char>>,
}

/// What has been read of a lock file.
pub struct LockState {
    /// The locked dependencies read so far.
    pub entries: Seq<RefEntry>,
    /// The package description that is open, if one is.
    pub pending: Option<Pending>,
    /// Something unreadable was met.
    pub broken: bool,
}

/// The state after the open package description, if there is one, was
/// closed.
pub open spec fn closed(s: LockState) -> LockState {
    match s.pending {
        None => s,
        Some(p) => if p.name is Some && p.version is Some {
            LockState {
                entries: if p.source is Some && source_kind(p.source->0) is Some {
                    s.entries.push(
                        RefEntry {
                            name: p.name->0,
                            version: p.version->0,
                            kind: source_kind(p.source->0)->0,
                        },
                    )
                } else {
                    s.entries
                },
                pending: None,
                broken: s.broken,
            }
        } else {
            LockState { entries: s.entries, pending: None, broken: true }
        },
    }
}

/// The state after one more line.
pub open spec fn lock_step(s: LockState, raw: Seq<char>) -> LockState {
    lock_step_by(s, line_kind(raw))
}

/// The state after the lines, one after the other.
pub open spec fn lock_fold(lines: Seq<Seq<char>>) -> LockState
    decreases lines.len(),
{
    if lines.len() == 0 {
        LockState { entries: Seq::empty(), pending: None, broken: false }
    } else {
        lock_step(lock_fold(lines.drop_last()), lines.last())
    }
}

/// The locked dependencies that a lock file lists; `None` where the file is
/// unreadable.
pub open spec fn lock_entries(text: Seq<char>) -> Option<Seq<RefEntry>> {
    let s = closed(lock_fold(split(text, '\n')));
    if s.broken {
        None
    } else {
        Some(s.entries)
    }
}

enum Line {
    Package,
    Table,
    Name(String),
    Version(String),
    Source(String),
    Malformed,
    Other,
}

spec fn line_view(l: Line) -> LineKind {
    match l {
        Line::Package => LineKind::Package,
        Line::Table => LineKind::Table,
        Line::Name(v) => LineKind::Name(v@),
        Line::Version(v) => LineKind::Version(v@),
        Line::Source(v) => LineKind::Source(v@),
        Line::Malformed => LineKind::Malformed,
        Line::Other => LineKind::Other,
    }
}

/// The quoted text that the characters from `lo` up to `hi` end.
fn read_quoted(text: &str, chars: &Vec<char>, lo: usize, hi: usize) -> (r: Option<String>)
    requires
        chars@ == text@,
        lo <= hi <= chars.len(),
    ensures
        match r {
            Some(v) => quoted(chars@.subrange(lo as int, hi as int)) == Some(v@),
            None => quoted(chars@.subrange(lo as int, hi as int)) is None,
        },
{
    let ghost rest = chars@.subrange(lo as int, hi as int);
    if hi == lo || chars[hi - 1] != '"' {
        assert(hi > lo ==> rest.last() == chars@[hi - 1]);
        return None;
    }
    assert(rest.last() == chars@[hi - 1]);
    let mut i: usize = lo;
    while i < hi - 1
        invariant
            lo <= i <= hi - 1,
            hi <= chars.len(),
            rest == chars@.subrange(lo as int, hi as int),
            forall|k: int| 0 <= k < i - lo ==> rest.drop_last()[k] != '"' && rest.drop_last()[k] != '\\',
        decreases hi - i,
    {
        if chars[i] == '"' || chars[i] == '\\' {
            assert(rest.drop_last()[i - lo] == chars@[i as int]);
            return None;
        }
        assert(rest.drop_last()[i - lo] == chars@[i as int]);
        i += 1;
    }
    let value = text_between(text, lo, hi - 1);
    assert(value@ =~= rest.drop_last());
    Some(value)
}

/// What the line from `lo` up to `hi` says.
fn read_line(text: &str, chars: &Vec<char>, lo: usize, hi: usize) -> (r: Line)
    requires
        chars@ == text@,
        lo <= hi <= chars.len(),
    ensures
        line_view(r) == line_kind(chars@.subrange(lo as int, hi as int)),
{
    let ghost raw = chars@.subrange(lo as int, hi as int);
    let end = if hi > lo && chars[hi - 1] == '\r' {
        hi - 1
    } else {
        hi
    };
    let ghost line = chars@.subrange(lo as int, end as int);
    assert(line =~= strip_cr(raw)) by {
        if hi > lo {
            assert(raw.last() == chars@[hi - 1]);
        }
    }
    if range_is(chars, lo, end, &chars_of("[[package]]")) {
        return Line::Package;
    }
    if end > lo && chars[lo] == '[' {
        assert(line[0] == chars@[lo as int]);
        return Line::Table;
    }
    assert(line.len() > 0 ==> line[0] == chars@[lo as int]);
    let name = chars_of("name = \"");
    if range_starts(chars, lo, end, &name) {
        assert(line.skip(name.len() as int) =~= chars@.subrange(lo + name.len(), end as int));
        return match read_quoted(text, chars, lo + name.len(), end) {
            Some(v) => Line::Name(v),
            None => Line::Malformed,
        };
    }
    let version = chars_of("version = \"");
    if range_starts(chars, lo, end, &version) {
        assert(line.skip(version.len() as int) =~= chars@.subrange(lo + version.len(), end as int));
        return match read_quoted(text, chars, lo + version.len(), end) {
            Some(v) => Line::Version(v),
            None => Line::Malformed,
        };
    }
    let source = chars_of("source = \"");
    if range_starts(chars, lo, end, &source) {
        assert(line.skip(source.len() as int) =~= chars@.subrange(lo + source.len(), end as int));
        return match read_quoted(text, chars, lo + source.len(), end) {
            Some(v) => Line::Source(v),
            None => Line::Malformed,
        };
    }
    Line::Other
}

/// The cache that an origin points to.
pub fn kind_of_source(source: &str) -> (r: Option<SourceKind>)
    ensures
        r == source_kind(source@),
{
    let chars = chars_of(source);
    assert(chars@.subrange(0, chars@.len() as int) =~= source@);
    if range_starts(&chars, 0, chars.len(), &chars_of("registry+")) || range_starts(
        &chars,
        0,
        chars.len(),
        &chars_of("sparse+"),
    ) {
        Some(SourceKind::Registry)
    } else if range_starts(&chars, 0, chars.len(), &chars_of("git+")) {
        Some(SourceKind::Git)
    } else {
        None
    }
}

struct Reader {
    entries: Vec<ReferenceEntry>,
    open: bool,
    name: Option<String>,
    version: Option<String>,
    source: Option<String>,
    broken: bool,
}

spec fn text_of(s: Option<String>) -> Option<Seq<char>> {
    match s {
        Some(v) => Some(v@),
        None => None,
    }
}

impl Reader {
    spec fn state(&self) -> LockState {
        LockState {
            entries: entries_of(self.entries@),
            pending: if self.open {
                Some(
                    Pending {
                        name: text_of(self.name),
                        version: text_of(self.version),
                        source: text_of(self.source),
                    },
                )
            } else {
                None
            },
            broken: self.broken,
        }
    }

    fn close(self) -> (r: Reader)
        ensures
            r.state() == closed(self.state()),
            !r.open,
    {
        let mut entries = self.entries;
        if !self.open {
            return Reader {
                entries,
                open: false,
                name: self.name,
                version: self.version,
                source: self.source,
                broken: self.broken,
            };
        }
        match (self.name, self.version) {
            (Some(name), Some(version)) => {
                let ghost before = entries_of(entries@);
                match self.source {
                    Some(source) => match kind_of_source(source.as_str()) {
                        Some(kind) => {
                            entries.push(ReferenceEntry { name, version, kind });
                            assert(entries_of(entries@) =~= before.push(
                                RefEntry { name: name@, version: version@, kind },
                            ));
                        },
                        None => {},
                    },
                    None => {},
                }
                Reader {
                    entries,
                    open: false,
                    name: None,
                    version: None,
                    source: None,
                    broken: self.broken,
                }
            },
            _ => Reader {
                entries,
                open: false,
                name: None,
                version: None,
                source: None,
                broken: true,
            },
        }
    }

    fn step(self, line: Line) -> (r: Reader)
        ensures
            r.state() == lock_step_by(self.state(), line_view(line)),
    {
        match line {
            Line::Package => {
                let c = self.close();
                Reader {
                    entries: c.entries,
                    open: true,
                    name: None,
                    version: None,
                    source: None,
                    broken: c.broken,
                }
            },
            Line::Table => self.close(),
            Line::Name(v) => {
                if self.open {
                    Reader { name: Some(v), ..self }
                } else {
                    self
                }
            },
            Line::Version(v) => {
                if self.open {
                    Reader { version: Some(v), ..self }
                } else {
                    self
                }
            },
            Line::Source(v) => {
                if self.open {
                    Reader { source: Some(v), ..self }
                } else {
                    self
                }
            },
            Line::Malformed => {
                if self.open {
                    Reader { broken: true, ..self }
                } else {
                    self
                }
            },
            Line::Other => self,
        }
    }
}

/// The state after a line that says `kind`.
pub open spec fn lock_step_by(s: LockState, kind: LineKind) -> LockState {
    match kind {
        LineKind::Package => LockState {
            pending: Some(Pending { name: None, version: None, source: None }),
            ..closed(s)
        },
        LineKind::Table => closed(s),
        LineKind::Name(v) => match s.pending {
            Some(p) => LockState { pending: Some(Pending { name: Some(v), ..p }), ..s },
            None => s,
        },
        LineKind::Version(v) => match s.pending {
            Some(p) => LockState { pending: Some(Pending { version: Some(v), ..p }), ..s },
            None => s,
        },
        LineKind::Source(v) => match s.pending {
            Some(p) => LockState { pending: Some(Pending { source: Some(v), ..p }), ..s },
            None => s,
        },
        LineKind::Malformed => match s.pending {
            Some(p) => LockState { broken: true, ..s },
            None => s,
        },
        LineKind::Other => s,
    }
}

/// Reads the lock file of a tracked project: its locked dependencies in the
/// order of the file, or `None` where the file is unreadable.
pub fn parse_lock(text: &str) -> (r: Option<Vec<ReferenceEntry>>)
    ensures
        match r {
            Some(list) => lock_entries(text@) == Some(entries_of(list@)),
            None => lock_entries(text@) is None,
        },
{
    let chars = chars_of(text);
    let mut reader = Reader {
        entries: Vec::new(),
        open: false,
        name: None,
        version: None,
        source: None,
        broken: false,
    };
    assert(entries_of(reader.entries@) =~= Seq::<RefEntry>::empty());
    let ghost mut done: Seq<Seq<char>> = Seq::empty();
    let mut start: usize = 0;
    assert(chars@.skip(0) =~= chars@);
    assert(done + split(chars@, '\n') =~= split(chars@, '\n'));
    loop
        invariant_except_break
            split(chars@, '\n') == done + split(chars@.skip(start as int), '\n'),
        invariant
            chars@ == text@,
            start <= chars.len(),
            reader.state() == lock_fold(done),
        ensures
            split(chars@, '\n') == done,
        decreases chars.len() - start,
    {
        let at = find_from(&chars, start, '\n');
        let ghost rest = chars@.skip(start as int);
        let ghost piece = chars@.subrange(start as int, at as int);
        assert(rest.take(at - start) =~= piece);
        let line = read_line(text, &chars, start, at);
        reader = reader.step(line);
        proof {
            assert(done.push(piece).drop_last() =~= done);
            assert(done.push(piece).last() == piece);
            done = done.push(piece);
        }
        if at == chars.len() {
            assert(rest.take(at - start) =~= rest);
            assert(split(chars@, '\n') =~= done);
            break;
        }
        assert(rest.skip(at - start + 1) =~= chars@.skip(at + 1));
        assert(split(chars@, '\n') =~= done + split(chars@.skip(at + 1), '\n'));
        start = at + 1;
    }
    let reader = reader.close();
    if reader.broken {
        None
    } else {
        Some(reader.entries)
    }
}

/// The locked dependencies of one tracked project, given the text of its
/// lock file or `None` where it has none; `None` where the lock file is
/// missing or unreadable.
pub open spec fn locked_by(lock: Option<String>) -> Option<Seq<RefEntry>> {
    match lock {
        Some(text) => lock_entries(text@),
        None => None,
    }
}

/// The locked dependencies of the tracked projects, project after project.
pub open spec fn all_locked(locks: Seq<Option<String>>) -> Seq<RefEntry>
    decreases locks.len(),
{
    if locks.len() == 0 {
        Seq::empty()
    } else {
        all_locked(locks.drop_last()) + match locked_by(locks.last()) {
            Some(entries) => entries,
            None => Seq::empty(),
        }
    }
}

/// The number of tracked projects whose lock file is missing or unreadable.
pub open spec fn unreadable(locks: Seq<Option<String>>) -> nat
    decreases locks.len(),
{
    if locks.len() == 0 {
        0
    } else {
        unreadable(locks.drop_last()) + if locked_by(locks.last()) is None {
            1nat
        } else {
            0nat
        }
    }
}

/// Builds the reference set from the lock files of the tracked projects.
/// `locks` holds one item per tracked project: the text of its lock file, or
/// `None` where it has none. A project whose lock file is missing or
/// unreadable is skipped and counted; the others are read all the same.
pub fn read_lock_files(locks: &Vec<Option<String>>, added: Vec<String>, removed: Vec<String>) -> (r:
    ReferenceSet)
    ensures
        r@.directory_is_empty == (locks@.len() == 0),
        r@.entries == all_locked(locks@),
        r@.skipped == unreadable(locks@),
        r@.added == texts(added@),
        r@.removed == texts(removed@),
{
    let mut projects: Vec<Option<Vec<ReferenceEntry>>> = Vec::new();
    let mut i: usize = 0;
    assert(locks@.take(0) =~= Seq::<Option<String>>::empty());
    while i < locks.len()
        invariant
            i <= locks.len(),
            projects@.len() == i,
            merged(projects@) == all_locked(locks@.take(i as int)),
            unread(projects@) == unreadable(locks@.take(i as int)),
        decreases locks.len() - i,
    {
        let ghost before = projects@;
        let read = match &locks[i] {
            Some(text) => parse_lock(text.as_str()),
            None => None,
        };
        projects.push(read);
        proof {
            assert(projects@.drop_last() =~= before);
            assert(locks@.take(i + 1).drop_last() =~= locks@.take(i as int));
            assert(locks@.take(i + 1).last() == locks@[i as int]);
            assert(merged(before) + Seq::<RefEntry>::empty() =~= merged(before));
        }
        i += 1;
    }
    assert(locks@.take(i as int) =~= locks@);
    ReferenceSet::aggregate(&projects, added, removed)
}

} // verus!
