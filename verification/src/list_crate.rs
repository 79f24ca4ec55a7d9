//! Classification of installed artifacts: old, used, orphan.
//!
//! Every class is a function of two things only: what is installed and what
//! the tracked projects reference.

use vstd::prelude::*;
use crate::artifact::{ids, position_of, ArtifactId, ArtifactIdentity};
use crate::crate_detail::SourceKind;
use crate::reference::{ReferenceSet, References};
use crate::semver::{
    is_older, lemma_precedence_chained, lemma_precedence_flip, lemma_precedence_reflexive,
    parse_version, precedence, version_order, Precedence, Version,
};

verus! {

/// `s` without repetitions: of equal items the first stays.
pub open spec fn distinct<A>(s: Seq<A>) -> Seq<A>
    decreases s.len(),
{
    if s.len() == 0 {
        s
    } else {
        let rest = distinct(s.drop_last());
        if rest.contains(s.last()) {
            rest
        } else {
            rest.push(s.last())
        }
    }
}

/// `distinct` holds the items of the sequence and no others.
pub proof fn lemma_distinct_member<A>(s: Seq<A>, x: A)
    ensures
        distinct(s).contains(x) <==> s.contains(x),
    decreases s.len(),
{
    if s.len() > 0 {
        let front = s.drop_last();
        let rest = distinct(front);
        lemma_distinct_member(front, x);
        lemma_distinct_member(front, s.last());
        if s.contains(x) {
            let i = choose|i: int| 0 <= i < s.len() && s[i] == x;
            if i < s.len() - 1 {
                assert(front[i] == x);
                assert(front.contains(x));
            }
            assert(rest.contains(x) || x == s.last());
            if rest.contains(x) {
                let j = choose|j: int| 0 <= j < rest.len() && rest[j] == x;
                assert(distinct(s)[j] == x);
            } else {
                assert(distinct(s)[rest.len() as int] == x);
            }
        }
        if distinct(s).contains(x) {
            let j = choose|j: int| 0 <= j < distinct(s).len() && distinct(s)[j] == x;
            if j < rest.len() {
                assert(rest[j] == x);
                assert(rest.contains(x));
                assert(front.contains(x));
                let i = choose|i: int| 0 <= i < front.len() && front[i] == x;
                assert(s[i] == x);
            } else {
                assert(s[s.len() - 1] == x);
            }
        }
    }
}

/// `distinct` holds no item twice.
pub proof fn lemma_distinct_no_duplicates<A>(s: Seq<A>)
    ensures
        distinct(s).no_duplicates(),
    decreases s.len(),
{
    if s.len() > 0 {
        lemma_distinct_no_duplicates(s.drop_last());
    }
}

/// An item is in the filtered sequence exactly if it is in the sequence and
/// meets the predicate.
pub proof fn lemma_filter_member<A>(s: Seq<A>, p: spec_fn(A) -> bool, x: A)
    ensures
        s.filter(p).contains(x) <==> s.contains(x) && p(x),
    decreases s.len(),
{
    reveal(Seq::filter);
    if s.len() > 0 {
        let rest = s.drop_last();
        lemma_filter_member(rest, p, x);
        if s.contains(x) && p(x) {
            let i = choose|i: int| 0 <= i < s.len() && s[i] == x;
            if i < s.len() - 1 {
                assert(rest[i] == x);
                assert(rest.contains(x));
                let j = choose|j: int| 0 <= j < rest.filter(p).len() && rest.filter(p)[j] == x;
                assert(s.filter(p)[j] == x);
            } else {
                assert(s.filter(p)[rest.filter(p).len() as int] == x);
            }
        }
        if s.filter(p).contains(x) {
            let j = choose|j: int| 0 <= j < s.filter(p).len() && s.filter(p)[j] == x;
            if j < rest.filter(p).len() {
                assert(rest.filter(p)[j] == x);
                assert(rest.filter(p).contains(x));
                let i = choose|i: int| 0 <= i < rest.len() && rest[i] == x;
                assert(s[i] == x);
            } else {
                assert(s[s.len() - 1] == x);
            }
        }
    }
}

/// Filtering keeps a sequence free of repetitions.
pub proof fn lemma_filter_no_duplicates<A>(s: Seq<A>, p: spec_fn(A) -> bool)
    requires
        s.no_duplicates(),
    ensures
        s.filter(p).no_duplicates(),
    decreases s.len(),
{
    reveal(Seq::filter);
    if s.len() > 0 {
        let rest = s.drop_last();
        lemma_filter_no_duplicates(rest, p);
        lemma_filter_member(rest, p, s.last());
        if rest.contains(s.last()) {
            let i = choose|i: int| 0 <= i < rest.len() && rest[i] == s.last();
            assert(s[i] == s[s.len() - 1]);
        }
    }
}

/// `newer` is a later version of the package that `older` is a version of.
pub open spec fn supersedes(newer: ArtifactId, older: ArtifactId) -> bool {
    &&& newer.name == older.name
    &&& newer.kind == older.kind
    &&& older.version is Some
    &&& newer.version is Some
    &&& is_older(older.version->0, newer.version->0)
}

/// Some installed artifact supersedes `x`.
pub open spec fn is_old(installed: Seq<ArtifactId>, x: ArtifactId) -> bool {
    exists|j: int| 0 <= j < installed.len() && supersedes(#[trigger] installed[j], x)
}

/// Whether an artifact is old among `installed`.
pub open spec fn old_pred(installed: Seq<ArtifactId>) -> spec_fn(ArtifactId) -> bool {
    |x: ArtifactId| is_old(installed, x)
}

/// Whether no artifact of `installed` supersedes an artifact.
pub open spec fn newest_pred(installed: Seq<ArtifactId>) -> spec_fn(ArtifactId) -> bool {
    |x: ArtifactId| !is_old(installed, x)
}

/// Whether `refs` reference the package of an artifact.
pub open spec fn used_pred(refs: References) -> spec_fn(ArtifactId) -> bool {
    |x: ArtifactId| refs.mentions(x.name, x.kind)
}

/// Whether `refs` do not reference the package of an artifact.
pub open spec fn orphan_pred(refs: References) -> spec_fn(ArtifactId) -> bool {
    |x: ArtifactId| !refs.mentions(x.name, x.kind)
}

/// Whether an artifact is old among `installed` and its package not referenced.
pub open spec fn old_orphan_pred(installed: Seq<ArtifactId>, refs: References) -> spec_fn(
    ArtifactId,
) -> bool {
    |x: ArtifactId| is_old(installed, x) && !refs.mentions(x.name, x.kind)
}

/// Whether an artifact lies in the cache of `kind`.
pub open spec fn kind_pred(kind: SourceKind) -> spec_fn(ArtifactId) -> bool {
    |x: ArtifactId| x.kind == kind
}

/// The installed artifacts of `kind` among what a scan found, each once.
pub open spec fn installed_of(found: Seq<ArtifactId>, kind: SourceKind) -> Seq<ArtifactId> {
    distinct(found.filter(kind_pred(kind)))
}

/// The installed artifacts that a later version of the same package
/// supersedes.
pub open spec fn old_of(installed: Seq<ArtifactId>) -> Seq<ArtifactId> {
    installed.filter(old_pred(installed))
}

/// The installed artifacts that nothing installed supersedes.
pub open spec fn newest_of(installed: Seq<ArtifactId>) -> Seq<ArtifactId> {
    installed.filter(newest_pred(installed))
}

/// The installed artifacts whose package a tracked project references.
pub open spec fn used_of(installed: Seq<ArtifactId>, refs: References) -> Seq<ArtifactId> {
    installed.filter(used_pred(refs))
}

/// The installed artifacts whose package no tracked project references.
pub open spec fn orphan_of(installed: Seq<ArtifactId>, refs: References) -> Seq<ArtifactId> {
    installed.filter(orphan_pred(refs))
}

/// The installed artifacts that are old and orphan.
pub open spec fn old_orphan_of(installed: Seq<ArtifactId>, refs: References) -> Seq<ArtifactId> {
    installed.filter(old_orphan_pred(installed, refs))
}

/// No artifact supersedes itself.
pub proof fn lemma_supersedes_irreflexive(x: ArtifactId)
    ensures
        !supersedes(x, x),
{
    if x.version is Some && parse_version(x.version->0) is Some {
        lemma_precedence_reflexive(parse_version(x.version->0)->0);
    }
}

/// What supersedes a superseding artifact supersedes the superseded one.
pub proof fn lemma_supersedes_transitive(z: ArtifactId, y: ArtifactId, x: ArtifactId)
    requires
        supersedes(z, y),
        supersedes(y, x),
    ensures
        supersedes(z, x),
{
    let vx = parse_version(x.version->0)->0;
    let vy = parse_version(y.version->0)->0;
    let vz = parse_version(z.version->0)->0;
    lemma_precedence_chained(vx, vy, vz);
}

/// Old and newest artifacts together are the installed ones, and no
/// artifact is both.
pub proof fn lemma_old_newest_partition(installed: Seq<ArtifactId>)
    ensures
        old_of(installed).to_set().union(newest_of(installed).to_set()) == installed.to_set(),
        old_of(installed).to_set().disjoint(newest_of(installed).to_set()),
{
    let old = old_of(installed).to_set();
    let newest = newest_of(installed).to_set();
    assert forall|x: ArtifactId| old.union(newest).contains(x) <==> installed.to_set().contains(
        x,
    ) by {
        lemma_filter_member(installed, old_pred(installed), x);
        lemma_filter_member(installed, newest_pred(installed), x);
    }
    assert(old.union(newest) =~= installed.to_set());
    assert forall|x: ArtifactId| !(old.contains(x) && newest.contains(x)) by {
        lemma_filter_member(installed, old_pred(installed), x);
        lemma_filter_member(installed, newest_pred(installed), x);
    }
}

/// Among the first `n` installed artifacts, the package of the artifact at
/// `i` has a version that none of them supersedes.
proof fn lemma_newest_among(installed: Seq<ArtifactId>, n: int, i: int) -> (m: int)
    requires
        0 <= i < n <= installed.len(),
    ensures
        0 <= m < n,
        installed[m] == installed[i] || supersedes(installed[m], installed[i]),
        forall|k: int| 0 <= k < n ==> !supersedes(#[trigger] installed[k], installed[m]),
    decreases n,
{
    let e = installed[n - 1];
    if i == n - 1 {
        if exists|k: int| 0 <= k < n && supersedes(#[trigger] installed[k], e) {
            let k = choose|k: int| 0 <= k < n && supersedes(#[trigger] installed[k], e);
            lemma_supersedes_irreflexive(e);
            let m = lemma_newest_among(installed, n - 1, k);
            if installed[m] != installed[k] {
                lemma_supersedes_transitive(installed[m], installed[k], e);
            }
            if supersedes(e, installed[m]) {
                lemma_supersedes_transitive(e, installed[m], e);
            }
            m
        } else {
            n - 1
        }
    } else {
        let m = lemma_newest_among(installed, n - 1, i);
        if supersedes(e, installed[m]) {
            if installed[m] != installed[i] {
                lemma_supersedes_transitive(e, installed[m], installed[i]);
            }
            lemma_supersedes_irreflexive(e);
            assert forall|k: int| 0 <= k < n implies !supersedes(#[trigger] installed[k], e) by {
                if supersedes(installed[k], e) {
                    lemma_supersedes_transitive(installed[k], e, installed[m]);
                }
            }
            n - 1
        } else {
            m
        }
    }
}

/// Every package with an installed artifact keeps one that is not old: the
/// artifact itself or one that supersedes it.
pub proof fn lemma_every_package_keeps_newest(installed: Seq<ArtifactId>, x: ArtifactId)
    requires
        installed.contains(x),
    ensures
        exists|y: ArtifactId|
            #![trigger newest_of(installed).contains(y)]
            newest_of(installed).contains(y) && (y == x || supersedes(y, x)),
{
    let i = choose|i: int| 0 <= i < installed.len() && installed[i] == x;
    let m = lemma_newest_among(installed, installed.len() as int, i);
    let y = installed[m];
    assert(!is_old(installed, y));
    lemma_filter_member(installed, newest_pred(installed), y);
    assert(newest_of(installed).contains(y));
}

/// An installed artifact is not old exactly if no installed version of its
/// package has higher precedence.
pub proof fn lemma_newest_has_greatest_precedence(installed: Seq<ArtifactId>, x: ArtifactId)
    requires
        installed.contains(x),
        x.version is Some,
        parse_version(x.version->0) is Some,
    ensures
        !is_old(installed, x) <==> forall|y: ArtifactId|
            #![trigger installed.contains(y)]
            installed.contains(y) && y.name == x.name && y.kind == x.kind && y.version is Some
                && parse_version(y.version->0) is Some ==> version_order(
                y.version->0,
                x.version->0,
            ) != Some(Precedence::Higher),
{
    let vx = parse_version(x.version->0)->0;
    if is_old(installed, x) {
        let j = choose|j: int| 0 <= j < installed.len() && supersedes(#[trigger] installed[j], x);
        let y = installed[j];
        lemma_precedence_flip(vx, parse_version(y.version->0)->0);
        assert(installed.contains(y));
    } else {
        assert forall|y: ArtifactId|
            #![trigger installed.contains(y)]
            installed.contains(y) && y.name == x.name && y.kind == x.kind && y.version is Some
                && parse_version(y.version->0) is Some implies version_order(
            y.version->0,
            x.version->0,
        ) != Some(Precedence::Higher) by {
            let j = choose|j: int| 0 <= j < installed.len() && installed[j] == y;
            lemma_precedence_flip(vx, parse_version(y.version->0)->0);
            assert(!supersedes(installed[j], x));
        }
    }
}

/// Used and orphan artifacts together are the installed ones, and no
/// artifact is both.
pub proof fn lemma_used_orphan_partition(installed: Seq<ArtifactId>, refs: References)
    ensures
        used_of(installed, refs).to_set().union(orphan_of(installed, refs).to_set())
            == installed.to_set(),
        used_of(installed, refs).to_set().intersect(orphan_of(installed, refs).to_set())
            == Set::<ArtifactId>::empty(),
{
    let used = used_of(installed, refs).to_set();
    let orphan = orphan_of(installed, refs).to_set();
    assert forall|x: ArtifactId|
        (used.union(orphan).contains(x) <==> installed.to_set().contains(x)) && !(used.contains(x)
            && orphan.contains(x)) by {
        lemma_filter_member(installed, used_pred(refs), x);
        lemma_filter_member(installed, orphan_pred(refs), x);
    }
    assert(used.union(orphan) =~= installed.to_set());
    assert(used.intersect(orphan) =~= Set::<ArtifactId>::empty());
}

/// The artifacts that are old and orphan are those that are old and also
/// orphan. Where no project is tracked they are the old ones.
pub proof fn lemma_old_orphan_is_intersection(installed: Seq<ArtifactId>, refs: References)
    ensures
        old_orphan_of(installed, refs).to_set() == old_of(installed).to_set().intersect(
            orphan_of(installed, refs).to_set(),
        ),
        refs.directory_is_empty ==> old_orphan_of(installed, refs) == old_of(installed),
{
    let both = old_orphan_of(installed, refs).to_set();
    let old = old_of(installed).to_set();
    let orphan = orphan_of(installed, refs).to_set();
    assert forall|x: ArtifactId| both.contains(x) <==> old.contains(x) && orphan.contains(x) by {
        lemma_filter_member(installed, old_orphan_pred(installed, refs), x);
        lemma_filter_member(installed, old_pred(installed), x);
        lemma_filter_member(installed, orphan_pred(refs), x);
    }
    assert(both =~= old.intersect(orphan));
    if refs.directory_is_empty {
        lemma_filter_same(installed, old_orphan_pred(installed, refs), old_pred(installed));
    }
}

/// Where no project is tracked every installed artifact is orphan and none
/// is used.
pub proof fn lemma_untracked_all_orphan(installed: Seq<ArtifactId>, refs: References)
    requires
        refs.directory_is_empty,
    ensures
        orphan_of(installed, refs) == installed,
        used_of(installed, refs) == Seq::<ArtifactId>::empty(),
{
    lemma_filter_same(installed, orphan_pred(refs), |x: ArtifactId| true);
    lemma_filter_all(installed);
    lemma_filter_same(installed, used_pred(refs), |x: ArtifactId| false);
    lemma_filter_none(installed);
}

/// Two predicates that agree on the items of a sequence filter it alike.
pub proof fn lemma_filter_same<A>(s: Seq<A>, p: spec_fn(A) -> bool, q: spec_fn(A) -> bool)
    requires
        forall|i: int| 0 <= i < s.len() ==> p(#[trigger] s[i]) == q(s[i]),
    ensures
        s.filter(p) == s.filter(q),
    decreases s.len(),
{
    reveal(Seq::filter);
    if s.len() > 0 {
        assert forall|i: int| 0 <= i < s.drop_last().len() implies p(#[trigger] s.drop_last()[i])
            == q(s.drop_last()[i]) by {
            assert(s.drop_last()[i] == s[i]);
        }
        lemma_filter_same(s.drop_last(), p, q);
        assert(p(s[s.len() - 1]) == q(s[s.len() - 1]));
    }
}

proof fn lemma_filter_all<A>(s: Seq<A>)
    ensures
        s.filter(|x: A| true) == s,
    decreases s.len(),
{
    reveal(Seq::filter);
    if s.len() > 0 {
        lemma_filter_all(s.drop_last());
        assert(s.drop_last().push(s.last()) =~= s);
    }
}

proof fn lemma_filter_none<A>(s: Seq<A>)
    ensures
        s.filter(|x: A| false) == Seq::<A>::empty(),
    decreases s.len(),
{
    reveal(Seq::filter);
    if s.len() > 0 {
        lemma_filter_none(s.drop_last());
    }
}

/// What parsing the version of `a` gave.
spec fn parsed_as(a: ArtifactIdentity, v: Option<Version>) -> bool {
    match v {
        Some(v) => a@.version is Some && parse_version(a@.version->0) == Some(v@),
        None => a@.version is None || parse_version(a@.version->0) is None,
    }
}

fn parsed_versions(list: &Vec<ArtifactIdentity>) -> (r: Vec<Option<Version>>)
    ensures
        r@.len() == list@.len(),
        forall|i: int| 0 <= i < list@.len() ==> parsed_as(#[trigger] list@[i], r@[i]),
{
    let mut out: Vec<Option<Version>> = Vec::new();
    let mut i: usize = 0;
    while i < list.len()
        invariant
            i <= list.len(),
            out@.len() == i,
            forall|k: int| 0 <= k < i ==> parsed_as(#[trigger] list@[k], out@[k]),
        decreases list.len() - i,
    {
        let v = match &list[i].version {
            Some(text) => Version::parse(text.as_str()),
            None => None,
        };
        out.push(v);
        i += 1;
    }
    out
}

fn old_flags(list: &Vec<ArtifactIdentity>) -> (r: Vec<bool>)
    ensures
        r@.len() == list@.len(),
        forall|i: int| 0 <= i < list@.len() ==> r@[i] == is_old(ids(list@), #[trigger] ids(list@)[i]),
{
    let parsed = parsed_versions(list);
    let mut out: Vec<bool> = Vec::new();
    let mut i: usize = 0;
    while i < list.len()
        invariant
            i <= list.len(),
            out@.len() == i,
            parsed@.len() == list@.len(),
            forall|k: int| 0 <= k < list@.len() ==> parsed_as(#[trigger] list@[k], parsed@[k]),
            forall|k: int| 0 <= k < i ==> out@[k] == is_old(ids(list@), #[trigger] ids(list@)[k]),
        decreases list.len() - i,
    {
        let mut found = false;
        let mut j: usize = 0;
        while j < list.len() && !found
            invariant
                i < list.len(),
                j <= list.len(),
                parsed@.len() == list@.len(),
                forall|k: int| 0 <= k < list@.len() ==> parsed_as(#[trigger] list@[k], parsed@[k]),
                found ==> is_old(ids(list@), ids(list@)[i as int]),
                !found ==> forall|k: int|
                    0 <= k < j ==> !supersedes(#[trigger] ids(list@)[k], ids(list@)[i as int]),
            decreases list.len() - j + (if found { 0int } else { 1int }),
        {
            assert(parsed_as(list@[i as int], parsed@[i as int]));
            assert(parsed_as(list@[j as int], parsed@[j as int]));
            let newer = match (&parsed[i], &parsed[j]) {
                (Some(mine), Some(other)) => match mine.precedence(other) {
                    Precedence::Lower => true,
                    _ => false,
                },
                _ => false,
            };
            if newer && list[j].kind == list[i].kind && list[j].name == list[i].name {
                assert(supersedes(ids(list@)[j as int], ids(list@)[i as int]));
                found = true;
            } else {
                assert(!supersedes(ids(list@)[j as int], ids(list@)[i as int]));
                j += 1;
            }
        }
        out.push(found);
        i += 1;
    }
    out
}

fn used_flags(list: &Vec<ArtifactIdentity>, references: &ReferenceSet) -> (r: Vec<bool>)
    ensures
        r@.len() == list@.len(),
        forall|i: int|
            0 <= i < list@.len() ==> r@[i] == references@.mentions(
                (#[trigger] ids(list@)[i]).name,
                ids(list@)[i].kind,
            ),
{
    let mut out: Vec<bool> = Vec::new();
    let mut i: usize = 0;
    while i < list.len()
        invariant
            i <= list.len(),
            out@.len() == i,
            forall|k: int|
                0 <= k < i ==> out@[k] == references@.mentions(
                    (#[trigger] ids(list@)[k]).name,
                    ids(list@)[k].kind,
                ),
        decreases list.len() - i,
    {
        out.push(references.mentions(&list[i].name, list[i].kind));
        i += 1;
    }
    out
}

/// The items of `list` whose flag is set.
fn select(list: &Vec<ArtifactIdentity>, flags: &Vec<bool>, Ghost(p): Ghost<
    spec_fn(ArtifactId) -> bool,
>) -> (r: Vec<ArtifactIdentity>)
    requires
        flags@.len() == list@.len(),
        forall|i: int| 0 <= i < list@.len() ==> flags@[i] == p(#[trigger] ids(list@)[i]),
    ensures
        ids(r@) == ids(list@).filter(p),
{
    let mut out: Vec<ArtifactIdentity> = Vec::new();
    let mut i: usize = 0;
    assert(ids(list@).take(0) =~= Seq::<ArtifactId>::empty());
    assert(ids(out@) =~= Seq::<ArtifactId>::empty());
    proof {
        reveal(Seq::filter);
    }
    while i < list.len()
        invariant
            i <= list.len(),
            flags@.len() == list@.len(),
            forall|k: int| 0 <= k < list@.len() ==> flags@[k] == p(#[trigger] ids(list@)[k]),
            ids(out@) == ids(list@).take(i as int).filter(p),
        decreases list.len() - i,
    {
        let ghost done = ids(list@).take(i as int);
        let ghost x = ids(list@)[i as int];
        proof {
            assert(ids(list@).take(i + 1) =~= done.push(x));
            done.lemma_filter_push(x, p);
        }
        if flags[i] {
            let ghost before = ids(out@);
            out.push(list[i].duplicate());
            assert(ids(out@) =~= before.push(x));
        }
        i += 1;
    }
    assert(ids(list@).take(i as int) =~= ids(list@));
    out
}

/// The artifacts of `kind` among `found`, each once.
fn unique_of_kind(found: &Vec<ArtifactIdentity>, kind: SourceKind) -> (r: Vec<ArtifactIdentity>)
    ensures
        ids(r@) == installed_of(ids(found@), kind),
        ids(r@).no_duplicates(),
{
    let mut out: Vec<ArtifactIdentity> = Vec::new();
    let mut i: usize = 0;
    assert(ids(found@).take(0) =~= Seq::<ArtifactId>::empty());
    assert(ids(out@) =~= Seq::<ArtifactId>::empty());
    proof {
        reveal(Seq::filter);
    }
    while i < found.len()
        invariant
            i <= found.len(),
            ids(out@) == installed_of(ids(found@).take(i as int), kind),
        decreases found.len() - i,
    {
        let ghost done = ids(found@).take(i as int);
        let ghost x = ids(found@)[i as int];
        proof {
            assert(ids(found@).take(i + 1) =~= done.push(x));
            done.lemma_filter_push(x, kind_pred(kind));
            assert(done.filter(kind_pred(kind)).push(x).drop_last() =~= done.filter(
                kind_pred(kind),
            ));
        }
        if found[i].kind == kind {
            match position_of(&out, &found[i]) {
                Some(_) => {
                    assert(ids(out@).contains(x)) by {
                        let k = choose|k: int| 0 <= k < out@.len() && out@[k]@ == x;
                        assert(ids(out@)[k] == x);
                    }
                },
                None => {
                    let ghost before = ids(out@);
                    out.push(found[i].duplicate());
                    assert(ids(out@) =~= before.push(x));
                },
            }
        }
        i += 1;
    }
    assert(ids(found@).take(i as int) =~= ids(found@));
    proof {
        lemma_distinct_no_duplicates(ids(found@).filter(kind_pred(kind)));
    }
    out
}

/// What is installed in both caches and what the tracked projects
/// reference: all that the classes are computed from.
pub struct CrateList {
    installed_registry: Vec<ArtifactIdentity>,
    installed_git: Vec<ArtifactIdentity>,
    references: ReferenceSet,
}

impl CrateList {
    #[verifier::type_invariant]
    spec fn well_formed(&self) -> bool {
        &&& ids(self.installed_registry@).no_duplicates()
        &&& ids(self.installed_git@).no_duplicates()
    }

    /// The installed artifacts of `kind`, each once, in the order found.
    pub closed spec fn installed(&self, kind: SourceKind) -> Seq<ArtifactId> {
        match kind {
            SourceKind::Registry => ids(self.installed_registry@),
            SourceKind::Git => ids(self.installed_git@),
        }
    }

    /// What the tracked projects reference.
    pub closed spec fn references(&self) -> References {
        self.references@
    }

    /// Takes what the scans of the two caches found and what the tracked
    /// projects reference. An artifact found more than once is installed
    /// once; an artifact of one cache found in the scan of the other is left
    /// out.
    pub fn create_list(
        registry: &Vec<ArtifactIdentity>,
        git: &Vec<ArtifactIdentity>,
        references: ReferenceSet,
    ) -> (r: CrateList)
        ensures
            r.installed(SourceKind::Registry) == installed_of(ids(registry@), SourceKind::Registry),
            r.installed(SourceKind::Git) == installed_of(ids(git@), SourceKind::Git),
            r.references() == references@,
    {
        CrateList {
            installed_registry: unique_of_kind(registry, SourceKind::Registry),
            installed_git: unique_of_kind(git, SourceKind::Git),
            references,
        }
    }

    /// Whether no project is tracked, so that every installed artifact is
    /// classed as orphan.
    pub fn directory_is_empty(&self) -> (r: bool)
        ensures
            r == self.references().directory_is_empty,
    {
        self.references.directory_is_empty()
    }

    /// Number of tracked projects whose lock file could not be read.
    pub fn skipped_projects(&self) -> (r: usize)
        ensures
            r == self.references().skipped,
    {
        self.references.skipped()
    }

    /// The artifacts installed in the registry cache.
    pub fn installed_registry(&self) -> (r: &Vec<ArtifactIdentity>)
        ensures
            ids(r@) == self.installed(SourceKind::Registry),
            ids(r@).no_duplicates(),
    {
        proof {
            use_type_invariant(self);
        }
        &self.installed_registry
    }

    /// The artifacts installed in the git cache.
    pub fn installed_git(&self) -> (r: &Vec<ArtifactIdentity>)
        ensures
            ids(r@) == self.installed(SourceKind::Git),
            ids(r@).no_duplicates(),
    {
        proof {
            use_type_invariant(self);
        }
        &self.installed_git
    }

    /// The registry artifacts that a later installed version supersedes.
    pub fn old_registry(&self) -> (r: Vec<ArtifactIdentity>)
        ensures
            ids(r@) == old_of(self.installed(SourceKind::Registry)),
    {
        let flags = old_flags(&self.installed_registry);
        select(&self.installed_registry, &flags, Ghost(old_pred(ids(self.installed_registry@))))
    }

    /// The git artifacts that a later installed version supersedes.
    pub fn old_git(&self) -> (r: Vec<ArtifactIdentity>)
        ensures
            ids(r@) == old_of(self.installed(SourceKind::Git)),
    {
        let flags = old_flags(&self.installed_git);
        select(&self.installed_git, &flags, Ghost(old_pred(ids(self.installed_git@))))
    }

    /// The registry artifacts whose package a tracked project references.
    pub fn used_registry(&self) -> (r: Vec<ArtifactIdentity>)
        ensures
            ids(r@) == used_of(self.installed(SourceKind::Registry), self.references()),
    {
        let flags = used_flags(&self.installed_registry, &self.references);
        select(&self.installed_registry, &flags, Ghost(used_pred(self.references@)))
    }

    /// The git artifacts whose package a tracked project references.
    pub fn used_git(&self) -> (r: Vec<ArtifactIdentity>)
        ensures
            ids(r@) == used_of(self.installed(SourceKind::Git), self.references()),
    {
        let flags = used_flags(&self.installed_git, &self.references);
        select(&self.installed_git, &flags, Ghost(used_pred(self.references@)))
    }

    /// The registry artifacts whose package no tracked project references.
    pub fn orphan_registry(&self) -> (r: Vec<ArtifactIdentity>)
        ensures
            ids(r@) == orphan_of(self.installed(SourceKind::Registry), self.references()),
    {
        let used = used_flags(&self.installed_registry, &self.references);
        let flags = negated(&used);
        select(&self.installed_registry, &flags, Ghost(orphan_pred(self.references@)))
    }

    /// The git artifacts whose package no tracked project references.
    pub fn orphan_git(&self) -> (r: Vec<ArtifactIdentity>)
        ensures
            ids(r@) == orphan_of(self.installed(SourceKind::Git), self.references()),
    {
        let used = used_flags(&self.installed_git, &self.references);
        let flags = negated(&used);
        select(&self.installed_git, &flags, Ghost(orphan_pred(self.references@)))
    }

    /// The registry artifacts that are old and orphan.
    pub fn list_old_orphan_registry(&self) -> (r: Vec<ArtifactIdentity>)
        ensures
            ids(r@) == old_orphan_of(self.installed(SourceKind::Registry), self.references()),
    {
        let old = old_flags(&self.installed_registry);
        let used = used_flags(&self.installed_registry, &self.references);
        let flags = first_without_second(&old, &used);
        select(
            &self.installed_registry,
            &flags,
            Ghost(old_orphan_pred(ids(self.installed_registry@), self.references@)),
        )
    }

    /// The git artifacts that are old and orphan.
    pub fn list_old_orphan_git(&self) -> (r: Vec<ArtifactIdentity>)
        ensures
            ids(r@) == old_orphan_of(self.installed(SourceKind::Git), self.references()),
    {
        let old = old_flags(&self.installed_git);
        let used = used_flags(&self.installed_git, &self.references);
        let flags = first_without_second(&old, &used);
        select(
            &self.installed_git,
            &flags,
            Ghost(old_orphan_pred(ids(self.installed_git@), self.references@)),
        )
    }
}

fn negated(flags: &Vec<bool>) -> (r: Vec<bool>)
    ensures
        r@.len() == flags@.len(),
        forall|i: int| 0 <= i < flags@.len() ==> r@[i] == !flags@[i],
{
    let mut out: Vec<bool> = Vec::new();
    let mut i: usize = 0;
    while i < flags.len()
        invariant
            i <= flags.len(),
            out@.len() == i,
            forall|k: int| 0 <= k < i ==> out@[k] == !flags@[k],
        decreases flags.len() - i,
    {
        out.push(!flags[i]);
        i += 1;
    }
    out
}

fn first_without_second(a: &Vec<bool>, b: &Vec<bool>) -> (r: Vec<bool>)
    requires
        a@.len() == b@.len(),
    ensures
        r@.len() == a@.len(),
        forall|i: int| 0 <= i < a@.len() ==> r@[i] == (a@[i] && !b@[i]),
{
    let mut out: Vec<bool> = Vec::new();
    let mut i: usize = 0;
    while i < a.len()
        invariant
            i <= a.len(),
            a@.len() == b@.len(),
            out@.len() == i,
            forall|k: int| 0 <= k < i ==> out@[k] == (a@[k] && !b@[k]),
        decreases a.len() - i,
    {
        out.push(a[i] && !b[i]);
        i += 1;
    }
    out
}

} // verus!
